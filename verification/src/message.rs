//! The commit message: its comment lines, its body, and the issue key in
//! front of it.

use crate::lines::{
    first_line_len, has_no_crlf, has_open_end, is_one_line, join_lines, lemma_first_line_len_is,
    lemma_join_push, lemma_join_split_iff, lemma_lines_are_one_line, lemma_lines_behind,
    lemma_split_join, split_lines, without_cr,
};
use crate::text::{
    char_is_whitespace, chars_of, contains_text, is_whitespace, occurs_at, occurs_in,
};
use vstd::prelude::*;
use vstd::string::StrSliceExecFns;
use vstd::string::StringExecFns;

verus! {

/// A comment line: its first character that is no white space is `#`.
pub open spec fn is_comment_line(line: Seq<char>) -> bool {
    exists|i: int|
        0 <= i < line.len() && #[trigger] line[i] == '#' && forall|j: int|
            0 <= j < i ==> is_whitespace(#[trigger] line[j])
}

/// The test by which a line stays in the body: it is no comment line.
pub open spec fn stays() -> spec_fn(Seq<char>) -> bool {
    |line: Seq<char>| !is_comment_line(line)
}

/// The lines of `text` that are no comment lines, in their order.
pub open spec fn body_lines(text: Seq<char>) -> Seq<Seq<char>> {
    split_lines(text).filter(stays())
}

/// The body of the message `text`: its lines but the comment lines, joined by
/// line feeds.
pub open spec fn without_comments(text: Seq<char>) -> Seq<char> {
    join_lines(body_lines(text))
}

/// `key` in square brackets, and a space.
pub open spec fn key_tag(key: Seq<char>) -> Seq<char> {
    seq!['['] + key + seq![']', ' ']
}

/// `body` with `key` in front of it, unless `key` stands in it already.
pub open spec fn with_key(body: Seq<char>, key: Seq<char>) -> Seq<char> {
    if occurs_in(key, body) {
        body
    } else {
        key_tag(key) + body
    }
}

/// A message body with its issue key, and whether the key had to be put there.
pub struct Prepended {
    /// The message that carries the key.
    pub message: String,
    /// Whether the body held the key already, so that it was left as it was.
    pub already_present: bool,
}

/// The index of the first line feed of `chars` at or after `from`; the length
/// of `chars`, if there is none.
fn line_feed_from(chars: &Vec<char>, from: usize) -> (at: usize)
    requires
        from <= chars.len(),
    ensures
        from <= at <= chars.len(),
        at - from == first_line_len(chars@.skip(from as int)),
{
    let mut at: usize = from;
    while at < chars.len() && chars[at] != '\n'
        invariant
            from <= at <= chars.len(),
            forall|i: int| from <= i < at ==> chars@[i] != '\n',
        decreases chars.len() - at,
    {
        at += 1;
    }
    proof {
        lemma_first_line_len_is(chars@.skip(from as int), at - from);
    }
    at
}

/// Whether the characters of `chars` from `from` up to `to` are a comment
/// line.
fn is_comment(chars: &Vec<char>, from: usize, to: usize) -> (b: bool)
    requires
        from <= to <= chars.len(),
    ensures
        b == is_comment_line(chars@.subrange(from as int, to as int)),
{
    let ghost line = chars@.subrange(from as int, to as int);
    let mut i: usize = from;
    while i < to && char_is_whitespace(chars[i])
        invariant
            from <= i <= to <= chars.len(),
            forall|j: int| from <= j < i ==> is_whitespace(chars@[j]),
        decreases to - i,
    {
        i += 1;
    }
    let b = i < to && chars[i] == '#';
    proof {
        if b {
            assert(line[i - from] == '#');
        } else {
            assert forall|w: int|
                0 <= w < line.len() && #[trigger] line[w] == '#' implies !(forall|j: int|
                0 <= j < w ==> is_whitespace(#[trigger] line[j])) by {
                if w >= i - from {
                    assert(!is_whitespace(line[i - from]));
                }
            }
        }
    }
    b
}

/// The body of the commit message `commit_message_raw`: every line of it
/// that is no comment line, in the order in which they stand, with one line
/// feed between each two of them.
pub fn get_commit_message_without_comments(commit_message_raw: String) -> (body: String)
    ensures
        body@ == without_comments(commit_message_raw@),
{
    let raw = commit_message_raw.as_str();
    let chars = chars_of(raw);
    let n = chars.len();
    let mut body = String::new();
    let mut none_yet = true;
    let mut pos: usize = 0;
    let ghost mut done: Seq<Seq<char>> = Seq::empty();
    proof {
        reveal_strlit("\n");
        assert(chars@.skip(0) =~= chars@);
    }
    while pos < n
        invariant
            chars@ == raw@,
            n == chars.len(),
            pos <= n,
            "\n"@ == seq!['\n'],
            split_lines(chars@) == done + split_lines(chars@.skip(pos as int)),
            body@ == join_lines(done.filter(stays())),
            none_yet == (done.filter(stays()).len() == 0),
        decreases n - pos,
    {
        let end = line_feed_from(&chars, pos);
        let stop = if end < n && pos < end && chars[end - 1] == '\r' {
            end - 1
        } else {
            end
        };
        let next = if end < n {
            end + 1
        } else {
            n
        };
        let ghost line = chars@.subrange(pos as int, stop as int);
        proof {
            let rest = chars@.skip(pos as int);
            if end < n {
                assert(without_cr(rest.take(end - pos)) =~= line);
                assert(rest.skip(end - pos + 1) =~= chars@.skip(next as int));
            } else {
                assert(rest =~= line);
            }
            assert(split_lines(rest) =~= seq![line] + split_lines(chars@.skip(next as int)));
            assert(done + split_lines(rest) =~= done.push(line) + split_lines(
                chars@.skip(next as int),
            ));
            done.lemma_filter_push(line, stays());
            lemma_join_push(done.filter(stays()), line);
        }
        if !is_comment(&chars, pos, stop) {
            if !none_yet {
                body.append("\n");
            }
            body.append(raw.substring_char(pos, stop));
            none_yet = false;
        }
        proof {
            done = done.push(line);
        }
        pos = next;
    }
    body
}

/// Puts `key`, in square brackets and followed by a space, in front of
/// `body`, unless `key` stands somewhere in `body` already: then `body` is
/// handed back as it is, and the result says so.
pub fn prepend_key(body: String, key: &str) -> (out: Prepended)
    ensures
        out.message@ == with_key(body@, key@),
        out.already_present == occurs_in(key@, body@),
{
    if contains_text(body.as_str(), key) {
        return Prepended { message: body, already_present: true };
    }
    proof {
        reveal_strlit("[");
        reveal_strlit("] ");
    }
    let mut message = String::from_str("[");
    message.append(key);
    message.append("] ");
    message.append(body.as_str());
    assert(message@ =~= key_tag(key@) + body@);
    Prepended { message, already_present: false }
}

/// The commit message to store for the draft `commit_message_file` on a
/// branch with the issue key `issue_key`: the body of the draft, with the key
/// in front of it unless the body holds the key already.
pub fn add_jira_key_to_commit_message(commit_message_file: String, issue_key: String) -> (message:
    String)
    ensures
        message@ == with_key(without_comments(commit_message_file@), issue_key@),
{
    let body = get_commit_message_without_comments(commit_message_file);
    prepend_key(body, issue_key.as_str()).message
}

/// `text` has no comment line.
pub open spec fn has_no_comment_line(text: Seq<char>) -> bool {
    forall|k: int|
        0 <= k < split_lines(text).len() ==> !is_comment_line(#[trigger] split_lines(text)[k])
}

/// A carriage return at the end of a line does not decide whether the line is
/// a comment line.
pub proof fn lemma_comment_line_without_cr(line: Seq<char>)
    ensures
        is_comment_line(without_cr(line)) == is_comment_line(line),
{
    let short = without_cr(line);
    if is_comment_line(line) {
        let i = choose|i: int|
            0 <= i < line.len() && #[trigger] line[i] == '#' && forall|j: int|
                0 <= j < i ==> is_whitespace(#[trigger] line[j]);
        assert(short[i] == '#');
    }
    if is_comment_line(short) {
        let i = choose|i: int|
            0 <= i < short.len() && #[trigger] short[i] == '#' && forall|j: int|
                0 <= j < i ==> is_whitespace(#[trigger] short[j]);
        assert forall|j: int| 0 <= j < i implies is_whitespace(#[trigger] line[j]) by {
            assert(short[j] == line[j]);
        }
    }
}

/// The lines of the body are lines of the message, and none of them is a
/// comment line.
pub proof fn lemma_body_lines(text: Seq<char>)
    ensures
        forall|k: int|
            0 <= k < body_lines(text).len() ==> {
                &&& !is_comment_line(#[trigger] body_lines(text)[k])
                &&& split_lines(text).contains(body_lines(text)[k])
                &&& is_one_line(body_lines(text)[k])
            },
{
    let all = split_lines(text);
    let kept = body_lines(text);
    lemma_lines_are_one_line(text);
    assert forall|k: int| 0 <= k < kept.len() implies !is_comment_line(#[trigger] kept[k])
        && all.contains(kept[k]) && is_one_line(kept[k]) by {
        all.lemma_filter_pred(stays(), k);
        all.lemma_filter_contains_rev(stays(), kept[k]);
    }
}

/// Filtering lines of which none is a comment line keeps them all.
proof fn lemma_all_stay(lines: Seq<Seq<char>>)
    requires
        forall|k: int| 0 <= k < lines.len() ==> !is_comment_line(#[trigger] lines[k]),
    ensures
        lines.filter(stays()) == lines,
    decreases lines.len(),
{
    if lines.len() == 0 {
        reveal(Seq::filter);
    } else {
        let front = lines.drop_last();
        lemma_all_stay(front);
        front.lemma_filter_push(lines.last(), stays());
        assert(front.push(lines.last()) =~= lines);
    }
}

/// The body of a message has no comment line.
pub proof fn lemma_body_has_no_comment_line(text: Seq<char>)
    ensures
        has_no_comment_line(without_comments(text)),
{
    let kept = body_lines(text);
    let again = split_lines(without_comments(text));
    lemma_body_lines(text);
    lemma_split_join(kept);
    assert forall|k: int| 0 <= k < again.len() implies !is_comment_line(#[trigger] again[k]) by {
        lemma_comment_line_without_cr(kept[k]);
    }
}

/// A message without comment lines is its own body if and only if it has no
/// carriage return before a line feed and does not end in a line feed: line
/// endings are not kept, the body has one line feed between each two lines
/// and none at its end. White space at the end of a line is kept.
pub proof fn lemma_body_of_message_without_comments(text: Seq<char>)
    requires
        has_no_comment_line(text),
    ensures
        without_comments(text) == text <==> has_no_crlf(text) && has_open_end(text),
{
    lemma_all_stay(split_lines(text));
    lemma_join_split_iff(text);
}

/// Taking the body of a body changes nothing if and only if the body has no
/// carriage return before a line feed and does not end in a line feed.
pub proof fn lemma_body_of_body(text: Seq<char>)
    ensures
        without_comments(without_comments(text)) == without_comments(text) <==> has_no_crlf(
            without_comments(text),
        ) && has_open_end(without_comments(text)),
{
    lemma_body_has_no_comment_line(text);
    lemma_body_of_message_without_comments(without_comments(text));
}

/// Once the key is in front of a body, putting it there again changes
/// nothing.
pub proof fn lemma_key_twice(body: Seq<char>, key: Seq<char>)
    ensures
        occurs_in(key, with_key(body, key)),
        with_key(with_key(body, key), key) == with_key(body, key),
{
    if !occurs_in(key, body) {
        let tagged = key_tag(key) + body;
        assert(tagged.subrange(1, 1 + key.len() as int) =~= key);
        assert(occurs_at(key, tagged, 1));
    }
}

/// With a key of one line, the message that carries the key has no comment
/// line, whatever the draft held.
pub proof fn lemma_message_has_no_comment_line(text: Seq<char>, key: Seq<char>)
    requires
        is_one_line(key),
    ensures
        has_no_comment_line(with_key(without_comments(text), key)),
{
    let body = without_comments(text);
    lemma_body_has_no_comment_line(text);
    if !occurs_in(key, body) {
        let tag = key_tag(key);
        let lines = split_lines(tag + body);
        assert forall|i: int| 0 <= i < tag.len() implies #[trigger] tag[i] != '\n' by {
            if 1 <= i <= key.len() {
                assert(tag[i] == key[i - 1]);
            }
        }
        lemma_lines_behind(tag, body);
        assert(lines[0][0] == '[');
    }
}

} // verus!
