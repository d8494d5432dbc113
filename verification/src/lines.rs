//! Lines of a text: how a text falls into lines and how lines make a text.
//!
//! A line ends at a line feed; a carriage return directly before that line
//! feed belongs to the line ending, as the line feed does. The last line may
//! end with the text instead. So a text that ends in a line feed has the same
//! lines as the text without it, and the empty text has no line.

use vstd::prelude::*;

verus! {

/// The number of characters of `text` before its first line feed; the length
/// of `text`, if it has none.
pub open spec fn first_line_len(text: Seq<char>) -> nat
    decreases text.len(),
{
    if text.len() == 0 || text[0] == '\n' {
        0
    } else {
        1 + first_line_len(text.skip(1))
    }
}

/// `line` without the carriage return at its end, if it has one there.
pub open spec fn without_cr(line: Seq<char>) -> Seq<char> {
    if line.len() > 0 && line.last() == '\r' {
        line.drop_last()
    } else {
        line
    }
}

/// The lines of `text`, without their line endings.
pub open spec fn split_lines(text: Seq<char>) -> Seq<Seq<char>>
    decreases text.len(),
{
    let n = first_line_len(text) as int;
    if text.len() == 0 {
        Seq::empty()
    } else if n >= text.len() {
        seq![text]
    } else {
        seq![without_cr(text.take(n))] + split_lines(text.skip(n + 1))
    }
}

/// The text made of `lines`, with one line feed between each two of them and
/// none after the last.
pub open spec fn join_lines(lines: Seq<Seq<char>>) -> Seq<char>
    decreases lines.len(),
{
    if lines.len() == 0 {
        Seq::empty()
    } else if lines.len() == 1 {
        lines[0]
    } else {
        lines[0] + seq!['\n'] + join_lines(lines.drop_first())
    }
}

/// `text` holds no line feed.
pub open spec fn is_one_line(text: Seq<char>) -> bool {
    forall|i: int| 0 <= i < text.len() ==> #[trigger] text[i] != '\n'
}

/// `text` holds no carriage return directly before a line feed.
pub open spec fn has_no_crlf(text: Seq<char>) -> bool {
    forall|i: int|
        0 <= i && i + 1 < text.len() && #[trigger] text[i] == '\r' ==> text[i + 1] != '\n'
}

/// `text` does not end in a line feed.
pub open spec fn has_open_end(text: Seq<char>) -> bool {
    text.len() > 0 ==> text.last() != '\n'
}

/// What [`first_line_len`] is: the index of the first line feed, or the length.
pub proof fn lemma_first_line_len(text: Seq<char>)
    ensures
        first_line_len(text) <= text.len(),
        is_one_line(text.take(first_line_len(text) as int)),
        first_line_len(text) < text.len() ==> text[first_line_len(text) as int] == '\n',
    decreases text.len(),
{
    if text.len() > 0 && text[0] != '\n' {
        let rest = text.skip(1);
        lemma_first_line_len(rest);
        let n = first_line_len(text) as int;
        assert forall|i: int| 0 <= i < text.take(n).len() implies #[trigger] text.take(n)[i]
            != '\n' by {
            if i > 0 {
                assert(rest.take(n - 1)[i - 1] == text[i]);
            }
        }
    }
}

/// The first line feed of `text` is where the first one is found.
pub proof fn lemma_first_line_len_is(text: Seq<char>, n: int)
    requires
        0 <= n <= text.len(),
        is_one_line(text.take(n)),
        n < text.len() ==> text[n] == '\n',
    ensures
        first_line_len(text) == n,
{
    lemma_first_line_len(text);
    let m = first_line_len(text) as int;
    if m < n {
        assert(text.take(n)[m] == '\n');
    }
    if n < m {
        assert(text.take(m)[n] == '\n');
    }
}

/// Joining one line more: it goes behind a line feed, unless it is the first.
pub proof fn lemma_join_push(lines: Seq<Seq<char>>, line: Seq<char>)
    ensures
        join_lines(lines.push(line)) == if lines.len() == 0 {
            line
        } else {
            join_lines(lines) + seq!['\n'] + line
        },
    decreases lines.len(),
{
    if lines.len() > 0 {
        assert(lines.push(line).drop_first() =~= lines.drop_first().push(line));
        lemma_join_push(lines.drop_first(), line);
    }
}

/// No line holds a line feed.
pub proof fn lemma_lines_are_one_line(text: Seq<char>)
    ensures
        forall|k: int|
            0 <= k < split_lines(text).len() ==> is_one_line(#[trigger] split_lines(text)[k]),
    decreases text.len(),
{
    lemma_first_line_len(text);
    let n = first_line_len(text) as int;
    if text.len() == 0 {
    } else if n >= text.len() {
        assert(text.take(n) =~= text);
    } else {
        let rest = text.skip(n + 1);
        lemma_lines_are_one_line(rest);
        assert(is_one_line(without_cr(text.take(n))));
        let lines = split_lines(text);
        assert forall|k: int| 0 <= k < lines.len() implies is_one_line(#[trigger] lines[k]) by {
            if k > 0 {
                assert(lines[k] == split_lines(rest)[k - 1]);
            }
        }
    }
}

/// Only the empty text has no line.
pub proof fn lemma_no_line_iff_empty(text: Seq<char>)
    ensures
        split_lines(text).len() == 0 <==> text.len() == 0,
{
}

/// A text that has no carriage return before a line feed and does not end in
/// a line feed is its lines joined.
pub proof fn lemma_join_split(text: Seq<char>)
    requires
        has_no_crlf(text),
        has_open_end(text),
    ensures
        join_lines(split_lines(text)) == text,
    decreases text.len(),
{
    lemma_first_line_len(text);
    let n = first_line_len(text) as int;
    if text.len() == 0 {
    } else if n >= text.len() {
    } else {
        let head = text.take(n);
        let rest = text.skip(n + 1);
        assert(without_cr(head) == head);
        assert(rest.len() > 0);
        assert(has_no_crlf(rest));
        assert(has_open_end(rest));
        lemma_join_split(rest);
        lemma_no_line_iff_empty(rest);
        assert(split_lines(text).drop_first() =~= split_lines(rest));
    }
}

/// Lines that are joined and split again come back in their order, each as it
/// was or without a carriage return at its end; an empty last line is lost.
pub proof fn lemma_split_join(lines: Seq<Seq<char>>)
    requires
        forall|k: int| 0 <= k < lines.len() ==> is_one_line(#[trigger] lines[k]),
    ensures
        split_lines(join_lines(lines)).len() <= lines.len(),
        forall|k: int|
            0 <= k < split_lines(join_lines(lines)).len() ==> {
                ||| #[trigger] split_lines(join_lines(lines))[k] == lines[k]
                ||| split_lines(join_lines(lines))[k] == without_cr(lines[k])
            },
    decreases lines.len(),
{
    let text = join_lines(lines);
    if lines.len() == 0 {
    } else if lines.len() == 1 {
        lemma_first_line_len_is(text, text.len() as int);
    } else {
        let head = lines[0];
        let tail = lines.drop_first();
        let n = head.len() as int;
        lemma_first_line_len_is(text, n);
        assert(text.skip(n + 1) =~= join_lines(tail));
        lemma_split_join(tail);
        let out = split_lines(text);
        assert forall|k: int| 0 <= k < out.len() implies (#[trigger] out[k] == lines[k] || out[k]
            == without_cr(lines[k])) by {}
    }
}

/// Text put in front of the first line changes the first line only: the first
/// line then begins as that text does, and the later lines are the same.
pub proof fn lemma_lines_behind(front: Seq<char>, text: Seq<char>)
    requires
        is_one_line(front),
        front.len() >= 2,
    ensures
        split_lines(front + text).len() >= 1,
        split_lines(front + text)[0].len() >= 1,
        split_lines(front + text)[0][0] == front[0],
        forall|k: int|
            1 <= k < split_lines(front + text).len() ==> k < split_lines(text).len()
                && #[trigger] split_lines(front + text)[k] == split_lines(text)[k],
{
    let whole = front + text;
    let m = first_line_len(text) as int;
    let n = front.len() + m;
    lemma_first_line_len(text);
    assert(is_one_line(whole.take(n))) by {
        assert forall|i: int| 0 <= i < n implies #[trigger] whole.take(n)[i] != '\n' by {
            if i >= front.len() {
                assert(whole[i] == text.take(m)[i - front.len()]);
            }
        }
    }
    lemma_first_line_len_is(whole, n);
    if n < whole.len() {
        assert(whole.skip(n + 1) =~= text.skip(m + 1));
        let out = split_lines(whole);
        assert forall|k: int| 1 <= k < out.len() implies k < split_lines(text).len()
            && #[trigger] out[k] == split_lines(text)[k] by {}
    }
}

/// Splitting and joining never makes a text longer, and it keeps the length
/// only of a text that has no carriage return before a line feed and does not
/// end in a line feed.
pub proof fn lemma_join_split_len(text: Seq<char>)
    ensures
        join_lines(split_lines(text)).len() <= text.len(),
        join_lines(split_lines(text)).len() == text.len() ==> has_no_crlf(text) && has_open_end(
            text,
        ),
    decreases text.len(),
{
    lemma_first_line_len(text);
    let n = first_line_len(text) as int;
    if text.len() == 0 {
    } else if n >= text.len() {
        assert(text.take(n) =~= text);
    } else {
        let head = text.take(n);
        let rest = text.skip(n + 1);
        let lines = split_lines(text);
        lemma_join_split_len(rest);
        lemma_no_line_iff_empty(rest);
        assert(lines.drop_first() =~= split_lines(rest));
        if join_lines(lines).len() == text.len() {
            assert(has_open_end(text));
            assert forall|i: int| 0 <= i && i + 1 < text.len() && #[trigger] text[i]
                == '\r' implies text[i + 1] != '\n' by {
                if i + 1 < n {
                    assert(head[i + 1] != '\n');
                } else if i > n {
                    assert(rest[i - n - 1] == '\r');
                }
            }
        }
    }
}

/// A text is its lines joined if and only if it has no carriage return
/// before a line feed and does not end in a line feed.
pub proof fn lemma_join_split_iff(text: Seq<char>)
    ensures
        join_lines(split_lines(text)) == text <==> has_no_crlf(text) && has_open_end(text),
{
    lemma_join_split_len(text);
    if has_no_crlf(text) && has_open_end(text) {
        lemma_join_split(text);
    }
}

} // verus!
