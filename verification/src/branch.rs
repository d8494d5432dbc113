//! The branch naming convention, and the issue key that a branch name carries.
//!
//! A tracked branch is named `feature/<KEY>-<text>` or `bugfix/<KEY>-<text>`,
//! where `<KEY>` is one or more ASCII letters, a hyphen, and one or more ASCII
//! digits, and `<text>` is any text on one line (it may be empty).

use vstd::prelude::*;

verus! {

/// The convention as a regular expression. Capture group 2 is the issue key.
pub const BRANCH_PATTERN: &'static str = "^(feature|bugfix)/([A-Za-z]+-[0-9]+)-.*$";

/// The capture group of [`BRANCH_PATTERN`] that holds the issue key.
pub const KEY_GROUP: usize = 2;

/// An ASCII letter, of either case.
pub open spec fn is_letter(c: char) -> bool {
    ('a' <= c <= 'z') || ('A' <= c <= 'Z')
}

/// An ASCII decimal digit.
pub open spec fn is_digit(c: char) -> bool {
    '0' <= c <= '9'
}

/// `branch` begins with one of the two tracked prefixes, and that prefix,
/// slash included, is `start` characters long.
pub open spec fn has_tracked_prefix(branch: Seq<char>, start: int) -> bool {
    ||| start == 8 && "feature/"@.is_prefix_of(branch)
    ||| start == 7 && "bugfix/"@.is_prefix_of(branch)
}

/// `branch` reads as the convention asks, with its parts at the given places:
/// a tracked prefix before `start`, letters from `start` up to `dash`, a
/// hyphen at `dash`, digits after it up to `end`, a hyphen at `end`, and after
/// that hyphen no line feed up to the end of the name.
pub open spec fn reads_as(branch: Seq<char>, start: int, dash: int, end: int) -> bool {
    &&& has_tracked_prefix(branch, start)
    &&& start < dash
    &&& dash + 1 < end
    &&& end < branch.len()
    &&& forall|i: int| start <= i < dash ==> is_letter(#[trigger] branch[i])
    &&& branch[dash] == '-'
    &&& forall|i: int| dash < i < end ==> is_digit(#[trigger] branch[i])
    &&& branch[end] == '-'
    &&& forall|i: int| end < i < branch.len() ==> #[trigger] branch[i] != '\n'
}

/// `branch` follows the naming convention.
pub open spec fn follows_convention(branch: Seq<char>) -> bool {
    exists|start: int, dash: int, end: int| reads_as(branch, start, dash, end)
}

/// The issue key of `branch`: the letters, the hyphen and the digits between
/// the prefix and the free text, for a branch that follows the convention;
/// nothing for any other.
pub open spec fn issue_key(branch: Seq<char>) -> Option<Seq<char>> {
    if follows_convention(branch) {
        let (start, dash, end) = choose|start: int, dash: int, end: int|
            reads_as(branch, start, dash, end);
        Some(branch.subrange(start, end))
    } else {
        None
    }
}

/// The shape of an issue key: letters, one hyphen, digits, with at least one
/// letter and one digit.
pub open spec fn is_issue_key(key: Seq<char>) -> bool {
    exists|dash: int|
        {
            &&& 0 < dash
            &&& dash + 1 < key.len()
            &&& forall|i: int| 0 <= i < dash ==> is_letter(#[trigger] key[i])
            &&& #[trigger] key[dash] == '-'
            &&& forall|i: int| dash < i < key.len() ==> is_digit(#[trigger] key[i])
        }
}

/// A branch name can be read as the convention asks in one way at most.
pub proof fn lemma_reading_is_unique(
    branch: Seq<char>,
    start: int,
    dash: int,
    end: int,
    start2: int,
    dash2: int,
    end2: int,
)
    requires
        reads_as(branch, start, dash, end),
        reads_as(branch, start2, dash2, end2),
    ensures
        start == start2,
        dash == dash2,
        end == end2,
{
    if start != start2 {
        reveal_strlit("feature/");
        reveal_strlit("bugfix/");
        assert("feature/"@[0] == branch[0]);
        assert("bugfix/"@[0] == branch[0]);
    }
}

/// For every branch name that follows the convention, the issue key is the
/// text between the slash of the prefix and the hyphen that ends the digits,
/// it has the shape of an issue key, and the name is its prefix, the key, a
/// hyphen and the free text, in this order.
pub proof fn lemma_issue_key_of_reading(branch: Seq<char>, start: int, dash: int, end: int)
    requires
        reads_as(branch, start, dash, end),
    ensures
        issue_key(branch) == Some(branch.subrange(start, end)),
        is_issue_key(branch.subrange(start, end)),
        branch[start - 1] == '/',
        branch == branch.subrange(0, start) + branch.subrange(start, end) + seq!['-']
            + branch.subrange(end + 1, branch.len() as int),
{
    let (start2, dash2, end2) = choose|start2: int, dash2: int, end2: int|
        reads_as(branch, start2, dash2, end2);
    lemma_reading_is_unique(branch, start, dash, end, start2, dash2, end2);
    let key = branch.subrange(start, end);
    assert(is_issue_key(key)) by {
        assert(key[dash - start] == '-');
    }
    assert(branch[start - 1] == '/') by {
        reveal_strlit("feature/");
        reveal_strlit("bugfix/");
        if start == 8 {
            assert("feature/"@[7] == branch[7]);
        } else {
            assert("bugfix/"@[6] == branch[6]);
        }
    }
    assert(branch =~= branch.subrange(0, start) + key + seq!['-'] + branch.subrange(
        end + 1,
        branch.len() as int,
    ));
}

/// Searches `text` with the `regex` crate: `Regex::new` compiles `pattern`,
/// `Regex::captures` looks for its leftmost match in `text`, and
/// `Captures::get` with `Match::as_str` hands out what capture group `group`
/// matched.
///
/// Nothing of this is proved. The contract is the reading of
/// [`BRANCH_PATTERN`] by the syntax of that crate: `^` and `$` stand for the
/// two ends of `text`, `(feature|bugfix)` for either word, `[A-Za-z]+` and
/// `[0-9]+` for one or more ASCII letters and digits, `.*` for any characters
/// but the line feed, and every other character for itself; group 2 spans
/// the letters, the hyphen and the digits. The pattern compiles, so the arm
/// for a pattern that does not is never taken.
#[verifier::external_body]
fn captured_text(pattern: &str, text: &str, group: usize) -> (found: Option<String>)
    requires
        pattern@ == BRANCH_PATTERN@,
        group == KEY_GROUP,
    ensures
        match found {
            Some(key) => exists|start: int, dash: int, end: int|
                reads_as(text@, start, dash, end) && key@ == text@.subrange(start, end),
            None => !follows_convention(text@),
        },
{
    match regex::Regex::new(pattern) {
        Ok(re) => re.captures(text).and_then(|caps| caps.get(group)).map(
            |found| found.as_str().to_string(),
        ),
        Err(_) => None,
    }
}

/// The issue key of the branch `branch_name`, if the name follows the
/// convention. The key is handed out as it stands in the name: its case is
/// kept.
pub fn get_jira_issue_key(branch_name: String) -> (key: Option<String>)
    ensures
        key is Some <==> follows_convention(branch_name@),
        match key {
            Some(k) => issue_key(branch_name@) == Some(k@) && is_issue_key(k@),
            None => issue_key(branch_name@) is None,
        },
{
    let found = captured_text(BRANCH_PATTERN, branch_name.as_str(), KEY_GROUP);
    proof {
        if found is Some {
            let k = found->0;
            let (start, dash, end) = choose|start: int, dash: int, end: int|
                reads_as(branch_name@, start, dash, end) && k@ == branch_name@.subrange(
                    start,
                    end,
                );
            lemma_issue_key_of_reading(branch_name@, start, dash, end);
        }
    }
    found
}

} // verus!
