//! The hook as a whole: from the name of the branch and the draft of the
//! commit message to the message that is stored.

use crate::branch::{
    follows_convention, is_digit, is_issue_key, is_letter, issue_key, lemma_issue_key_of_reading,
    reads_as,
};
use crate::lines::is_one_line;
use crate::message::{
    has_no_comment_line, lemma_message_has_no_comment_line, with_key, without_comments,
};
use crate::text::occurs_in;
use vstd::prelude::*;

verus! {

/// An issue key stands on one line.
pub proof fn lemma_issue_key_is_one_line(key: Seq<char>)
    requires
        is_issue_key(key),
    ensures
        is_one_line(key),
{
    let dash = choose|dash: int|
        {
            &&& 0 < dash
            &&& dash + 1 < key.len()
            &&& forall|i: int| 0 <= i < dash ==> is_letter(#[trigger] key[i])
            &&& #[trigger] key[dash] == '-'
            &&& forall|i: int| dash < i < key.len() ==> is_digit(#[trigger] key[i])
        };
    assert forall|i: int| 0 <= i < key.len() implies #[trigger] key[i] != '\n' by {
        if i < dash {
            assert(is_letter(key[i]));
        } else if i > dash {
            assert(is_digit(key[i]));
        }
    }
}

/// On a branch that follows the convention, and for a draft whose body does
/// not hold the issue key of the branch yet, the message that is stored is
/// the key in square brackets, a space and the body of the draft. It has no
/// comment line.
pub proof fn lemma_message_on_tracked_branch(branch: Seq<char>, draft: Seq<char>)
    requires
        follows_convention(branch),
        !occurs_in(issue_key(branch)->0, without_comments(draft)),
    ensures
        issue_key(branch) is Some,
        with_key(without_comments(draft), issue_key(branch)->0) == seq!['['] + issue_key(
            branch,
        )->0 + seq![']', ' '] + without_comments(draft),
        has_no_comment_line(with_key(without_comments(draft), issue_key(branch)->0)),
{
    let (start, dash, end) = choose|start: int, dash: int, end: int|
        reads_as(branch, start, dash, end);
    lemma_issue_key_of_reading(branch, start, dash, end);
    lemma_issue_key_is_one_line(issue_key(branch)->0);
    lemma_message_has_no_comment_line(draft, issue_key(branch)->0);
}

} // verus!
