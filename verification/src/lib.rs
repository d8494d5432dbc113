//! Rewrites a commit message so that it carries the issue key of the branch
//! it was written on.
//!
//! A branch named `feature/<KEY>-<text>` or `bugfix/<KEY>-<text>` carries the
//! issue key `<KEY>`. The message to commit is the draft without its comment
//! lines, with `[<KEY>] ` in front unless the key stands in it already.

pub mod branch;
pub mod hook;
pub mod lines;
pub mod message;
pub mod text;

pub use branch::get_jira_issue_key;
pub use message::{
    add_jira_key_to_commit_message, get_commit_message_without_comments, prepend_key, Prepended,
};
