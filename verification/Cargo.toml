[package]
name = "jira_commit_hook"
version = "0.1.0"
edition = "2021"
publish = false

[dependencies]
regex = "1"
git2 = { version = "*", default-features = false }
