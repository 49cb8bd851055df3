//! Verified decision logic of workmux, a manager of git worktrees and agents.

pub mod dashboard;
pub mod gemini;
pub mod github;
pub mod hooks;
pub mod json;
pub mod llm;
pub mod merge;
pub mod output;
pub mod text;
