//! Reusable policies: tool visibility, search, retries and redaction.

pub mod redact;
pub mod retry;
pub mod search_glob;
pub mod tool_filter;
