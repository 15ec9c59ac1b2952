//! A minimal command interpreter's core: a quote-aware tokenizer for command
//! lines, the input bounds checked before dispatch, and the decisions of the
//! dispatcher (built-ins, search-path resolution, exit-status reporting).
//! Reading input, changing directory and spawning processes are left to the
//! caller, which hands the outcome of each back as a plain value.

pub mod dispatch;
pub mod line;
pub mod search;
pub mod tokenizer;
