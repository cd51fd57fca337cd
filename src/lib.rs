//! Supervision of a backend child process: its output split into lines, the decisions
//! taken when it is asked to terminate and when it ends, and the lines that report it.

pub mod line;
pub mod reader;
pub mod supervisor;
pub mod event_text;
pub mod launch;
