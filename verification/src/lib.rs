//! Verified core of whytop: a read-only process monitor with local AI explanations.
//!
//! The modules hold the decisions of the monitor: how rows are ordered and merged across
//! refreshes, how keys move the selection and the sort, how evidence is bounded before it is
//! shown to a model, how the streamed model answer is decoded, and how text is measured for
//! display. Terminal drawing, process listing, HTTP and timers live in the application crate.

pub mod text;

pub mod ai;
pub mod display;
pub mod process;
pub mod prompt;
pub mod redaction;
pub mod ps;
pub mod refresh;
pub mod row_order;
pub mod session;
pub mod sort_mode;
pub mod table;
