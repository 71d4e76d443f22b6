//! Verified core of a helper that drives running containers: it parses and
//! joins the runtime's status snapshots, formats multiplexed log lines, and
//! decides what each command does next from the plain text the runtime gives.
pub mod actions;
pub mod keyed;
pub mod logs;
pub mod printer;
pub mod status;
pub mod table;
pub mod targets;
pub mod text;
pub mod utils;
