//! Plans date-prefix renames for files: given a file's modification time,
//! computes the calendar date and the new name `YYYY-MM-DD__<name>`, or
//! decides that the name already carries that prefix.

pub mod date;
pub mod paths;
pub mod rename;
