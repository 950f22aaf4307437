//! The iCalendar payload format.

pub mod parser;
