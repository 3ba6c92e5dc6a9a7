//! Page plans for each document kind, on top of the A4 kernel.

pub mod a4;
pub mod attendance_daily;
pub mod ticket;
pub mod card;
