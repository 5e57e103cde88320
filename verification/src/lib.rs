//! Enumeration of conflict-free weekly class schedules.
//!
//! A catalog lists classes; each class offers interchangeable sections; each
//! section is written as a list of slot-notation strings such as `"MWF3"` or
//! `"TR5-6"`. The library turns a notation into the slots it denotes and
//! searches, depth first, for every choice of one section per class in which
//! no slot is claimed twice.

pub mod catalog;
pub mod generator;
pub mod notation;
pub mod number;
pub mod scan;
pub mod schedule;
pub mod section;
pub mod selection;
pub mod slot;
pub mod table;

pub use catalog::{Class, ScheduleOptions};
pub use generator::{generate_schedule_recursive, generate_schedules};
pub use notation::{parse_period_string, parse_with_pattern, periods_of_matches, SLOT_PATTERN};
pub use schedule::Schedule;
pub use section::{get_section_periods, Section};
pub use slot::{Day, ParseError, Period};
pub use table::{table_row, table_rows, week_days, TableRow};
