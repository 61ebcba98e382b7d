//! Typed builders for iCalendar (RFC 5545) components and their text encoding.
//!
//! A component keeps its single-valued properties ordered by key and its repeatable
//! properties in order of insertion. Dates and date-times are carried as the
//! library's own values and encoded as property text both ways.

pub mod components;
pub mod date_time;
pub mod properties;
pub mod storage;

pub use components::{
    date_time_of_parts, parse_priority, Class, ClockReading, Component, ComponentKind, Event, EventKind, FormatError, Todo,
    TodoKind, Venue, VenueKind,
};
pub use date_time::{
    format_utc_date_time, parse_utc_date_time, CalendarDateTime, DatePerhapsTime, NaiveDate,
    NaiveDateTime,
};
pub use properties::{Parameter, Property};
pub use storage::InnerComponent;
