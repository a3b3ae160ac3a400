//! Calendar watching and meeting auto-join: the decisions of the scheduler,
//! the snapshot of synchronized events, the meeting-link extractor and the
//! countdown label, each with a contract that Verus proves.

pub mod calendar;
pub mod clock;
pub mod countdown;
pub mod locale;
pub mod meeting_url;
pub mod order;
pub mod provider;
pub mod scheduler;
pub mod text;
pub mod url;
