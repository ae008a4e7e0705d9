//! Transit timetable data: GTFS records, NeTEx XML sections and SIRI
//! estimated-timetable updates, with the transformations between them.

pub mod gtfs;
pub mod netex;
pub mod siri;
pub mod text;
pub mod xml;

use vstd::prelude::*;

verus! {
}
