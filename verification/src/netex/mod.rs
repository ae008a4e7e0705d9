//! NeTEx documents: the sections of a timetable exchange file read into
//! records.

pub mod document;
pub mod journey_pattern;
pub mod location;
pub mod service_frame;
pub mod site_frame;
pub mod site_frame_single_pass;
pub mod stop_point_in_journey_pattern;
