//! GTFS feeds: records read from the feed's CSV tables and the tables that
//! are derived from them.

pub mod routes;
pub mod service_days;
pub mod stop_times;
pub mod stops;
pub mod trips;
pub mod update;
