use traintables::gtfs::routes::deserialize_short_name;
use traintables::gtfs::service_days::{parse_services, Service, ServiceDay};
use traintables::gtfs::stop_times::{
    deserialize_time, deserialize_time_panics, parse_stop_times, Endpoints, StopTime,
};
use traintables::gtfs::stops::{parse_stops, Station, Stop, StopPoint};
use traintables::gtfs::trips::{parse_trips, GTFSTrip, Trip};
use traintables::gtfs::update::update_id;
use traintables::text::NumberError;

fn stop(id: &str, location_type: u8, parent: &str, lat: f64, lon: f64) -> Stop<f64> {
    Stop {
        stop_id: id.to_string(),
        stop_name: format!("name of {}", id),
        stop_lat: lat,
        stop_lon: lon,
        location_type,
        parent_station: parent.to_string(),
    }
}

fn stop_time(trip: &str, stop: &str, seq: u8) -> StopTime {
    StopTime {
        trip_id: trip.to_string(),
        stop_id: stop.to_string(),
        arrival_seconds: 3600 * seq as u32,
        departure_seconds: 3600 * seq as u32 + 60,
        stop_sequence: seq,
    }
}

#[test]
fn short_name_unknown_is_none() {
    assert_eq!(deserialize_short_name("INCONNU"), None);
}

#[test]
fn short_name_kept() {
    assert_eq!(deserialize_short_name("TER"), Some("TER".to_string()));
    assert_eq!(deserialize_short_name(""), Some(String::new()));
    assert_eq!(deserialize_short_name("inconnu"), Some("inconnu".to_string()));
}

#[test]
fn time_of_day_in_seconds() {
    assert_eq!(deserialize_time("08:30:15"), Ok(8 * 3600 + 30 * 60 + 15));
    assert_eq!(deserialize_time("25:00:00"), Ok(90000));
    assert_eq!(deserialize_time("0:0:0"), Ok(0));
    assert_eq!(deserialize_time("+1:+2:+3"), Ok(3723));
}

#[test]
fn time_fields_after_third_ignored() {
    assert_eq!(deserialize_time("01:02:03:04"), Ok(3723));
    assert_eq!(deserialize_time("01:02:03:xx"), Ok(3723));
}

#[test]
fn time_errors() {
    assert_eq!(deserialize_time(""), Err(NumberError::Empty));
    assert_eq!(deserialize_time("ab:00:00"), Err(NumberError::InvalidDigit));
    assert_eq!(deserialize_time("10::00"), Err(NumberError::Empty));
    assert_eq!(deserialize_time("10:00:-5"), Err(NumberError::InvalidDigit));
    assert_eq!(deserialize_time("10:99999999999:00"), Err(NumberError::PosOverflow));
    assert_eq!(deserialize_time("x"), Err(NumberError::InvalidDigit));
}

#[test]
fn time_panicking_inputs_are_told_apart() {
    assert!(deserialize_time_panics("12"));
    assert!(deserialize_time_panics("12:30"));
    assert!(deserialize_time_panics("4294967295:00:00"));
    assert!(!deserialize_time_panics("12:"));
    assert!(!deserialize_time_panics("ab"));
    assert!(!deserialize_time_panics("12:30:00"));
    assert!(!deserialize_time_panics("1193046:28:15"));
    assert_eq!(deserialize_time("1193046:28:15"), Ok(u32::MAX));
    assert!(deserialize_time_panics("1193046:28:16"));
}

#[test]
fn stops_split_by_location_type() {
    let stops = vec![
        stop("SP1", 0, "ST1", 48.8, 2.3),
        stop("ST1", 1, "", 48.8, 2.3),
        stop("X", 2, "", 0.0, 0.0),
        stop("SP2", 0, "ST1", 48.9, 2.4),
    ];
    let (stations, stop_points) = parse_stops(stops);
    assert_eq!(
        stations,
        vec![Station { id: "ST1".to_string(), name: "name of ST1".to_string(), latitude: 48.8, longitude: 2.3 }]
    );
    assert_eq!(stop_points.len(), 2);
    assert_eq!(
        stop_points[0],
        StopPoint {
            id: "SP1".to_string(),
            name: "name of SP1".to_string(),
            latitude: 48.8,
            longitude: 2.3,
            station_id: "ST1".to_string(),
        }
    );
    assert_eq!(stop_points[1].id, "SP2");
    assert_eq!(stop_points[1].latitude, 48.9);
}

#[test]
fn stops_split_concatenates() {
    let first = vec![stop("A", 0, "S", 1.0, 1.0), stop("S", 1, "", 1.0, 1.0)];
    let second = vec![stop("B", 0, "T", 2.0, 2.0), stop("T", 1, "", 2.0, 2.0)];
    let whole: Vec<Stop<f64>> = first.iter().chain(second.iter()).cloned().collect();
    let (st1, sp1) = parse_stops(first);
    let (st2, sp2) = parse_stops(second);
    let (st, sp) = parse_stops(whole);
    assert_eq!(st, st1.into_iter().chain(st2).collect::<Vec<_>>());
    assert_eq!(sp, sp1.into_iter().chain(sp2).collect::<Vec<_>>());
}

#[test]
fn station_and_stop_point_from_stop() {
    let s = stop("SP9", 0, "ST9", 1.5, -2.5);
    assert_eq!(Station::new(s.clone()).longitude, -2.5);
    assert_eq!(StopPoint::new(s).station_id, "ST9");
}

#[test]
fn endpoints_first_and_last_stop() {
    let times = vec![
        stop_time("T1", "A", 1),
        stop_time("T2", "X", 1),
        stop_time("T1", "B", 2),
        stop_time("T1", "C", 3),
        stop_time("T2", "Y", 2),
        stop_time("T3", "Z", 1),
    ];
    let (kept, endpoints) = parse_stop_times(times.clone());
    assert_eq!(kept, times);
    assert_eq!(endpoints.len(), 3);
    let t1 = endpoints.get("T1").unwrap();
    assert_eq!((t1.origin.as_str(), t1.destination.as_str()), ("A", "C"));
    let t2 = endpoints.get("T2").unwrap();
    assert_eq!((t2.origin.as_str(), t2.destination.as_str()), ("X", "Y"));
    let t3 = endpoints.get("T3").unwrap();
    assert_eq!((t3.origin.as_str(), t3.destination.as_str()), ("Z", "Z"));
    assert!(endpoints.get("T4").is_none());
}

#[test]
fn endpoints_new_starts_and_ends_at_origin() {
    let e = Endpoints::new("STOP".to_string());
    assert_eq!(e, Endpoints { origin: "STOP".to_string(), destination: "STOP".to_string() });
}

#[test]
fn trips_completed_with_endpoints() {
    let (_, endpoints) = parse_stop_times(vec![
        stop_time("T1", "A", 1),
        stop_time("T1", "B", 2),
        stop_time("T2", "C", 1),
    ]);
    let rows = vec![
        GTFSTrip {
            id: "T2".to_string(),
            route_id: "R".to_string(),
            service_id: 7,
            headsign: "North".to_string(),
            direction: None,
        },
        GTFSTrip {
            id: "T1".to_string(),
            route_id: "R".to_string(),
            service_id: 8,
            headsign: "South".to_string(),
            direction: Some(1),
        },
    ];
    let trips = parse_trips(rows, endpoints);
    assert_eq!(
        trips,
        vec![
            Trip {
                id: "T2".to_string(),
                route_id: "R".to_string(),
                service_id: 7,
                headsign: "North".to_string(),
                direction: None,
                origin_id: "C".to_string(),
                destination_id: "C".to_string(),
            },
            Trip {
                id: "T1".to_string(),
                route_id: "R".to_string(),
                service_id: 8,
                headsign: "South".to_string(),
                direction: Some(1),
                origin_id: "A".to_string(),
                destination_id: "B".to_string(),
            },
        ]
    );
}

#[test]
fn trip_new_moves_fields() {
    let row = GTFSTrip {
        id: "T".to_string(),
        route_id: "R".to_string(),
        service_id: 1,
        headsign: "H".to_string(),
        direction: Some(0),
    };
    let trip = Trip::new(row, "O".to_string(), "D".to_string());
    assert_eq!(trip.origin_id, "O");
    assert_eq!(trip.destination_id, "D");
    assert_eq!(trip.direction, Some(0));
}

#[test]
fn services_grouped_in_order() {
    let day = |id: u32, date: &str| ServiceDay { service_id: id, date: date.to_string() };
    let services = parse_services(vec![
        day(1, "20240101"),
        day(2, "20240101"),
        day(1, "20240102"),
        day(3, "20240103"),
        day(1, "20240104"),
    ]);
    assert_eq!(services.len(), 3);
    assert_eq!(services[&1], vec![day(1, "20240101"), day(1, "20240102"), day(1, "20240104")]);
    assert_eq!(services[&2], vec![day(2, "20240101")]);
    assert_eq!(services[&3], vec![day(3, "20240103")]);
    assert!(parse_services(Vec::new()).is_empty());
}

#[test]
fn service_new_keeps_id() {
    assert_eq!(Service::new(42).id(), 42);
}

#[test]
fn update_id_is_a_v4_uuid() {
    let id = update_id();
    let chars: Vec<char> = id.chars().collect();
    assert_eq!(chars.len(), 36);
    for (i, c) in chars.iter().enumerate() {
        if [8, 13, 18, 23].contains(&i) {
            assert_eq!(*c, '-');
        } else {
            assert!(c.is_ascii_hexdigit() && !c.is_ascii_uppercase());
        }
    }
    assert_eq!(chars[14], '4');
    assert!("89ab".contains(chars[19]));
    assert_ne!(update_id(), id);
}
