//! Trips of a GTFS feed (`trips.txt`), completed with their endpoints.

use crate::gtfs::stop_times::{
    endpoints_of, endpoints_view, has_trip, is_first_of, is_last_of, lemma_endpoints_first_last, Endpoints, StopTime,
};
use vstd::hash_map::StringHashMap;
use vstd::prelude::*;

verus! {

/// A row of `trips.txt`.
#[derive(Debug, Clone, PartialEq, Eq)]
pub struct GTFSTrip {
    /// `trip_id`
    pub id: String,
    pub route_id: String,
    pub service_id: u32,
    /// `trip_headsign`
    pub headsign: String,
    /// `direction_id`
    pub direction: Option<u8>,
}

/// A trip with the stops it starts from and ends at.
#[derive(Debug, Clone, PartialEq, Eq)]
pub struct Trip {
    pub id: String,
    pub route_id: String,
    pub service_id: u32,
    pub headsign: String,
    pub direction: Option<u8>,
    pub origin_id: String,
    pub destination_id: String,
}

pub open spec fn trip_of(gtfs_trip: GTFSTrip, origin_id: String, destination_id: String) -> Trip {
    Trip {
        id: gtfs_trip.id,
        route_id: gtfs_trip.route_id,
        service_id: gtfs_trip.service_id,
        headsign: gtfs_trip.headsign,
        direction: gtfs_trip.direction,
        origin_id,
        destination_id,
    }
}

impl Trip {
    /// The trip of a `trips.txt` row, going from `origin_id` to `destination_id`.
    pub fn new(gtfs_trip: GTFSTrip, origin_id: String, destination_id: String) -> (trip: Self)
        ensures
            trip == trip_of(gtfs_trip, origin_id, destination_id),
    {
        Self {
            id: gtfs_trip.id,
            route_id: gtfs_trip.route_id,
            service_id: gtfs_trip.service_id,
            headsign: gtfs_trip.headsign,
            direction: gtfs_trip.direction,
            origin_id,
            destination_id,
        }
    }
}

/// `true` when every trip of `trips` has its endpoints in `endpoints`.
pub open spec fn all_have_endpoints(trips: Seq<GTFSTrip>, endpoints: Map<Seq<char>, Endpoints>) -> bool {
    forall|i: int| 0 <= i < trips.len() ==> endpoints.contains_key(#[trigger] trips[i].id@)
}

/// `trip` is the row `gtfs_trip` completed with its endpoints from `endpoints`.
pub open spec fn completes(trip: Trip, gtfs_trip: GTFSTrip, endpoints: Map<Seq<char>, Endpoints>) -> bool {
    &&& trip.id == gtfs_trip.id
    &&& trip.route_id == gtfs_trip.route_id
    &&& trip.service_id == gtfs_trip.service_id
    &&& trip.headsign == gtfs_trip.headsign
    &&& trip.direction == gtfs_trip.direction
    &&& trip.origin_id@ == endpoints[gtfs_trip.id@].origin@
    &&& trip.destination_id@ == endpoints[gtfs_trip.id@].destination@
}

/// A trip built from a row goes from the origin to the destination it is
/// given and keeps the row's id, route, service, headsign and direction.
pub proof fn lemma_trip_of_fields(gtfs_trip: GTFSTrip, origin_id: String, destination_id: String)
    ensures
        trip_of(gtfs_trip, origin_id, destination_id).origin_id == origin_id,
        trip_of(gtfs_trip, origin_id, destination_id).destination_id == destination_id,
        trip_of(gtfs_trip, origin_id, destination_id).id == gtfs_trip.id,
        trip_of(gtfs_trip, origin_id, destination_id).route_id == gtfs_trip.route_id,
        trip_of(gtfs_trip, origin_id, destination_id).service_id == gtfs_trip.service_id,
        trip_of(gtfs_trip, origin_id, destination_id).headsign == gtfs_trip.headsign,
        trip_of(gtfs_trip, origin_id, destination_id).direction == gtfs_trip.direction,
{
}

/// A trip completed with the endpoints recorded from the stop times starts
/// at the stop of the trip's first stop time and ends at the stop of its
/// last.
pub proof fn lemma_trip_runs_first_to_last(
    trip: Trip,
    gtfs_trip: GTFSTrip,
    endpoints: Map<Seq<char>, Endpoints>,
    stop_times: Seq<StopTime>,
    first: int,
    last: int,
)
    requires
        completes(trip, gtfs_trip, endpoints),
        endpoints_view(endpoints) == endpoints_of(stop_times),
        is_first_of(stop_times, gtfs_trip.id@, first),
        is_last_of(stop_times, gtfs_trip.id@, last),
    ensures
        trip.origin_id@ == stop_times[first].stop_id@,
        trip.destination_id@ == stop_times[last].stop_id@,
        trip.id == gtfs_trip.id,
{
    lemma_endpoints_first_last(stop_times, gtfs_trip.id@);
    assert(has_trip(stop_times, gtfs_trip.id@));
    assert(endpoints_of(stop_times).contains_key(gtfs_trip.id@));
    assert(endpoints_view(endpoints).contains_key(gtfs_trip.id@));
}

/// Completes each trip, in order, with the first and last stop of its stop
/// times.
pub fn parse_trips(trips: Vec<GTFSTrip>, endpoints: StringHashMap<Endpoints>) -> (res: Vec<Trip>)
    requires
        all_have_endpoints(trips@, endpoints@),
    ensures
        res@.len() == trips@.len(),
        forall|i: int| 0 <= i < trips@.len() ==> completes(#[trigger] res@[i], trips@[i], endpoints@),
{
    let ghost all = trips@;
    let mut res: Vec<Trip> = Vec::new();
    for gtfs_trip in it: trips.into_iter()
        invariant
            it.seq() == all,
            all_have_endpoints(all, endpoints@),
            res@.len() == it.index(),
            forall|i: int| 0 <= i < it.index() ==> completes(#[trigger] res@[i], all[i], endpoints@),
    {
        proof {
            assert(gtfs_trip == all[it.index() as int]);
            assert(endpoints@.contains_key(all[it.index() as int].id@));
        }
        let endpoint = match endpoints.get(gtfs_trip.id.as_str()) {
            Some(e) => e,
            None => {
                proof { assert(false); }
                return res;
            },
        };
        let origin = endpoint.origin.clone();
        let destination = endpoint.destination.clone();
        res.push(Trip::new(gtfs_trip, origin, destination));
    }
    res
}

} // verus!
