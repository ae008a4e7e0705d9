//! Stops of a GTFS feed (`stops.txt`), split into stations and stop points.
//!
//! The coordinates are carried as they were read, whatever their type.

use vstd::prelude::*;

verus! {

/// A row of `stops.txt`.
#[derive(Debug, Clone, PartialEq)]
pub struct Stop<C> {
    pub stop_id: String,
    pub stop_name: String,
    pub stop_lat: C,
    pub stop_lon: C,
    /// 0 for a stop point, 1 for a station
    pub location_type: u8,
    pub parent_station: String,
}

/// A station: a stop of location type 1.
#[derive(Debug, Clone, PartialEq)]
pub struct Station<C> {
    pub id: String,
    pub name: String,
    pub latitude: C,
    pub longitude: C,
}

/// A stop point: a stop of location type 0, inside a station.
#[derive(Debug, Clone, PartialEq)]
pub struct StopPoint<C> {
    pub id: String,
    pub name: String,
    pub latitude: C,
    pub longitude: C,
    pub station_id: String,
}

pub open spec fn station_of<C>(stop: Stop<C>) -> Station<C> {
    Station { id: stop.stop_id, name: stop.stop_name, latitude: stop.stop_lat, longitude: stop.stop_lon }
}

pub open spec fn stop_point_of<C>(stop: Stop<C>) -> StopPoint<C> {
    StopPoint {
        id: stop.stop_id,
        name: stop.stop_name,
        latitude: stop.stop_lat,
        longitude: stop.stop_lon,
        station_id: stop.parent_station,
    }
}

impl<C> Station<C> {
    /// The station that a stop row describes.
    pub fn new(stop: Stop<C>) -> (station: Self)
        ensures
            station == station_of(stop),
    {
        Self { id: stop.stop_id, name: stop.stop_name, latitude: stop.stop_lat, longitude: stop.stop_lon }
    }
}

impl<C> StopPoint<C> {
    /// The stop point that a stop row describes, with its parent station.
    pub fn new(stop: Stop<C>) -> (stop_point: Self)
        ensures
            stop_point == stop_point_of(stop),
    {
        Self {
            id: stop.stop_id,
            name: stop.stop_name,
            latitude: stop.stop_lat,
            longitude: stop.stop_lon,
            station_id: stop.parent_station,
        }
    }
}

/// The stations among `stops` (location type 1), in order.
pub open spec fn stations_of<C>(stops: Seq<Stop<C>>) -> Seq<Station<C>>
    decreases stops.len(),
{
    if stops.len() == 0 {
        Seq::empty()
    } else if stops.last().location_type == 1 {
        stations_of(stops.drop_last()).push(station_of(stops.last()))
    } else {
        stations_of(stops.drop_last())
    }
}

/// The stop points among `stops` (location type 0), in order.
pub open spec fn stop_points_of<C>(stops: Seq<Stop<C>>) -> Seq<StopPoint<C>>
    decreases stops.len(),
{
    if stops.len() == 0 {
        Seq::empty()
    } else if stops.last().location_type == 0 {
        stop_points_of(stops.drop_last()).push(stop_point_of(stops.last()))
    } else {
        stop_points_of(stops.drop_last())
    }
}

/// Splits the stops into stations and stop points; a stop of any other
/// location type is left out.
pub fn parse_stops<C>(stops: Vec<Stop<C>>) -> (res: (Vec<Station<C>>, Vec<StopPoint<C>>))
    ensures
        res.0@ == stations_of(stops@),
        res.1@ == stop_points_of(stops@),
{
    let ghost all = stops@;
    let mut stations: Vec<Station<C>> = Vec::new();
    let mut stop_points: Vec<StopPoint<C>> = Vec::new();
    for stop in it: stops.into_iter()
        invariant
            it.seq() == all,
            stations@ == stations_of(all.take(it.index() as int)),
            stop_points@ == stop_points_of(all.take(it.index() as int)),
    {
        proof {
            let after = all.take(it.index() as int + 1);
            assert(after.drop_last() =~= all.take(it.index() as int));
            assert(after.last() == stop);
        }
        if stop.location_type == 0 {
            stop_points.push(StopPoint::new(stop));
        } else if stop.location_type == 1 {
            stations.push(Station::new(stop));
        }
    }
    proof {
        assert(all.take(all.len() as int) =~= all);
    }
    (stations, stop_points)
}

/// The stop points are the stops of location type 0, in order, whatever
/// their other fields, each carried over field by field (its parent station
/// as the stop point's station); the stations are the stops of location
/// type 1, in order, each carried over field by field.
pub proof fn lemma_split_by_location_type<C>(stops: Seq<Stop<C>>)
    ensures
        stop_points_of(stops) == stops.filter(|s: Stop<C>| s.location_type == 0).map_values(
            |s: Stop<C>| StopPoint {
                id: s.stop_id,
                name: s.stop_name,
                latitude: s.stop_lat,
                longitude: s.stop_lon,
                station_id: s.parent_station,
            },
        ),
        stations_of(stops) == stops.filter(|s: Stop<C>| s.location_type == 1).map_values(
            |s: Stop<C>| Station { id: s.stop_id, name: s.stop_name, latitude: s.stop_lat, longitude: s.stop_lon },
        ),
    decreases stops.len(),
{
    let is_point = |s: Stop<C>| s.location_type == 0;
    let is_station = |s: Stop<C>| s.location_type == 1;
    let to_point = |s: Stop<C>| StopPoint {
        id: s.stop_id,
        name: s.stop_name,
        latitude: s.stop_lat,
        longitude: s.stop_lon,
        station_id: s.parent_station,
    };
    let to_station = |s: Stop<C>| Station { id: s.stop_id, name: s.stop_name, latitude: s.stop_lat, longitude: s.stop_lon };
    reveal(Seq::filter);
    if stops.len() == 0 {
        assert(stops.filter(is_point) =~= Seq::<Stop<C>>::empty());
        assert(stops.filter(is_station) =~= Seq::<Stop<C>>::empty());
        assert(stops.filter(is_point).map_values(to_point) =~= Seq::<StopPoint<C>>::empty());
        assert(stops.filter(is_station).map_values(to_station) =~= Seq::<Station<C>>::empty());
    } else {
        let earlier = stops.drop_last();
        lemma_split_by_location_type(earlier);
        let last = stops.last();
        assert(stops.filter(is_point) == if is_point(last) { earlier.filter(is_point).push(last) } else { earlier.filter(is_point) });
        assert(stops.filter(is_station) == if is_station(last) { earlier.filter(is_station).push(last) } else { earlier.filter(is_station) });
        assert(earlier.filter(is_point).push(last).map_values(to_point) =~= earlier.filter(is_point).map_values(to_point).push(to_point(last)));
        assert(earlier.filter(is_station).push(last).map_values(to_station) =~= earlier.filter(is_station).map_values(to_station).push(to_station(last)));
    }
}

/// Splitting the stops of two pieces of a table gives, piece after piece,
/// what splitting the whole table gives.
pub proof fn lemma_split_stops_concat<C>(first: Seq<Stop<C>>, second: Seq<Stop<C>>)
    ensures
        stations_of(first + second) == stations_of(first) + stations_of(second),
        stop_points_of(first + second) == stop_points_of(first) + stop_points_of(second),
    decreases second.len(),
{
    if second.len() == 0 {
        assert(first + second =~= first);
        assert(stations_of(first) + stations_of(second) =~= stations_of(first));
        assert(stop_points_of(first) + stop_points_of(second) =~= stop_points_of(first));
    } else {
        lemma_split_stops_concat(first, second.drop_last());
        assert((first + second).drop_last() =~= first + second.drop_last());
        assert((first + second).last() == second.last());
        assert((stations_of(first) + stations_of(second.drop_last())).push(station_of(second.last()))
            =~= stations_of(first) + stations_of(second.drop_last()).push(station_of(second.last())));
        assert((stop_points_of(first) + stop_points_of(second.drop_last())).push(stop_point_of(second.last()))
            =~= stop_points_of(first) + stop_points_of(second.drop_last()).push(stop_point_of(second.last())));
    }
}

} // verus!
