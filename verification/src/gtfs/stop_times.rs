//! Stop times of a GTFS feed (`stop_times.txt`) and the endpoints of each trip.

use crate::text::{chars_of, parse_u32_chars, spec_parse_u32, NumberError};
use vstd::hash_map::StringHashMap;
use vstd::prelude::*;

verus! {

/// A trip's call at a stop.
#[derive(Debug, Clone, PartialEq, Eq)]
pub struct StopTime {
    pub trip_id: String,
    pub stop_id: String,
    /// `arrival_time`, in seconds after midnight of the service day
    pub arrival_seconds: u32,
    /// `departure_time`, in seconds after midnight of the service day
    pub departure_seconds: u32,
    pub stop_sequence: u8,
}

/// Where a trip starts and where it ends.
#[derive(Debug, Clone, PartialEq, Eq)]
pub struct Endpoints {
    pub origin: String,
    pub destination: String,
}

impl Endpoints {
    /// A trip seen at one stop so far: it starts and ends there.
    pub fn new(origin: String) -> (endpoints: Self)
        ensures
            endpoints.origin@ == origin@,
            endpoints.destination@ == origin@,
    {
        Self { origin: origin.clone(), destination: origin }
    }
}

// ---------------------------------------------------------------------------
// Times of day
// ---------------------------------------------------------------------------

/// The position of the first `:` in `s`, or `s.len()` when there is none.
pub open spec fn first_colon(s: Seq<char>) -> int
    decreases s.len(),
{
    if s.len() == 0 {
        0
    } else if s[0] == ':' {
        0
    } else {
        1 + first_colon(s.drop_first())
    }
}

/// The pieces of `s` between `:` separators, as `str::split(':')` yields them.
pub open spec fn colon_fields(s: Seq<char>) -> Seq<Seq<char>>
    decreases s.len(),
{
    let i = first_colon(s);
    if i >= s.len() {
        seq![s]
    } else {
        proof {
            lemma_first_colon_bounds(s);
        }
        seq![s.take(i)] + colon_fields(s.skip(i + 1))
    }
}

/// The field count that a time needs before its reading stops: reading goes
/// field by field and stops at the first field that is not a number.
pub open spec fn time_fields_needed(fields: Seq<Seq<char>>) -> nat {
    if spec_parse_u32(fields[0]) is Err {
        1
    } else if fields.len() < 2 || spec_parse_u32(fields[1]) is Err {
        2
    } else {
        3
    }
}

/// The number of seconds that `h:m:s` stands for.
pub open spec fn seconds_of(h: u32, m: u32, s: u32) -> int {
    h * 3600 + m * 60 + s
}

/// `true` on the texts on which reading a time cannot complete: a field is
/// missing before a number fails to parse, or the seconds exceed `u32`.
pub open spec fn spec_time_panics(value: Seq<char>) -> bool {
    let fields = colon_fields(value);
    ||| fields.len() < time_fields_needed(fields)
    ||| (fields.len() >= 3 && spec_parse_u32(fields[0]) is Ok && spec_parse_u32(fields[1]) is Ok
        && spec_parse_u32(fields[2]) is Ok && seconds_of(
        spec_parse_u32(fields[0])->Ok_0,
        spec_parse_u32(fields[1])->Ok_0,
        spec_parse_u32(fields[2])->Ok_0,
    ) > u32::MAX)
}

/// The time of day that a `HH:MM:SS` field stands for, in seconds; each field
/// is read as `str::parse::<u32>` reads it and fields after the third are
/// not read.
pub open spec fn spec_deserialize_time(value: Seq<char>) -> Result<u32, NumberError> {
    let fields = colon_fields(value);
    match spec_parse_u32(fields[0]) {
        Err(e) => Err(e),
        Ok(h) => match spec_parse_u32(fields[1]) {
            Err(e) => Err(e),
            Ok(m) => match spec_parse_u32(fields[2]) {
                Err(e) => Err(e),
                Ok(s) => Ok(seconds_of(h, m, s) as u32),
            },
        },
    }
}

pub proof fn lemma_first_colon_bounds(s: Seq<char>)
    ensures
        0 <= first_colon(s) <= s.len(),
        first_colon(s) < s.len() ==> s[first_colon(s)] == ':',
        forall|j: int| 0 <= j < first_colon(s) ==> s[j] != ':',
    decreases s.len(),
{
    if s.len() > 0 && s[0] != ':' {
        lemma_first_colon_bounds(s.drop_first());
        assert forall|j: int| 0 <= j < first_colon(s) implies s[j] != ':' by {
            if j > 0 {
                assert(s[j] == s.drop_first()[j - 1]);
            }
        }
    }
}

proof fn lemma_colon_fields_nonempty(s: Seq<char>)
    ensures
        colon_fields(s).len() >= 1,
        colon_fields(s)[0] == s.take(first_colon(s)),
        first_colon(s) < s.len() ==> colon_fields(s).drop_first() == colon_fields(s.skip(first_colon(s) + 1)),
        first_colon(s) >= s.len() ==> colon_fields(s).len() == 1,
    decreases s.len(),
{
    lemma_first_colon_bounds(s);
    let i = first_colon(s);
    if i >= s.len() {
        assert(s.take(i) =~= s);
    } else {
        lemma_colon_fields_nonempty(s.skip(i + 1));
        assert((seq![s.take(i)] + colon_fields(s.skip(i + 1))).drop_first() =~= colon_fields(s.skip(i + 1)));
    }
}

/// The position of the first `:` in `cs[from..]`, or `cs.len()`.
fn find_colon(cs: &Vec<char>, from: usize) -> (pos: usize)
    requires
        from <= cs@.len(),
    ensures
        pos == from + first_colon(cs@.skip(from as int)),
{
    let mut i = from;
    proof { lemma_first_colon_bounds(cs@.skip(from as int)); }
    while i < cs.len()
        invariant
            from <= i <= cs@.len(),
            forall|j: int| from <= j < i ==> cs@[j] != ':',
        decreases cs.len() - i,
    {
        if cs[i] == ':' {
            proof { lemma_first_colon_is(cs@.skip(from as int), (i - from) as int); }
            return i;
        }
        i += 1;
    }
    proof { lemma_first_colon_is(cs@.skip(from as int), (i - from) as int); }
    i
}

proof fn lemma_first_colon_is(s: Seq<char>, k: int)
    requires
        0 <= k <= s.len(),
        forall|j: int| 0 <= j < k ==> s[j] != ':',
        k < s.len() ==> s[k] == ':',
    ensures
        first_colon(s) == k,
    decreases s.len(),
{
    if s.len() > 0 && k > 0 {
        assert forall|j: int| 0 <= j < k - 1 implies s.drop_first()[j] != ':' by {
            assert(s[j + 1] != ':');
        }
        lemma_first_colon_is(s.drop_first(), k - 1);
    }
}

/// One `:`-separated field of `cs`, starting at `from`: its end, and where
/// the next field starts when a `:` follows.
proof fn lemma_field_at(cs: Seq<char>, from: int)
    requires
        0 <= from <= cs.len(),
    ensures
        ({
            let rest = cs.skip(from);
            let end = from + first_colon(rest);
            &&& colon_fields(rest)[0] == cs.subrange(from, end)
            &&& from <= end <= cs.len()
            &&& end < cs.len() ==> colon_fields(rest).drop_first() == colon_fields(cs.skip(end + 1))
            &&& end >= cs.len() ==> colon_fields(rest).len() == 1
        }),
{
    let rest = cs.skip(from);
    lemma_colon_fields_nonempty(rest);
    lemma_first_colon_bounds(rest);
    let i = first_colon(rest);
    assert(rest.take(i) =~= cs.subrange(from, from + i));
    if from + i < cs.len() {
        assert(rest.skip(i + 1) =~= cs.skip(from + i + 1));
    }
}

/// `true` when reading `value` as a time of day cannot complete (see
/// `spec_time_panics`).
pub fn deserialize_time_panics(value: &str) -> (panics: bool)
    ensures
        panics == spec_time_panics(value@),
{
    let cs = chars_of(value);
    match read_time_fields(&cs) {
        TimeFields::Missing => true,
        TimeFields::Refused(_) => false,
        TimeFields::Read(h, m, s) => (h as u64) * 3600 + (m as u64) * 60 + (s as u64) > 4294967295u64,
    }
}

/// Reads a `HH:MM:SS` time of day as a number of seconds.
pub fn deserialize_time(value: &str) -> (res: Result<u32, NumberError>)
    requires
        !spec_time_panics(value@),
    ensures
        res == spec_deserialize_time(value@),
{
    let cs = chars_of(value);
    match read_time_fields(&cs) {
        TimeFields::Missing => Err(NumberError::Empty),
        TimeFields::Refused(e) => Err(e),
        TimeFields::Read(h, m, s) => Ok(h * 3600 + m * 60 + s),
    }
}

/// The first three fields of a time, read as numbers.
enum TimeFields {
    Missing,
    Refused(NumberError),
    Read(u32, u32, u32),
}

fn read_time_fields(cs: &Vec<char>) -> (res: TimeFields)
    ensures
        ({
            let fields = colon_fields(cs@);
            match res {
                TimeFields::Missing => fields.len() < time_fields_needed(fields),
                TimeFields::Refused(e) => fields.len() >= time_fields_needed(fields)
                    && spec_deserialize_time(cs@) == Err::<u32, NumberError>(e),
                TimeFields::Read(h, m, s) => fields.len() >= 3
                    && spec_parse_u32(fields[0]) == Ok::<u32, NumberError>(h)
                    && spec_parse_u32(fields[1]) == Ok::<u32, NumberError>(m)
                    && spec_parse_u32(fields[2]) == Ok::<u32, NumberError>(s),
            }
        }),
{
    let ghost f0 = colon_fields(cs@);
    proof {
        lemma_field_at(cs@, 0);
        assert(cs@.skip(0) =~= cs@);
    }
    let end0 = find_colon(cs, 0);
    let h = match parse_u32_chars(cs, 0, end0) {
        Ok(v) => v,
        Err(e) => return TimeFields::Refused(e),
    };
    if end0 >= cs.len() {
        return TimeFields::Missing;
    }
    let from1 = end0 + 1;
    let ghost f1 = colon_fields(cs@.skip(from1 as int));
    proof {
        lemma_field_at(cs@, from1 as int);
        assert(f0.drop_first() == f1);
        assert(f0[1] == f1[0]);
    }
    let end1 = find_colon(cs, from1);
    let m = match parse_u32_chars(cs, from1, end1) {
        Ok(v) => v,
        Err(e) => return TimeFields::Refused(e),
    };
    if end1 >= cs.len() {
        return TimeFields::Missing;
    }
    let from2 = end1 + 1;
    let ghost f2 = colon_fields(cs@.skip(from2 as int));
    proof {
        lemma_field_at(cs@, from2 as int);
        assert(f1.drop_first() == f2);
        assert(f0[2] == f2[0]);
    }
    let end2 = find_colon(cs, from2);
    let s = match parse_u32_chars(cs, from2, end2) {
        Ok(v) => v,
        Err(e) => return TimeFields::Refused(e),
    };
    TimeFields::Read(h, m, s)
}

/// The fields of `a:b` are `a` followed by the fields of `b`, when `a` holds
/// no `:`.
proof fn lemma_colon_fields_cons(a: Seq<char>, b: Seq<char>)
    requires
        forall|j: int| 0 <= j < a.len() ==> a[j] != ':',
    ensures
        colon_fields(a + seq![':'] + b) == seq![a] + colon_fields(b),
{
    let s = a + seq![':'] + b;
    assert forall|j: int| 0 <= j < a.len() implies s[j] != ':' by {
        assert(s[j] == a[j]);
    }
    assert(s[a.len() as int] == ':');
    lemma_first_colon_is(s, a.len() as int);
    assert(s.take(a.len() as int) =~= a);
    assert(s.skip(a.len() as int + 1) =~= b);
}

/// A time written `h:m:s`, each field a number without `:` and possibly more
/// `:`-separated fields after the seconds, stands for `h * 3600 + m * 60 + s`
/// seconds; it can be read exactly when that number fits in a `u32`.
pub proof fn lemma_time_of_fields(hours: Seq<char>, minutes: Seq<char>, secs: Seq<char>, tail: Seq<char>, h: u32, m: u32, s: u32)
    requires
        forall|j: int| 0 <= j < hours.len() ==> hours[j] != ':',
        forall|j: int| 0 <= j < minutes.len() ==> minutes[j] != ':',
        forall|j: int| 0 <= j < secs.len() ==> secs[j] != ':',
        tail.len() == 0 || tail[0] == ':',
        spec_parse_u32(hours) == Ok::<u32, NumberError>(h),
        spec_parse_u32(minutes) == Ok::<u32, NumberError>(m),
        spec_parse_u32(secs) == Ok::<u32, NumberError>(s),
    ensures
        ({
            let value = hours + seq![':'] + minutes + seq![':'] + secs + tail;
            &&& !spec_time_panics(value) <==> h * 3600 + m * 60 + s <= u32::MAX
            &&& h * 3600 + m * 60 + s <= u32::MAX ==> spec_deserialize_time(value)
                == Ok::<u32, NumberError>((h * 3600 + m * 60 + s) as u32)
        }),
{
    let value = hours + seq![':'] + minutes + seq![':'] + secs + tail;
    let last = secs + tail;
    assert(value =~= hours + seq![':'] + (minutes + seq![':'] + last));
    lemma_colon_fields_cons(hours, minutes + seq![':'] + last);
    lemma_colon_fields_cons(minutes, last);
    if tail.len() == 0 {
        assert(last =~= secs);
        lemma_first_colon_is(secs, secs.len() as int);
        assert(secs.take(secs.len() as int) =~= secs);
        assert(colon_fields(last) == seq![secs]);
    } else {
        assert(last =~= secs + seq![':'] + tail.skip(1));
        lemma_colon_fields_cons(secs, tail.skip(1));
    }
    let fields = colon_fields(value);
    assert(fields[0] == hours);
    assert(fields[1] == minutes);
    assert(fields[2] == secs);
    assert(fields.len() >= 3);
}

/// The endpoints of each trip, by trip id.
pub type TripEndpoints = StringHashMap<Endpoints>;

// ---------------------------------------------------------------------------
// Endpoints of the trips
// ---------------------------------------------------------------------------

/// For each trip of `stop_times`, the stop of its first stop time and the
/// stop of its last, reading the stop times in order.
pub open spec fn endpoints_of(stop_times: Seq<StopTime>) -> Map<Seq<char>, (Seq<char>, Seq<char>)>
    decreases stop_times.len(),
{
    if stop_times.len() == 0 {
        Map::empty()
    } else {
        let earlier = endpoints_of(stop_times.drop_last());
        let last = stop_times.last();
        if earlier.contains_key(last.trip_id@) {
            earlier.insert(last.trip_id@, (earlier[last.trip_id@].0, last.stop_id@))
        } else {
            earlier.insert(last.trip_id@, (last.stop_id@, last.stop_id@))
        }
    }
}

/// `true` when some stop time of `stop_times` belongs to trip `trip`.
pub open spec fn has_trip(stop_times: Seq<StopTime>, trip: Seq<char>) -> bool {
    exists|i: int| 0 <= i < stop_times.len() && stop_times[i].trip_id@ == trip
}

/// `i` is the first stop time of trip `trip`.
pub open spec fn is_first_of(stop_times: Seq<StopTime>, trip: Seq<char>, i: int) -> bool {
    &&& 0 <= i < stop_times.len()
    &&& stop_times[i].trip_id@ == trip
    &&& forall|j: int| 0 <= j < i ==> stop_times[j].trip_id@ != trip
}

/// `i` is the last stop time of trip `trip`.
pub open spec fn is_last_of(stop_times: Seq<StopTime>, trip: Seq<char>, i: int) -> bool {
    &&& 0 <= i < stop_times.len()
    &&& stop_times[i].trip_id@ == trip
    &&& forall|j: int| i < j < stop_times.len() ==> stop_times[j].trip_id@ != trip
}

/// Every trip that has stop times has endpoints, and no other: the origin of
/// a trip is the stop of its first stop time, its destination the stop of
/// its last.
pub proof fn lemma_endpoints_first_last(stop_times: Seq<StopTime>, trip: Seq<char>)
    ensures
        endpoints_of(stop_times).contains_key(trip) <==> has_trip(stop_times, trip),
        forall|i: int| #[trigger] is_first_of(stop_times, trip, i)
            ==> endpoints_of(stop_times)[trip].0 == stop_times[i].stop_id@,
        forall|i: int| #[trigger] is_last_of(stop_times, trip, i)
            ==> endpoints_of(stop_times)[trip].1 == stop_times[i].stop_id@,
    decreases stop_times.len(),
{
    if stop_times.len() > 0 {
        let earlier = stop_times.drop_last();
        let n = stop_times.len() - 1;
        lemma_endpoints_first_last(earlier, trip);
        if has_trip(earlier, trip) {
            let i = choose|i: int| 0 <= i < earlier.len() && earlier[i].trip_id@ == trip;
            assert(stop_times[i].trip_id@ == trip);
        }
        if has_trip(stop_times, trip) && stop_times.last().trip_id@ != trip {
            let i = choose|i: int| 0 <= i < stop_times.len() && stop_times[i].trip_id@ == trip;
            assert(earlier[i].trip_id@ == trip);
        }
        if stop_times.last().trip_id@ == trip {
            assert(stop_times[n].trip_id@ == trip);
        }
        assert forall|i: int| #[trigger] is_first_of(stop_times, trip, i)
            implies endpoints_of(stop_times)[trip].0 == stop_times[i].stop_id@ by {
            if i < n {
                assert(is_first_of(earlier, trip, i));
            } else if has_trip(earlier, trip) {
                let k = choose|k: int| 0 <= k < earlier.len() && earlier[k].trip_id@ == trip;
                assert(stop_times[k].trip_id@ == trip);
            }
        }
        assert forall|i: int| #[trigger] is_last_of(stop_times, trip, i)
            implies endpoints_of(stop_times)[trip].1 == stop_times[i].stop_id@ by {
            if i < n {
                assert(stop_times[n].trip_id@ != trip);
                assert(is_last_of(earlier, trip, i));
            }
        }
    }
}

/// The view of a map of endpoints: origin and destination of each trip.
pub open spec fn endpoints_view(m: Map<Seq<char>, Endpoints>) -> Map<Seq<char>, (Seq<char>, Seq<char>)> {
    Map::new(|k: Seq<char>| m.contains_key(k), |k: Seq<char>| (m[k].origin@, m[k].destination@))
}

/// Keeps the stop times and records, for each trip, the stop it starts from
/// and the stop it ends at.
pub fn parse_stop_times(stop_times: Vec<StopTime>) -> (res: (Vec<StopTime>, TripEndpoints))
    ensures
        res.0@ == stop_times@,
        endpoints_view(res.1@) == endpoints_of(stop_times@),
{
    let mut endpoints: StringHashMap<Endpoints> = StringHashMap::new();
    let mut i: usize = 0;
    while i < stop_times.len()
        invariant
            i <= stop_times@.len(),
            endpoints_view(endpoints@) == endpoints_of(stop_times@.take(i as int)),
        decreases stop_times.len() - i,
    {
        let stop_time = &stop_times[i];
        let ghost before = endpoints_of(stop_times@.take(i as int));
        proof {
            assert(stop_times@.take(i as int + 1).drop_last() =~= stop_times@.take(i as int));
            assert(stop_times@.take(i as int + 1).last() == stop_times@[i as int]);
        }
        let found = match endpoints.get(stop_time.trip_id.as_str()) {
            Some(known) => Some(known.origin.clone()),
            None => None,
        };
        match found {
            Some(origin) => {
                endpoints.insert(
                    stop_time.trip_id.clone(),
                    Endpoints { origin, destination: stop_time.stop_id.clone() },
                );
            },
            None => {
                endpoints.insert(stop_time.trip_id.clone(), Endpoints::new(stop_time.stop_id.clone()));
            },
        }
        i += 1;
        proof {
            assert(endpoints_view(endpoints@) =~= endpoints_of(stop_times@.take(i as int)));
        }
    }
    proof {
        assert(stop_times@.take(i as int) =~= stop_times@);
    }
    (stop_times, endpoints)
}

} // verus!
