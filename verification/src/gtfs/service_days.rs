//! Service calendars of a GTFS feed (`calendar_dates.txt`).

use std::collections::HashMap;
use vstd::prelude::*;

verus! {

broadcast use {
    vstd::std_specs::hash::group_hash_axioms,
    vstd::std_specs::hash::axiom_u32_obeys_hash_table_key_model,
    vstd::std_specs::hash::axiom_random_state_builds_valid_hashers,
};

/// A date on which a service runs.
#[derive(Debug, Clone, PartialEq, Eq)]
pub struct ServiceDay {
    pub service_id: u32,
    pub date: String,
}

/// A service, known by its identifier.
#[derive(Debug, Clone, PartialEq, Eq)]
pub struct Service {
    id: u32,
}

impl View for Service {
    type V = u32;

    closed spec fn view(&self) -> u32 {
        self.id
    }
}

impl Service {
    /// The service with identifier `id`.
    pub fn new(id: u32) -> (service: Self)
        ensures
            service@ == id,
    {
        Self { id }
    }

    /// The identifier of the service.
    pub fn id(&self) -> (id: u32)
        ensures
            id == self@,
    {
        self.id
    }
}

/// The days of `days` that belong to service `id`, in their order.
pub open spec fn days_of_service(days: Seq<ServiceDay>, id: u32) -> Seq<ServiceDay>
    decreases days.len(),
{
    if days.len() == 0 {
        Seq::empty()
    } else {
        let earlier = days_of_service(days.drop_last(), id);
        if days.last().service_id == id {
            earlier.push(days.last())
        } else {
            earlier
        }
    }
}

/// `true` when some day of `days` belongs to service `id`.
pub open spec fn has_service(days: Seq<ServiceDay>, id: u32) -> bool {
    exists|i: int| 0 <= i < days.len() && days[i].service_id == id
}

/// A service has days exactly when one of the days names it.
pub proof fn lemma_days_of_service_nonempty(days: Seq<ServiceDay>, id: u32)
    ensures
        days_of_service(days, id).len() > 0 <==> has_service(days, id),
    decreases days.len(),
{
    if days.len() > 0 {
        lemma_days_of_service_nonempty(days.drop_last(), id);
        if has_service(days.drop_last(), id) {
            let i = choose|i: int| 0 <= i < days.drop_last().len() && days.drop_last()[i].service_id == id;
            assert(days[i].service_id == id);
        }
        if has_service(days, id) && days.last().service_id != id {
            let i = choose|i: int| 0 <= i < days.len() && days[i].service_id == id;
            assert(days.drop_last()[i].service_id == id);
        }
        if days.last().service_id == id {
            assert(days[days.len() - 1].service_id == id);
        }
    }
}

/// The days of a service all belong to it, and each day of the calendar is
/// among the days of its service: the services split the calendar.
pub proof fn lemma_services_split_calendar(days: Seq<ServiceDay>, id: u32)
    ensures
        forall|j: int| 0 <= j < days_of_service(days, id).len() ==> (#[trigger] days_of_service(days, id)[j]).service_id == id,
        forall|i: int| 0 <= i < days.len() && days[i].service_id == id ==> days_of_service(days, id).contains(#[trigger] days[i]),
    decreases days.len(),
{
    if days.len() > 0 {
        let earlier = days.drop_last();
        lemma_services_split_calendar(earlier, id);
        assert forall|i: int| 0 <= i < days.len() && days[i].service_id == id implies days_of_service(days, id).contains(#[trigger] days[i]) by {
            if i < days.len() - 1 {
                assert(earlier[i] == days[i]);
                let j = choose|j: int| 0 <= j < days_of_service(earlier, id).len() && days_of_service(earlier, id)[j] == earlier[i];
                if days.last().service_id == id {
                    assert(days_of_service(days, id)[j] == days[i]);
                } else {
                    assert(days_of_service(days, id)[j] == days[i]);
                }
            } else {
                let group = days_of_service(days, id);
                assert(group[group.len() - 1] == days[i]);
            }
        }
    }
}

/// Groups the days of the calendar by service, keeping their order within
/// each service.
/// The days of a service are exactly the rows of that service, in the order
/// of the table, whatever their dates.
pub proof fn lemma_days_of_service_filter(days: Seq<ServiceDay>, id: u32)
    ensures
        days_of_service(days, id) == days.filter(|d: ServiceDay| d.service_id == id),
    decreases days.len(),
{
    reveal(Seq::filter);
    if days.len() == 0 {
        assert(days.filter(|d: ServiceDay| d.service_id == id) =~= Seq::<ServiceDay>::empty());
    } else {
        lemma_days_of_service_filter(days.drop_last(), id);
    }
}

pub fn parse_services(days: Vec<ServiceDay>) -> (services: HashMap<u32, Vec<ServiceDay>>)
    ensures
        forall|id: u32| #[trigger] services@.contains_key(id) <==> has_service(days@, id),
        forall|id: u32| #[trigger] services@.contains_key(id) ==> services@[id]@ == days_of_service(days@, id),
{
    let ghost all = days@;
    let mut services: HashMap<u32, Vec<ServiceDay>> = HashMap::new();
    for day in it: days.into_iter()
        invariant
            it.seq() == all,
            forall|id: u32| #[trigger] services@.contains_key(id) <==> days_of_service(all.take(it.index() as int), id).len() > 0,
            forall|id: u32| #[trigger] services@.contains_key(id) ==> services@[id]@ == days_of_service(all.take(it.index() as int), id),
    {
        let ghost before = all.take(it.index() as int);
        let ghost after = all.take(it.index() as int + 1);
        let id = day.service_id;
        proof {
            assert(after.drop_last() =~= before);
            assert(after.last() == day);
        }
        match services.remove(&id) {
            Some(mut group) => {
                group.push(day);
                services.insert(id, group);
            },
            None => {
                let mut group: Vec<ServiceDay> = Vec::new();
                group.push(day);
                services.insert(id, group);
            },
        }
    }
    proof {
        assert(all.take(all.len() as int) =~= all);
        assert forall|id: u32| #[trigger] services@.contains_key(id) <==> has_service(all, id) by {
            lemma_days_of_service_nonempty(all, id);
        }
    }
    services
}

} // verus!
