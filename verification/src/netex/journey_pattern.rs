//! Journey patterns (`ServiceJourneyPattern`): the sequence of stops that
//! journeys of a route serve.

use crate::netex::stop_point_in_journey_pattern::{
    missing_ref, parse_stop_points_in_journey_pattern, NeTExStopPointInJourneyPattern,
    NeTExStopPointInJourneyPatternView, StopPointInJourneyPattern, StopPointInJourneyPatternView,
};
use crate::xml::{
    attribute_child, children, deep_result, extends, get_attribute, is_named, lemma_no_step, missing_id,
    parse_tag, since, spec_get_attribute, then_set, ChildHandler, ElementList, Obs, Parse, ParseError, XmlStream,
    XmlTag,
};
use vstd::prelude::*;
use vstd::string::StringSliceAdditionalSpecFns;

verus! {

/// A `ServiceJourneyPattern` element.
#[derive(Debug, Clone, PartialEq, Eq)]
pub struct NeTExJourneyPattern {
    pub id: String,
    /// The `ref` of the `RouteRef` child, empty when absent.
    pub route_id: String,
    /// The stop points of the last `pointsInSequence` child.
    pub stop_points_in_journey_pattern: Vec<NeTExStopPointInJourneyPattern>,
}

pub struct NeTExJourneyPatternView {
    pub id: Seq<char>,
    pub route_id: Seq<char>,
    pub stop_points_in_journey_pattern: Seq<NeTExStopPointInJourneyPatternView>,
}

impl DeepView for NeTExJourneyPattern {
    type V = NeTExJourneyPatternView;

    open spec fn deep_view(&self) -> NeTExJourneyPatternView {
        NeTExJourneyPatternView {
            id: self.id@,
            route_id: self.route_id@,
            stop_points_in_journey_pattern: self.stop_points_in_journey_pattern.deep_view(),
        }
    }
}

/// A journey pattern, as a table row.
#[derive(Debug, Clone, PartialEq, Eq)]
pub struct JourneyPattern {
    pub id: String,
    pub route_id: String,
}

pub struct JourneyPatternView {
    pub id: Seq<char>,
    pub route_id: Seq<char>,
}

impl DeepView for JourneyPattern {
    type V = JourneyPatternView;

    open spec fn deep_view(&self) -> JourneyPatternView {
        JourneyPatternView { id: self.id@, route_id: self.route_id@ }
    }
}

/// A `RouteRef` child sets the route to its `ref` attribute, and fails
/// without one; a `pointsInSequence` child replaces the stop points with
/// the list read from it, and fails exactly when reading the list fails;
/// each keeps the id and the other field. Any other child changes nothing
/// and takes no step.
pub proof fn lemma_journey_pattern_child(acc: NeTExJourneyPatternView, child: XmlTag, obs: Seq<Obs>)
    ensures
        child.name@ == "RouteRef".spec_bytes() ==> NeTExJourneyPattern::spec_handle(acc, child, obs)
            == match spec_get_attribute(child, "ref".spec_bytes()) {
            Some(r) => Some((Ok::<NeTExJourneyPatternView, ParseError>(NeTExJourneyPatternView {
                id: acc.id,
                route_id: r,
                stop_points_in_journey_pattern: acc.stop_points_in_journey_pattern,
            }), 0nat)),
            None => Some((Err::<NeTExJourneyPatternView, ParseError>(missing_ref()), 0nat)),
        },
        child.name@ == "pointsInSequence".spec_bytes() ==> NeTExJourneyPattern::spec_handle(acc, child, obs)
            == match children::<ElementList<NeTExStopPointInJourneyPattern>>(obs, Some("pointsInSequence".spec_bytes()), true, Seq::empty()) {
            Some((Ok(l), n)) => Some((Ok::<NeTExJourneyPatternView, ParseError>(NeTExJourneyPatternView { id: acc.id, route_id: acc.route_id, stop_points_in_journey_pattern: l }), n)),
            Some((Err(e), n)) => Some((Err::<NeTExJourneyPatternView, ParseError>(e), n)),
            None => None,
        },
        child.name@ != "RouteRef".spec_bytes() && child.name@ != "pointsInSequence".spec_bytes()
            ==> NeTExJourneyPattern::spec_handle(acc, child, obs) == Some((Ok::<NeTExJourneyPatternView, ParseError>(acc), 0nat)),
{
    reveal_strlit("RouteRef");
    reveal_strlit("pointsInSequence");
    assert(vstd::utf8::is_ascii_chars("RouteRef"@));
    assert(vstd::utf8::is_ascii_chars("pointsInSequence"@));
    crate::xml::lemma_ascii_bytes("RouteRef");
    crate::xml::lemma_ascii_bytes("pointsInSequence");
    assert("RouteRef".spec_bytes()[0] != "pointsInSequence".spec_bytes()[0]);
}

impl ChildHandler for NeTExJourneyPattern {
    open spec fn spec_handle(acc: NeTExJourneyPatternView, child: XmlTag, obs: Seq<Obs>) -> Option<(Result<NeTExJourneyPatternView, ParseError>, nat)> {
        if child.name@ == "RouteRef".spec_bytes() {
            attribute_child(
                child,
                "ref".spec_bytes(),
                missing_ref(),
                acc,
                |a: NeTExJourneyPatternView, v: Seq<char>| NeTExJourneyPatternView { route_id: v, ..a },
            )
        } else if child.name@ == "pointsInSequence".spec_bytes() {
            then_set(
                children::<ElementList<NeTExStopPointInJourneyPattern>>(obs, Some("pointsInSequence".spec_bytes()), true, Seq::empty()),
                acc,
                |a: NeTExJourneyPatternView, l: Seq<NeTExStopPointInJourneyPatternView>| NeTExJourneyPatternView {
                    stop_points_in_journey_pattern: l,
                    ..a
                },
            )
        } else {
            Some((Ok(acc), 0))
        }
    }

    fn handle(self, stream: &mut XmlStream, child: &XmlTag) -> (res: Result<Self, ParseError>) {
        let ghost t0 = stream.trace();
        let mut pattern = self;
        if is_named(child, "RouteRef") {
            proof { lemma_no_step(t0); }
            match get_attribute(child, "ref".as_bytes()) {
                Some(id) => {
                    pattern.route_id = id;
                    Ok(pattern)
                },
                None => Err(ParseError::MissingAttribute("ref not found")),
            }
        } else if is_named(child, "pointsInSequence") {
            match parse_stop_points_in_journey_pattern(stream) {
                Ok(points) => {
                    pattern.stop_points_in_journey_pattern = points;
                    Ok(pattern)
                },
                Err(e) => Err(e),
            }
        } else {
            proof { lemma_no_step(t0); }
            Ok(pattern)
        }
    }
}

/// A `ServiceJourneyPattern` read from an element carries the `id` of its start tag.
pub proof fn lemma_journey_pattern_keeps_id(e: XmlTag, obs: Seq<Obs>)
    ensures
        <NeTExJourneyPattern as Parse>::spec_parse(e, obs) matches Some((Ok(v), _)) ==> spec_get_attribute(e, "id".spec_bytes()) == Some(v.id),
{
    if let Some(id) = spec_get_attribute(e, "id".spec_bytes()) {
        let keep = |r: NeTExJourneyPatternView| r.id == id;
        assert forall|a: NeTExJourneyPatternView, c: XmlTag, o: Seq<Obs>| #[trigger] crate::xml::handle_keeps::<NeTExJourneyPattern>(keep, a, c, o) by {}
        crate::xml::lemma_children_keep::<NeTExJourneyPattern>(obs, Some("ServiceJourneyPattern".spec_bytes()), true, NeTExJourneyPatternView { id, route_id: Seq::empty(), stop_points_in_journey_pattern: Seq::empty() }, keep);
    }
}

impl Parse for NeTExJourneyPattern {
    open spec fn element_name() -> Seq<u8> {
        "ServiceJourneyPattern".spec_bytes()
    }

    fn tag_name() -> (name: &'static str) {
        "ServiceJourneyPattern"
    }

    open spec fn accepts(e: XmlTag) -> bool {
        true
    }

    fn can_parse(e: &XmlTag) -> (res: bool) {
        true
    }

    open spec fn spec_parse(e: XmlTag, obs: Seq<Obs>) -> Option<(Result<NeTExJourneyPatternView, ParseError>, nat)> {
        match spec_get_attribute(e, "id".spec_bytes()) {
            Some(id) => children::<NeTExJourneyPattern>(
                obs,
                Some("ServiceJourneyPattern".spec_bytes()),
                true,
                NeTExJourneyPatternView { id, route_id: Seq::empty(), stop_points_in_journey_pattern: Seq::empty() },
            ),
            None => Some((Err(missing_id()), 0)),
        }
    }

    /// Reads a `ServiceJourneyPattern`; its start tag must have an `id`.
    fn parse(stream: &mut XmlStream, e: &XmlTag) -> (res: Result<Self, ParseError>) {
        let ghost t0 = stream.trace();
        let id = match get_attribute(e, "id".as_bytes()) {
            Some(id) => id,
            None => {
                proof { lemma_no_step(t0); }
                return Err(ParseError::MissingAttribute("id not found"));
            },
        };
        let pattern = NeTExJourneyPattern { id, route_id: String::new(), stop_points_in_journey_pattern: Vec::new() };
        proof {
            assert(pattern.stop_points_in_journey_pattern.deep_view() =~= Seq::<NeTExStopPointInJourneyPatternView>::empty());
        }
        parse_tag(stream, "ServiceJourneyPattern".as_bytes(), pattern)
    }
}

/// The rows of a journey pattern: the pattern itself, and each of its stop
/// points labelled with the pattern's id.
pub open spec fn spec_rows(value: NeTExJourneyPatternView) -> (JourneyPatternView, Seq<StopPointInJourneyPatternView>) {
    (
        JourneyPatternView { id: value.id, route_id: value.route_id },
        value.stop_points_in_journey_pattern.map_values(
            |p: NeTExStopPointInJourneyPatternView| StopPointInJourneyPatternView {
                id: p.id,
                journey_pattern_id: value.id,
                scheduled_stop_point_id: p.scheduled_stop_point_id,
            },
        ),
    )
}

/// A journey pattern gives one stop point row per stop point, in order,
/// each naming the pattern and keeping the stop point's id and scheduled
/// stop point.
pub proof fn lemma_rows_reference_pattern(value: NeTExJourneyPatternView)
    ensures
        spec_rows(value).0.id == value.id,
        spec_rows(value).1.len() == value.stop_points_in_journey_pattern.len(),
        forall|i: int| 0 <= i < value.stop_points_in_journey_pattern.len() ==> {
            &&& (#[trigger] spec_rows(value).1[i]).journey_pattern_id == value.id
            &&& spec_rows(value).1[i].id == value.stop_points_in_journey_pattern[i].id
            &&& spec_rows(value).1[i].scheduled_stop_point_id == value.stop_points_in_journey_pattern[i].scheduled_stop_point_id
        },
{
}

impl JourneyPattern {
    /// Splits a journey pattern into its row and the rows of its stop points.
    pub fn from(value: NeTExJourneyPattern) -> (rows: (JourneyPattern, Vec<StopPointInJourneyPattern>))
        ensures
            (rows.0.deep_view(), rows.1.deep_view()) == spec_rows(value.deep_view()),
    {
        let ghost view = value.deep_view();
        let ghost points_view = value.stop_points_in_journey_pattern.deep_view();
        let journey_pattern = JourneyPattern { id: value.id.clone(), route_id: value.route_id };
        let mut stop_points_in_journey_pattern: Vec<StopPointInJourneyPattern> = Vec::new();
        for point in it: value.stop_points_in_journey_pattern.into_iter()
            invariant
                it.seq().len() == points_view.len(),
                view.stop_points_in_journey_pattern == points_view,
                view.id == value.id@,
                forall|i: int| 0 <= i < points_view.len() ==> #[trigger] it.seq()[i].deep_view() == points_view[i],
                journey_pattern.id@ == view.id,
                stop_points_in_journey_pattern.deep_view() =~= spec_rows(view).1.take(it.index() as int),
        {
            let ghost before = stop_points_in_journey_pattern.deep_view();
            let ghost k = it.index() as int;
            proof {
                assert(it.seq()[k] == point);
                assert(point.deep_view() == points_view[k]);
            }
            let row = StopPointInJourneyPattern {
                id: point.id,
                journey_pattern_id: journey_pattern.id.clone(),
                scheduled_stop_point_id: point.scheduled_stop_point_id,
            };
            proof {
                assert(row.deep_view() == spec_rows(view).1[k]);
            }
            let ghost before_vec = stop_points_in_journey_pattern@;
            stop_points_in_journey_pattern.push(row);
            proof {
                assert(stop_points_in_journey_pattern@ == before_vec.push(row));
                assert(stop_points_in_journey_pattern.deep_view() =~= before.push(row.deep_view()));
                assert(spec_rows(view).1.take(k + 1) =~= spec_rows(view).1.take(k).push(spec_rows(view).1[k]));
            }
        }
        proof {
            assert(spec_rows(view).1.take(points_view.len() as int) =~= spec_rows(view).1);
        }
        (journey_pattern, stop_points_in_journey_pattern)
    }
}

} // verus!
