//! The stop points of a journey pattern (`pointsInSequence`).

use crate::xml::{
    attribute_child, children, deep_result, extends, get_attribute, is_named, lemma_no_step, missing_id,
    parse_list, parse_tag, since, spec_get_attribute, ChildHandler, ElementList, Obs, Parse, ParseError,
    XmlStream, XmlTag,
};
use vstd::prelude::*;
use vstd::string::StringSliceAdditionalSpecFns;

verus! {

/// A `StopPointInJourneyPattern` element.
#[derive(Debug, Clone, PartialEq, Eq)]
pub struct NeTExStopPointInJourneyPattern {
    pub id: String,
    /// The `ref` of the `ScheduledStopPointRef` child, empty when absent.
    pub scheduled_stop_point_id: String,
}

pub struct NeTExStopPointInJourneyPatternView {
    pub id: Seq<char>,
    pub scheduled_stop_point_id: Seq<char>,
}

impl DeepView for NeTExStopPointInJourneyPattern {
    type V = NeTExStopPointInJourneyPatternView;

    open spec fn deep_view(&self) -> NeTExStopPointInJourneyPatternView {
        NeTExStopPointInJourneyPatternView { id: self.id@, scheduled_stop_point_id: self.scheduled_stop_point_id@ }
    }
}

/// A stop point of a journey pattern, as a table row.
#[derive(Debug, Clone, PartialEq, Eq)]
pub struct StopPointInJourneyPattern {
    pub id: String,
    pub journey_pattern_id: String,
    pub scheduled_stop_point_id: String,
}

pub struct StopPointInJourneyPatternView {
    pub id: Seq<char>,
    pub journey_pattern_id: Seq<char>,
    pub scheduled_stop_point_id: Seq<char>,
}

impl DeepView for StopPointInJourneyPattern {
    type V = StopPointInJourneyPatternView;

    open spec fn deep_view(&self) -> StopPointInJourneyPatternView {
        StopPointInJourneyPatternView {
            id: self.id@,
            journey_pattern_id: self.journey_pattern_id@,
            scheduled_stop_point_id: self.scheduled_stop_point_id@,
        }
    }
}

/// The error of a reference without `ref`.
pub open spec fn missing_ref() -> ParseError {
    ParseError::MissingAttribute("ref not found")
}

/// A `ScheduledStopPointRef` child sets the scheduled stop point to its
/// `ref` attribute and keeps the id, and fails without one; any other child
/// changes nothing and takes no step.
pub proof fn lemma_stop_point_child(acc: NeTExStopPointInJourneyPatternView, child: XmlTag, obs: Seq<Obs>)
    ensures
        child.name@ == "ScheduledStopPointRef".spec_bytes() ==> NeTExStopPointInJourneyPattern::spec_handle(acc, child, obs)
            == match spec_get_attribute(child, "ref".spec_bytes()) {
            Some(r) => Some((Ok::<NeTExStopPointInJourneyPatternView, ParseError>(NeTExStopPointInJourneyPatternView { id: acc.id, scheduled_stop_point_id: r }), 0nat)),
            None => Some((Err::<NeTExStopPointInJourneyPatternView, ParseError>(missing_ref()), 0nat)),
        },
        child.name@ != "ScheduledStopPointRef".spec_bytes() ==> NeTExStopPointInJourneyPattern::spec_handle(acc, child, obs)
            == Some((Ok::<NeTExStopPointInJourneyPatternView, ParseError>(acc), 0nat)),
{
}

impl ChildHandler for NeTExStopPointInJourneyPattern {
    open spec fn spec_handle(acc: NeTExStopPointInJourneyPatternView, child: XmlTag, obs: Seq<Obs>) -> Option<
        (Result<NeTExStopPointInJourneyPatternView, ParseError>, nat),
    > {
        if child.name@ == "ScheduledStopPointRef".spec_bytes() {
            attribute_child(
                child,
                "ref".spec_bytes(),
                missing_ref(),
                acc,
                |a: NeTExStopPointInJourneyPatternView, v: Seq<char>| NeTExStopPointInJourneyPatternView { scheduled_stop_point_id: v, ..a },
            )
        } else {
            Some((Ok(acc), 0))
        }
    }

    fn handle(self, stream: &mut XmlStream, child: &XmlTag) -> (res: Result<Self, ParseError>) {
        proof { lemma_no_step(stream.trace()); }
        let mut point = self;
        if is_named(child, "ScheduledStopPointRef") {
            match get_attribute(child, "ref".as_bytes()) {
                Some(id) => {
                    point.scheduled_stop_point_id = id;
                    Ok(point)
                },
                None => Err(ParseError::MissingAttribute("ref not found")),
            }
        } else {
            Ok(point)
        }
    }
}

/// A `StopPointInJourneyPattern` read from an element carries the `id` of its start tag.
pub proof fn lemma_stop_point_in_journey_pattern_keeps_id(e: XmlTag, obs: Seq<Obs>)
    ensures
        <NeTExStopPointInJourneyPattern as Parse>::spec_parse(e, obs) matches Some((Ok(v), _)) ==> spec_get_attribute(e, "id".spec_bytes()) == Some(v.id),
{
    if let Some(id) = spec_get_attribute(e, "id".spec_bytes()) {
        let keep = |r: NeTExStopPointInJourneyPatternView| r.id == id;
        assert forall|a: NeTExStopPointInJourneyPatternView, c: XmlTag, o: Seq<Obs>| #[trigger] crate::xml::handle_keeps::<NeTExStopPointInJourneyPattern>(keep, a, c, o) by {}
        crate::xml::lemma_children_keep::<NeTExStopPointInJourneyPattern>(obs, Some("StopPointInJourneyPattern".spec_bytes()), true, NeTExStopPointInJourneyPatternView { id, scheduled_stop_point_id: Seq::empty() }, keep);
    }
}

impl Parse for NeTExStopPointInJourneyPattern {
    open spec fn element_name() -> Seq<u8> {
        "StopPointInJourneyPattern".spec_bytes()
    }

    fn tag_name() -> (name: &'static str) {
        "StopPointInJourneyPattern"
    }

    open spec fn accepts(e: XmlTag) -> bool {
        true
    }

    fn can_parse(e: &XmlTag) -> (res: bool) {
        true
    }

    open spec fn spec_parse(e: XmlTag, obs: Seq<Obs>) -> Option<(Result<NeTExStopPointInJourneyPatternView, ParseError>, nat)> {
        match spec_get_attribute(e, "id".spec_bytes()) {
            Some(id) => children::<NeTExStopPointInJourneyPattern>(
                obs,
                Some("StopPointInJourneyPattern".spec_bytes()),
                true,
                NeTExStopPointInJourneyPatternView { id, scheduled_stop_point_id: Seq::empty() },
            ),
            None => Some((Err(missing_id()), 0)),
        }
    }

    /// Reads a `StopPointInJourneyPattern`; its start tag must have an `id`.
    fn parse(stream: &mut XmlStream, e: &XmlTag) -> (res: Result<Self, ParseError>) {
        let ghost t0 = stream.trace();
        let id = match get_attribute(e, "id".as_bytes()) {
            Some(id) => id,
            None => {
                proof { lemma_no_step(t0); }
                return Err(ParseError::MissingAttribute("id not found"));
            },
        };
        let point = NeTExStopPointInJourneyPattern { id, scheduled_stop_point_id: String::new() };
        proof {
            assert(point.deep_view() == NeTExStopPointInJourneyPatternView { id: point.id@, scheduled_stop_point_id: Seq::<char>::empty() });
        }
        parse_tag(stream, "StopPointInJourneyPattern".as_bytes(), point)
    }
}

/// Reads the stop points of a `pointsInSequence` element, in order.
pub fn parse_stop_points_in_journey_pattern(stream: &mut XmlStream) -> (res: Result<Vec<NeTExStopPointInJourneyPattern>, ParseError>)
    ensures
        extends(old(stream).trace(), final(stream).trace()),
        final(stream).input() == old(stream).input(),
        final(stream).budget() <= old(stream).budget(),
        forall|rest: Seq<Obs>|
            #[trigger] children::<ElementList<NeTExStopPointInJourneyPattern>>(
                since(final(stream).trace(), old(stream).trace()) + rest,
                Some("pointsInSequence".spec_bytes()),
                true,
                Seq::empty(),
            ) == Some((deep_result(res), since(final(stream).trace(), old(stream).trace()).len())),
{
    parse_list::<NeTExStopPointInJourneyPattern>(stream, "pointsInSequence".as_bytes())
}

} // verus!
