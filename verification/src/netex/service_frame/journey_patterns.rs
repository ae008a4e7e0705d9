//! Journey patterns (`journeyPatterns`), as rows of two tables.

use crate::netex::journey_pattern::{spec_rows, JourneyPattern, JourneyPatternView, NeTExJourneyPattern};
use crate::netex::stop_point_in_journey_pattern::{StopPointInJourneyPattern, StopPointInJourneyPatternView};
use crate::xml::{
    children, deep_result, extends, is_named, lemma_no_step, parse_tag, since, ChildHandler, Obs, Parse,
    ParseError, XmlStream, XmlTag,
};
use vstd::prelude::*;
use vstd::string::StringSliceAdditionalSpecFns;

verus! {

/// The rows of the journey patterns read so far: one per pattern, and one
/// per stop point of a pattern.
#[derive(Debug, Clone, PartialEq, Eq)]
pub struct JourneyPatternRows {
    pub journey_patterns: Vec<JourneyPattern>,
    pub stop_points_in_journey_pattern: Vec<StopPointInJourneyPattern>,
}

impl DeepView for JourneyPatternRows {
    type V = (Seq<JourneyPatternView>, Seq<StopPointInJourneyPatternView>);

    open spec fn deep_view(&self) -> (Seq<JourneyPatternView>, Seq<StopPointInJourneyPatternView>) {
        (self.journey_patterns.deep_view(), self.stop_points_in_journey_pattern.deep_view())
    }
}

impl ChildHandler for JourneyPatternRows {
    open spec fn spec_handle(
        acc: (Seq<JourneyPatternView>, Seq<StopPointInJourneyPatternView>),
        child: XmlTag,
        obs: Seq<Obs>,
    ) -> Option<(Result<(Seq<JourneyPatternView>, Seq<StopPointInJourneyPatternView>), ParseError>, nat)> {
        if child.name@ == "ServiceJourneyPattern".spec_bytes() {
            match NeTExJourneyPattern::spec_parse(child, obs) {
                Some((Ok(p), n)) => Some((Ok((acc.0.push(spec_rows(p).0), acc.1 + spec_rows(p).1)), n)),
                Some((Err(e), n)) => Some((Err(e), n)),
                None => None,
            }
        } else {
            Some((Ok(acc), 0))
        }
    }

    fn handle(self, stream: &mut XmlStream, child: &XmlTag) -> (res: Result<Self, ParseError>) {
        let ghost t0 = stream.trace();
        let mut rows = self;
        if is_named(child, "ServiceJourneyPattern") {
            match NeTExJourneyPattern::parse(stream, child) {
                Ok(pattern) => {
                    let ghost before = rows.deep_view();
                    let (journey_pattern, mut points) = JourneyPattern::from(pattern);
                    let ghost points_view = points.deep_view();
                    let ghost points_before = rows.stop_points_in_journey_pattern@;
                    let ghost points_added = points@;
                    rows.journey_patterns.push(journey_pattern);
                    rows.stop_points_in_journey_pattern.append(&mut points);
                    proof {
                        assert(rows.journey_patterns.deep_view() =~= before.0.push(journey_pattern.deep_view()));
                        assert(rows.stop_points_in_journey_pattern@ == points_before + points_added);
                        assert(rows.stop_points_in_journey_pattern.deep_view() =~= before.1 + points_view);
                    }
                    Ok(rows)
                },
                Err(e) => Err(e),
            }
        } else {
            proof { lemma_no_step(t0); }
            Ok(rows)
        }
    }
}

/// Reading a `ServiceJourneyPattern` child keeps every row produced before
/// and adds, after them, the pattern's row and one row per stop point of the
/// pattern, in order, each naming the pattern; it fails exactly when
/// reading the pattern fails. Any other child changes nothing and takes no
/// step.
pub proof fn lemma_pattern_rows_appended(
    acc: (Seq<JourneyPatternView>, Seq<StopPointInJourneyPatternView>),
    child: XmlTag,
    obs: Seq<Obs>,
)
    ensures
        child.name@ != "ServiceJourneyPattern".spec_bytes() ==> JourneyPatternRows::spec_handle(acc, child, obs)
            == Some((Ok::<(Seq<JourneyPatternView>, Seq<StopPointInJourneyPatternView>), ParseError>(acc), 0nat)),
        child.name@ == "ServiceJourneyPattern".spec_bytes() ==> match NeTExJourneyPattern::spec_parse(child, obs) {
            Some((Ok(p), n)) => JourneyPatternRows::spec_handle(acc, child, obs) matches Some((Ok(v), m)) && {
                let points = p.stop_points_in_journey_pattern;
                &&& m == n
                &&& v.0.len() == acc.0.len() + 1
                &&& v.0.take(acc.0.len() as int) == acc.0
                &&& v.0.last() == JourneyPatternView { id: p.id, route_id: p.route_id }
                &&& v.1.len() == acc.1.len() + points.len()
                &&& v.1.take(acc.1.len() as int) == acc.1
                &&& forall|i: int| 0 <= i < points.len() ==> #[trigger] v.1[acc.1.len() + i]
                    == (StopPointInJourneyPatternView {
                        id: points[i].id,
                        journey_pattern_id: p.id,
                        scheduled_stop_point_id: points[i].scheduled_stop_point_id,
                    })
            },
            Some((Err(e), n)) => JourneyPatternRows::spec_handle(acc, child, obs) == Some((
                Err::<(Seq<JourneyPatternView>, Seq<StopPointInJourneyPatternView>), ParseError>(e),
                n,
            )),
            None => JourneyPatternRows::spec_handle(acc, child, obs) is None,
        },
{
    if child.name@ == "ServiceJourneyPattern".spec_bytes() {
        if let Some((Ok(p), n)) = NeTExJourneyPattern::spec_parse(child, obs) {
            let v = (acc.0.push(spec_rows(p).0), acc.1 + spec_rows(p).1);
            assert(v.0.take(acc.0.len() as int) =~= acc.0);
            assert(v.1.take(acc.1.len() as int) =~= acc.1);
            assert forall|i: int| 0 <= i < p.stop_points_in_journey_pattern.len() implies #[trigger] v.1[acc.1.len() + i]
                == (StopPointInJourneyPatternView {
                    id: p.stop_points_in_journey_pattern[i].id,
                    journey_pattern_id: p.id,
                    scheduled_stop_point_id: p.stop_points_in_journey_pattern[i].scheduled_stop_point_id,
                }) by {
                assert(v.1[acc.1.len() + i] == spec_rows(p).1[i]);
            }
        }
    }
}

/// Reads the `ServiceJourneyPattern` elements of a `journeyPatterns`
/// section into rows: each pattern adds its row, then the rows of its stop
/// points.
pub fn parse(stream: &mut XmlStream) -> (res: Result<JourneyPatternRows, ParseError>)
    ensures
        extends(old(stream).trace(), final(stream).trace()),
        final(stream).input() == old(stream).input(),
        final(stream).budget() <= old(stream).budget(),
        forall|rest: Seq<Obs>|
            #[trigger] children::<JourneyPatternRows>(
                since(final(stream).trace(), old(stream).trace()) + rest,
                Some("journeyPatterns".spec_bytes()),
                true,
                (Seq::empty(), Seq::empty()),
            ) == Some((deep_result(res), since(final(stream).trace(), old(stream).trace()).len())),
{
    let rows = JourneyPatternRows { journey_patterns: Vec::new(), stop_points_in_journey_pattern: Vec::new() };
    proof {
        assert(rows.deep_view().0 =~= Seq::<JourneyPatternView>::empty());
        assert(rows.deep_view().1 =~= Seq::<StopPointInJourneyPatternView>::empty());
    }
    parse_tag(stream, "journeyPatterns".as_bytes(), rows)
}

} // verus!
