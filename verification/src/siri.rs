//! SIRI estimated timetables: the decisions taken on each event of a
//! streamed document, turning `EstimatedVehicleJourney` elements into trip
//! update rows.

use crate::text::bytes_equal;
use crate::xml::{from_utf8_lossy, utf8_lossy, XmlEvent, XmlTag};
use vstd::prelude::*;
use vstd::string::StringSliceAdditionalSpecFns;

verus! {

/// A row of the trip updates table.
#[derive(Debug, Clone, PartialEq, Eq)]
pub struct TripUpdate {
    pub date: String,
    pub trip_id: String,
    pub cancelled: bool,
}

pub struct TripUpdateView {
    pub date: Seq<char>,
    pub trip_id: Seq<char>,
    pub cancelled: bool,
}

impl DeepView for TripUpdate {
    type V = TripUpdateView;

    open spec fn deep_view(&self) -> TripUpdateView {
        TripUpdateView { date: self.date@, trip_id: self.trip_id@, cancelled: self.cancelled }
    }
}

impl TripUpdate {
    /// An update with empty fields.
    pub fn new() -> (update: Self)
        ensures
            update.deep_view() == (TripUpdateView { date: Seq::empty(), trip_id: Seq::empty(), cancelled: false }),
    {
        TripUpdate { date: String::new(), trip_id: String::new(), cancelled: false }
    }

    /// A copy of the update.
    pub fn copy(&self) -> (update: Self)
        ensures
            update.deep_view() == self.deep_view(),
    {
        TripUpdate { date: self.date.clone(), trip_id: self.trip_id.clone(), cancelled: self.cancelled }
    }
}

/// Where reading the document stands: the update being filled, and the name
/// of the last start tag other than `EstimatedVehicleJourney`.
pub struct SiriState {
    pub current_update: Option<TripUpdate>,
    pub current_tag: Option<Vec<u8>>,
}

pub struct SiriStateView {
    pub current_update: Option<TripUpdateView>,
    pub current_tag: Option<Seq<u8>>,
}

impl DeepView for SiriState {
    type V = SiriStateView;

    open spec fn deep_view(&self) -> SiriStateView {
        SiriStateView {
            current_update: self.current_update.deep_view(),
            current_tag: match self.current_tag {
                Some(t) => Some(t@),
                None => None,
            },
        }
    }
}

/// What to do after an event.
pub enum SiriAction {
    /// Read the next event.
    Continue,
    /// Write the update (possibly none) as a row, then read the next event.
    Write(Option<TripUpdate>),
    /// The document has ended.
    Stop,
}

pub enum SiriActionView {
    Continue,
    Write(Option<TripUpdateView>),
    Stop,
}

impl DeepView for SiriAction {
    type V = SiriActionView;

    open spec fn deep_view(&self) -> SiriActionView {
        match self {
            SiriAction::Continue => SiriActionView::Continue,
            SiriAction::Write(u) => SiriActionView::Write(u.deep_view()),
            SiriAction::Stop => SiriActionView::Stop,
        }
    }
}

/// The state before the first event.
pub fn initial_state() -> (state: SiriState)
    ensures
        state.deep_view() == (SiriStateView { current_update: None, current_tag: None }),
{
    SiriState { current_update: None, current_tag: None }
}

/// The decision on one event: a journey's start tag begins a fresh update;
/// another start tag becomes the current tag; text inside a
/// `DatedVehicleJourneyRef` becomes the update's trip id; a journey's end
/// tag writes the update; the end of the document stops.
pub open spec fn spec_step(state: SiriStateView, event: XmlEvent) -> (SiriStateView, SiriActionView) {
    match event {
        XmlEvent::Eof => (state, SiriActionView::Stop),
        XmlEvent::Start(t) => if t.name@ == "EstimatedVehicleJourney".spec_bytes() {
            (
                SiriStateView {
                    current_update: Some(TripUpdateView { date: Seq::empty(), trip_id: Seq::empty(), cancelled: false }),
                    ..state
                },
                SiriActionView::Continue,
            )
        } else {
            (SiriStateView { current_tag: Some(t.name@), ..state }, SiriActionView::Continue)
        },
        XmlEvent::Text(bytes) => match (state.current_update, state.current_tag) {
            (Some(u), Some(tag)) => if tag == "DatedVehicleJourneyRef".spec_bytes() {
                (
                    SiriStateView { current_update: Some(TripUpdateView { trip_id: utf8_lossy(bytes@), ..u }), ..state },
                    SiriActionView::Continue,
                )
            } else {
                (state, SiriActionView::Continue)
            },
            _ => (state, SiriActionView::Continue),
        },
        XmlEvent::End(name) => if name@ == "EstimatedVehicleJourney".spec_bytes() {
            (state, SiriActionView::Write(state.current_update))
        } else {
            (state, SiriActionView::Continue)
        },
        _ => (state, SiriActionView::Continue),
    }
}

/// Takes one event of the estimated timetable.
pub fn step(state: SiriState, event: XmlEvent) -> (res: (SiriState, SiriAction))
    ensures
        (res.0.deep_view(), res.1.deep_view()) == spec_step(state.deep_view(), event),
{
    let SiriState { current_update, current_tag } = state;
    match event {
        XmlEvent::Eof => (SiriState { current_update, current_tag }, SiriAction::Stop),
        XmlEvent::Start(t) => {
            if bytes_equal(t.name.as_slice(), "EstimatedVehicleJourney".as_bytes()) {
                (SiriState { current_update: Some(TripUpdate::new()), current_tag }, SiriAction::Continue)
            } else {
                (SiriState { current_update, current_tag: Some(t.name) }, SiriAction::Continue)
            }
        },
        XmlEvent::Text(bytes) => {
            let in_ref = match &current_tag {
                Some(tag) => bytes_equal(tag.as_slice(), "DatedVehicleJourneyRef".as_bytes()),
                None => false,
            };
            match current_update {
                Some(update) => {
                    if in_ref {
                        let trip_id = from_utf8_lossy(bytes.as_slice());
                        let update = TripUpdate { trip_id, ..update };
                        (SiriState { current_update: Some(update), current_tag }, SiriAction::Continue)
                    } else {
                        (SiriState { current_update: Some(update), current_tag }, SiriAction::Continue)
                    }
                },
                None => (SiriState { current_update: None, current_tag }, SiriAction::Continue),
            }
        },
        XmlEvent::End(name) => {
            if bytes_equal(name.as_slice(), "EstimatedVehicleJourney".as_bytes()) {
                let written = match &current_update {
                    Some(u) => Some(u.copy()),
                    None => None,
                };
                (SiriState { current_update, current_tag }, SiriAction::Write(written))
            } else {
                (SiriState { current_update, current_tag }, SiriAction::Continue)
            }
        },
        _ => (SiriState { current_update, current_tag }, SiriAction::Continue),
    }
}

/// A journey's start tag begins a fresh update (empty date, empty trip id,
/// not cancelled), whatever update the state held before; the current tag
/// is kept and nothing is written.
pub proof fn lemma_journey_start_fresh(state: SiriStateView, t: XmlTag)
    requires
        t.name@ == "EstimatedVehicleJourney".spec_bytes(),
    ensures
        spec_step(state, XmlEvent::Start(t)).0.current_update
            == Some(TripUpdateView { date: Seq::empty(), trip_id: Seq::empty(), cancelled: false }),
        spec_step(state, XmlEvent::Start(t)).0.current_tag == state.current_tag,
        spec_step(state, XmlEvent::Start(t)).1 is Continue,
{
}

/// Any other start tag becomes the current tag and leaves the update as it
/// was.
pub proof fn lemma_other_start_sets_tag(state: SiriStateView, t: XmlTag)
    requires
        t.name@ != "EstimatedVehicleJourney".spec_bytes(),
    ensures
        spec_step(state, XmlEvent::Start(t)).0.current_tag == Some(t.name@),
        spec_step(state, XmlEvent::Start(t)).0.current_update == state.current_update,
        spec_step(state, XmlEvent::Start(t)).1 is Continue,
{
}

/// Text sets the trip id of the update being filled to the decoded text when
/// the current tag is `DatedVehicleJourneyRef`, and changes nothing else;
/// any other text changes nothing.
pub proof fn lemma_text_sets_trip_id(state: SiriStateView, bytes: Vec<u8>)
    ensures
        spec_step(state, XmlEvent::Text(bytes)).1 is Continue,
        spec_step(state, XmlEvent::Text(bytes)).0.current_tag == state.current_tag,
        (state.current_update is Some && state.current_tag == Some("DatedVehicleJourneyRef".spec_bytes())) ==> {
            let u = state.current_update->Some_0;
            spec_step(state, XmlEvent::Text(bytes)).0.current_update
                == Some(TripUpdateView { date: u.date, trip_id: utf8_lossy(bytes@), cancelled: u.cancelled })
        },
        !(state.current_update is Some && state.current_tag == Some("DatedVehicleJourneyRef".spec_bytes()))
            ==> spec_step(state, XmlEvent::Text(bytes)).0.current_update == state.current_update,
{
}

/// A journey's end tag writes the update being filled and keeps the state;
/// the end of the document stops.
pub proof fn lemma_journey_end_writes(state: SiriStateView, name: Vec<u8>)
    ensures
        name@ == "EstimatedVehicleJourney".spec_bytes() ==> spec_step(state, XmlEvent::End(name))
            == (state, SiriActionView::Write(state.current_update)),
        name@ != "EstimatedVehicleJourney".spec_bytes() ==> spec_step(state, XmlEvent::End(name))
            == (state, SiriActionView::Continue),
        spec_step(state, XmlEvent::Eof) == (state, SiriActionView::Stop),
{
}

// ---------------------------------------------------------------------------
// Runs
// ---------------------------------------------------------------------------

/// Taking the events in turn from `state` up to the end of the document (or
/// of `events`): the final state and the rows written, in order.
pub open spec fn spec_run(state: SiriStateView, events: Seq<XmlEvent>) -> (SiriStateView, Seq<Option<TripUpdateView>>)
    decreases events.len(),
{
    if events.len() == 0 {
        (state, Seq::empty())
    } else {
        let (next, action) = spec_step(state, events[0]);
        match action {
            SiriActionView::Stop => (next, Seq::empty()),
            SiriActionView::Continue => spec_run(next, events.drop_first()),
            SiriActionView::Write(u) => {
                let (last, rows) = spec_run(next, events.drop_first());
                (last, seq![u] + rows)
            },
        }
    }
}

/// `true` when `event` begins or ends a journey, or ends the document.
pub open spec fn is_journey_marker(event: XmlEvent) -> bool {
    ||| event is Eof
    ||| (event matches XmlEvent::Start(t) && t.name@ == "EstimatedVehicleJourney".spec_bytes())
    ||| (event matches XmlEvent::End(name) && name@ == "EstimatedVehicleJourney".spec_bytes())
}

/// `true` when `event` is text that decodes to `text`.
pub open spec fn text_decodes_to(event: XmlEvent, text: Seq<char>) -> bool {
    match event {
        XmlEvent::Text(b) => text == utf8_lossy(b@),
        _ => false,
    }
}

/// `true` when `trip_id` is empty or is the decoded text of a text event of
/// `events`.
pub open spec fn trip_id_from(trip_id: Seq<char>, events: Seq<XmlEvent>) -> bool {
    ||| trip_id.len() == 0
    ||| exists|i: int| 0 <= i < events.len() && text_decodes_to(#[trigger] events[i], trip_id)
}

proof fn lemma_journey_body(state: SiriStateView, seen: Seq<XmlEvent>, body: Seq<XmlEvent>, end: Vec<u8>, rest: Seq<XmlEvent>)
    requires
        state.current_update matches Some(u) && u.date.len() == 0 && !u.cancelled && trip_id_from(u.trip_id, seen),
        forall|i: int| 0 <= i < body.len() ==> !is_journey_marker(#[trigger] body[i]),
        end@ == "EstimatedVehicleJourney".spec_bytes(),
    ensures
        ({
            let rows = spec_run(state, body + seq![XmlEvent::End(end)] + rest).1;
            &&& rows.len() >= 1
            &&& rows[0] matches Some(u) && u.date.len() == 0 && !u.cancelled && trip_id_from(u.trip_id, seen + body)
        }),
    decreases body.len(),
{
    let events = body + seq![XmlEvent::End(end)] + rest;
    if body.len() == 0 {
        assert(events[0] == XmlEvent::End(end));
        assert(seen + body =~= seen);
    } else {
        let ev = body[0];
        assert(events[0] == ev);
        assert(!is_journey_marker(ev));
        let next = spec_step(state, ev).0;
        let seen2 = seen.push(ev);
        let u = state.current_update->Some_0;
        let u2 = next.current_update->Some_0;
        if trip_id_from(u.trip_id, seen) && u.trip_id.len() > 0 {
            let i = choose|i: int| 0 <= i < seen.len() && text_decodes_to(#[trigger] seen[i], u.trip_id);
            assert(seen2[i] == seen[i]);
        }
        if let XmlEvent::Text(b) = ev {
            assert(seen2[seen.len() as int] == ev);
        }
        assert(trip_id_from(u2.trip_id, seen2));
        assert forall|i: int| 0 <= i < body.drop_first().len() implies !is_journey_marker(#[trigger] body.drop_first()[i]) by {
            assert(body.drop_first()[i] == body[i + 1]);
        }
        lemma_journey_body(next, seen2, body.drop_first(), end, rest);
        assert(events.drop_first() =~= body.drop_first() + seq![XmlEvent::End(end)] + rest);
        assert(seen2 + body.drop_first() =~= seen + body);
    }
}

/// A journey is written as its own row: after an `EstimatedVehicleJourney`
/// start tag, with no journey tag or end of document before the journey's
/// end tag, the first row written holds an update with an empty date, not
/// cancelled, whose trip id is empty or the decoded text of a text event
/// inside that journey, whatever state the run starts from.
pub proof fn lemma_journey_row(state: SiriStateView, start: XmlTag, body: Seq<XmlEvent>, end: Vec<u8>, rest: Seq<XmlEvent>)
    requires
        start.name@ == "EstimatedVehicleJourney".spec_bytes(),
        forall|i: int| 0 <= i < body.len() ==> !is_journey_marker(#[trigger] body[i]),
        end@ == "EstimatedVehicleJourney".spec_bytes(),
    ensures
        ({
            let rows = spec_run(state, seq![XmlEvent::Start(start)] + body + seq![XmlEvent::End(end)] + rest).1;
            &&& rows.len() >= 1
            &&& rows[0] matches Some(u) && u.date.len() == 0 && !u.cancelled && trip_id_from(u.trip_id, body)
        }),
{
    let events = seq![XmlEvent::Start(start)] + body + seq![XmlEvent::End(end)] + rest;
    assert(events[0] == XmlEvent::Start(start));
    let next = spec_step(state, XmlEvent::Start(start)).0;
    assert(events.drop_first() =~= body + seq![XmlEvent::End(end)] + rest);
    lemma_journey_body(next, Seq::empty(), body, end, rest);
    assert(Seq::<XmlEvent>::empty() + body =~= body);
}

pub open spec fn is_journey_end(event: XmlEvent) -> bool {
    event matches XmlEvent::End(name) && name@ == "EstimatedVehicleJourney".spec_bytes()
}

/// The number of journey end tags in `events` before the end of the document.
pub open spec fn journey_ends(events: Seq<XmlEvent>) -> nat
    decreases events.len(),
{
    if events.len() == 0 {
        0
    } else if events[0] is Eof {
        0
    } else if is_journey_end(events[0]) {
        1 + journey_ends(events.drop_first())
    } else {
        journey_ends(events.drop_first())
    }
}

/// One row is written per `</EstimatedVehicleJourney>` read before the end
/// of the document, whatever the state the run starts from.
pub proof fn lemma_one_row_per_journey(state: SiriStateView, events: Seq<XmlEvent>)
    ensures
        spec_run(state, events).1.len() == journey_ends(events),
    decreases events.len(),
{
    if events.len() > 0 {
        let (next, action) = spec_step(state, events[0]);
        lemma_one_row_per_journey(next, events.drop_first());
    }
}

/// A row written after a journey has begun holds an update: once an
/// `EstimatedVehicleJourney` start tag is read, the state keeps an update.
pub proof fn lemma_update_kept(state: SiriStateView, event: XmlEvent)
    requires
        state.current_update is Some,
    ensures
        spec_step(state, event).0.current_update is Some,
        spec_step(state, event).1 matches SiriActionView::Write(u) ==> u is Some,
{
}

} // verus!
