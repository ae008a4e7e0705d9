use traintables::siri::{initial_state, step, SiriAction, SiriState, TripUpdate};
use traintables::xml::{XmlEvent, XmlTag};

fn start(name: &str) -> XmlEvent {
    XmlEvent::Start(XmlTag { name: name.as_bytes().to_vec(), attributes: Vec::new() })
}

fn end(name: &str) -> XmlEvent {
    XmlEvent::End(name.as_bytes().to_vec())
}

fn text(t: &str) -> XmlEvent {
    XmlEvent::Text(t.as_bytes().to_vec())
}

fn run(events: Vec<XmlEvent>) -> (SiriState, Vec<Option<TripUpdate>>) {
    let mut state = initial_state();
    let mut rows = Vec::new();
    for event in events {
        let (next, action) = step(state, event);
        state = next;
        match action {
            SiriAction::Continue => {},
            SiriAction::Write(u) => rows.push(u),
            SiriAction::Stop => break,
        }
    }
    (state, rows)
}

fn update(trip: &str) -> Option<TripUpdate> {
    Some(TripUpdate { date: String::new(), trip_id: trip.to_string(), cancelled: false })
}

#[test]
fn one_row_per_journey() {
    let (_, rows) = run(vec![
        start("Siri"),
        start("EstimatedVehicleJourney"),
        start("DatedVehicleJourneyRef"),
        text("TRIP-1"),
        end("DatedVehicleJourneyRef"),
        end("EstimatedVehicleJourney"),
        start("EstimatedVehicleJourney"),
        start("DatedVehicleJourneyRef"),
        text("TRIP-2"),
        end("DatedVehicleJourneyRef"),
        start("LineRef"),
        text("L"),
        end("LineRef"),
        end("EstimatedVehicleJourney"),
        end("Siri"),
        XmlEvent::Eof,
        start("EstimatedVehicleJourney"),
        end("EstimatedVehicleJourney"),
    ]);
    assert_eq!(rows, vec![update("TRIP-1"), update("TRIP-2")]);
}

#[test]
fn journey_end_before_any_start_writes_nothing_known() {
    let (_, rows) = run(vec![end("EstimatedVehicleJourney"), XmlEvent::Eof]);
    assert_eq!(rows, vec![None]);
}

#[test]
fn text_after_reference_end_overwrites() {
    let (state, rows) = run(vec![
        start("EstimatedVehicleJourney"),
        start("DatedVehicleJourneyRef"),
        text("T1"),
        end("DatedVehicleJourneyRef"),
        text("\n  "),
        end("EstimatedVehicleJourney"),
    ]);
    assert_eq!(rows, vec![update("\n  ")]);
    assert_eq!(state.current_tag, Some(b"DatedVehicleJourneyRef".to_vec()));
}

#[test]
fn text_before_journey_is_ignored() {
    let (state, rows) = run(vec![start("DatedVehicleJourneyRef"), text("X"), XmlEvent::Eof]);
    assert!(rows.is_empty());
    assert!(state.current_update.is_none());
}

#[test]
fn empty_elements_are_ignored() {
    let (next, action) = step(
        initial_state(),
        XmlEvent::Empty(XmlTag { name: b"EstimatedVehicleJourney".to_vec(), attributes: Vec::new() }),
    );
    assert!(matches!(action, SiriAction::Continue));
    assert!(next.current_update.is_none() && next.current_tag.is_none());
}

#[test]
fn trip_update_copy() {
    let u = TripUpdate { date: "2024-01-01".to_string(), trip_id: "T".to_string(), cancelled: true };
    assert_eq!(u.copy(), u);
    assert_eq!(TripUpdate::new(), TripUpdate { date: String::new(), trip_id: String::new(), cancelled: false });
}
