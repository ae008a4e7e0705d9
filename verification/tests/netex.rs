use traintables::netex::document::parse_document;
use traintables::netex::journey_pattern::{JourneyPattern, NeTExJourneyPattern};
use traintables::netex::location::Location;
use traintables::netex::service_frame::journey_patterns;
use traintables::netex::service_frame::route_points::{self, RoutePoint};
use traintables::netex::service_frame::routes::{self, Route};
use traintables::netex::service_frame::scheduled_stop_points::{self, ScheduledStopPoint};
use traintables::netex::service_frame::{self, ServiceFrame};
use traintables::netex::site_frame::stop_places::{parse_stop_places, StopPlace};
use traintables::netex::site_frame::topographic_places::{parse_topographic_places, TopographicPlace};
use traintables::netex::site_frame::{self, SiteFrame};
use traintables::netex::site_frame_single_pass::parse_site_frame;
use traintables::netex::stop_point_in_journey_pattern::{
    parse_stop_points_in_journey_pattern, NeTExStopPointInJourneyPattern, StopPointInJourneyPattern,
};
use traintables::text::NumberError;
use traintables::xml::{next_child, Parse, ParseError, XmlEvent, XmlStream};

/// A stream positioned just after the start tag of the document's root.
fn inside_root(xml: &str) -> XmlStream {
    let mut s = XmlStream::from_bytes(xml.as_bytes().to_vec(), true);
    assert!(matches!(s.next_event(), Ok(XmlEvent::Start(_))));
    s
}

fn s(x: &str) -> String {
    x.to_string()
}

#[test]
fn route_points_read_in_order() {
    let mut st = inside_root(
        r#"<routePoints>
             <RoutePoint id="RP1"><Latitude>48.5</Latitude><Longitude>2.25</Longitude></RoutePoint>
             <Other/>
             <RoutePoint id="RP2"><Longitude>3</Longitude></RoutePoint>
           </routePoints>"#,
    );
    let points = route_points::parse(&mut st).unwrap();
    assert_eq!(
        points,
        vec![
            RoutePoint { id: s("RP1"), latitude: Some(s("48.5")), longitude: Some(s("2.25")) },
            RoutePoint { id: s("RP2"), latitude: None, longitude: Some(s("3")) },
        ]
    );
    assert!(matches!(st.next_event(), Ok(XmlEvent::Eof)));
}

#[test]
fn route_point_without_id_is_refused() {
    let mut st = inside_root(r#"<routePoints><RoutePoint><Latitude>1</Latitude></RoutePoint></routePoints>"#);
    assert!(matches!(route_points::parse(&mut st), Err(ParseError::MissingAttribute("id not found"))));
}

#[test]
fn routes_with_line_distance_direction() {
    let mut st = inside_root(
        r#"<routes>
             <Route id="R1"><Distance>1200</Distance><LineRef ref="L1"/><DirectionType>outbound</DirectionType></Route>
             <Route id="R2"/>
             <Route id="R3"></Route>
           </routes>"#,
    );
    // An empty-element Route has no end tag: reading it runs on to the next `</Route>`.
    let list = routes::parse(&mut st).unwrap();
    assert_eq!(
        list[0],
        Route { id: s("R1"), distance: 1200, line_id: s("L1"), direction_type: s("outbound") }
    );
    assert_eq!(list.len(), 2);
    assert_eq!(list[1], Route { id: s("R2"), distance: 0, line_id: String::new(), direction_type: String::new() });
}

#[test]
fn route_errors() {
    let mut st = inside_root(r#"<routes><Route id="R"><Distance>12km</Distance></Route></routes>"#);
    assert!(matches!(routes::parse(&mut st), Err(ParseError::InvalidNumber(NumberError::InvalidDigit))));
    let mut st = inside_root(r#"<routes><Route id="R"><LineRef/></Route></routes>"#);
    assert!(matches!(routes::parse(&mut st), Err(ParseError::MissingAttribute("line ref not found"))));
    let mut st = inside_root(r#"<routes><Route><Distance>1</Distance></Route></routes>"#);
    assert!(matches!(routes::parse(&mut st), Err(ParseError::MissingAttribute("id not found"))));
    let mut st = inside_root(r#"<routes><Route id="R"><Distance>99999999999</Distance></Route></routes>"#);
    assert!(matches!(routes::parse(&mut st), Err(ParseError::InvalidNumber(NumberError::PosOverflow))));
}

#[test]
fn scheduled_stop_points_read() {
    let mut st = inside_root(
        r#"<scheduledStopPoints>
             <ScheduledStopPoint id="SSP1"><Name>Paris Est</Name><PublicCode>87113001</PublicCode>
               <Location><Longitude>2.35</Longitude><Latitude>48.87</Latitude></Location>
             </ScheduledStopPoint>
             <ScheduledStopPoint id="SSP2"><Name>Metz</Name></ScheduledStopPoint>
           </scheduledStopPoints>"#,
    );
    let list = scheduled_stop_points::parse(&mut st).unwrap();
    assert_eq!(
        list,
        vec![
            ScheduledStopPoint {
                id: s("SSP1"),
                name: s("Paris Est"),
                code: s("87113001"),
                longitude: Some(s("2.35")),
                latitude: Some(s("48.87")),
            },
            ScheduledStopPoint { id: s("SSP2"), name: s("Metz"), code: String::new(), longitude: None, latitude: None },
        ]
    );
}

#[test]
fn location_read() {
    let mut st = inside_root(r#"<Location><Longitude>1.5</Longitude><Latitude>-2</Latitude></Location>"#);
    let e = traintables::xml::XmlTag { name: b"Location".to_vec(), attributes: Vec::new() };
    let location = Location::parse(&mut st, &e).unwrap();
    assert_eq!(location, Location { longitude: Some(s("1.5")), latitude: Some(s("-2")) });
}

#[test]
fn journey_pattern_and_its_rows() {
    let mut st = inside_root(
        r#"<journeyPatterns>
             <ServiceJourneyPattern id="JP1">
               <RouteRef ref="R1"/>
               <pointsInSequence>
                 <StopPointInJourneyPattern id="P1" order="1"><ScheduledStopPointRef ref="S1"/></StopPointInJourneyPattern>
                 <StopPointInJourneyPattern id="P2" order="2"><ScheduledStopPointRef ref="S2"/></StopPointInJourneyPattern>
               </pointsInSequence>
             </ServiceJourneyPattern>
             <ServiceJourneyPattern id="JP2"><RouteRef ref="R2"/></ServiceJourneyPattern>
           </journeyPatterns>"#,
    );
    let rows = journey_patterns::parse(&mut st).unwrap();
    assert_eq!(
        rows.journey_patterns,
        vec![JourneyPattern { id: s("JP1"), route_id: s("R1") }, JourneyPattern { id: s("JP2"), route_id: s("R2") }]
    );
    assert_eq!(
        rows.stop_points_in_journey_pattern,
        vec![
            StopPointInJourneyPattern { id: s("P1"), journey_pattern_id: s("JP1"), scheduled_stop_point_id: s("S1") },
            StopPointInJourneyPattern { id: s("P2"), journey_pattern_id: s("JP1"), scheduled_stop_point_id: s("S2") },
        ]
    );
}

#[test]
fn journey_pattern_from_labels_stop_points() {
    let pattern = NeTExJourneyPattern {
        id: s("JP"),
        route_id: s("R"),
        stop_points_in_journey_pattern: vec![
            NeTExStopPointInJourneyPattern { id: s("A"), scheduled_stop_point_id: s("SA") },
            NeTExStopPointInJourneyPattern { id: s("B"), scheduled_stop_point_id: s("SB") },
        ],
    };
    let (row, points) = JourneyPattern::from(pattern);
    assert_eq!(row, JourneyPattern { id: s("JP"), route_id: s("R") });
    assert_eq!(points.len(), 2);
    assert!(points.iter().all(|p| p.journey_pattern_id == "JP"));
    assert_eq!(points[1].scheduled_stop_point_id, "SB");
}

#[test]
fn stop_points_in_sequence_and_missing_ref() {
    let mut st = inside_root(
        r#"<pointsInSequence><StopPointInJourneyPattern id="P"><ScheduledStopPointRef ref="S"/></StopPointInJourneyPattern></pointsInSequence>"#,
    );
    let points = parse_stop_points_in_journey_pattern(&mut st).unwrap();
    assert_eq!(points, vec![NeTExStopPointInJourneyPattern { id: s("P"), scheduled_stop_point_id: s("S") }]);
    let mut st = inside_root(
        r#"<pointsInSequence><StopPointInJourneyPattern id="P"><ScheduledStopPointRef/></StopPointInJourneyPattern></pointsInSequence>"#,
    );
    assert!(matches!(
        parse_stop_points_in_journey_pattern(&mut st),
        Err(ParseError::MissingAttribute("ref not found"))
    ));
}

#[test]
fn places_read() {
    let mut st = inside_root(
        r#"<stopPlaces><StopPlace id="SP1"><Name>Gare de Lyon</Name></StopPlace><StopPlace id="SP2"></StopPlace></stopPlaces>"#,
    );
    assert_eq!(
        parse_stop_places(&mut st).unwrap(),
        vec![StopPlace { id: s("SP1"), name: s("Gare de Lyon") }, StopPlace { id: s("SP2"), name: String::new() }]
    );
    let mut st = inside_root(r#"<topographicPlaces><TopographicPlace id="T"><Name>Lyon</Name></TopographicPlace></topographicPlaces>"#);
    assert_eq!(parse_topographic_places(&mut st).unwrap(), vec![TopographicPlace { id: s("T"), name: s("Lyon") }]);
}

#[test]
fn frames_keep_last_section_of_each_kind() {
    let mut st = inside_root(
        r#"<SiteFrame>
             <stopPlaces><StopPlace id="A"><Name>a</Name></StopPlace></stopPlaces>
             <stopPlaces><StopPlace id="B"><Name>b</Name></StopPlace></stopPlaces>
           </SiteFrame>"#,
    );
    let frame = site_frame::parse(&mut st, SiteFrame::new()).unwrap();
    assert_eq!(frame.stop_places, Some(vec![StopPlace { id: s("B"), name: s("b") }]));
    assert_eq!(frame.topographic_places, None);
}

#[test]
fn service_frame_sections() {
    let mut st = inside_root(
        r#"<ServiceFrame>
             <lines><Line id="L1"><Name>TER</Name></Line></lines>
             <routes><Route id="R"><LineRef ref="L1"/></Route></routes>
             <routePoints><RoutePoint id="RP"/></routePoints>
           </ServiceFrame>"#,
    );
    let frame = service_frame::parse(&mut st, ServiceFrame::new());
    // The empty-element RoutePoint has no end tag: reading it runs on to the
    // end of the document.
    assert!(frame.is_err());
    let mut st = inside_root(
        r#"<ServiceFrame>
             <lines><Line id="L1"><Name>TER</Name></Line></lines>
             <routes><Route id="R"><LineRef ref="L1"/></Route></routes>
             <routePoints><RoutePoint id="RP"></RoutePoint></routePoints>
           </ServiceFrame>"#,
    );
    let frame = service_frame::parse(&mut st, ServiceFrame::new()).unwrap();
    assert_eq!(frame.routes.unwrap()[0].line_id, "L1");
    assert_eq!(frame.route_points.unwrap()[0].id, "RP");
    assert_eq!(frame.scheduled_stop_points, None);
}

#[test]
fn whole_document() {
    let xml = r#"<?xml version="1.0"?>
        <PublicationDelivery>
          <dataObjects>
            <SiteFrame id="F1">
              <topographicPlaces><TopographicPlace id="T1"><Name>Paris</Name></TopographicPlace></topographicPlaces>
            </SiteFrame>
            <ServiceFrame id="F2">
              <scheduledStopPoints>
                <ScheduledStopPoint id="S1"><Name>Paris Nord</Name></ScheduledStopPoint>
              </scheduledStopPoints>
            </ServiceFrame>
          </dataObjects>
        </PublicationDelivery>"#;
    let mut st = XmlStream::from_bytes(xml.as_bytes().to_vec(), true);
    let doc = parse_document(&mut st).unwrap();
    assert_eq!(doc.site_frame.topographic_places, Some(vec![TopographicPlace { id: s("T1"), name: s("Paris") }]));
    assert_eq!(doc.site_frame.stop_places, None);
    assert_eq!(doc.service_frame.scheduled_stop_points.unwrap()[0].name, "Paris Nord");
    assert_eq!(doc.service_frame.routes, None);
}

#[test]
fn malformed_document_is_refused() {
    let mut st = XmlStream::from_bytes(b"<a><b></a>".to_vec(), true);
    assert!(matches!(parse_document(&mut st), Err(ParseError::Xml(_))));
}

#[test]
fn single_pass_site_frame() {
    let mut st = inside_root(
        r#"<SiteFrame>
             <stopPlaces>
               <StopPlace id="A"><Name>Alpha</Name><quays><Quay id="Q"><Name>quay</Name></Quay></quays></StopPlace>
               <StopPlace id="B"/>
             </stopPlaces>
             <topographicPlaces><TopographicPlace id="T"><Name>Town</Name></TopographicPlace></topographicPlaces>
           </SiteFrame>"#,
    );
    let places = parse_site_frame(&mut st).unwrap();
    // The empty-element StopPlace B is passed over; the last Name inside A wins.
    assert_eq!(places.stop_places, vec![StopPlace { id: s("A"), name: s("quay") }]);
    assert_eq!(places.topographic_places, vec![TopographicPlace { id: s("T"), name: s("Town") }]);
}

#[test]
fn element_names_and_acceptance() {
    assert_eq!(RoutePoint::tag_name(), "RoutePoint");
    assert_eq!(StopPlace::tag_name(), "StopPlace");
    let with_id = traintables::xml::XmlTag {
        name: b"RoutePoint".to_vec(),
        attributes: vec![Some(traintables::xml::XmlAttribute { key: b"id".to_vec(), value: b"x".to_vec() })],
    };
    let without = traintables::xml::XmlTag { name: b"RoutePoint".to_vec(), attributes: Vec::new() };
    assert!(RoutePoint::can_parse(&with_id));
    assert!(!RoutePoint::can_parse(&without));
    assert!(Route::can_parse(&without));
    let mut st = XmlStream::from_bytes(b"<x/>".to_vec(), true);
    assert!(next_child(&mut st, None, true).unwrap().is_some());
}

#[test]
fn section_reading_stops_at_its_end_tag() {
    let mut st = inside_root(
        r#"<root><routes><Route id="R"></Route></routes><After id="x"/><routes><Route id="S"></Route></routes></root>"#,
    );
    assert!(matches!(st.next_event(), Ok(XmlEvent::Start(t)) if t.name == b"routes".to_vec()));
    let first = routes::parse(&mut st).unwrap();
    assert_eq!(first.len(), 1);
    assert!(matches!(st.next_event(), Ok(XmlEvent::Empty(t)) if t.name == b"After".to_vec()));
}
