use traintables::xml::{
    get_attribute, next_child, parse_tag, read_text, ParseError, XmlAttribute, XmlEvent, XmlStream, XmlTag,
};
use traintables::netex::service_frame::lines::Lines;

fn tag(name: &str, attributes: Vec<Option<(&str, &str)>>) -> XmlTag {
    XmlTag {
        name: name.as_bytes().to_vec(),
        attributes: attributes
            .into_iter()
            .map(|a| a.map(|(k, v)| XmlAttribute { key: k.as_bytes().to_vec(), value: v.as_bytes().to_vec() }))
            .collect(),
    }
}

#[test]
fn attribute_found_by_key() {
    let e = tag("Route", vec![Some(("version", "1")), Some(("id", "R:1")), Some(("id", "R:2"))]);
    assert_eq!(get_attribute(&e, b"id"), Some("R:1".to_string()));
    assert_eq!(get_attribute(&e, b"version"), Some("1".to_string()));
    assert_eq!(get_attribute(&e, b"ref"), None);
}

#[test]
fn unreadable_attributes_passed_over() {
    let e = tag("Route", vec![None, Some(("ref", "X")), None]);
    assert_eq!(get_attribute(&e, b"ref"), Some("X".to_string()));
    assert_eq!(get_attribute(&tag("Route", vec![]), b"ref"), None);
}

#[test]
fn attribute_value_decoded_lossily() {
    let e = XmlTag {
        name: b"Stop".to_vec(),
        attributes: vec![Some(XmlAttribute { key: b"id".to_vec(), value: vec![b'a', 0xff, b'b'] })],
    };
    assert_eq!(get_attribute(&e, b"id"), Some("a\u{fffd}b".to_string()));
}

#[test]
fn events_of_a_document() {
    let mut s = XmlStream::from_bytes(br#"<a x="1"><b/>text<!-- c --></a>"#.to_vec(), true);
    match s.next_event() {
        Ok(XmlEvent::Start(t)) => {
            assert_eq!(t.name, b"a".to_vec());
            assert_eq!(get_attribute(&t, b"x"), Some("1".to_string()));
        },
        other => panic!("unexpected {:?}", other),
    }
    assert!(matches!(s.next_event(), Ok(XmlEvent::Empty(t)) if t.name == b"b".to_vec()));
    assert!(matches!(s.next_event(), Ok(XmlEvent::Text(t)) if t == b"text".to_vec()));
    assert!(matches!(s.next_event(), Ok(XmlEvent::Other)));
    assert!(matches!(s.next_event(), Ok(XmlEvent::End(n)) if n == b"a".to_vec()));
    assert!(matches!(s.next_event(), Ok(XmlEvent::Eof)));
}

#[test]
fn budget_bounds_the_steps() {
    let mut s = XmlStream::from_bytes(Vec::new(), true);
    assert!(matches!(s.next_event(), Ok(XmlEvent::Eof)));
    assert!(matches!(s.next_event(), Err(ParseError::Exhausted)));
}

#[test]
fn next_child_skips_to_start_or_end() {
    let mut s = XmlStream::from_bytes(b"<p>t<!--c--><q/><r></r></p>".to_vec(), true);
    assert!(matches!(s.next_event(), Ok(XmlEvent::Start(_))));
    let q = next_child(&mut s, Some(b"p"), true).unwrap().unwrap();
    assert_eq!(q.name, b"q".to_vec());
    let r = next_child(&mut s, Some(b"p"), true).unwrap().unwrap();
    assert_eq!(r.name, b"r".to_vec());
    assert!(next_child(&mut s, Some(b"p"), true).unwrap().is_none());
    assert!(next_child(&mut s, None, true).unwrap().is_none());
}

#[test]
fn next_child_without_empty_elements() {
    let mut s = XmlStream::from_bytes(b"<p><q/><r/><s></s></p>".to_vec(), true);
    assert!(matches!(s.next_event(), Ok(XmlEvent::Start(_))));
    let first = next_child(&mut s, Some(b"p"), false).unwrap().unwrap();
    assert_eq!(first.name, b"s".to_vec());
}

#[test]
fn end_of_document_inside_element() {
    let mut s = XmlStream::from_bytes(b"<p><q>".to_vec(), true);
    assert!(matches!(s.next_event(), Ok(XmlEvent::Start(_))));
    let r = parse_tag(&mut s, b"p", Lines);
    assert!(matches!(r, Err(ParseError::UnexpectedEof) | Err(ParseError::Xml(_))));
}

#[test]
fn text_of_an_element() {
    let mut s = XmlStream::from_bytes(b"<Name> Gare &amp; <i>x</i> </Name><Next/>".to_vec(), true);
    assert!(matches!(s.next_event(), Ok(XmlEvent::Start(_))));
    assert_eq!(read_text(&mut s, b"Name").unwrap(), " Gare &amp; <i>x</i> ");
    assert!(matches!(s.next_event(), Ok(XmlEvent::Empty(t)) if t.name == b"Next".to_vec()));
}

#[test]
fn text_without_end_tag_is_an_error() {
    let mut s = XmlStream::from_bytes(b"<Name>open".to_vec(), true);
    assert!(matches!(s.next_event(), Ok(XmlEvent::Start(_))));
    assert!(matches!(read_text(&mut s, b"Name"), Err(ParseError::Xml(_))));
}

#[test]
fn whitespace_text_kept_without_trimming() {
    let mut kept = XmlStream::from_bytes(b"<a> <b/></a>".to_vec(), false);
    assert!(matches!(kept.next_event(), Ok(XmlEvent::Start(_))));
    assert!(matches!(kept.next_event(), Ok(XmlEvent::Text(t)) if t == b" ".to_vec()));
    assert!(matches!(kept.next_event(), Ok(XmlEvent::Empty(_))));

    let mut trimmed = XmlStream::from_bytes(b"<a> <b/></a>".to_vec(), true);
    assert!(matches!(trimmed.next_event(), Ok(XmlEvent::Start(_))));
    assert!(matches!(trimmed.next_event(), Ok(XmlEvent::Empty(_))));
}
