//! Scheduled stop points (`scheduledStopPoints`): the stops that timetables
//! name.

use crate::xml::{
    children, deep_result, extends, get_attribute, is_named, lemma_no_step, missing_id, option_view, parse_list,
    parse_tag, read_text, since, spec_get_attribute, text_child, ChildHandler, ElementList, Obs, Parse,
    ParseError, XmlStream, XmlTag,
};
use vstd::prelude::*;
use vstd::string::StringSliceAdditionalSpecFns;

verus! {

/// A `ScheduledStopPoint` element. Its coordinates are kept as the text of
/// the `Longitude` and `Latitude` children, `None` when absent.
#[derive(Debug, Clone, PartialEq, Eq)]
pub struct ScheduledStopPoint {
    pub id: String,
    /// The `Name` child, empty when absent.
    pub name: String,
    /// The `PublicCode` child, empty when absent.
    pub code: String,
    pub longitude: Option<String>,
    pub latitude: Option<String>,
}

pub struct ScheduledStopPointView {
    pub id: Seq<char>,
    pub name: Seq<char>,
    pub code: Seq<char>,
    pub longitude: Option<Seq<char>>,
    pub latitude: Option<Seq<char>>,
}

impl DeepView for ScheduledStopPoint {
    type V = ScheduledStopPointView;

    open spec fn deep_view(&self) -> ScheduledStopPointView {
        ScheduledStopPointView {
            id: self.id@,
            name: self.name@,
            code: self.code@,
            longitude: option_view(self.longitude),
            latitude: option_view(self.latitude),
        }
    }
}

/// A `Name`, `PublicCode`, `Longitude` or `Latitude` child sets the name,
/// the code, the longitude or the latitude to its text, whatever children
/// came before, and leaves the other fields as they were. Any other child
/// changes nothing and takes no step.
pub proof fn lemma_scheduled_stop_point_child(acc: ScheduledStopPointView, child: XmlTag, obs: Seq<Obs>, bytes: Seq<u8>)
    ensures
        child.name@ == "Name".spec_bytes() && obs.len() >= 1 && obs[0] == Obs::Text("Name".spec_bytes(), Ok::<Seq<u8>, ParseError>(bytes))
            ==> ScheduledStopPoint::spec_handle(acc, child, obs) == Some((Ok::<ScheduledStopPointView, ParseError>(ScheduledStopPointView {
            id: acc.id, name: crate::xml::utf8_lossy(bytes), code: acc.code, longitude: acc.longitude, latitude: acc.latitude,
        }), 1nat)),
        child.name@ == "PublicCode".spec_bytes() && obs.len() >= 1 && obs[0] == Obs::Text("PublicCode".spec_bytes(), Ok::<Seq<u8>, ParseError>(bytes))
            ==> ScheduledStopPoint::spec_handle(acc, child, obs) == Some((Ok::<ScheduledStopPointView, ParseError>(ScheduledStopPointView {
            id: acc.id, name: acc.name, code: crate::xml::utf8_lossy(bytes), longitude: acc.longitude, latitude: acc.latitude,
        }), 1nat)),
        child.name@ == "Longitude".spec_bytes() && obs.len() >= 1 && obs[0] == Obs::Text("Longitude".spec_bytes(), Ok::<Seq<u8>, ParseError>(bytes))
            ==> ScheduledStopPoint::spec_handle(acc, child, obs) == Some((Ok::<ScheduledStopPointView, ParseError>(ScheduledStopPointView {
            id: acc.id, name: acc.name, code: acc.code, longitude: Some(crate::xml::utf8_lossy(bytes)), latitude: acc.latitude,
        }), 1nat)),
        child.name@ == "Latitude".spec_bytes() && obs.len() >= 1 && obs[0] == Obs::Text("Latitude".spec_bytes(), Ok::<Seq<u8>, ParseError>(bytes))
            ==> ScheduledStopPoint::spec_handle(acc, child, obs) == Some((Ok::<ScheduledStopPointView, ParseError>(ScheduledStopPointView {
            id: acc.id, name: acc.name, code: acc.code, longitude: acc.longitude, latitude: Some(crate::xml::utf8_lossy(bytes)),
        }), 1nat)),
        child.name@ != "Name".spec_bytes() && child.name@ != "PublicCode".spec_bytes() && child.name@ != "Longitude".spec_bytes()
            && child.name@ != "Latitude".spec_bytes() ==> ScheduledStopPoint::spec_handle(acc, child, obs)
            == Some((Ok::<ScheduledStopPointView, ParseError>(acc), 0nat)),
{
    reveal_strlit("Name");
    reveal_strlit("PublicCode");
    reveal_strlit("Longitude");
    reveal_strlit("Latitude");
    assert(vstd::utf8::is_ascii_chars("Name"@));
    assert(vstd::utf8::is_ascii_chars("PublicCode"@));
    assert(vstd::utf8::is_ascii_chars("Longitude"@));
    assert(vstd::utf8::is_ascii_chars("Latitude"@));
    crate::xml::lemma_ascii_bytes("Name");
    crate::xml::lemma_ascii_bytes("PublicCode");
    crate::xml::lemma_ascii_bytes("Longitude");
    crate::xml::lemma_ascii_bytes("Latitude");
    assert("Name".spec_bytes()[0] != "PublicCode".spec_bytes()[0]);
    assert("Name".spec_bytes()[0] != "Longitude".spec_bytes()[0]);
    assert("Name".spec_bytes()[0] != "Latitude".spec_bytes()[0]);
    assert("PublicCode".spec_bytes()[0] != "Longitude".spec_bytes()[0]);
    assert("PublicCode".spec_bytes()[0] != "Latitude".spec_bytes()[0]);
    assert("Longitude".spec_bytes()[1] != "Latitude".spec_bytes()[1]);
}

impl ChildHandler for ScheduledStopPoint {
    open spec fn spec_handle(acc: ScheduledStopPointView, child: XmlTag, obs: Seq<Obs>) -> Option<(Result<ScheduledStopPointView, ParseError>, nat)> {
        if child.name@ == "Name".spec_bytes() {
            text_child(obs, "Name".spec_bytes(), acc, |a: ScheduledStopPointView, t: Seq<char>| ScheduledStopPointView { name: t, ..a })
        } else if child.name@ == "PublicCode".spec_bytes() {
            text_child(obs, "PublicCode".spec_bytes(), acc, |a: ScheduledStopPointView, t: Seq<char>| ScheduledStopPointView { code: t, ..a })
        } else if child.name@ == "Longitude".spec_bytes() {
            text_child(obs, "Longitude".spec_bytes(), acc, |a: ScheduledStopPointView, t: Seq<char>| ScheduledStopPointView { longitude: Some(t), ..a })
        } else if child.name@ == "Latitude".spec_bytes() {
            text_child(obs, "Latitude".spec_bytes(), acc, |a: ScheduledStopPointView, t: Seq<char>| ScheduledStopPointView { latitude: Some(t), ..a })
        } else {
            Some((Ok(acc), 0))
        }
    }

    fn handle(self, stream: &mut XmlStream, child: &XmlTag) -> (res: Result<Self, ParseError>) {
        let ghost t0 = stream.trace();
        let mut point = self;
        if is_named(child, "Name") {
            match read_text(stream, "Name".as_bytes()) {
                Ok(text) => {
                    point.name = text;
                    Ok(point)
                },
                Err(e) => Err(e),
            }
        } else if is_named(child, "PublicCode") {
            match read_text(stream, "PublicCode".as_bytes()) {
                Ok(text) => {
                    point.code = text;
                    Ok(point)
                },
                Err(e) => Err(e),
            }
        } else if is_named(child, "Longitude") {
            match read_text(stream, "Longitude".as_bytes()) {
                Ok(text) => {
                    point.longitude = Some(text);
                    Ok(point)
                },
                Err(e) => Err(e),
            }
        } else if is_named(child, "Latitude") {
            match read_text(stream, "Latitude".as_bytes()) {
                Ok(text) => {
                    point.latitude = Some(text);
                    Ok(point)
                },
                Err(e) => Err(e),
            }
        } else {
            proof { lemma_no_step(t0); }
            Ok(point)
        }
    }
}

/// A `ScheduledStopPoint` read from an element carries the `id` of its start tag.
pub proof fn lemma_scheduled_stop_point_keeps_id(e: XmlTag, obs: Seq<Obs>)
    ensures
        <ScheduledStopPoint as Parse>::spec_parse(e, obs) matches Some((Ok(v), _)) ==> spec_get_attribute(e, "id".spec_bytes()) == Some(v.id),
{
    if let Some(id) = spec_get_attribute(e, "id".spec_bytes()) {
        let keep = |r: ScheduledStopPointView| r.id == id;
        assert forall|a: ScheduledStopPointView, c: XmlTag, o: Seq<Obs>| #[trigger] crate::xml::handle_keeps::<ScheduledStopPoint>(keep, a, c, o) by {}
        crate::xml::lemma_children_keep::<ScheduledStopPoint>(obs, Some("ScheduledStopPoint".spec_bytes()), true, ScheduledStopPointView { id, name: Seq::empty(), code: Seq::empty(), longitude: None, latitude: None }, keep);
    }
}

impl Parse for ScheduledStopPoint {
    open spec fn element_name() -> Seq<u8> {
        "ScheduledStopPoint".spec_bytes()
    }

    fn tag_name() -> (name: &'static str) {
        "ScheduledStopPoint"
    }

    open spec fn accepts(e: XmlTag) -> bool {
        true
    }

    fn can_parse(e: &XmlTag) -> (res: bool) {
        true
    }

    open spec fn spec_parse(e: XmlTag, obs: Seq<Obs>) -> Option<(Result<ScheduledStopPointView, ParseError>, nat)> {
        match spec_get_attribute(e, "id".spec_bytes()) {
            Some(id) => children::<ScheduledStopPoint>(
                obs,
                Some("ScheduledStopPoint".spec_bytes()),
                true,
                ScheduledStopPointView { id, name: Seq::empty(), code: Seq::empty(), longitude: None, latitude: None },
            ),
            None => Some((Err(missing_id()), 0)),
        }
    }

    /// Reads a `ScheduledStopPoint`; its start tag must have an `id`.
    fn parse(stream: &mut XmlStream, e: &XmlTag) -> (res: Result<Self, ParseError>) {
        let ghost t0 = stream.trace();
        let id = match get_attribute(e, "id".as_bytes()) {
            Some(id) => id,
            None => {
                proof { lemma_no_step(t0); }
                return Err(ParseError::MissingAttribute("id not found"));
            },
        };
        let point = ScheduledStopPoint { id, name: String::new(), code: String::new(), longitude: None, latitude: None };
        proof {
            assert(point.deep_view() == ScheduledStopPointView {
                id: point.id@,
                name: Seq::<char>::empty(),
                code: Seq::<char>::empty(),
                longitude: None,
                latitude: None,
            });
        }
        parse_tag(stream, "ScheduledStopPoint".as_bytes(), point)
    }
}

/// Reads the `ScheduledStopPoint` elements of a `scheduledStopPoints`
/// section, in order.
pub fn parse(stream: &mut XmlStream) -> (res: Result<Vec<ScheduledStopPoint>, ParseError>)
    ensures
        extends(old(stream).trace(), final(stream).trace()),
        final(stream).input() == old(stream).input(),
        final(stream).budget() <= old(stream).budget(),
        forall|rest: Seq<Obs>|
            #[trigger] children::<ElementList<ScheduledStopPoint>>(
                since(final(stream).trace(), old(stream).trace()) + rest,
                Some("scheduledStopPoints".spec_bytes()),
                true,
                Seq::empty(),
            ) == Some((deep_result(res), since(final(stream).trace(), old(stream).trace()).len())),
{
    parse_list::<ScheduledStopPoint>(stream, "scheduledStopPoints".as_bytes())
}

} // verus!
