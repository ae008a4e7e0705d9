//! Route points (`routePoints`): the places that routes pass through.

use crate::xml::{
    children, deep_result, extends, get_attribute, has_attribute, is_named, lemma_no_step, option_view, parse_list, parse_tag,
    read_text, since, spec_get_attribute, text_child, utf8_lossy, ChildHandler, ElementList, Obs, Parse, ParseError, XmlStream,
    XmlTag,
};
use vstd::prelude::*;
use vstd::string::StringSliceAdditionalSpecFns;

verus! {

/// A `RoutePoint` element. Its coordinates are kept as the text of the
/// `Latitude` and `Longitude` children, `None` when absent.
#[derive(Debug, Clone, PartialEq, Eq)]
pub struct RoutePoint {
    pub id: String,
    pub latitude: Option<String>,
    pub longitude: Option<String>,
}

pub struct RoutePointView {
    pub id: Seq<char>,
    pub latitude: Option<Seq<char>>,
    pub longitude: Option<Seq<char>>,
}

impl DeepView for RoutePoint {
    type V = RoutePointView;

    open spec fn deep_view(&self) -> RoutePointView {
        RoutePointView { id: self.id@, latitude: option_view(self.latitude), longitude: option_view(self.longitude) }
    }
}

impl ChildHandler for RoutePoint {
    open spec fn spec_handle(acc: RoutePointView, child: XmlTag, obs: Seq<Obs>) -> Option<(Result<RoutePointView, ParseError>, nat)> {
        if child.name@ == "Latitude".spec_bytes() {
            text_child(obs, "Latitude".spec_bytes(), acc, |a: RoutePointView, t: Seq<char>| RoutePointView { latitude: Some(t), ..a })
        } else if child.name@ == "Longitude".spec_bytes() {
            text_child(obs, "Longitude".spec_bytes(), acc, |a: RoutePointView, t: Seq<char>| RoutePointView { longitude: Some(t), ..a })
        } else {
            Some((Ok(acc), 0))
        }
    }

    fn handle(self, stream: &mut XmlStream, child: &XmlTag) -> (res: Result<Self, ParseError>) {
        let ghost t0 = stream.trace();
        let mut point = self;
        if is_named(child, "Latitude") {
            match read_text(stream, "Latitude".as_bytes()) {
                Ok(text) => {
                    point.latitude = Some(text);
                    Ok(point)
                },
                Err(e) => Err(e),
            }
        } else if is_named(child, "Longitude") {
            match read_text(stream, "Longitude".as_bytes()) {
                Ok(text) => {
                    point.longitude = Some(text);
                    Ok(point)
                },
                Err(e) => Err(e),
            }
        } else {
            proof { lemma_no_step(t0); }
            Ok(point)
        }
    }
}

/// A `Latitude` child whose text `t` is read sets the latitude to `t` and a
/// `Longitude` child sets the longitude, whatever children came before and
/// leaving the other fields as they were; any other child changes nothing
/// and takes no step. So each coordinate is the text of the last child of
/// its name.
pub proof fn lemma_route_point_child(acc: RoutePointView, child: XmlTag, obs: Seq<Obs>, bytes: Seq<u8>)
    ensures
        child.name@ == "Latitude".spec_bytes() && obs.len() >= 1
            && obs[0] == Obs::Text("Latitude".spec_bytes(), Ok::<Seq<u8>, ParseError>(bytes)) ==> RoutePoint::spec_handle(acc, child, obs)
            == Some((Ok::<RoutePointView, ParseError>(RoutePointView { id: acc.id, latitude: Some(utf8_lossy(bytes)), longitude: acc.longitude }), 1nat)),
        child.name@ == "Longitude".spec_bytes() && obs.len() >= 1
            && obs[0] == Obs::Text("Longitude".spec_bytes(), Ok::<Seq<u8>, ParseError>(bytes)) ==> RoutePoint::spec_handle(acc, child, obs)
            == Some((Ok::<RoutePointView, ParseError>(RoutePointView { id: acc.id, latitude: acc.latitude, longitude: Some(utf8_lossy(bytes)) }), 1nat)),
        child.name@ != "Latitude".spec_bytes() && child.name@ != "Longitude".spec_bytes()
            ==> RoutePoint::spec_handle(acc, child, obs) == Some((Ok::<RoutePointView, ParseError>(acc), 0nat)),
{
    reveal_strlit("Latitude");
    reveal_strlit("Longitude");
    assert(vstd::utf8::is_ascii_chars("Latitude"@));
    assert(vstd::utf8::is_ascii_chars("Longitude"@));
    crate::xml::lemma_ascii_bytes("Latitude");
    crate::xml::lemma_ascii_bytes("Longitude");
    assert("Latitude".spec_bytes()[1] != "Longitude".spec_bytes()[1]);
}

/// A `RoutePoint` read from an element whose start tag has an `id` carries that `id`.
pub proof fn lemma_route_point_keeps_id(e: XmlTag, obs: Seq<Obs>)
    requires
        <RoutePoint as Parse>::accepts(e),
    ensures
        <RoutePoint as Parse>::spec_parse(e, obs) matches Some((Ok(v), _)) ==> spec_get_attribute(e, "id".spec_bytes()) == Some(v.id),
{
    if let Some(id) = spec_get_attribute(e, "id".spec_bytes()) {
        let keep = |r: RoutePointView| r.id == id;
        assert forall|a: RoutePointView, c: XmlTag, o: Seq<Obs>| #[trigger] crate::xml::handle_keeps::<RoutePoint>(keep, a, c, o) by {}
        crate::xml::lemma_children_keep::<RoutePoint>(obs, Some("RoutePoint".spec_bytes()), true, RoutePointView { id, latitude: None, longitude: None }, keep);
    }
}

impl Parse for RoutePoint {
    open spec fn element_name() -> Seq<u8> {
        "RoutePoint".spec_bytes()
    }

    fn tag_name() -> (name: &'static str) {
        "RoutePoint"
    }

    open spec fn accepts(e: XmlTag) -> bool {
        has_attribute(e, "id".spec_bytes())
    }

    fn can_parse(e: &XmlTag) -> (res: bool) {
        get_attribute(e, "id".as_bytes()).is_some()
    }

    open spec fn spec_parse(e: XmlTag, obs: Seq<Obs>) -> Option<(Result<RoutePointView, ParseError>, nat)> {
        children::<RoutePoint>(
            obs,
            Some("RoutePoint".spec_bytes()),
            true,
            RoutePointView { id: spec_get_attribute(e, "id".spec_bytes())->Some_0, latitude: None, longitude: None },
        )
    }

    /// Reads a `RoutePoint` whose start tag `e` has an `id`.
    fn parse(stream: &mut XmlStream, e: &XmlTag) -> (res: Result<Self, ParseError>) {
        let id = match get_attribute(e, "id".as_bytes()) {
            Some(id) => id,
            None => {
                proof { assert(false); }
                return Err(ParseError::MissingAttribute("id not found"));
            },
        };
        parse_tag(stream, "RoutePoint".as_bytes(), RoutePoint { id, latitude: None, longitude: None })
    }
}

/// Reads the `RoutePoint` elements of a `routePoints` section, in order.
pub fn parse(stream: &mut XmlStream) -> (res: Result<Vec<RoutePoint>, ParseError>)
    ensures
        extends(old(stream).trace(), final(stream).trace()),
        final(stream).input() == old(stream).input(),
        final(stream).budget() <= old(stream).budget(),
        forall|rest: Seq<Obs>|
            #[trigger] children::<ElementList<RoutePoint>>(since(final(stream).trace(), old(stream).trace()) + rest, Some("routePoints".spec_bytes()), true, Seq::empty())
                == Some((deep_result(res), since(final(stream).trace(), old(stream).trace()).len())),
{
    parse_list::<RoutePoint>(stream, "routePoints".as_bytes())
}

} // verus!
