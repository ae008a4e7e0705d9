//! Routes (`routes`): the paths that lines follow.

use crate::text::{parse_u32, spec_parse_u32};
use crate::xml::{
    attribute_child, children, deep_result, extends, get_attribute, is_named, lemma_no_step, missing_id,
    parse_list, parse_tag, read_text, since, spec_get_attribute, text_child, text_run, ChildHandler, ElementList,
    Obs, Parse, ParseError, XmlStream, XmlTag,
};
use vstd::prelude::*;
use vstd::string::StringSliceAdditionalSpecFns;

verus! {

/// A `Route` element.
#[derive(Debug, Clone, PartialEq, Eq)]
pub struct Route {
    pub id: String,
    /// The `Distance` child, 0 when absent.
    pub distance: u32,
    /// The `ref` of the `LineRef` child, empty when absent.
    pub line_id: String,
    /// The `DirectionType` child, empty when absent.
    pub direction_type: String,
}

pub struct RouteView {
    pub id: Seq<char>,
    pub distance: u32,
    pub line_id: Seq<char>,
    pub direction_type: Seq<char>,
}

impl DeepView for Route {
    type V = RouteView;

    open spec fn deep_view(&self) -> RouteView {
        RouteView { id: self.id@, distance: self.distance, line_id: self.line_id@, direction_type: self.direction_type@ }
    }
}

/// The error of a `LineRef` without `ref`.
pub open spec fn missing_line_ref() -> ParseError {
    ParseError::MissingAttribute("line ref not found")
}

/// Reading a `Distance` child: its text, read as a `u32`.
pub open spec fn distance_child(obs: Seq<Obs>, acc: RouteView) -> Option<(Result<RouteView, ParseError>, nat)> {
    match text_run(obs, "Distance".spec_bytes()) {
        Some((Ok(t), n)) => match spec_parse_u32(t) {
            Ok(d) => Some((Ok(RouteView { distance: d, ..acc }), n)),
            Err(e) => Some((Err(ParseError::InvalidNumber(e)), n)),
        },
        Some((Err(e), n)) => Some((Err(e), n)),
        None => None,
    }
}

/// A `LineRef` child sets the line to its `ref` attribute and fails without
/// one; a `Distance` child whose text is a number sets the distance to it and
/// fails on any other text; a `DirectionType` child sets the direction to its
/// text; each leaves the other fields as they were, whatever children came
/// before. Any other child changes nothing and takes no step.
pub proof fn lemma_route_child(acc: RouteView, child: XmlTag, obs: Seq<Obs>, bytes: Seq<u8>)
    ensures
        child.name@ == "LineRef".spec_bytes() ==> Route::spec_handle(acc, child, obs) == match spec_get_attribute(child, "ref".spec_bytes()) {
            Some(r) => Some((Ok::<RouteView, ParseError>(RouteView { id: acc.id, distance: acc.distance, line_id: r, direction_type: acc.direction_type }), 0nat)),
            None => Some((Err::<RouteView, ParseError>(missing_line_ref()), 0nat)),
        },
        child.name@ == "Distance".spec_bytes() && obs.len() >= 1 && obs[0] == Obs::Text("Distance".spec_bytes(), Ok::<Seq<u8>, ParseError>(bytes))
            ==> Route::spec_handle(acc, child, obs) == match spec_parse_u32(crate::xml::utf8_lossy(bytes)) {
            Ok(d) => Some((Ok::<RouteView, ParseError>(RouteView { id: acc.id, distance: d, line_id: acc.line_id, direction_type: acc.direction_type }), 1nat)),
            Err(e) => Some((Err::<RouteView, ParseError>(ParseError::InvalidNumber(e)), 1nat)),
        },
        child.name@ == "DirectionType".spec_bytes() && obs.len() >= 1 && obs[0] == Obs::Text("DirectionType".spec_bytes(), Ok::<Seq<u8>, ParseError>(bytes))
            ==> Route::spec_handle(acc, child, obs) == Some((Ok::<RouteView, ParseError>(RouteView {
            id: acc.id,
            distance: acc.distance,
            line_id: acc.line_id,
            direction_type: crate::xml::utf8_lossy(bytes),
        }), 1nat)),
        child.name@ != "LineRef".spec_bytes() && child.name@ != "Distance".spec_bytes() && child.name@ != "DirectionType".spec_bytes()
            ==> Route::spec_handle(acc, child, obs) == Some((Ok::<RouteView, ParseError>(acc), 0nat)),
{
    reveal_strlit("LineRef");
    reveal_strlit("Distance");
    reveal_strlit("DirectionType");
    assert(vstd::utf8::is_ascii_chars("LineRef"@));
    assert(vstd::utf8::is_ascii_chars("Distance"@));
    assert(vstd::utf8::is_ascii_chars("DirectionType"@));
    crate::xml::lemma_ascii_bytes("LineRef");
    crate::xml::lemma_ascii_bytes("Distance");
    crate::xml::lemma_ascii_bytes("DirectionType");
    assert("LineRef".spec_bytes()[0] != "Distance".spec_bytes()[0]);
    assert("LineRef".spec_bytes()[0] != "DirectionType".spec_bytes()[0]);
    assert("Distance".spec_bytes()[2] != "DirectionType".spec_bytes()[2]);
}

impl ChildHandler for Route {
    open spec fn spec_handle(acc: RouteView, child: XmlTag, obs: Seq<Obs>) -> Option<(Result<RouteView, ParseError>, nat)> {
        if child.name@ == "LineRef".spec_bytes() {
            attribute_child(child, "ref".spec_bytes(), missing_line_ref(), acc, |a: RouteView, v: Seq<char>| RouteView { line_id: v, ..a })
        } else if child.name@ == "Distance".spec_bytes() {
            distance_child(obs, acc)
        } else if child.name@ == "DirectionType".spec_bytes() {
            text_child(obs, "DirectionType".spec_bytes(), acc, |a: RouteView, t: Seq<char>| RouteView { direction_type: t, ..a })
        } else {
            Some((Ok(acc), 0))
        }
    }

    fn handle(self, stream: &mut XmlStream, child: &XmlTag) -> (res: Result<Self, ParseError>) {
        let ghost t0 = stream.trace();
        let mut route = self;
        if is_named(child, "LineRef") {
            proof { lemma_no_step(t0); }
            match get_attribute(child, "ref".as_bytes()) {
                Some(line_id) => {
                    route.line_id = line_id;
                    Ok(route)
                },
                None => Err(ParseError::MissingAttribute("line ref not found")),
            }
        } else if is_named(child, "Distance") {
            match read_text(stream, "Distance".as_bytes()) {
                Ok(text) => match parse_u32(text.as_str()) {
                    Ok(distance) => {
                        route.distance = distance;
                        Ok(route)
                    },
                    Err(e) => Err(ParseError::InvalidNumber(e)),
                },
                Err(e) => Err(e),
            }
        } else if is_named(child, "DirectionType") {
            match read_text(stream, "DirectionType".as_bytes()) {
                Ok(text) => {
                    route.direction_type = text;
                    Ok(route)
                },
                Err(e) => Err(e),
            }
        } else {
            proof { lemma_no_step(t0); }
            Ok(route)
        }
    }
}

/// A `Route` read from an element carries the `id` of its start tag.
pub proof fn lemma_route_keeps_id(e: XmlTag, obs: Seq<Obs>)
    ensures
        <Route as Parse>::spec_parse(e, obs) matches Some((Ok(v), _)) ==> spec_get_attribute(e, "id".spec_bytes()) == Some(v.id),
{
    if let Some(id) = spec_get_attribute(e, "id".spec_bytes()) {
        let keep = |r: RouteView| r.id == id;
        assert forall|a: RouteView, c: XmlTag, o: Seq<Obs>| #[trigger] crate::xml::handle_keeps::<Route>(keep, a, c, o) by {}
        crate::xml::lemma_children_keep::<Route>(obs, Some("Route".spec_bytes()), true, RouteView { id, distance: 0, line_id: Seq::empty(), direction_type: Seq::empty() }, keep);
    }
}

impl Parse for Route {
    open spec fn element_name() -> Seq<u8> {
        "Route".spec_bytes()
    }

    fn tag_name() -> (name: &'static str) {
        "Route"
    }

    open spec fn accepts(e: XmlTag) -> bool {
        true
    }

    fn can_parse(e: &XmlTag) -> (res: bool) {
        true
    }

    open spec fn spec_parse(e: XmlTag, obs: Seq<Obs>) -> Option<(Result<RouteView, ParseError>, nat)> {
        match spec_get_attribute(e, "id".spec_bytes()) {
            Some(id) => children::<Route>(
                obs,
                Some("Route".spec_bytes()),
                true,
                RouteView { id, distance: 0, line_id: Seq::empty(), direction_type: Seq::empty() },
            ),
            None => Some((Err(missing_id()), 0)),
        }
    }

    /// Reads a `Route`; its start tag must have an `id`.
    fn parse(stream: &mut XmlStream, e: &XmlTag) -> (res: Result<Self, ParseError>) {
        let ghost t0 = stream.trace();
        let id = match get_attribute(e, "id".as_bytes()) {
            Some(id) => id,
            None => {
                proof { lemma_no_step(t0); }
                return Err(ParseError::MissingAttribute("id not found"));
            },
        };
        let route = Route { id, distance: 0, line_id: String::new(), direction_type: String::new() };
        proof {
            assert(route.deep_view() == RouteView { id: route.id@, distance: 0, line_id: Seq::<char>::empty(), direction_type: Seq::<char>::empty() });
        }
        parse_tag(stream, "Route".as_bytes(), route)
    }
}

/// Reads the `Route` elements of a `routes` section, in order.
pub fn parse(stream: &mut XmlStream) -> (res: Result<Vec<Route>, ParseError>)
    ensures
        extends(old(stream).trace(), final(stream).trace()),
        final(stream).input() == old(stream).input(),
        final(stream).budget() <= old(stream).budget(),
        forall|rest: Seq<Obs>|
            #[trigger] children::<ElementList<Route>>(since(final(stream).trace(), old(stream).trace()) + rest, Some("routes".spec_bytes()), true, Seq::empty())
                == Some((deep_result(res), since(final(stream).trace(), old(stream).trace()).len())),
{
    parse_list::<Route>(stream, "routes".as_bytes())
}

} // verus!
