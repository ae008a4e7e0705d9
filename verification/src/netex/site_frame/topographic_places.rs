//! The `TopographicPlace` elements of a `topographicPlaces` section.

use crate::xml::{
    children, deep_result, extends, get_attribute, has_attribute, is_named, lemma_no_step, parse_list, parse_tag,
    read_text, since, spec_get_attribute, text_child, ChildHandler, ElementList, Obs, Parse, ParseError, XmlStream,
    XmlTag,
};
use vstd::prelude::*;
use vstd::string::StringSliceAdditionalSpecFns;

verus! {

/// A `TopographicPlace` element: its `id` and the text of its `Name` child (empty
/// when absent).
#[derive(Debug, Clone, PartialEq, Eq)]
pub struct TopographicPlace {
    pub id: String,
    pub name: String,
}

pub struct TopographicPlaceView {
    pub id: Seq<char>,
    pub name: Seq<char>,
}

impl DeepView for TopographicPlace {
    type V = TopographicPlaceView;

    open spec fn deep_view(&self) -> TopographicPlaceView {
        TopographicPlaceView { id: self.id@, name: self.name@ }
    }
}

/// A `Name` child sets the name to its text and keeps the id; any other
/// child changes nothing and takes no step.
pub proof fn lemma_topographic_place_child(acc: TopographicPlaceView, child: XmlTag, obs: Seq<Obs>, bytes: Seq<u8>)
    ensures
        child.name@ == "Name".spec_bytes() && obs.len() >= 1 && obs[0] == Obs::Text("Name".spec_bytes(), Ok::<Seq<u8>, ParseError>(bytes))
            ==> TopographicPlace::spec_handle(acc, child, obs)
            == Some((Ok::<TopographicPlaceView, ParseError>(TopographicPlaceView { id: acc.id, name: crate::xml::utf8_lossy(bytes) }), 1nat)),
        child.name@ != "Name".spec_bytes() ==> TopographicPlace::spec_handle(acc, child, obs) == Some((Ok::<TopographicPlaceView, ParseError>(acc), 0nat)),
{
}

impl ChildHandler for TopographicPlace {
    open spec fn spec_handle(acc: TopographicPlaceView, child: XmlTag, obs: Seq<Obs>) -> Option<(Result<TopographicPlaceView, ParseError>, nat)> {
        if child.name@ == "Name".spec_bytes() {
            text_child(obs, "Name".spec_bytes(), acc, |a: TopographicPlaceView, t: Seq<char>| TopographicPlaceView { name: t, ..a })
        } else {
            Some((Ok(acc), 0))
        }
    }

    fn handle(self, stream: &mut XmlStream, child: &XmlTag) -> (res: Result<Self, ParseError>) {
        let ghost t0 = stream.trace();
        let mut place = self;
        if is_named(child, "Name") {
            match read_text(stream, "Name".as_bytes()) {
                Ok(text) => {
                    place.name = text;
                    Ok(place)
                },
                Err(e) => Err(e),
            }
        } else {
            proof { lemma_no_step(t0); }
            Ok(place)
        }
    }
}

/// The topographic place that a start tag with an `id` begins, before its children are read.
pub open spec fn initial(e: XmlTag) -> TopographicPlaceView {
    TopographicPlaceView { id: spec_get_attribute(e, "id".spec_bytes())->Some_0, name: Seq::empty() }
}

/// The topographic place whose start tag `e` has an `id`, before its children are read.
pub fn start(e: &XmlTag) -> (place: TopographicPlace)
    requires
        has_attribute(*e, "id".spec_bytes()),
    ensures
        place.deep_view() == initial(*e),
{
    let id = match get_attribute(e, "id".as_bytes()) {
        Some(id) => id,
        None => {
            proof { assert(false); }
            String::new()
        },
    };
    let place = TopographicPlace { id, name: String::new() };
    proof {
        assert(place.deep_view() == initial(*e));
    }
    place
}

/// A `TopographicPlace` read from an element whose start tag has an `id` carries that `id`.
pub proof fn lemma_topographic_place_keeps_id(e: XmlTag, obs: Seq<Obs>)
    requires
        <TopographicPlace as Parse>::accepts(e),
    ensures
        <TopographicPlace as Parse>::spec_parse(e, obs) matches Some((Ok(v), _)) ==> spec_get_attribute(e, "id".spec_bytes()) == Some(v.id),
{
    if let Some(id) = spec_get_attribute(e, "id".spec_bytes()) {
        assert(initial(e).id == id);
        let keep = |r: TopographicPlaceView| r.id == id;
        assert forall|a: TopographicPlaceView, c: XmlTag, o: Seq<Obs>| #[trigger] crate::xml::handle_keeps::<TopographicPlace>(keep, a, c, o) by {}
        crate::xml::lemma_children_keep::<TopographicPlace>(obs, Some("TopographicPlace".spec_bytes()), true, initial(e), keep);
    }
}

impl Parse for TopographicPlace {
    open spec fn element_name() -> Seq<u8> {
        "TopographicPlace".spec_bytes()
    }

    fn tag_name() -> (name: &'static str) {
        "TopographicPlace"
    }

    open spec fn accepts(e: XmlTag) -> bool {
        has_attribute(e, "id".spec_bytes())
    }

    fn can_parse(e: &XmlTag) -> (res: bool) {
        get_attribute(e, "id".as_bytes()).is_some()
    }

    open spec fn spec_parse(e: XmlTag, obs: Seq<Obs>) -> Option<(Result<TopographicPlaceView, ParseError>, nat)> {
        children::<TopographicPlace>(obs, Some("TopographicPlace".spec_bytes()), true, initial(e))
    }

    /// Reads a `TopographicPlace` whose start tag `e` has an `id`.
    fn parse(stream: &mut XmlStream, e: &XmlTag) -> (res: Result<Self, ParseError>) {
        parse_tag(stream, "TopographicPlace".as_bytes(), start(e))
    }
}

/// Reads the `TopographicPlace` elements of a `topographicPlaces` section, in order.
pub fn parse_topographic_places(stream: &mut XmlStream) -> (res: Result<Vec<TopographicPlace>, ParseError>)
    ensures
        extends(old(stream).trace(), final(stream).trace()),
        final(stream).input() == old(stream).input(),
        final(stream).budget() <= old(stream).budget(),
        forall|rest: Seq<Obs>|
            #[trigger] children::<ElementList<TopographicPlace>>(since(final(stream).trace(), old(stream).trace()) + rest, Some("topographicPlaces".spec_bytes()), true, Seq::empty())
                == Some((deep_result(res), since(final(stream).trace(), old(stream).trace()).len())),
{
    parse_list::<TopographicPlace>(stream, "topographicPlaces".as_bytes())
}

} // verus!
