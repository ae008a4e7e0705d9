//! The `StopPlace` elements of a `stopPlaces` section.

use crate::xml::{
    children, deep_result, extends, get_attribute, has_attribute, is_named, lemma_no_step, parse_list, parse_tag,
    read_text, since, spec_get_attribute, text_child, ChildHandler, ElementList, Obs, Parse, ParseError, XmlStream,
    XmlTag,
};
use vstd::prelude::*;
use vstd::string::StringSliceAdditionalSpecFns;

verus! {

/// A `StopPlace` element: its `id` and the text of its `Name` child (empty
/// when absent).
#[derive(Debug, Clone, PartialEq, Eq)]
pub struct StopPlace {
    pub id: String,
    pub name: String,
}

pub struct StopPlaceView {
    pub id: Seq<char>,
    pub name: Seq<char>,
}

impl DeepView for StopPlace {
    type V = StopPlaceView;

    open spec fn deep_view(&self) -> StopPlaceView {
        StopPlaceView { id: self.id@, name: self.name@ }
    }
}

/// A `Name` child sets the name to its text and keeps the id; any other
/// child changes nothing and takes no step.
pub proof fn lemma_stop_place_child(acc: StopPlaceView, child: XmlTag, obs: Seq<Obs>, bytes: Seq<u8>)
    ensures
        child.name@ == "Name".spec_bytes() && obs.len() >= 1 && obs[0] == Obs::Text("Name".spec_bytes(), Ok::<Seq<u8>, ParseError>(bytes))
            ==> StopPlace::spec_handle(acc, child, obs)
            == Some((Ok::<StopPlaceView, ParseError>(StopPlaceView { id: acc.id, name: crate::xml::utf8_lossy(bytes) }), 1nat)),
        child.name@ != "Name".spec_bytes() ==> StopPlace::spec_handle(acc, child, obs) == Some((Ok::<StopPlaceView, ParseError>(acc), 0nat)),
{
}

impl ChildHandler for StopPlace {
    open spec fn spec_handle(acc: StopPlaceView, child: XmlTag, obs: Seq<Obs>) -> Option<(Result<StopPlaceView, ParseError>, nat)> {
        if child.name@ == "Name".spec_bytes() {
            text_child(obs, "Name".spec_bytes(), acc, |a: StopPlaceView, t: Seq<char>| StopPlaceView { name: t, ..a })
        } else {
            Some((Ok(acc), 0))
        }
    }

    fn handle(self, stream: &mut XmlStream, child: &XmlTag) -> (res: Result<Self, ParseError>) {
        let ghost t0 = stream.trace();
        let mut place = self;
        if is_named(child, "Name") {
            match read_text(stream, "Name".as_bytes()) {
                Ok(text) => {
                    place.name = text;
                    Ok(place)
                },
                Err(e) => Err(e),
            }
        } else {
            proof { lemma_no_step(t0); }
            Ok(place)
        }
    }
}

/// The stop place that a start tag with an `id` begins, before its children are read.
pub open spec fn initial(e: XmlTag) -> StopPlaceView {
    StopPlaceView { id: spec_get_attribute(e, "id".spec_bytes())->Some_0, name: Seq::empty() }
}

/// The stop place whose start tag `e` has an `id`, before its children are read.
pub fn start(e: &XmlTag) -> (place: StopPlace)
    requires
        has_attribute(*e, "id".spec_bytes()),
    ensures
        place.deep_view() == initial(*e),
{
    let id = match get_attribute(e, "id".as_bytes()) {
        Some(id) => id,
        None => {
            proof { assert(false); }
            String::new()
        },
    };
    let place = StopPlace { id, name: String::new() };
    proof {
        assert(place.deep_view() == initial(*e));
    }
    place
}

/// A `StopPlace` read from an element whose start tag has an `id` carries that `id`.
pub proof fn lemma_stop_place_keeps_id(e: XmlTag, obs: Seq<Obs>)
    requires
        <StopPlace as Parse>::accepts(e),
    ensures
        <StopPlace as Parse>::spec_parse(e, obs) matches Some((Ok(v), _)) ==> spec_get_attribute(e, "id".spec_bytes()) == Some(v.id),
{
    if let Some(id) = spec_get_attribute(e, "id".spec_bytes()) {
        assert(initial(e).id == id);
        let keep = |r: StopPlaceView| r.id == id;
        assert forall|a: StopPlaceView, c: XmlTag, o: Seq<Obs>| #[trigger] crate::xml::handle_keeps::<StopPlace>(keep, a, c, o) by {}
        crate::xml::lemma_children_keep::<StopPlace>(obs, Some("StopPlace".spec_bytes()), true, initial(e), keep);
    }
}

impl Parse for StopPlace {
    open spec fn element_name() -> Seq<u8> {
        "StopPlace".spec_bytes()
    }

    fn tag_name() -> (name: &'static str) {
        "StopPlace"
    }

    open spec fn accepts(e: XmlTag) -> bool {
        has_attribute(e, "id".spec_bytes())
    }

    fn can_parse(e: &XmlTag) -> (res: bool) {
        get_attribute(e, "id".as_bytes()).is_some()
    }

    open spec fn spec_parse(e: XmlTag, obs: Seq<Obs>) -> Option<(Result<StopPlaceView, ParseError>, nat)> {
        children::<StopPlace>(obs, Some("StopPlace".spec_bytes()), true, initial(e))
    }

    /// Reads a `StopPlace` whose start tag `e` has an `id`.
    fn parse(stream: &mut XmlStream, e: &XmlTag) -> (res: Result<Self, ParseError>) {
        parse_tag(stream, "StopPlace".as_bytes(), start(e))
    }
}

/// Reads the `StopPlace` elements of a `stopPlaces` section, in order.
pub fn parse_stop_places(stream: &mut XmlStream) -> (res: Result<Vec<StopPlace>, ParseError>)
    ensures
        extends(old(stream).trace(), final(stream).trace()),
        final(stream).input() == old(stream).input(),
        final(stream).budget() <= old(stream).budget(),
        forall|rest: Seq<Obs>|
            #[trigger] children::<ElementList<StopPlace>>(since(final(stream).trace(), old(stream).trace()) + rest, Some("stopPlaces".spec_bytes()), true, Seq::empty())
                == Some((deep_result(res), since(final(stream).trace(), old(stream).trace()).len())),
{
    parse_list::<StopPlace>(stream, "stopPlaces".as_bytes())
}

} // verus!
