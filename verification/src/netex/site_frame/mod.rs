//! The `SiteFrame` of a NeTEx document.

pub mod stop_places;
pub mod topographic_places;

use crate::netex::site_frame::stop_places::{parse_stop_places, StopPlace, StopPlaceView};
use crate::netex::site_frame::topographic_places::{parse_topographic_places, TopographicPlace, TopographicPlaceView};
use crate::xml::{
    children, deep_result, extends, is_named, lemma_no_step, parse_tag, since, then_set, ChildHandler, ElementList,
    Obs, ParseError, XmlStream, XmlTag,
};
use vstd::prelude::*;
use vstd::string::StringSliceAdditionalSpecFns;

verus! {

/// What the sections of `SiteFrame` elements hold. A section replaces what
/// an earlier section of the same kind held; `None` when no such section
/// was read.
#[derive(Debug, Clone, PartialEq, Eq)]
pub struct SiteFrame {
    pub stop_places: Option<Vec<StopPlace>>,
    pub topographic_places: Option<Vec<TopographicPlace>>,
}

pub struct SiteFrameView {
    pub stop_places: Option<Seq<StopPlaceView>>,
    pub topographic_places: Option<Seq<TopographicPlaceView>>,
}

impl DeepView for SiteFrame {
    type V = SiteFrameView;

    open spec fn deep_view(&self) -> SiteFrameView {
        SiteFrameView { stop_places: self.stop_places.deep_view(), topographic_places: self.topographic_places.deep_view() }
    }
}

impl SiteFrame {
    /// A frame of which no section was read yet.
    pub fn new() -> (frame: Self)
        ensures
            frame.stop_places is None,
            frame.topographic_places is None,
    {
        SiteFrame { stop_places: None, topographic_places: None }
    }
}

/// A `stopPlaces` child sets the stop places to the list read from it, a
/// `topographicPlaces` child sets the topographic places, each keeping the
/// other list and failing exactly when reading the list fails. Any other
/// child changes nothing and takes no step.
pub proof fn lemma_site_frame_child(acc: SiteFrameView, child: XmlTag, obs: Seq<Obs>)
    ensures
        child.name@ == "stopPlaces".spec_bytes() ==> SiteFrame::spec_handle(acc, child, obs)
            == match children::<ElementList<StopPlace>>(obs, Some("stopPlaces".spec_bytes()), true, Seq::empty()) {
            Some((Ok(l), n)) => Some((Ok::<SiteFrameView, ParseError>(SiteFrameView { stop_places: Some(l), topographic_places: acc.topographic_places }), n)),
            Some((Err(e), n)) => Some((Err::<SiteFrameView, ParseError>(e), n)),
            None => None,
        },
        child.name@ == "topographicPlaces".spec_bytes() ==> SiteFrame::spec_handle(acc, child, obs)
            == match children::<ElementList<TopographicPlace>>(obs, Some("topographicPlaces".spec_bytes()), true, Seq::empty()) {
            Some((Ok(l), n)) => Some((Ok::<SiteFrameView, ParseError>(SiteFrameView { stop_places: acc.stop_places, topographic_places: Some(l) }), n)),
            Some((Err(e), n)) => Some((Err::<SiteFrameView, ParseError>(e), n)),
            None => None,
        },
        child.name@ != "stopPlaces".spec_bytes() && child.name@ != "topographicPlaces".spec_bytes()
            ==> SiteFrame::spec_handle(acc, child, obs) == Some((Ok::<SiteFrameView, ParseError>(acc), 0nat)),
{
    reveal_strlit("stopPlaces");
    reveal_strlit("topographicPlaces");
    assert(vstd::utf8::is_ascii_chars("stopPlaces"@));
    assert(vstd::utf8::is_ascii_chars("topographicPlaces"@));
    crate::xml::lemma_ascii_bytes("stopPlaces");
    crate::xml::lemma_ascii_bytes("topographicPlaces");
    assert("stopPlaces".spec_bytes()[0] != "topographicPlaces".spec_bytes()[0]);
}

impl ChildHandler for SiteFrame {
    open spec fn spec_handle(acc: SiteFrameView, child: XmlTag, obs: Seq<Obs>) -> Option<(Result<SiteFrameView, ParseError>, nat)> {
        if child.name@ == "stopPlaces".spec_bytes() {
            then_set(
                children::<ElementList<StopPlace>>(obs, Some("stopPlaces".spec_bytes()), true, Seq::empty()),
                acc,
                |a: SiteFrameView, l: Seq<StopPlaceView>| SiteFrameView { stop_places: Some(l), ..a },
            )
        } else if child.name@ == "topographicPlaces".spec_bytes() {
            then_set(
                children::<ElementList<TopographicPlace>>(obs, Some("topographicPlaces".spec_bytes()), true, Seq::empty()),
                acc,
                |a: SiteFrameView, l: Seq<TopographicPlaceView>| SiteFrameView { topographic_places: Some(l), ..a },
            )
        } else {
            Some((Ok(acc), 0))
        }
    }

    fn handle(self, stream: &mut XmlStream, child: &XmlTag) -> (res: Result<Self, ParseError>) {
        let ghost t0 = stream.trace();
        let mut frame = self;
        if is_named(child, "stopPlaces") {
            match parse_stop_places(stream) {
                Ok(list) => {
                    frame.stop_places = Some(list);
                    Ok(frame)
                },
                Err(e) => Err(e),
            }
        } else if is_named(child, "topographicPlaces") {
            match parse_topographic_places(stream) {
                Ok(list) => {
                    frame.topographic_places = Some(list);
                    Ok(frame)
                },
                Err(e) => Err(e),
            }
        } else {
            proof { lemma_no_step(t0); }
            Ok(frame)
        }
    }
}

/// Reads a `SiteFrame` element into `frame`: each `stopPlaces` and
/// `topographicPlaces` section replaces what `frame` held of its kind.
pub fn parse(stream: &mut XmlStream, frame: SiteFrame) -> (res: Result<SiteFrame, ParseError>)
    ensures
        extends(old(stream).trace(), final(stream).trace()),
        final(stream).input() == old(stream).input(),
        final(stream).budget() <= old(stream).budget(),
        forall|rest: Seq<Obs>|
            #[trigger] children::<SiteFrame>(since(final(stream).trace(), old(stream).trace()) + rest, Some("SiteFrame".spec_bytes()), true, frame.deep_view())
                == Some((deep_result(res), since(final(stream).trace(), old(stream).trace()).len())),
{
    parse_tag(stream, "SiteFrame".as_bytes(), frame)
}

} // verus!
