//! Reading a `SiteFrame` in a single pass over its start tags: stop places
//! and topographic places wherever they stand in the frame, empty-element
//! tags passed over.

use crate::netex::site_frame::stop_places::{self, StopPlace, StopPlaceView};
use crate::netex::site_frame::topographic_places::{self, TopographicPlace, TopographicPlaceView};
use crate::xml::{
    children, deep_result, extends, get_attribute, has_attribute, is_named, lemma_no_step, missing_id,
    read_children, scan, since, spec_get_attribute, ChildHandler, Obs, ParseError, XmlStream, XmlTag,
};
use vstd::prelude::*;
use vstd::string::StringSliceAdditionalSpecFns;

verus! {

/// Reading a `StopPlace` whose start tag `e` has an `id`, through its start tags only.
pub open spec fn spec_stop_place(e: XmlTag, obs: Seq<Obs>) -> Option<(Result<StopPlaceView, ParseError>, nat)> {
    children::<StopPlace>(obs, Some("StopPlace".spec_bytes()), false, stop_places::initial(e))
}

/// Reading a `TopographicPlace` whose start tag `e` has an `id`, through its start tags only.
pub open spec fn spec_topographic_place(e: XmlTag, obs: Seq<Obs>) -> Option<(Result<TopographicPlaceView, ParseError>, nat)> {
    children::<TopographicPlace>(obs, Some("TopographicPlace".spec_bytes()), false, topographic_places::initial(e))
}

/// Reads a `StopPlace` whose start tag `e` has an `id`: its `Name`, from the
/// start tags up to `</StopPlace>`.
pub fn parse_stop_place(stream: &mut XmlStream, e: &XmlTag) -> (res: Result<StopPlace, ParseError>)
    requires
        has_attribute(*e, "id".spec_bytes()),
    ensures
        extends(old(stream).trace(), final(stream).trace()),
        final(stream).input() == old(stream).input(),
        final(stream).budget() <= old(stream).budget(),
        forall|rest: Seq<Obs>|
            #[trigger] spec_stop_place(*e, since(final(stream).trace(), old(stream).trace()) + rest)
                == Some((deep_result(res), since(final(stream).trace(), old(stream).trace()).len())),
{
    read_children(stream, Some("StopPlace".as_bytes()), false, stop_places::start(e))
}

/// Reads a `TopographicPlace` whose start tag `e` has an `id`: its `Name`,
/// from the start tags up to `</TopographicPlace>`.
pub fn parse_topographic_place(stream: &mut XmlStream, e: &XmlTag) -> (res: Result<TopographicPlace, ParseError>)
    requires
        has_attribute(*e, "id".spec_bytes()),
    ensures
        extends(old(stream).trace(), final(stream).trace()),
        final(stream).input() == old(stream).input(),
        final(stream).budget() <= old(stream).budget(),
        forall|rest: Seq<Obs>|
            #[trigger] spec_topographic_place(*e, since(final(stream).trace(), old(stream).trace()) + rest)
                == Some((deep_result(res), since(final(stream).trace(), old(stream).trace()).len())),
{
    read_children(stream, Some("TopographicPlace".as_bytes()), false, topographic_places::start(e))
}

/// The places of a site frame, in the order of the document.
#[derive(Debug, Clone, PartialEq, Eq)]
pub struct SiteFramePlaces {
    pub stop_places: Vec<StopPlace>,
    pub topographic_places: Vec<TopographicPlace>,
}

impl DeepView for SiteFramePlaces {
    type V = (Seq<StopPlaceView>, Seq<TopographicPlaceView>);

    open spec fn deep_view(&self) -> (Seq<StopPlaceView>, Seq<TopographicPlaceView>) {
        (self.stop_places.deep_view(), self.topographic_places.deep_view())
    }
}

impl ChildHandler for SiteFramePlaces {
    open spec fn spec_handle(
        acc: (Seq<StopPlaceView>, Seq<TopographicPlaceView>),
        child: XmlTag,
        obs: Seq<Obs>,
    ) -> Option<(Result<(Seq<StopPlaceView>, Seq<TopographicPlaceView>), ParseError>, nat)> {
        if child.name@ == "StopPlace".spec_bytes() {
            if has_attribute(child, "id".spec_bytes()) {
                match spec_stop_place(child, obs) {
                    Some((Ok(p), n)) => Some((Ok((acc.0.push(p), acc.1)), n)),
                    Some((Err(e), n)) => Some((Err(e), n)),
                    None => None,
                }
            } else {
                Some((Err(missing_id()), 0))
            }
        } else if child.name@ == "TopographicPlace".spec_bytes() {
            if has_attribute(child, "id".spec_bytes()) {
                match spec_topographic_place(child, obs) {
                    Some((Ok(p), n)) => Some((Ok((acc.0, acc.1.push(p))), n)),
                    Some((Err(e), n)) => Some((Err(e), n)),
                    None => None,
                }
            } else {
                Some((Err(missing_id()), 0))
            }
        } else {
            Some((Ok(acc), 0))
        }
    }

    fn handle(self, stream: &mut XmlStream, child: &XmlTag) -> (res: Result<Self, ParseError>) {
        let ghost t0 = stream.trace();
        let mut places = self;
        let ghost before = places.deep_view();
        if is_named(child, "StopPlace") {
            if get_attribute(child, "id".as_bytes()).is_none() {
                proof { lemma_no_step(t0); }
                return Err(ParseError::MissingAttribute("id not found"));
            }
            match parse_stop_place(stream, child) {
                Ok(place) => {
                    places.stop_places.push(place);
                    proof {
                        assert(places.stop_places.deep_view() =~= before.0.push(place.deep_view()));
                    }
                    Ok(places)
                },
                Err(e) => Err(e),
            }
        } else if is_named(child, "TopographicPlace") {
            if get_attribute(child, "id".as_bytes()).is_none() {
                proof { lemma_no_step(t0); }
                return Err(ParseError::MissingAttribute("id not found"));
            }
            match parse_topographic_place(stream, child) {
                Ok(place) => {
                    places.topographic_places.push(place);
                    proof {
                        assert(places.topographic_places.deep_view() =~= before.1.push(place.deep_view()));
                    }
                    Ok(places)
                },
                Err(e) => Err(e),
            }
        } else {
            proof { lemma_no_step(t0); }
            Ok(places)
        }
    }
}

/// Reading a `StopPlace` child with an `id` keeps the stop places read
/// before and adds the one read after them, leaving the topographic places
/// as they were; a `TopographicPlace` child with an `id` does the same for
/// the topographic places; either fails exactly when reading the place
/// fails. Any other child changes nothing and takes no step.
pub proof fn lemma_place_appended(
    acc: (Seq<StopPlaceView>, Seq<TopographicPlaceView>),
    child: XmlTag,
    obs: Seq<Obs>,
)
    ensures
        child.name@ == "StopPlace".spec_bytes() && has_attribute(child, "id".spec_bytes()) ==> match spec_stop_place(child, obs) {
            Some((Ok(p), n)) => SiteFramePlaces::spec_handle(acc, child, obs) matches Some((Ok(v), m)) && {
                &&& m == n
                &&& v.0.len() == acc.0.len() + 1
                &&& v.0.take(acc.0.len() as int) == acc.0
                &&& v.0.last() == p
                &&& v.1 == acc.1
            },
            Some((Err(e), n)) => SiteFramePlaces::spec_handle(acc, child, obs) == Some((
                Err::<(Seq<StopPlaceView>, Seq<TopographicPlaceView>), ParseError>(e),
                n,
            )),
            None => SiteFramePlaces::spec_handle(acc, child, obs) is None,
        },
        child.name@ == "TopographicPlace".spec_bytes() && has_attribute(child, "id".spec_bytes()) ==> match spec_topographic_place(child, obs) {
            Some((Ok(p), n)) => SiteFramePlaces::spec_handle(acc, child, obs) matches Some((Ok(v), m)) && {
                &&& m == n
                &&& v.1.len() == acc.1.len() + 1
                &&& v.1.take(acc.1.len() as int) == acc.1
                &&& v.1.last() == p
                &&& v.0 == acc.0
            },
            Some((Err(e), n)) => SiteFramePlaces::spec_handle(acc, child, obs) == Some((
                Err::<(Seq<StopPlaceView>, Seq<TopographicPlaceView>), ParseError>(e),
                n,
            )),
            None => SiteFramePlaces::spec_handle(acc, child, obs) is None,
        },
        child.name@ != "StopPlace".spec_bytes() && child.name@ != "TopographicPlace".spec_bytes()
            ==> SiteFramePlaces::spec_handle(acc, child, obs)
            == Some((Ok::<(Seq<StopPlaceView>, Seq<TopographicPlaceView>), ParseError>(acc), 0nat)),
{
    reveal_strlit("StopPlace");
    reveal_strlit("TopographicPlace");
    assert(vstd::utf8::is_ascii_chars("StopPlace"@));
    assert(vstd::utf8::is_ascii_chars("TopographicPlace"@));
    crate::xml::lemma_ascii_bytes("StopPlace");
    crate::xml::lemma_ascii_bytes("TopographicPlace");
    assert("StopPlace".spec_bytes()[0] != "TopographicPlace".spec_bytes()[0]);
    if let Some((Ok(p), n)) = spec_stop_place(child, obs) {
        assert(acc.0.push(p).take(acc.0.len() as int) =~= acc.0);
    }
    if let Some((Ok(p), n)) = spec_topographic_place(child, obs) {
        assert(acc.1.push(p).take(acc.1.len() as int) =~= acc.1);
    }
}

/// Over the reading of a whole frame, the places held at the start are kept
/// at the head of the places returned, and each list grows by at most one
/// place per step read.
pub proof fn lemma_frame_keeps_places(
    obs: Seq<Obs>,
    end: Option<Seq<u8>>,
    include_empty: bool,
    acc: (Seq<StopPlaceView>, Seq<TopographicPlaceView>),
)
    ensures
        children::<SiteFramePlaces>(obs, end, include_empty, acc) matches Some((Ok(v), n)) ==> {
            &&& acc.0.is_prefix_of(v.0)
            &&& acc.1.is_prefix_of(v.1)
            &&& v.0.len() + v.1.len() <= acc.0.len() + acc.1.len() + n
        },
    decreases obs.len(),
{
    if let Some((Ok(Some(child)), n)) = scan(obs, end, include_empty) {
        if 1 <= n <= obs.len() {
            let rest = obs.skip(n as int);
            lemma_place_appended(acc, child, rest);
            if let Some((Ok(acc2), m)) = SiteFramePlaces::spec_handle(acc, child, rest) {
                if m <= rest.len() {
                    let tail = rest.skip(m as int);
                    lemma_frame_keeps_places(tail, end, include_empty, acc2);
                    if let Some((Ok(v), k)) = children::<SiteFramePlaces>(tail, end, include_empty, acc2) {
                        assert(acc.0.is_prefix_of(acc2.0));
                        assert(acc.1.is_prefix_of(acc2.1));
                        assert(acc2.0.len() + acc2.1.len() <= acc.0.len() + acc.1.len() + 1);
                        assert(v.0.take(acc.0.len() as int) =~= v.0.take(acc2.0.len() as int).take(acc.0.len() as int));
                        assert(v.1.take(acc.1.len() as int) =~= v.1.take(acc2.1.len() as int).take(acc.1.len() as int));
                    }
                }
            }
        }
    }
    if let Some((Ok(None), n)) = scan(obs, end, include_empty) {
        assert(acc.0.take(acc.0.len() as int) =~= acc.0);
        assert(acc.1.take(acc.1.len() as int) =~= acc.1);
    }
}

/// Reads a `SiteFrame` up to `</SiteFrame>`, collecting the stop places and
/// topographic places that its start tags begin.
pub fn parse_site_frame(stream: &mut XmlStream) -> (res: Result<SiteFramePlaces, ParseError>)
    ensures
        extends(old(stream).trace(), final(stream).trace()),
        final(stream).input() == old(stream).input(),
        final(stream).budget() <= old(stream).budget(),
        forall|rest: Seq<Obs>|
            #[trigger] children::<SiteFramePlaces>(
                since(final(stream).trace(), old(stream).trace()) + rest,
                Some("SiteFrame".spec_bytes()),
                false,
                (Seq::empty(), Seq::empty()),
            ) == Some((deep_result(res), since(final(stream).trace(), old(stream).trace()).len())),
{
    let places = SiteFramePlaces { stop_places: Vec::new(), topographic_places: Vec::new() };
    proof {
        assert(places.deep_view().0 =~= Seq::<StopPlaceView>::empty());
        assert(places.deep_view().1 =~= Seq::<TopographicPlaceView>::empty());
    }
    read_children(stream, Some("SiteFrame".as_bytes()), false, places)
}

} // verus!
