//! Locations (`Location`): a pair of coordinates.

use crate::xml::{
    children, is_named, lemma_no_step, option_view, parse_tag, read_text, text_child, ChildHandler, Obs, Parse,
    ParseError, XmlStream, XmlTag,
};
use vstd::prelude::*;
use vstd::string::StringSliceAdditionalSpecFns;

verus! {

/// A `Location` element. Its coordinates are kept as the text of the
/// `Longitude` and `Latitude` children, `None` when absent.
#[derive(Debug, Clone, PartialEq, Eq)]
pub struct Location {
    pub longitude: Option<String>,
    pub latitude: Option<String>,
}

pub struct LocationView {
    pub longitude: Option<Seq<char>>,
    pub latitude: Option<Seq<char>>,
}

impl DeepView for Location {
    type V = LocationView;

    open spec fn deep_view(&self) -> LocationView {
        LocationView { longitude: option_view(self.longitude), latitude: option_view(self.latitude) }
    }
}

/// A `Longitude` or `Latitude` child sets the longitude or the latitude to
/// its text, whatever children came before, and leaves the other
/// coordinate as it was. Any other child changes nothing and takes no step.
pub proof fn lemma_location_child(acc: LocationView, child: XmlTag, obs: Seq<Obs>, bytes: Seq<u8>)
    ensures
        child.name@ == "Longitude".spec_bytes() && obs.len() >= 1 && obs[0] == Obs::Text("Longitude".spec_bytes(), Ok::<Seq<u8>, ParseError>(bytes))
            ==> Location::spec_handle(acc, child, obs)
            == Some((Ok::<LocationView, ParseError>(LocationView { longitude: Some(crate::xml::utf8_lossy(bytes)), latitude: acc.latitude }), 1nat)),
        child.name@ == "Latitude".spec_bytes() && obs.len() >= 1 && obs[0] == Obs::Text("Latitude".spec_bytes(), Ok::<Seq<u8>, ParseError>(bytes))
            ==> Location::spec_handle(acc, child, obs)
            == Some((Ok::<LocationView, ParseError>(LocationView { longitude: acc.longitude, latitude: Some(crate::xml::utf8_lossy(bytes)) }), 1nat)),
        child.name@ != "Longitude".spec_bytes() && child.name@ != "Latitude".spec_bytes()
            ==> Location::spec_handle(acc, child, obs) == Some((Ok::<LocationView, ParseError>(acc), 0nat)),
{
    reveal_strlit("Longitude");
    reveal_strlit("Latitude");
    assert(vstd::utf8::is_ascii_chars("Longitude"@));
    assert(vstd::utf8::is_ascii_chars("Latitude"@));
    crate::xml::lemma_ascii_bytes("Longitude");
    crate::xml::lemma_ascii_bytes("Latitude");
    assert("Longitude".spec_bytes()[1] != "Latitude".spec_bytes()[1]);
}

impl ChildHandler for Location {
    open spec fn spec_handle(acc: LocationView, child: XmlTag, obs: Seq<Obs>) -> Option<(Result<LocationView, ParseError>, nat)> {
        if child.name@ == "Longitude".spec_bytes() {
            text_child(obs, "Longitude".spec_bytes(), acc, |a: LocationView, t: Seq<char>| LocationView { longitude: Some(t), ..a })
        } else if child.name@ == "Latitude".spec_bytes() {
            text_child(obs, "Latitude".spec_bytes(), acc, |a: LocationView, t: Seq<char>| LocationView { latitude: Some(t), ..a })
        } else {
            Some((Ok(acc), 0))
        }
    }

    fn handle(self, stream: &mut XmlStream, child: &XmlTag) -> (res: Result<Self, ParseError>) {
        let ghost t0 = stream.trace();
        let mut location = self;
        if is_named(child, "Longitude") {
            match read_text(stream, "Longitude".as_bytes()) {
                Ok(text) => {
                    location.longitude = Some(text);
                    Ok(location)
                },
                Err(e) => Err(e),
            }
        } else if is_named(child, "Latitude") {
            match read_text(stream, "Latitude".as_bytes()) {
                Ok(text) => {
                    location.latitude = Some(text);
                    Ok(location)
                },
                Err(e) => Err(e),
            }
        } else {
            proof { lemma_no_step(t0); }
            Ok(location)
        }
    }
}

impl Parse for Location {
    open spec fn element_name() -> Seq<u8> {
        "Location".spec_bytes()
    }

    fn tag_name() -> (name: &'static str) {
        "Location"
    }

    open spec fn accepts(e: XmlTag) -> bool {
        true
    }

    fn can_parse(e: &XmlTag) -> (res: bool) {
        true
    }

    open spec fn spec_parse(e: XmlTag, obs: Seq<Obs>) -> Option<(Result<LocationView, ParseError>, nat)> {
        children::<Location>(obs, Some("Location".spec_bytes()), true, LocationView { longitude: None, latitude: None })
    }

    /// Reads a `Location`; its start tag's attributes are not used.
    fn parse(stream: &mut XmlStream, e: &XmlTag) -> (res: Result<Self, ParseError>) {
        parse_tag(stream, "Location".as_bytes(), Location { longitude: None, latitude: None })
    }
}

} // verus!
