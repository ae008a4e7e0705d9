//! A whole NeTEx document: its site frames and service frames.

use crate::netex::service_frame::{self, ServiceFrame, ServiceFrameView};
use crate::netex::site_frame::{self, SiteFrame, SiteFrameView};
use crate::xml::{
    children, deep_result, extends, is_named, lemma_no_step, parse, since, ChildHandler, Obs, ParseError,
    XmlStream, XmlTag,
};
use vstd::prelude::*;
use vstd::string::StringSliceAdditionalSpecFns;

verus! {

/// What the frames of a document hold, each section replacing an earlier
/// one of its kind.
#[derive(Debug, Clone, PartialEq, Eq)]
pub struct NetexDocument {
    pub site_frame: SiteFrame,
    pub service_frame: ServiceFrame,
}

pub struct NetexDocumentView {
    pub site_frame: SiteFrameView,
    pub service_frame: ServiceFrameView,
}

impl DeepView for NetexDocument {
    type V = NetexDocumentView;

    open spec fn deep_view(&self) -> NetexDocumentView {
        NetexDocumentView { site_frame: self.site_frame.deep_view(), service_frame: self.service_frame.deep_view() }
    }
}

/// A `SiteFrame` child reads the frame into the site frame held so far, a
/// `ServiceFrame` child into the service frame held so far, each keeping the
/// other frame and failing exactly when reading the frame fails. Any other
/// child changes nothing and takes no step.
pub proof fn lemma_document_child(acc: NetexDocumentView, child: XmlTag, obs: Seq<Obs>)
    ensures
        child.name@ == "SiteFrame".spec_bytes() ==> NetexDocument::spec_handle(acc, child, obs)
            == match children::<SiteFrame>(obs, Some("SiteFrame".spec_bytes()), true, acc.site_frame) {
            Some((Ok(f), n)) => Some((Ok::<NetexDocumentView, ParseError>(NetexDocumentView { site_frame: f, service_frame: acc.service_frame }), n)),
            Some((Err(e), n)) => Some((Err::<NetexDocumentView, ParseError>(e), n)),
            None => None,
        },
        child.name@ == "ServiceFrame".spec_bytes() ==> NetexDocument::spec_handle(acc, child, obs)
            == match children::<ServiceFrame>(obs, Some("ServiceFrame".spec_bytes()), true, acc.service_frame) {
            Some((Ok(f), n)) => Some((Ok::<NetexDocumentView, ParseError>(NetexDocumentView { site_frame: acc.site_frame, service_frame: f }), n)),
            Some((Err(e), n)) => Some((Err::<NetexDocumentView, ParseError>(e), n)),
            None => None,
        },
        child.name@ != "SiteFrame".spec_bytes() && child.name@ != "ServiceFrame".spec_bytes()
            ==> NetexDocument::spec_handle(acc, child, obs) == Some((Ok::<NetexDocumentView, ParseError>(acc), 0nat)),
{
    reveal_strlit("SiteFrame");
    reveal_strlit("ServiceFrame");
    assert(vstd::utf8::is_ascii_chars("SiteFrame"@));
    assert(vstd::utf8::is_ascii_chars("ServiceFrame"@));
    crate::xml::lemma_ascii_bytes("SiteFrame");
    crate::xml::lemma_ascii_bytes("ServiceFrame");
    assert("SiteFrame".spec_bytes()[1] != "ServiceFrame".spec_bytes()[1]);
}

impl ChildHandler for NetexDocument {
    open spec fn spec_handle(acc: NetexDocumentView, child: XmlTag, obs: Seq<Obs>) -> Option<(Result<NetexDocumentView, ParseError>, nat)> {
        if child.name@ == "SiteFrame".spec_bytes() {
            match children::<SiteFrame>(obs, Some("SiteFrame".spec_bytes()), true, acc.site_frame) {
                Some((Ok(f), n)) => Some((Ok(NetexDocumentView { site_frame: f, ..acc }), n)),
                Some((Err(e), n)) => Some((Err(e), n)),
                None => None,
            }
        } else if child.name@ == "ServiceFrame".spec_bytes() {
            match children::<ServiceFrame>(obs, Some("ServiceFrame".spec_bytes()), true, acc.service_frame) {
                Some((Ok(f), n)) => Some((Ok(NetexDocumentView { service_frame: f, ..acc }), n)),
                Some((Err(e), n)) => Some((Err(e), n)),
                None => None,
            }
        } else {
            Some((Ok(acc), 0))
        }
    }

    fn handle(self, stream: &mut XmlStream, child: &XmlTag) -> (res: Result<Self, ParseError>) {
        let ghost t0 = stream.trace();
        let NetexDocument { site_frame, service_frame } = self;
        if is_named(child, "SiteFrame") {
            match site_frame::parse(stream, site_frame) {
                Ok(site_frame) => Ok(NetexDocument { site_frame, service_frame }),
                Err(e) => Err(e),
            }
        } else if is_named(child, "ServiceFrame") {
            match service_frame::parse(stream, service_frame) {
                Ok(service_frame) => Ok(NetexDocument { site_frame, service_frame }),
                Err(e) => Err(e),
            }
        } else {
            proof { lemma_no_step(t0); }
            Ok(NetexDocument { site_frame, service_frame })
        }
    }
}

/// The document before any frame is read.
pub fn empty_document() -> (doc: NetexDocument)
    ensures
        doc.site_frame.stop_places is None,
        doc.site_frame.topographic_places is None,
        doc.service_frame.route_points is None,
        doc.service_frame.routes is None,
        doc.service_frame.scheduled_stop_points is None,
{
    NetexDocument { site_frame: SiteFrame::new(), service_frame: ServiceFrame::new() }
}

/// Reads a whole document: each `SiteFrame` and `ServiceFrame` element in
/// turn, up to the end of the document.
pub fn parse_document(stream: &mut XmlStream) -> (res: Result<NetexDocument, ParseError>)
    ensures
        extends(old(stream).trace(), final(stream).trace()),
        final(stream).input() == old(stream).input(),
        final(stream).budget() <= old(stream).budget(),
        forall|rest: Seq<Obs>|
            #[trigger] children::<NetexDocument>(since(final(stream).trace(), old(stream).trace()) + rest, None, true, empty_document_view())
                == Some((deep_result(res), since(final(stream).trace(), old(stream).trace()).len())),
{
    let doc = empty_document();
    parse(stream, doc)
}

pub open spec fn empty_document_view() -> NetexDocumentView {
    NetexDocumentView {
        site_frame: SiteFrameView { stop_places: None, topographic_places: None },
        service_frame: ServiceFrameView { route_points: None, routes: None, scheduled_stop_points: None },
    }
}

} // verus!
