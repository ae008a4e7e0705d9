//! The `ServiceFrame` of a NeTEx document.

pub mod journey_patterns;
pub mod lines;
pub mod route_points;
pub mod routes;
pub mod scheduled_stop_points;

use crate::netex::service_frame::route_points::{RoutePoint, RoutePointView};
use crate::netex::service_frame::routes::{Route, RouteView};
use crate::netex::service_frame::scheduled_stop_points::{ScheduledStopPoint, ScheduledStopPointView};
use crate::netex::service_frame::lines::Lines;
use crate::xml::{
    children, deep_result, extends, is_named, lemma_no_step, parse_tag, since, then_set, ChildHandler, ElementList,
    Obs, ParseError, XmlStream, XmlTag,
};
use vstd::prelude::*;
use vstd::string::StringSliceAdditionalSpecFns;

verus! {

/// What the sections of `ServiceFrame` elements hold. A section replaces
/// what an earlier section of the same kind held; `None` when no such
/// section was read.
#[derive(Debug, Clone, PartialEq, Eq)]
pub struct ServiceFrame {
    pub route_points: Option<Vec<RoutePoint>>,
    pub routes: Option<Vec<Route>>,
    pub scheduled_stop_points: Option<Vec<ScheduledStopPoint>>,
}

pub struct ServiceFrameView {
    pub route_points: Option<Seq<RoutePointView>>,
    pub routes: Option<Seq<RouteView>>,
    pub scheduled_stop_points: Option<Seq<ScheduledStopPointView>>,
}

impl DeepView for ServiceFrame {
    type V = ServiceFrameView;

    open spec fn deep_view(&self) -> ServiceFrameView {
        ServiceFrameView {
            route_points: self.route_points.deep_view(),
            routes: self.routes.deep_view(),
            scheduled_stop_points: self.scheduled_stop_points.deep_view(),
        }
    }
}

impl ServiceFrame {
    /// A frame of which no section was read yet.
    pub fn new() -> (frame: Self)
        ensures
            frame.route_points is None,
            frame.routes is None,
            frame.scheduled_stop_points is None,
    {
        ServiceFrame { route_points: None, routes: None, scheduled_stop_points: None }
    }
}

/// A `routePoints`, `routes` or `scheduledStopPoints` child sets the route
/// points, the routes or the scheduled stop points to the list read from
/// it, keeping the other lists; a `lines` child is read and changes
/// nothing; each fails exactly when reading the child fails. Any other child
/// changes nothing and takes no step.
pub proof fn lemma_service_frame_child(acc: ServiceFrameView, child: XmlTag, obs: Seq<Obs>)
    ensures
        child.name@ == "routePoints".spec_bytes() ==> ServiceFrame::spec_handle(acc, child, obs)
            == match children::<ElementList<RoutePoint>>(obs, Some("routePoints".spec_bytes()), true, Seq::empty()) {
            Some((Ok(l), n)) => Some((Ok::<ServiceFrameView, ParseError>(ServiceFrameView {
                route_points: Some(l),
                routes: acc.routes,
                scheduled_stop_points: acc.scheduled_stop_points,
            }), n)),
            Some((Err(e), n)) => Some((Err::<ServiceFrameView, ParseError>(e), n)),
            None => None,
        },
        child.name@ == "routes".spec_bytes() ==> ServiceFrame::spec_handle(acc, child, obs)
            == match children::<ElementList<Route>>(obs, Some("routes".spec_bytes()), true, Seq::empty()) {
            Some((Ok(l), n)) => Some((Ok::<ServiceFrameView, ParseError>(ServiceFrameView {
                route_points: acc.route_points,
                routes: Some(l),
                scheduled_stop_points: acc.scheduled_stop_points,
            }), n)),
            Some((Err(e), n)) => Some((Err::<ServiceFrameView, ParseError>(e), n)),
            None => None,
        },
        child.name@ == "scheduledStopPoints".spec_bytes() ==> ServiceFrame::spec_handle(acc, child, obs)
            == match children::<ElementList<ScheduledStopPoint>>(obs, Some("scheduledStopPoints".spec_bytes()), true, Seq::empty()) {
            Some((Ok(l), n)) => Some((Ok::<ServiceFrameView, ParseError>(ServiceFrameView {
                route_points: acc.route_points,
                routes: acc.routes,
                scheduled_stop_points: Some(l),
            }), n)),
            Some((Err(e), n)) => Some((Err::<ServiceFrameView, ParseError>(e), n)),
            None => None,
        },
        child.name@ == "lines".spec_bytes() ==> ServiceFrame::spec_handle(acc, child, obs)
            == match children::<Lines>(obs, Some("lines".spec_bytes()), true, ()) {
            Some((Ok(_), n)) => Some((Ok::<ServiceFrameView, ParseError>(acc), n)),
            Some((Err(e), n)) => Some((Err::<ServiceFrameView, ParseError>(e), n)),
            None => None,
        },
        child.name@ != "routePoints".spec_bytes() && child.name@ != "routes".spec_bytes() && child.name@ != "lines".spec_bytes()
            && child.name@ != "scheduledStopPoints".spec_bytes() ==> ServiceFrame::spec_handle(acc, child, obs)
            == Some((Ok::<ServiceFrameView, ParseError>(acc), 0nat)),
{
    reveal_strlit("routePoints");
    reveal_strlit("routes");
    reveal_strlit("lines");
    reveal_strlit("scheduledStopPoints");
    assert(vstd::utf8::is_ascii_chars("routePoints"@));
    assert(vstd::utf8::is_ascii_chars("routes"@));
    assert(vstd::utf8::is_ascii_chars("lines"@));
    assert(vstd::utf8::is_ascii_chars("scheduledStopPoints"@));
    crate::xml::lemma_ascii_bytes("routePoints");
    crate::xml::lemma_ascii_bytes("routes");
    crate::xml::lemma_ascii_bytes("lines");
    crate::xml::lemma_ascii_bytes("scheduledStopPoints");
    assert("routePoints".spec_bytes().len() != "routes".spec_bytes().len());
    assert("routePoints".spec_bytes()[0] != "lines".spec_bytes()[0]);
    assert("routePoints".spec_bytes()[0] != "scheduledStopPoints".spec_bytes()[0]);
    assert("routes".spec_bytes()[0] != "lines".spec_bytes()[0]);
    assert("routes".spec_bytes()[0] != "scheduledStopPoints".spec_bytes()[0]);
    assert("lines".spec_bytes()[0] != "scheduledStopPoints".spec_bytes()[0]);
}

impl ChildHandler for ServiceFrame {
    open spec fn spec_handle(acc: ServiceFrameView, child: XmlTag, obs: Seq<Obs>) -> Option<(Result<ServiceFrameView, ParseError>, nat)> {
        if child.name@ == "routePoints".spec_bytes() {
            then_set(
                children::<ElementList<RoutePoint>>(obs, Some("routePoints".spec_bytes()), true, Seq::empty()),
                acc,
                |a: ServiceFrameView, l: Seq<RoutePointView>| ServiceFrameView { route_points: Some(l), ..a },
            )
        } else if child.name@ == "routes".spec_bytes() {
            then_set(
                children::<ElementList<Route>>(obs, Some("routes".spec_bytes()), true, Seq::empty()),
                acc,
                |a: ServiceFrameView, l: Seq<RouteView>| ServiceFrameView { routes: Some(l), ..a },
            )
        } else if child.name@ == "lines".spec_bytes() {
            then_set(children::<Lines>(obs, Some("lines".spec_bytes()), true, ()), acc, |a: ServiceFrameView, u: ()| a)
        } else if child.name@ == "scheduledStopPoints".spec_bytes() {
            then_set(
                children::<ElementList<ScheduledStopPoint>>(obs, Some("scheduledStopPoints".spec_bytes()), true, Seq::empty()),
                acc,
                |a: ServiceFrameView, l: Seq<ScheduledStopPointView>| ServiceFrameView { scheduled_stop_points: Some(l), ..a },
            )
        } else {
            Some((Ok(acc), 0))
        }
    }

    fn handle(self, stream: &mut XmlStream, child: &XmlTag) -> (res: Result<Self, ParseError>) {
        let ghost t0 = stream.trace();
        let mut frame = self;
        if is_named(child, "routePoints") {
            match route_points::parse(stream) {
                Ok(list) => {
                    frame.route_points = Some(list);
                    Ok(frame)
                },
                Err(e) => Err(e),
            }
        } else if is_named(child, "routes") {
            match routes::parse(stream) {
                Ok(list) => {
                    frame.routes = Some(list);
                    Ok(frame)
                },
                Err(e) => Err(e),
            }
        } else if is_named(child, "lines") {
            match lines::parse(stream) {
                Ok(()) => Ok(frame),
                Err(e) => Err(e),
            }
        } else if is_named(child, "scheduledStopPoints") {
            match scheduled_stop_points::parse(stream) {
                Ok(list) => {
                    frame.scheduled_stop_points = Some(list);
                    Ok(frame)
                },
                Err(e) => Err(e),
            }
        } else {
            proof { lemma_no_step(t0); }
            Ok(frame)
        }
    }
}

/// Reads a `ServiceFrame` element into `frame`: each `routePoints`,
/// `routes` and `scheduledStopPoints` section replaces what `frame` held of
/// its kind; `lines` sections are passed over.
pub fn parse(stream: &mut XmlStream, frame: ServiceFrame) -> (res: Result<ServiceFrame, ParseError>)
    ensures
        extends(old(stream).trace(), final(stream).trace()),
        final(stream).input() == old(stream).input(),
        final(stream).budget() <= old(stream).budget(),
        forall|rest: Seq<Obs>|
            #[trigger] children::<ServiceFrame>(since(final(stream).trace(), old(stream).trace()) + rest, Some("ServiceFrame".spec_bytes()), true, frame.deep_view())
                == Some((deep_result(res), since(final(stream).trace(), old(stream).trace()).len())),
{
    parse_tag(stream, "ServiceFrame".as_bytes(), frame)
}

} // verus!
