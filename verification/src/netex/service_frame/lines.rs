//! Lines (`lines`): passed over, child by child.

use crate::xml::{children, deep_result, extends, lemma_no_step, parse_tag, since, ChildHandler, Obs, ParseError, XmlStream, XmlTag};
use vstd::prelude::*;
use vstd::string::StringSliceAdditionalSpecFns;

verus! {

/// Reading the children of `lines`: nothing is kept of them.
pub struct Lines;

impl DeepView for Lines {
    type V = ();

    open spec fn deep_view(&self) -> () {
        ()
    }
}

impl ChildHandler for Lines {
    open spec fn spec_handle(acc: (), child: XmlTag, obs: Seq<Obs>) -> Option<(Result<(), ParseError>, nat)> {
        Some((Ok(()), 0))
    }

    fn handle(self, stream: &mut XmlStream, child: &XmlTag) -> (res: Result<Self, ParseError>) {
        proof { lemma_no_step(stream.trace()); }
        Ok(self)
    }
}

/// Reads a `lines` section up to its end, keeping nothing of it.
pub fn parse(stream: &mut XmlStream) -> (res: Result<(), ParseError>)
    ensures
        extends(old(stream).trace(), final(stream).trace()),
        final(stream).input() == old(stream).input(),
        final(stream).budget() <= old(stream).budget(),
        forall|rest: Seq<Obs>|
            #[trigger] children::<Lines>(since(final(stream).trace(), old(stream).trace()) + rest, Some("lines".spec_bytes()), true, ())
                == Some((deep_result(match res { Ok(()) => Ok(Lines), Err(e) => Err(e) }), since(final(stream).trace(), old(stream).trace()).len())),
{
    match parse_tag(stream, "lines".as_bytes(), Lines) {
        Ok(_) => Ok(()),
        Err(e) => Err(e),
    }
}

} // verus!
