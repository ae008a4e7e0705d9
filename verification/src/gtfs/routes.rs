//! Routes of a GTFS feed.

use vstd::prelude::*;
use vstd::string::*;

verus! {

/// A route as `routes.txt` describes it.
#[derive(Debug, Clone, PartialEq, Eq)]
pub struct Route {
    /// `route_id`
    pub id: String,
    /// `route_short_name`, absent when the feed writes `INCONNU`
    pub short_name: Option<String>,
    /// `route_type`
    pub route_type: u8,
    /// `route_color`
    pub color: Option<String>,
    /// `route_text_color`
    pub text_color: Option<String>,
}

/// The short name that a `route_short_name` field stands for: the feed marks
/// an unknown name with the word `INCONNU`.
pub open spec fn spec_short_name(value: Seq<char>) -> Option<Seq<char>> {
    if value == "INCONNU"@ {
        None
    } else {
        Some(value)
    }
}

/// Exactly the text `INCONNU` has no short name; any other text is its own
/// short name.
pub proof fn lemma_short_name(value: Seq<char>)
    ensures
        spec_short_name(value) is None <==> value == "INCONNU"@,
        spec_short_name(value) matches Some(s) ==> s == value,
{
}

/// Reads a `route_short_name` field: `INCONNU` means no short name, any
/// other text is the short name itself.
pub fn deserialize_short_name(value: &str) -> (res: Option<String>)
    ensures
        match res {
            Some(s) => spec_short_name(value@) == Some(s@),
            None => spec_short_name(value@) is None,
        },
{
    let given = value.to_owned();
    let unknown = String::from_str("INCONNU");
    if given == unknown {
        None
    } else {
        Some(given)
    }
}

} // verus!
