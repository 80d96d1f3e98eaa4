use vstd::prelude::*;

verus! {

/// An opaque text payload carried by a packet.
#[derive(Clone, Debug, Eq, PartialEq)]
pub struct Body(pub String);

impl View for Body {
    type V = Seq<char>;

    open spec fn view(&self) -> Seq<char> {
        self.0@
    }
}

/// Whether a text parses as syntactically valid JSON. The answer depends on
/// the characters alone.
pub uninterp spec fn json_accepted(s: Seq<char>) -> bool;

/// Relies on `serde_json::from_str::<serde_json::Value>`: whether the text
/// is accepted as JSON is a function of the characters alone.
#[verifier::external_body]
fn json_parse_ok(s: &str) -> (r: bool)
    ensures
        r == json_accepted(s@),
{
    serde_json::from_str::<serde_json::Value>(s).is_ok()
}

impl Body {
    /// Check whether the body can be parsed as JSON. Informational only,
    /// never enforced.
    pub fn is_valid_json(&self) -> (r: bool)
        ensures
            r == json_accepted(self@),
    {
        json_parse_ok(self.0.as_str())
    }
}

} // verus!
