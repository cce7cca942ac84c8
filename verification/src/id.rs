//! Uppercase identifiers of regions and diseases.

use vstd::prelude::*;

verus! {

/// The uppercase form of a text, as the standard library computes it.
pub uninterp spec fn uppercase(text: Seq<char>) -> Seq<char>;

/// Calls `str::to_uppercase`. The contract names the result after the
/// characters of `text` and claims nothing else of it.
#[verifier::external_body]
fn to_uppercase(text: &str) -> (upper: String)
    ensures
        upper@ == uppercase(text@),
{
    text.to_uppercase()
}

/// An uppercase identifier.
pub struct Id(String);

impl View for Id {
    type V = Seq<char>;

    /// The identifier's characters.
    open spec fn view(&self) -> Seq<char> {
        self.text()@
    }
}

impl Id {
    /// The text that the identifier holds.
    pub closed spec fn text(self) -> String {
        self.0
    }

    /// The identifier of `raw`: its uppercase form. Nothing else is asked of
    /// `raw`.
    pub fn normalize(raw: &str) -> (id: Id)
        ensures
            id@ == uppercase(raw@),
    {
        Id(to_uppercase(raw))
    }

    pub fn as_str(&self) -> (text: &str)
        ensures
            text@ == self@,
    {
        self.0.as_str()
    }

    /// The identifier that reads as `text`, which is taken as it is.
    pub(crate) fn from_text(text: String) -> (id: Id)
        ensures
            id@ == text@,
    {
        Id(text)
    }

    pub(crate) fn as_string(&self) -> (text: &String)
        ensures
            text@ == self@,
    {
        &self.0
    }

    /// Whether `text` is this identifier, character for character.
    pub fn names(&self, text: &String) -> (same: bool)
        ensures
            same == (self@ == text@),
    {
        self.0 == *text
    }
}

impl std::str::FromStr for Id {
    type Err = std::convert::Infallible;

    fn from_str(s: &str) -> (parsed: Result<Self, Self::Err>)
        ensures
            parsed matches Ok(id) && id@ == uppercase(s@),
    {
        Ok(Id::normalize(s))
    }
}

impl From<Id> for String {
    fn from(id: Id) -> (text: String)
        ensures
            text@ == id@,
    {
        id.0
    }
}

impl vstd::std_specs::convert::FromSpecImpl<Id> for String {
    open spec fn obeys_from_spec() -> bool {
        true
    }

    open spec fn from_spec(id: Id) -> String {
        id.text()
    }
}

} // verus!
