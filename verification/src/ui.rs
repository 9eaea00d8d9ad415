//! Text elements of the interface.

use vstd::prelude::*;

verus! {

/// A piece of text in the interface, with a colour where one is set.
#[derive(Debug, Clone, Default)]
pub struct Text {
    pub text: String,
    pub color: Option<String>,
}

impl Text {
    /// The text `s`, with no colour.
    pub fn new(s: &str) -> (r: Self)
        ensures
            r.text@ == s@,
            r.color is None,
    {
        Text { text: String::from_str(s), color: None }
    }

    /// The same text in colour `c`.
    pub fn color(self, c: &str) -> (r: Self)
        ensures
            r.text@ == self.text@,
            r.color is Some && r.color->0@ == c@,
    {
        Text { text: self.text, color: Some(String::from_str(c)) }
    }
}

} // verus!
