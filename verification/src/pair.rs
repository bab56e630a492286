use vstd::prelude::*;
use crate::types::Type;
use crate::model::{spec_render_pair, spec_render_pair_line};
use crate::chars::chars_to_string;

verus! {

/// One object member: a string key and its value.  Keys are not unique
/// within an object.
#[derive(Debug, PartialEq)]
pub struct Pair {
    pub first: String,
    pub second: Type,
}

impl Pair {
    pub fn new(key: &str, value: Type) -> (r: Self)
        ensures
            r.first@ == key@,
            r.second == value,
    {
        Self { first: key.to_owned(), second: value }
    }

    /// The compact rendering `"key":value`.
    pub fn to_json(&self) -> (r: String)
        ensures
            r@ == spec_render_pair((self.first@, self.second@)),
    {
        let mut out: Vec<char> = Vec::new();
        crate::types::render_pair(self, &mut out);
        chars_to_string(&out)
    }

    /// The indented rendering `"key": value`, with nested containers
    /// indented past the given padding.
    pub(crate) fn to_json_line(&self, pad: &Vec<char>) -> (r: String)
        ensures
            r@ == spec_render_pair_line((self.first@, self.second@), pad@),
    {
        let mut out: Vec<char> = Vec::new();
        crate::types::render_pair_line(self, pad, &mut out);
        chars_to_string(&out)
    }
}

} // verus!
