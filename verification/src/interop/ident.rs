//! Identifiers of lowered declarations.

use vstd::prelude::*;
use crate::ident::valid_ident_text;
use crate::interop::utils::tl_ident_span_zeroed;

verus! {

/// The identifier of a lowered declaration.
#[derive(Clone, Debug, PartialEq, Eq)]
pub struct Ident(pub crate::ident::Ident);

impl View for Ident {
    type V = Seq<char>;

    open spec fn view(&self) -> Seq<char> {
        self.0@
    }
}

impl Ident {
    /// The identifier `string`, if it is a valid one.
    pub fn with_str(string: &str) -> (r: Option<Ident>)
        ensures
            r is Some <==> valid_ident_text(string@),
            r matches Some(ident) ==> ident@ == string@,
    {
        match tl_ident_span_zeroed(string) {
            Some(ident) => Some(Ident(ident)),
            None => None,
        }
    }

    /// The last identifier of `path`, or nothing where the path has no
    /// segments.
    pub fn from_path_last_segment(path: &crate::path::Path) -> (r: Option<Ident>)
        ensures
            r is Some <==> path@.items.len() > 0,
            r matches Some(ident) ==> ident@ == path@.items.last(),
    {
        match path.segments.last() {
            Some(pair) => Some(Ident(pair.into_value().clone())),
            None => None,
        }
    }

    /// Extract a string view into this `Ident`.
    pub fn as_str(&self) -> (r: &str)
        ensures
            r@ == self@,
    {
        self.0.as_str()
    }
}

} // verus!
