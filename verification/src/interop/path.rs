//! Paths of lowered declarations.

use vstd::prelude::*;
use crate::path::{ParameterizedPath, ParameterizedPathModel};

verus! {

/// The path of a lowered declaration.
#[derive(Debug, PartialEq, Eq)]
pub struct Path(pub ParameterizedPath);

impl View for Path {
    type V = ParameterizedPathModel;

    open spec fn view(&self) -> ParameterizedPathModel {
        self.0@
    }
}

impl Clone for Path {
    fn clone(&self) -> (r: Path)
        ensures
            r@ == self@,
    {
        Path(self.0.clone())
    }
}

} // verus!
