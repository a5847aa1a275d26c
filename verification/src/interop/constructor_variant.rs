//! The variants of a type definition.

use vstd::prelude::*;
use crate::interop::ident::Ident;
use crate::interop::path::Path;
use crate::interop::ty::{lemma_names, prefixed, prefixed_path};
use crate::interop::utils::LoweringError;
use crate::item::{CombinatorModel, ItemCombinator};
use crate::path::{ParameterizedPath, ParameterizedPathModel};

verus! {

/// One constructor of a type: its name, its id, and the path of the
/// structure that holds its fields.
#[derive(Clone, Debug, PartialEq, Eq)]
pub struct ConstructorVariant {
    pub name: Ident,
    pub id: u32,
    pub struct_path: Path,
}

/// What a constructor variant says.
pub ghost struct VariantModel {
    pub name: Seq<char>,
    pub id: u32,
    pub struct_path: ParameterizedPathModel,
}

impl View for ConstructorVariant {
    type V = VariantModel;

    open spec fn view(&self) -> VariantModel {
        VariantModel { name: self.name@, id: self.id, struct_path: self.struct_path@ }
    }
}

/// The variant that a combinator declares: named by the last segment of
/// the combinator's name, with the combinator's id, and with the
/// combinator's name behind `schema.constructors` as the path of its
/// structure.
pub open spec fn lower_variant(c: CombinatorModel) -> Result<VariantModel, LoweringError> {
    if c.name.items.len() == 0 {
        Err(LoweringError::EmptyPath)
    } else {
        match c.id {
            None => Err(LoweringError::MissingId),
            Some(id) => Ok(
                VariantModel {
                    name: c.name.items.last(),
                    id,
                    struct_path: ParameterizedPathModel {
                        path: prefixed("schema"@, "constructors"@, c.name),
                        args: None,
                    },
                },
            ),
        }
    }
}

impl ConstructorVariant {
    /// The variant that `combinator` declares.
    pub fn from_tl_combinator(combinator: &ItemCombinator) -> (r: Result<
        ConstructorVariant,
        LoweringError,
    >)
        ensures
            match lower_variant(combinator@) {
                Ok(v) => r matches Ok(x) && x@ == v,
                Err(e) => r == Err::<ConstructorVariant, LoweringError>(e),
            },
    {
        let name = match Ident::from_path_last_segment(&combinator.name) {
            Some(name) => name,
            None => { return Err(LoweringError::EmptyPath); },
        };
        let id = match &combinator.combinator_id {
            Some(i) => i.id.id,
            None => { return Err(LoweringError::MissingId); },
        };
        proof {
            lemma_names();
        }
        let path = prefixed_path("schema", "constructors", &combinator.name);
        Ok(
            ConstructorVariant {
                name,
                id,
                struct_path: Path(ParameterizedPath { path, args: None }),
            },
        )
    }
}

} // verus!
