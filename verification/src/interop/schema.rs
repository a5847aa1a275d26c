//! A lowered schema.

use vstd::prelude::*;
use crate::file::File;
use crate::interop::constructor_def::{constructor_walk, ConstructorDefModel, ConstructorDefNamespace};
use crate::interop::function_def::{function_walk, FunctionDefModel, FunctionDefNamespace};
use crate::interop::type_def::{type_walk, TypeDefNamespace, TypeNamespace};
use crate::interop::utils::{LoweringError, Namespace};
use crate::item::{Item, ItemModel};
use crate::synom::views;

verus! {

/// A lowered schema: its layer, and the namespaces of its type definitions,
/// constructor definitions and function definitions.
#[derive(Debug, PartialEq, Eq)]
pub struct Schema {
    pub layer: u32,
    pub type_def_ns: TypeDefNamespace,
    pub constructor_def_ns: ConstructorDefNamespace,
    pub function_def_ns: FunctionDefNamespace,
}

/// What a lowered schema says.
pub ghost struct SchemaModel {
    pub layer: u32,
    pub types: TypeNamespace,
    pub constructors: Namespace<ConstructorDefModel>,
    pub functions: Namespace<FunctionDefModel>,
}

impl View for Schema {
    type V = SchemaModel;

    open spec fn view(&self) -> SchemaModel {
        SchemaModel {
            layer: self.layer,
            types: self.type_def_ns@,
            constructors: self.constructor_def_ns@,
            functions: self.function_def_ns@,
        }
    }
}

/// The layer of the first layer item of `items`, or zero where there is
/// none.
pub open spec fn layer_of(items: Seq<ItemModel>) -> u32
    decreases items.len(),
{
    if items.len() == 0 {
        0
    } else {
        match items[0] {
            ItemModel::Layer(l) => l,
            _ => layer_of(items.drop_first()),
        }
    }
}

/// The lowered form of the schema that the items `items` are: its three
/// namespaces, walked one after the other, and its layer. It fails as the
/// first walk that fails does.
pub open spec fn lower_schema(items: Seq<ItemModel>) -> Result<SchemaModel, LoweringError> {
    match type_walk(items) {
        Err(e) => Err(e),
        Ok(types) => match constructor_walk(items) {
            Err(e) => Err(e),
            Ok(constructors) => match function_walk(items) {
                Err(e) => Err(e),
                Ok(functions) => Ok(
                    SchemaModel {
                        layer: layer_of(items),
                        types: types.1,
                        constructors: constructors.1,
                        functions: functions.1,
                    },
                ),
            },
        },
    }
}

/// The layer of the first layer item of `items`, if there is one.
fn get_layer(items: &Vec<Item>) -> (r: Option<u32>)
    ensures
        r matches Some(l) ==> l == layer_of(views(items@)),
        r is None ==> layer_of(views(items@)) == 0,
{
    let ghost all = views(items@);
    let mut i: usize = 0;
    proof {
        assert(all.skip(0) =~= all);
    }
    while i < items.len()
        invariant
            i <= items.len(),
            all == views(items@),
            layer_of(all) == layer_of(all.skip(i as int)),
        decreases items.len() - i,
    {
        proof {
            assert(all.skip(i as int)[0] == items@[i as int]@);
            assert(all.skip(i as int).drop_first() =~= all.skip(i as int + 1));
        }
        match &items[i] {
            Item::Layer(layer) => {
                return Some(layer.layer);
            },
            _ => {},
        }
        i += 1;
    }
    None
}

impl Schema {
    /// The lowered form of the schema of `tl_file`.
    pub fn from_tl_file(tl_file: &File) -> (r: Result<Schema, LoweringError>)
        ensures
            match lower_schema(tl_file@) {
                Ok(schema) => r matches Ok(s) && s@ == schema,
                Err(e) => r == Err::<Schema, LoweringError>(e),
            },
            r matches Ok(s) ==> crate::interop::type_def::well_named_types(s@.types)
                && crate::interop::utils::well_named(s@.constructors)
                && crate::interop::utils::well_named(s@.functions),
    {
        let items = &tl_file.items;
        let layer = match get_layer(items) {
            Some(layer) => layer,
            None => 0,
        };
        let type_def_ns = match TypeDefNamespace::from_tl_items(items) {
            Ok(ns) => ns,
            Err(e) => { return Err(e); },
        };
        let constructor_def_ns = match ConstructorDefNamespace::from_tl_items(items) {
            Ok(ns) => ns,
            Err(e) => { return Err(e); },
        };
        let function_def_ns = match FunctionDefNamespace::from_tl_items(items) {
            Ok(ns) => ns,
            Err(e) => { return Err(e); },
        };
        Ok(Schema { layer, type_def_ns, constructor_def_ns, function_def_ns })
    }
}

} // verus!
