//! The grouping of the declarations of a parsed schema into namespaces of
//! type definitions, constructor definitions and function definitions.

pub mod constructor_def;
pub mod constructor_variant;
pub mod field;
pub mod function_def;
pub mod ident;
pub mod path;
pub mod schema;
pub mod ty;
pub mod type_def;
pub mod utils;

pub use constructor_def::{ConstructorDef, ConstructorDefNamespace};
pub use constructor_variant::ConstructorVariant;
pub use field::{Field, FieldNamed, FieldUnnamed};
pub use function_def::{FunctionDef, FunctionDefNamespace};
pub use ident::Ident;
pub use path::Path;
pub use schema::Schema;
pub use ty::{Type, TypeBuiltIn};
pub use type_def::{TypeDef, TypeDefNamespace};
pub use utils::LoweringError;
