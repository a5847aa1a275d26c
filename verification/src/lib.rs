//! A parser, syntax tree and printer for TL language schemas, together with
//! the grouping of parsed declarations into namespaces of types,
//! constructors and functions.

pub mod bit;
pub mod canonical;
pub mod chars;
pub mod comment;
pub mod cursor;
pub mod error;
pub mod file;
pub mod id;
pub mod ident;
pub mod interop;
pub mod item;
pub mod laws;
pub mod param;
pub mod parsed;
pub mod path;
pub mod print;
pub mod punctuated;
pub mod roundtrip;
mod sealed;
pub mod span;
pub mod spanned;
pub mod synom;
pub mod token;
pub mod ty;

pub use bit::BitIndex;
pub use comment::{Comment, CommentMultiLine, CommentSingleLine};
pub use file::{parse_file_str, File};
pub use id::Id;
pub use ident::Ident;
pub use item::{
    CombinatorId, Delimiter, DelimiterFunctions, DelimiterTypes, Item, ItemCombinator, ItemComment,
    ItemDelimiter, ItemLayer,
};
pub use param::{
    BitSelector, ConditionalParamDef, Multiplicity, OptParam, Param, ParamConditional,
    ParamRepeated, ParamRepeatedIdent, ParamTypeOnly, ParamWithParen,
};
pub use path::{
    AngleBracketedGenericArguments, GenericArguments, ParameterizedPath, Path,
    SafeParameterizedPath, SafeParameterizedPathParenthesized, SafeParameterizedPathSpaceImmune,
    SpaceSeparatedGenericArguments,
};
pub use synom::parse_str;
pub use ty::{Type, TypeBare, TypeInt, TypeParameterizedPath, TypeTypeParameter};
