//! The closed set of syntax tree nodes.
//!
//! Parsing, printing and telling the span are offered by the nodes of this
//! library only: the traits that offer them ask for `Sealed`, which no other
//! crate can name.

use vstd::prelude::*;

verus! {

/// Implemented by the syntax tree nodes of this library, and by nothing
/// else.
pub trait Sealed {
}

impl Sealed for crate::token::Asterisk {
}

impl Sealed for crate::token::Comma {
}

impl Sealed for crate::token::Colon {
}

impl Sealed for crate::token::Dot {
}

impl Sealed for crate::token::Equals {
}

impl Sealed for crate::token::Excl {
}

impl Sealed for crate::token::Hash {
}

impl Sealed for crate::token::LAngle {
}

impl Sealed for crate::token::Percent {
}

impl Sealed for crate::token::Plus {
}

impl Sealed for crate::token::Question {
}

impl Sealed for crate::token::RAngle {
}

impl Sealed for crate::token::Semicolon {
}

impl Sealed for crate::token::SlashSlash {
}

impl Sealed for crate::token::Empty {
}

impl Sealed for crate::token::Final {
}

impl Sealed for crate::token::New {
}

impl Sealed for crate::token::Layer {
}

impl Sealed for crate::token::Brace {
}

impl Sealed for crate::token::Bracket {
}

impl Sealed for crate::token::Paren {
}

impl Sealed for crate::token::SlashAsterisk {
}

impl Sealed for crate::ident::Ident {
}

impl Sealed for crate::id::Id {
}

impl Sealed for crate::bit::BitIndex {
}

impl Sealed for crate::comment::Comment {
}

impl Sealed for crate::comment::CommentSingleLine {
}

impl Sealed for crate::comment::CommentMultiLine {
}

impl Sealed for crate::path::Path {
}

impl Sealed for crate::path::ParameterizedPath {
}

impl Sealed for crate::path::GenericArguments {
}

impl Sealed for crate::path::AngleBracketedGenericArguments {
}

impl Sealed for crate::path::SpaceSeparatedGenericArguments {
}

impl Sealed for crate::path::SafeParameterizedPath {
}

impl Sealed for crate::path::SafeParameterizedPathSpaceImmune {
}

impl Sealed for crate::path::SafeParameterizedPathParenthesized {
}

impl Sealed for crate::ty::Type {
}

impl Sealed for crate::ty::TypeInt {
}

impl Sealed for crate::ty::TypeParameterizedPath {
}

impl Sealed for crate::ty::TypeTypeParameter {
}

impl Sealed for crate::ty::TypeBare {
}

impl Sealed for crate::param::OptParam {
}

impl Sealed for crate::param::Param {
}

impl Sealed for crate::param::ParamConditional {
}

impl Sealed for crate::param::ConditionalParamDef {
}

impl Sealed for crate::param::BitSelector {
}

impl Sealed for crate::param::ParamRepeated {
}

impl Sealed for crate::param::ParamRepeatedIdent {
}

impl Sealed for crate::param::Multiplicity {
}

impl Sealed for crate::param::ParamWithParen {
}

impl Sealed for crate::param::ParamTypeOnly {
}

impl Sealed for crate::item::Item {
}

impl Sealed for crate::item::ItemCombinator {
}

impl Sealed for crate::item::CombinatorId {
}

impl Sealed for crate::item::ItemDelimiter {
}

impl Sealed for crate::item::Delimiter {
}

impl Sealed for crate::item::DelimiterTypes {
}

impl Sealed for crate::item::DelimiterFunctions {
}

impl Sealed for crate::item::ItemLayer {
}

impl Sealed for crate::item::ItemComment {
}

impl Sealed for crate::file::File {
}

impl<T: Sealed, P: Sealed> Sealed for crate::punctuated::Punctuated<T, P> {
}

} // verus!
