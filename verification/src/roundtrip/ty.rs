//! Printing and parsing again: safe parameterized paths and types.

use vstd::prelude::*;
use crate::chars::{ascii_bytes, ident_beginning_char, ident_char, spaces};
use crate::ident::valid_ident_text;
use crate::parsed::{tag, Parsed};
use crate::path::{
    angle_grammar, angle_text, parameterized_path_text, parenthesized_grammar, path_text,
    safe_path_grammar, safe_path_text, space_immune_grammar, SafeParameterizedPathModel,
};
use crate::roundtrip::{
    canonical_path, lemma_ident_reads_back, lemma_literal_reads_back, lemma_path_reads_back_behind,
    lemma_path_text_shape,
};
use crate::roundtrip::arguments::{
    canonical_arguments, canonical_parameterized_path, lemma_angle_begins,
    lemma_angle_reads_back, lemma_no_path, lemma_parameterized_path_reads_back,
};
use crate::token::{Excl, LAngle, Paren, Percent};
use crate::ty::{bare_grammar, type_grammar, type_parameter_grammar, type_text, TypeModel};

verus! {

/// Whether a safe parameterized path is as the parser gives it.
pub open spec fn canonical_safe_path(v: SafeParameterizedPathModel) -> bool {
    match v {
        SafeParameterizedPathModel::SpaceImmune { path, args } => canonical_path(path) && (
        args matches Some(a) ==> !a.trailing && a.items.len() >= 1 && canonical_arguments(
            a.items,
        )),
        SafeParameterizedPathModel::Parenthesized(p) => canonical_parameterized_path(p),
    }
}

/// Whether a type is as the parser gives it.
pub open spec fn canonical_type(v: TypeModel) -> bool
    decreases v,
{
    match v {
        TypeModel::Int => true,
        TypeModel::ParameterizedPath(p) => canonical_safe_path(p),
        TypeModel::TypeParameter(name) => valid_ident_text(name),
        TypeModel::Bare(inner) => canonical_type(*inner),
    }
}

/// Whether `rest` can stand behind a type without being read as more of
/// it: it does not begin with a letter, a digit, an underscore, a dot or
/// `<`.
pub open spec fn ends_type(rest: Seq<u8>) -> bool {
    rest.len() == 0 || (!ident_char(rest[0]) && rest[0] != '.' as u8 && rest[0] != '<' as u8)
}

/// Nothing that begins with any other byte than the first of `literal`
/// begins with `literal`.
pub proof fn lemma_other_literal(s: Seq<u8>, literal: Seq<u8>)
    requires
        literal.len() > 0,
        s.len() == 0 || s[0] != literal[0],
    ensures
        tag(s, literal) is Fail,
{
    if literal.len() <= s.len() {
        assert(s.take(literal.len() as int)[0] == s[0]);
    }
}

/// A safe parameterized path reads back, where what follows does not go on
/// it.
pub proof fn lemma_safe_path_reads_back(v: SafeParameterizedPathModel, rest: Seq<u8>)
    requires
        canonical_safe_path(v),
        ends_type(rest),
    ensures
        safe_path_grammar(safe_path_text(v) + rest) == (Parsed::Done {
            value: v,
            len: safe_path_text(v).len() as int,
        }),
        (safe_path_text(v) + rest).len() > 0,
        ident_beginning_char((safe_path_text(v) + rest)[0]) || (safe_path_text(v) + rest)[0]
            == '(' as u8,
{
    reveal(safe_path_grammar);
    reveal(space_immune_grammar);
    reveal(parenthesized_grammar);
    let s = safe_path_text(v) + rest;
    let none = Seq::<u8>::empty();
    match v {
        SafeParameterizedPathModel::SpaceImmune { path, args: None } => {
            assert(s =~= none + (path_text(path) + rest));
            lemma_path_reads_back_behind(none, path, rest);
            lemma_path_text_shape(path, rest);
            assert(s.skip(path_text(path).len() as int) =~= rest);
            lemma_other_literal(rest, LAngle::literal());
            assert(angle_grammar(rest) is Fail);
            assert(safe_path_text(v) =~= path_text(path));
        },
        SafeParameterizedPathModel::SpaceImmune { path, args: Some(a) } => {
            let at = angle_text(a);
            assert(s =~= none + (path_text(path) + (at + rest)));
            lemma_angle_begins(a, rest);
            lemma_path_reads_back_behind(none, path, at + rest);
            lemma_path_text_shape(path, at + rest);
            assert(s.skip(path_text(path).len() as int) =~= at + rest);
            lemma_angle_reads_back(a, rest);
        },
        SafeParameterizedPathModel::Parenthesized(p) => {
            let pt = parameterized_path_text(p);
            let close = Paren::right() + rest;
            assert(s =~= Paren::left() + (pt + close));
            assert(s[0] == '(' as u8);
            lemma_no_path(s);
            lemma_literal_reads_back(Paren::left(), pt + close);
            assert(s.skip(1) =~= none + (pt + close));
            assert(close[0] == ')' as u8);
            assert(spaces(close) == 0);
            assert(close.skip(0) =~= close);
            lemma_parameterized_path_reads_back(none, p, close);
            assert(s.skip(1 + pt.len() as int) =~= close);
            lemma_literal_reads_back(Paren::right(), rest);
        },
    }
}

/// A type reads back: the rule of types reads the source text of a type as
/// that type, where what follows does not go on it.
pub proof fn lemma_type_reads_back(v: TypeModel, rest: Seq<u8>)
    requires
        canonical_type(v),
        ends_type(rest),
    ensures
        type_grammar(type_text(v) + rest) == (Parsed::Done {
            value: v,
            len: type_text(v).len() as int,
        }),
        type_text(v).len() > 0,
    decreases v,
{
    reveal(type_parameter_grammar);
    let s = type_text(v) + rest;
    match v {
        TypeModel::Int => {
            lemma_literal_reads_back(crate::token::Hash::literal(), rest);
        },
        TypeModel::ParameterizedPath(p) => {
            lemma_safe_path_reads_back(p, rest);
            lemma_other_literal(s, crate::token::Hash::literal());
        },
        TypeModel::TypeParameter(name) => {
            assert(s =~= Excl::literal() + (ascii_bytes(name) + rest));
            assert(s[0] == '!' as u8);
            lemma_other_literal(s, crate::token::Hash::literal());
            lemma_no_safe_path(s);
            lemma_literal_reads_back(Excl::literal(), ascii_bytes(name) + rest);
            lemma_ident_reads_back(name, rest);
        },
        TypeModel::Bare(inner) => {
            let it = type_text(*inner);
            assert(s =~= Percent::literal() + (it + rest));
            assert(s[0] == '%' as u8);
            lemma_other_literal(s, crate::token::Hash::literal());
            lemma_no_safe_path(s);
            lemma_other_literal(s, Excl::literal());
            lemma_literal_reads_back(Percent::literal(), it + rest);
            lemma_type_reads_back(*inner, rest);
            assert(bare_grammar(s) == (Parsed::Done { value: *inner, len: 1 + it.len() as int }));
            assert(Box::new(*inner) == inner);
        },
    }
}

/// No safe parameterized path begins where neither a letter nor `(`
/// stands.
pub proof fn lemma_no_safe_path(s: Seq<u8>)
    requires
        s.len() == 0 || (!ident_beginning_char(s[0]) && s[0] != '(' as u8),
        spaces(s) == 0 || s.len() == 0,
    ensures
        safe_path_grammar(s) is Fail,
{
    reveal(safe_path_grammar);
    reveal(space_immune_grammar);
    reveal(parenthesized_grammar);
    lemma_no_path(s);
    lemma_other_literal(s, Paren::left());
}

/// No type begins where none of a letter, `(`, `#`, `!` and `%` stands.
pub proof fn lemma_no_type(s: Seq<u8>)
    requires
        s.len() == 0 || (!ident_beginning_char(s[0]) && s[0] != '(' as u8 && s[0] != '#' as u8
            && s[0] != '!' as u8 && s[0] != '%' as u8),
        spaces(s) == 0 || s.len() == 0,
    ensures
        type_grammar(s) is Fail,
{
    reveal(type_parameter_grammar);
    lemma_no_safe_path(s);
    lemma_other_literal(s, crate::token::Hash::literal());
    lemma_other_literal(s, Excl::literal());
    lemma_other_literal(s, Percent::literal());
}

/// The source text of a safe parameterized path begins with a letter or
/// `(`.
pub proof fn lemma_safe_path_begins(v: SafeParameterizedPathModel)
    requires
        canonical_safe_path(v),
    ensures
        safe_path_text(v).len() > 0,
        ident_beginning_char(safe_path_text(v)[0]) || safe_path_text(v)[0] == '(' as u8,
{
    match v {
        SafeParameterizedPathModel::SpaceImmune { path, args } => {
            let more = match args {
                Some(a) => angle_text(a),
                None => Seq::<u8>::empty(),
            };
            lemma_path_text_shape(path, more);
            assert(safe_path_text(v) =~= path_text(path) + more);
        },
        SafeParameterizedPathModel::Parenthesized(p) => {
            assert(safe_path_text(v) =~= Paren::left() + (parameterized_path_text(p)
                + Paren::right()));
        },
    }
}

} // verus!
