//! The possible types that can appear in TL declarations.

use vstd::prelude::*;
use vstd::std_specs::cmp::PartialEqSpec;
use vstd::utf8::valid_utf8;
use crate::chars::ascii_bytes;
use crate::cursor::Cursor;
use crate::error::ParseResult;
use crate::ident::Ident;
use crate::parsed::{tag, Parsed};
use crate::path::{
    parse_safe_path, print_safe_path, safe_path_eq, safe_path_extent, safe_path_grammar,
    safe_path_span, safe_path_text,
    SafeParameterizedPath, SafeParameterizedPathModel,
};
use crate::print::Print;
use crate::span::{joined, Span};
use crate::spanned::Spanned;
use crate::synom::{agrees, Synom};
use crate::token::{Excl, Percent};

verus! {

/// The possible types that can appear in TL declarations.
#[derive(Debug, Hash)]
pub enum Type {
    Int(TypeInt),
    ParameterizedPath(TypeParameterizedPath),
    TypeParameter(TypeTypeParameter),
    Bare(TypeBare),
}

/// A special type of integers in range from 0 to 2^31-1 inclusive: `#`.
#[derive(Debug, Hash)]
pub struct TypeInt {
    pub hash_token: crate::token::Hash,
}

/// A type represented by a safe parameterized path: `contacts.Link`,
/// `messages.Chats`.
#[derive(Debug, Hash)]
pub struct TypeParameterizedPath {
    pub safe_parameterized_path: SafeParameterizedPath,
}

/// A type parameter: `!X`.
#[derive(Debug, Hash)]
pub struct TypeTypeParameter {
    pub excl_token: Excl,
    pub ident: Ident,
}

/// A bare type: `%(Tuple X n)`.
#[derive(Debug, Hash)]
pub struct TypeBare {
    pub percent_token: Percent,
    pub inner: Box<Type>,
}

/// What a type says.
pub ghost enum TypeModel {
    Int,
    ParameterizedPath(SafeParameterizedPathModel),
    TypeParameter(Seq<char>),
    Bare(Box<TypeModel>),
}

/// What `t` says.
pub open spec fn type_model(t: Type) -> TypeModel
    decreases t,
{
    match t {
        Type::Int(_) => TypeModel::Int,
        Type::ParameterizedPath(p) => TypeModel::ParameterizedPath(p.safe_parameterized_path@),
        Type::TypeParameter(p) => TypeModel::TypeParameter(p.ident@),
        Type::Bare(b) => TypeModel::Bare(Box::new(type_model(*b.inner))),
    }
}

impl View for Type {
    type V = TypeModel;

    open spec fn view(&self) -> TypeModel {
        type_model(*self)
    }
}

impl View for TypeInt {
    type V = ();

    open spec fn view(&self) -> () {
        ()
    }
}

impl View for TypeParameterizedPath {
    type V = SafeParameterizedPathModel;

    open spec fn view(&self) -> SafeParameterizedPathModel {
        self.safe_parameterized_path@
    }
}

impl View for TypeTypeParameter {
    type V = Seq<char>;

    open spec fn view(&self) -> Seq<char> {
        self.ident@
    }
}

impl View for TypeBare {
    type V = TypeModel;

    open spec fn view(&self) -> TypeModel {
        type_model(*self.inner)
    }
}

/// `!`, then an identifier right behind it.
#[verifier::opaque]
pub open spec fn type_parameter_grammar(s: Seq<u8>) -> Parsed<Seq<char>> {
    match tag(s, Excl::literal()) {
        Parsed::Fail { kind, begin, end } => Parsed::Fail { kind, begin, end },
        Parsed::Done { len, .. } => Ident::grammar(s.skip(len)).shift(len),
    }
}

/// `%`, then a type right behind it.
pub open spec fn bare_grammar(s: Seq<u8>) -> Parsed<TypeModel>
    decreases s.len(), 0nat,
{
    match tag(s, Percent::literal()) {
        Parsed::Fail { kind, begin, end } => Parsed::Fail { kind, begin, end },
        Parsed::Done { len, .. } => if 0 < len <= s.len() {
            type_grammar(s.skip(len)).shift(len)
        } else {
            Parsed::Fail { kind: crate::error::ParseErrorKind::Mismatch, begin: 0, end: 0 }
        },
    }
}

/// A type is, in this order of preference: `#`; a safe parameterized path; a
/// type parameter; a bare type. Where none matches, the type fails as the
/// bare type does.
pub open spec fn type_grammar(s: Seq<u8>) -> Parsed<TypeModel>
    decreases s.len(), 1nat,
{
    match tag(s, crate::token::Hash::literal()) {
        Parsed::Done { len, .. } => Parsed::Done { value: TypeModel::Int, len },
        Parsed::Fail { .. } => match safe_path_grammar(s) {
            Parsed::Done { value, len } => Parsed::Done {
                value: TypeModel::ParameterizedPath(value),
                len,
            },
            Parsed::Fail { .. } => match type_parameter_grammar(s) {
                Parsed::Done { value, len } => Parsed::Done {
                    value: TypeModel::TypeParameter(value),
                    len,
                },
                Parsed::Fail { .. } => match bare_grammar(s) {
                    Parsed::Done { value, len } => Parsed::Done {
                        value: TypeModel::Bare(Box::new(value)),
                        len,
                    },
                    Parsed::Fail { kind, begin, end } => Parsed::Fail { kind, begin, end },
                },
            },
        },
    }
}

/// Parse a type parameter.
pub fn parse_type_parameter<'a>(input: Cursor<'a>) -> (r: ParseResult<
    (Cursor<'a>, TypeTypeParameter),
>)
    ensures
        agrees(input, r, type_parameter_grammar(input.bytes())),
        r matches Ok((_, node)) ==> node.excl_token.0@ == (input.position(), input.position() + 1)
            && node.ident.extent() == (
            input.position() + 1,
            input.position() + type_parameter_grammar(input.bytes())->len,
        ),
{
    reveal(type_parameter_grammar);
    let (rest, excl_token) = match Excl::parse_cursor(input) {
        Ok(pair) => pair,
        Err(e) => { return Err(e); },
    };
    match Ident::parse_cursor(rest) {
        Ok((behind, ident)) => {
            proof {
                let a = Excl::literal().len() as int;
                let b = Ident::grammar(input.bytes().skip(a))->len;
                assert(input.bytes().skip(a).skip(b) =~= input.bytes().skip(a + b));
            }
            Ok((behind, TypeTypeParameter { excl_token, ident }))
        },
        Err(e) => Err(e),
    }
}

/// Parse a bare type.
pub fn parse_bare<'a>(input: Cursor<'a>) -> (r: ParseResult<(Cursor<'a>, TypeBare)>)
    ensures
        agrees(input, r, bare_grammar(input.bytes())),
    decreases input.bytes().len(), 0nat,
{
    let (rest, percent_token) = match Percent::parse_cursor(input) {
        Ok(pair) => pair,
        Err(e) => { return Err(e); },
    };
    match parse_type(rest) {
        Ok((behind, inner)) => {
            proof {
                let a = Percent::literal().len() as int;
                let b = type_grammar(input.bytes().skip(a))->len;
                assert(input.bytes().skip(a).skip(b) =~= input.bytes().skip(a + b));
            }
            Ok((behind, TypeBare { percent_token, inner: Box::new(inner) }))
        },
        Err(e) => Err(e),
    }
}

/// Parse a type.
pub fn parse_type<'a>(input: Cursor<'a>) -> (r: ParseResult<(Cursor<'a>, Type)>)
    ensures
        agrees(input, r, type_grammar(input.bytes())),
    decreases input.bytes().len(), 1nat,
{
    match crate::token::Hash::parse_cursor(input) {
        Ok((rest, hash_token)) => { return Ok((rest, Type::Int(TypeInt { hash_token }))); },
        Err(_) => {},
    }
    match parse_safe_path(input) {
        Ok((rest, safe_parameterized_path)) => {
            return Ok(
                (rest, Type::ParameterizedPath(TypeParameterizedPath { safe_parameterized_path })),
            );
        },
        Err(_) => {},
    }
    match parse_type_parameter(input) {
        Ok((rest, p)) => { return Ok((rest, Type::TypeParameter(p))); },
        Err(_) => {},
    }
    match parse_bare(input) {
        Ok((rest, b)) => Ok((rest, Type::Bare(b))),
        Err(e) => Err(e),
    }
}

/// The source text of a type.
pub open spec fn type_text(v: TypeModel) -> Seq<u8>
    decreases v,
{
    match v {
        TypeModel::Int => crate::token::Hash::literal(),
        TypeModel::ParameterizedPath(p) => safe_path_text(p),
        TypeModel::TypeParameter(name) => Excl::literal() + ascii_bytes(name),
        TypeModel::Bare(inner) => Percent::literal() + type_text(*inner),
    }
}

/// Put the source text of `t` behind `out`.
pub fn print_type(t: &Type, out: &mut Vec<u8>)
    ensures
        final(out)@ == old(out)@ + type_text(t@),
        valid_utf8(old(out)@) ==> valid_utf8(final(out)@),
    decreases t,
{
    match t {
        Type::Int(x) => {
            x.hash_token.print(out);
        },
        Type::ParameterizedPath(x) => {
            print_safe_path(&x.safe_parameterized_path, out);
        },
        Type::TypeParameter(x) => {
            x.excl_token.print(out);
            x.ident.print(out);
            proof {
                assert(out@ =~= old(out)@ + type_text(t@));
            }
        },
        Type::Bare(x) => {
            x.percent_token.print(out);
            print_type(&x.inner, out);
            proof {
                assert(out@ =~= old(out)@ + type_text(t@));
            }
        },
    }
}

/// Whether two types say the same.
pub fn type_eq(a: &Type, b: &Type) -> (r: bool)
    ensures
        r == (a@ == b@),
    decreases a,
{
    match a {
        Type::Int(_) => match b {
            Type::Int(_) => true,
            _ => false,
        },
        Type::ParameterizedPath(x) => match b {
            Type::ParameterizedPath(y) => safe_path_eq(
                &x.safe_parameterized_path,
                &y.safe_parameterized_path,
            ),
            _ => false,
        },
        Type::TypeParameter(x) => match b {
            Type::TypeParameter(y) => x.ident == y.ident,
            _ => false,
        },
        Type::Bare(x) => match b {
            Type::Bare(y) => type_eq(&x.inner, &y.inner),
            _ => false,
        },
    }
}

impl Synom for Type {
    open spec fn grammar(s: Seq<u8>) -> Parsed<TypeModel> {
        type_grammar(s)
    }

    fn parse_cursor<'a>(input: Cursor<'a>) -> (r: ParseResult<(Cursor<'a>, Type)>) {
        parse_type(input)
    }
}

impl Synom for TypeInt {
    open spec fn grammar(s: Seq<u8>) -> Parsed<()> {
        tag(s, crate::token::Hash::literal())
    }

    fn parse_cursor<'a>(input: Cursor<'a>) -> (r: ParseResult<(Cursor<'a>, TypeInt)>) {
        match crate::token::Hash::parse_cursor(input) {
            Ok((rest, hash_token)) => Ok((rest, TypeInt { hash_token })),
            Err(e) => Err(e),
        }
    }
}

impl Synom for TypeParameterizedPath {
    open spec fn grammar(s: Seq<u8>) -> Parsed<SafeParameterizedPathModel> {
        safe_path_grammar(s)
    }

    fn parse_cursor<'a>(input: Cursor<'a>) -> (r: ParseResult<
        (Cursor<'a>, TypeParameterizedPath),
    >) {
        match parse_safe_path(input) {
            Ok((rest, safe_parameterized_path)) => Ok(
                (rest, TypeParameterizedPath { safe_parameterized_path }),
            ),
            Err(e) => Err(e),
        }
    }
}

impl Synom for TypeTypeParameter {
    open spec fn grammar(s: Seq<u8>) -> Parsed<Seq<char>> {
        type_parameter_grammar(s)
    }

    fn parse_cursor<'a>(input: Cursor<'a>) -> (r: ParseResult<(Cursor<'a>, TypeTypeParameter)>) {
        parse_type_parameter(input)
    }
}

impl Synom for TypeBare {
    open spec fn grammar(s: Seq<u8>) -> Parsed<TypeModel> {
        bare_grammar(s)
    }

    fn parse_cursor<'a>(input: Cursor<'a>) -> (r: ParseResult<(Cursor<'a>, TypeBare)>) {
        parse_bare(input)
    }
}

impl Print for Type {
    open spec fn text(v: TypeModel) -> Seq<u8> {
        type_text(v)
    }

    fn print(&self, out: &mut Vec<u8>) {
        print_type(self, out)
    }
}

impl PartialEq for Type {
    fn eq(&self, other: &Type) -> (r: bool) {
        type_eq(self, other)
    }
}

impl Eq for Type {
}

impl vstd::std_specs::cmp::PartialEqSpecImpl for Type {
    open spec fn obeys_eq_spec() -> bool {
        true
    }

    open spec fn eq_spec(&self, other: &Type) -> bool {
        self@ == other@
    }
}

/// The span that encloses `t`.
pub open spec fn type_extent(t: Type) -> (int, int)
    decreases t,
{
    match t {
        Type::Int(x) => x.hash_token.0@,
        Type::ParameterizedPath(x) => safe_path_extent(x.safe_parameterized_path),
        Type::TypeParameter(x) => joined(x.excl_token.0@, x.ident.extent()),
        Type::Bare(x) => joined(x.percent_token.0@, type_extent(*x.inner)),
    }
}

/// Return the span that encloses `t`.
pub fn type_span(t: &Type) -> (r: Span)
    ensures
        r@ == type_extent(*t),
    decreases t,
{
    match t {
        Type::Int(x) => x.hash_token.span(),
        Type::ParameterizedPath(x) => safe_path_span(&x.safe_parameterized_path),
        Type::TypeParameter(x) => x.excl_token.span().to(x.ident.span()),
        Type::Bare(x) => x.percent_token.span().to(type_span(&x.inner)),
    }
}

impl Spanned for Type {
    open spec fn extent(&self) -> (int, int) {
        type_extent(*self)
    }

    fn span(&self) -> (r: Span) {
        type_span(self)
    }
}

/// A copy of `t`.
pub fn type_clone(t: &Type) -> (r: Type)
    ensures
        r@ == t@,
    decreases t,
{
    match t {
        Type::Int(x) => Type::Int(TypeInt { hash_token: x.hash_token }),
        Type::ParameterizedPath(x) => Type::ParameterizedPath(
            TypeParameterizedPath {
                safe_parameterized_path: crate::path::safe_path_clone(&x.safe_parameterized_path),
            },
        ),
        Type::TypeParameter(x) => Type::TypeParameter(
            TypeTypeParameter { excl_token: x.excl_token, ident: x.ident.clone() },
        ),
        Type::Bare(x) => Type::Bare(
            TypeBare { percent_token: x.percent_token, inner: Box::new(type_clone(&x.inner)) },
        ),
    }
}

impl Clone for Type {
    fn clone(&self) -> (r: Type)
        ensures
            r@ == self@,
    {
        type_clone(self)
    }
}

impl Print for TypeInt {
    open spec fn text(v: ()) -> Seq<u8> {
        crate::token::Hash::literal()
    }

    fn print(&self, out: &mut Vec<u8>) {
        self.hash_token.print(out);
    }
}

impl Print for TypeParameterizedPath {
    open spec fn text(v: SafeParameterizedPathModel) -> Seq<u8> {
        safe_path_text(v)
    }

    fn print(&self, out: &mut Vec<u8>) {
        print_safe_path(&self.safe_parameterized_path, out);
    }
}

impl Print for TypeTypeParameter {
    open spec fn text(v: Seq<char>) -> Seq<u8> {
        Excl::literal() + ascii_bytes(v)
    }

    fn print(&self, out: &mut Vec<u8>) {
        self.excl_token.print(out);
        self.ident.print(out);
        proof {
            assert(out@ =~= old(out)@ + Self::text(self@));
        }
    }
}

impl Print for TypeBare {
    open spec fn text(v: TypeModel) -> Seq<u8> {
        Percent::literal() + type_text(v)
    }

    fn print(&self, out: &mut Vec<u8>) {
        self.percent_token.print(out);
        print_type(&self.inner, out);
        proof {
            assert(out@ =~= old(out)@ + Self::text(self@));
        }
    }
}

impl PartialEq for TypeInt {
    fn eq(&self, other: &TypeInt) -> (r: bool) {
        true
    }
}

impl Eq for TypeInt {
}

impl vstd::std_specs::cmp::PartialEqSpecImpl for TypeInt {
    open spec fn obeys_eq_spec() -> bool {
        true
    }

    open spec fn eq_spec(&self, other: &TypeInt) -> bool {
        self@ == other@
    }
}

impl PartialEq for TypeParameterizedPath {
    fn eq(&self, other: &TypeParameterizedPath) -> (r: bool) {
        safe_path_eq(&self.safe_parameterized_path, &other.safe_parameterized_path)
    }
}

impl Eq for TypeParameterizedPath {
}

impl vstd::std_specs::cmp::PartialEqSpecImpl for TypeParameterizedPath {
    open spec fn obeys_eq_spec() -> bool {
        true
    }

    open spec fn eq_spec(&self, other: &TypeParameterizedPath) -> bool {
        self@ == other@
    }
}

impl PartialEq for TypeTypeParameter {
    fn eq(&self, other: &TypeTypeParameter) -> (r: bool) {
        self.ident == other.ident
    }
}

impl Eq for TypeTypeParameter {
}

impl vstd::std_specs::cmp::PartialEqSpecImpl for TypeTypeParameter {
    open spec fn obeys_eq_spec() -> bool {
        true
    }

    open spec fn eq_spec(&self, other: &TypeTypeParameter) -> bool {
        self@ == other@
    }
}

impl PartialEq for TypeBare {
    fn eq(&self, other: &TypeBare) -> (r: bool) {
        type_eq(&self.inner, &other.inner)
    }
}

impl Eq for TypeBare {
}

impl vstd::std_specs::cmp::PartialEqSpecImpl for TypeBare {
    open spec fn obeys_eq_spec() -> bool {
        true
    }

    open spec fn eq_spec(&self, other: &TypeBare) -> bool {
        self@ == other@
    }
}

impl Spanned for TypeInt {
    open spec fn extent(&self) -> (int, int) {
        self.hash_token.0@
    }

    fn span(&self) -> (r: Span) {
        self.hash_token.span()
    }
}

impl Spanned for TypeParameterizedPath {
    open spec fn extent(&self) -> (int, int) {
        safe_path_extent(self.safe_parameterized_path)
    }

    fn span(&self) -> (r: Span) {
        safe_path_span(&self.safe_parameterized_path)
    }
}

impl Spanned for TypeTypeParameter {
    open spec fn extent(&self) -> (int, int) {
        joined(self.excl_token.0@, self.ident.extent())
    }

    fn span(&self) -> (r: Span) {
        self.excl_token.span().to(self.ident.span())
    }
}

impl Spanned for TypeBare {
    open spec fn extent(&self) -> (int, int) {
        joined(self.percent_token.0@, type_extent(*self.inner))
    }

    fn span(&self) -> (r: Span) {
        self.percent_token.span().to(type_span(&self.inner))
    }
}

impl Clone for TypeInt {
    fn clone(&self) -> (r: TypeInt)
        ensures
            r@ == self@,
    {
        TypeInt { hash_token: self.hash_token }
    }
}

impl Clone for TypeParameterizedPath {
    fn clone(&self) -> (r: TypeParameterizedPath)
        ensures
            r@ == self@,
    {
        TypeParameterizedPath {
            safe_parameterized_path: crate::path::safe_path_clone(&self.safe_parameterized_path),
        }
    }
}

impl Clone for TypeTypeParameter {
    fn clone(&self) -> (r: TypeTypeParameter)
        ensures
            r@ == self@,
    {
        TypeTypeParameter { excl_token: self.excl_token, ident: self.ident.clone() }
    }
}

impl Clone for TypeBare {
    fn clone(&self) -> (r: TypeBare)
        ensures
            r@ == self@,
    {
        TypeBare { percent_token: self.percent_token, inner: Box::new(type_clone(&self.inner)) }
    }
}

} // verus!
