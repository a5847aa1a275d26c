//! Paths: dot-separated identifiers, with or without generic arguments.

use vstd::prelude::*;
use vstd::std_specs::cmp::PartialEqSpec;
use vstd::utf8::valid_utf8;
use crate::chars::{ascii_bytes, spaces};
use crate::print::{joined, lemma_joined_next, texts, Print};
use crate::punctuated::lemma_separated_joined;
use crate::span::{joined as joined_spans, joined_all, Span};
use crate::spanned::Spanned;
use crate::token::{lemma_literal, push_str};
use crate::cursor::Cursor;
use crate::error::{ParseErrorKind, ParseResult};
use crate::ident::Ident;
use crate::parsed::{fail, lemma_tail_within, many1, punctuated, spaced_rule, tag, Parsed};
use crate::punctuated::{Count, Punctuated, TrailingPunctuation, Whitespace};
use crate::synom::{agrees, parse_many1, rule, views, Synom};
use crate::token::{Comma, Dot, LAngle, Paren, RAngle};

verus! {

/// A dot-separated list of identifiers.
#[derive(Debug, Hash)]
pub struct Path {
    pub segments: Punctuated<Ident, Dot>,
}

/// A dot-separated list of identifiers with optional generic arguments.
#[derive(Debug, Hash)]
pub struct ParameterizedPath {
    pub path: Path,
    pub args: Option<GenericArguments>,
}

/// Generic arguments for parameterized paths.
#[derive(Debug, Hash)]
pub enum GenericArguments {
    AngleBracketed(AngleBracketedGenericArguments),
    SpaceSeparated(SpaceSeparatedGenericArguments),
}

/// A comma-separated list of generic arguments enclosed in angle tokens.
#[derive(Debug, Hash)]
pub struct AngleBracketedGenericArguments {
    pub langle_token: LAngle,
    pub args: Punctuated<ParameterizedPath, Comma>,
    pub rangle_token: RAngle,
}

/// A space-separated list of generic arguments.
#[derive(Debug, Hash)]
pub struct SpaceSeparatedGenericArguments {
    pub args: Vec<ParameterizedPath>,
}

/// A dot-separated list of identifiers with optional generic arguments that
/// spans over a single token tree group.
#[derive(Debug, Hash)]
pub enum SafeParameterizedPath {
    SpaceImmune(SafeParameterizedPathSpaceImmune),
    Parenthesized(SafeParameterizedPathParenthesized),
}

/// A parameterized path that spans a single token tree group.
#[derive(Debug, Hash)]
pub struct SafeParameterizedPathSpaceImmune {
    pub path: Path,
    pub args: Option<AngleBracketedGenericArguments>,
}

/// An arbitrary parameterized path enclosed in parentheses.
#[derive(Debug, Hash)]
pub struct SafeParameterizedPathParenthesized {
    pub paren_token: Paren,
    pub parameterized_path: ParameterizedPath,
}

/// What a punctuated sequence says: what its nodes say, in order, and
/// whether a punctuation follows the last of them.
pub ghost struct Separated<V> {
    pub items: Seq<V>,
    pub trailing: bool,
}

/// What a parameterized path says.
pub ghost struct ParameterizedPathModel {
    pub path: Separated<Seq<char>>,
    pub args: Option<GenericArgumentsModel>,
}

/// What generic arguments say.
pub ghost enum GenericArgumentsModel {
    AngleBracketed(Separated<ParameterizedPathModel>),
    SpaceSeparated(Seq<ParameterizedPathModel>),
}

/// What a safe parameterized path says.
pub ghost enum SafeParameterizedPathModel {
    SpaceImmune { path: Separated<Seq<char>>, args: Option<Separated<ParameterizedPathModel>> },
    Parenthesized(ParameterizedPathModel),
}

/// What a path that has nothing to say says: a stand-in where a position
/// does not exist.
pub open spec fn no_path() -> ParameterizedPathModel {
    ParameterizedPathModel { path: Separated { items: Seq::empty(), trailing: false }, args: None }
}

/// What `p` says.
pub open spec fn path_model(p: Path) -> Separated<Seq<char>> {
    Separated {
        items: Seq::new(p.segments@.values().len(), |i: int| p.segments@.values()[i]@),
        trailing: p.segments@.last is None && p.segments@.pairs.len() > 0,
    }
}

/// What `p` says.
pub open spec fn parameterized_path_model(p: ParameterizedPath) -> ParameterizedPathModel
    decreases p,
{
    ParameterizedPathModel {
        path: path_model(p.path),
        args: match p.args {
            None => None,
            Some(GenericArguments::AngleBracketed(a)) => Some(
                GenericArgumentsModel::AngleBracketed(angle_model(a)),
            ),
            Some(GenericArguments::SpaceSeparated(a)) => Some(
                GenericArgumentsModel::SpaceSeparated(path_models(a.args@)),
            ),
        },
    }
}

/// What each path of `paths` says.
pub open spec fn path_models(paths: Seq<ParameterizedPath>) -> Seq<ParameterizedPathModel>
    decreases paths,
{
    Seq::new(
        paths.len(),
        |i: int|
            if 0 <= i < paths.len() {
                parameterized_path_model(paths[i])
            } else {
                no_path()
            },
    )
}

/// What each node of `args` says.
pub open spec fn argument_models(args: Punctuated<ParameterizedPath, Comma>) -> Seq<
    ParameterizedPathModel,
>
    decreases args,
{
    let paired = Seq::new(
        args.inner@.len(),
        |i: int|
            if 0 <= i < args.inner@.len() {
                parameterized_path_model(args.inner[i].0)
            } else {
                no_path()
            },
    );
    match args.last {
        Some(last) => paired.push(parameterized_path_model(*last)),
        None => paired,
    }
}

/// What `a` says.
pub open spec fn angle_model(a: AngleBracketedGenericArguments) -> Separated<
    ParameterizedPathModel,
>
    decreases a,
{
    Separated {
        items: argument_models(a.args),
        trailing: a.args.last is None && a.args.inner@.len() > 0,
    }
}

/// What `p` says.
pub open spec fn safe_path_model(p: SafeParameterizedPath) -> SafeParameterizedPathModel {
    match p {
        SafeParameterizedPath::SpaceImmune(x) => SafeParameterizedPathModel::SpaceImmune {
            path: path_model(x.path),
            args: match x.args {
                Some(a) => Some(angle_model(a)),
                None => None,
            },
        },
        SafeParameterizedPath::Parenthesized(x) => SafeParameterizedPathModel::Parenthesized(
            parameterized_path_model(x.parameterized_path),
        ),
    }
}

impl View for Path {
    type V = Separated<Seq<char>>;

    open spec fn view(&self) -> Separated<Seq<char>> {
        path_model(*self)
    }
}

impl View for ParameterizedPath {
    type V = ParameterizedPathModel;

    open spec fn view(&self) -> ParameterizedPathModel {
        parameterized_path_model(*self)
    }
}

impl View for AngleBracketedGenericArguments {
    type V = Separated<ParameterizedPathModel>;

    open spec fn view(&self) -> Separated<ParameterizedPathModel> {
        angle_model(*self)
    }
}

impl View for SpaceSeparatedGenericArguments {
    type V = Seq<ParameterizedPathModel>;

    open spec fn view(&self) -> Seq<ParameterizedPathModel> {
        path_models(self.args@)
    }
}

impl View for GenericArguments {
    type V = GenericArgumentsModel;

    open spec fn view(&self) -> GenericArgumentsModel {
        match self {
            GenericArguments::AngleBracketed(a) => GenericArgumentsModel::AngleBracketed(a@),
            GenericArguments::SpaceSeparated(a) => GenericArgumentsModel::SpaceSeparated(a@),
        }
    }
}

impl View for SafeParameterizedPath {
    type V = SafeParameterizedPathModel;

    open spec fn view(&self) -> SafeParameterizedPathModel {
        safe_path_model(*self)
    }
}

impl View for SafeParameterizedPathSpaceImmune {
    type V = SafeParameterizedPathModel;

    open spec fn view(&self) -> SafeParameterizedPathModel {
        SafeParameterizedPathModel::SpaceImmune {
            path: path_model(self.path),
            args: match self.args {
                Some(a) => Some(angle_model(a)),
                None => None,
            },
        }
    }
}

impl View for SafeParameterizedPathParenthesized {
    type V = ParameterizedPathModel;

    open spec fn view(&self) -> ParameterizedPathModel {
        parameterized_path_model(self.parameterized_path)
    }
}

/// The sequence of `items` without trailing punctuation, which is how a
/// punctuated sequence comes out of the parser.
pub open spec fn plain<V>(items: Seq<V>) -> Separated<V> {
    Separated { items, trailing: false }
}

/// A path is one or more identifiers with a dot between each two, and no
/// whitespace on either side of a dot.
#[verifier::opaque]
pub open spec fn path_grammar(s: Seq<u8>) -> Parsed<Separated<Seq<char>>> {
    match punctuated(rule::<Ident>(), rule::<Dot>(), s, false, true, false) {
        Parsed::Done { value, len } => Parsed::Done { value: plain(value), len },
        Parsed::Fail { kind, begin, end } => Parsed::Fail { kind, begin, end },
    }
}

/// The rule of a parameterized path, for inputs of up to `limit` bytes.
pub open spec fn parameterized_path_rule(limit: nat) -> spec_fn(Seq<u8>) -> Parsed<
    ParameterizedPathModel,
>
    decreases limit, 2nat,
{
    |t: Seq<u8>|
        if t.len() <= limit {
            parameterized_path_grammar(t)
        } else {
            fail(ParseErrorKind::Mismatch, 0, 0)
        }
}

/// A parameterized path is a path, then spaces and tabs, then generic
/// arguments if there are any.
pub open spec fn parameterized_path_grammar(s: Seq<u8>) -> Parsed<ParameterizedPathModel>
    decreases s.len(), 1nat,
{
    match path_grammar(s) {
        Parsed::Fail { kind, begin, end } => Parsed::Fail { kind, begin, end },
        Parsed::Done { value: path, len } => {
            let n = len + spaces(s.skip(len));
            if 0 < n <= s.len() {
                match generic_arguments_grammar(s.skip(n)) {
                    Parsed::Done { value: args, len: m } => Parsed::Done {
                        value: ParameterizedPathModel { path, args: Some(args) },
                        len: n + m,
                    },
                    Parsed::Fail { .. } => Parsed::Done {
                        value: ParameterizedPathModel { path, args: None },
                        len: n,
                    },
                }
            } else {
                Parsed::Done { value: ParameterizedPathModel { path, args: None }, len: n }
            }
        },
    }
}

/// Generic arguments are angle-bracketed or, failing that, space-separated.
pub open spec fn generic_arguments_grammar(s: Seq<u8>) -> Parsed<GenericArgumentsModel>
    decreases s.len(), 4nat,
{
    match angle_grammar(s) {
        Parsed::Done { value, len } => Parsed::Done {
            value: GenericArgumentsModel::AngleBracketed(value),
            len,
        },
        Parsed::Fail { .. } => match space_separated_grammar(s) {
            Parsed::Done { value, len } => Parsed::Done {
                value: GenericArgumentsModel::SpaceSeparated(value),
                len,
            },
            Parsed::Fail { kind, begin, end } => Parsed::Fail { kind, begin, end },
        },
    }
}

/// Angle-bracketed generic arguments are `<`, then one or more parameterized
/// paths with a comma between each two, spaces and tabs behind each path, and
/// possibly a comma behind the last, then `>`.
pub open spec fn angle_grammar(s: Seq<u8>) -> Parsed<Separated<ParameterizedPathModel>>
    decreases s.len(), 3nat,
{
    match tag(s, LAngle::literal()) {
        Parsed::Fail { kind, begin, end } => Parsed::Fail { kind, begin, end },
        Parsed::Done { len: a, .. } => match punctuated(
            parameterized_path_rule((s.len() - a) as nat),
            rule::<Comma>(),
            s.skip(a),
            true,
            true,
            true,
        ) {
            Parsed::Fail { kind, begin, end } => Parsed::Fail {
                kind,
                begin: begin + a,
                end: end + a,
            },
            Parsed::Done { value, len: b } => match tag(s.skip(a + b), RAngle::literal()) {
                Parsed::Fail { kind, begin, end } => Parsed::Fail {
                    kind,
                    begin: begin + a + b,
                    end: end + a + b,
                },
                Parsed::Done { len: c, .. } => Parsed::Done { value: plain(value), len: a + b + c },
            },
        },
    }
}

/// Space-separated generic arguments are one or more parameterized paths,
/// with spaces and tabs behind each.
pub open spec fn space_separated_grammar(s: Seq<u8>) -> Parsed<Seq<ParameterizedPathModel>>
    decreases s.len(), 3nat,
{
    many1(spaced_rule(parameterized_path_rule(s.len()), true), s)
}

/// A safe parameterized path is a path with angle-bracketed generic
/// arguments, if there are any, right behind it or, failing that, a
/// parameterized path in parentheses.
#[verifier::opaque]
pub open spec fn safe_path_grammar(s: Seq<u8>) -> Parsed<SafeParameterizedPathModel> {
    match space_immune_grammar(s) {
        Parsed::Done { value, len } => Parsed::Done { value, len },
        Parsed::Fail { .. } => match parenthesized_grammar(s) {
            Parsed::Done { value, len } => Parsed::Done {
                value: SafeParameterizedPathModel::Parenthesized(value),
                len,
            },
            Parsed::Fail { kind, begin, end } => Parsed::Fail { kind, begin, end },
        },
    }
}

/// A path with angle-bracketed generic arguments, if there are any, right
/// behind it.
#[verifier::opaque]
pub open spec fn space_immune_grammar(s: Seq<u8>) -> Parsed<SafeParameterizedPathModel> {
    match path_grammar(s) {
        Parsed::Fail { kind, begin, end } => Parsed::Fail { kind, begin, end },
        Parsed::Done { value: path, len } => match angle_grammar(s.skip(len)) {
            Parsed::Done { value: args, len: m } => Parsed::Done {
                value: SafeParameterizedPathModel::SpaceImmune { path, args: Some(args) },
                len: len + m,
            },
            Parsed::Fail { .. } => Parsed::Done {
                value: SafeParameterizedPathModel::SpaceImmune { path, args: None },
                len,
            },
        },
    }
}

/// `(`, a parameterized path, `)`.
#[verifier::opaque]
pub open spec fn parenthesized_grammar(s: Seq<u8>) -> Parsed<ParameterizedPathModel> {
    match tag(s, Paren::left()) {
        Parsed::Fail { kind, begin, end } => Parsed::Fail { kind, begin, end },
        Parsed::Done { len: a, .. } => match parameterized_path_grammar(s.skip(a)) {
            Parsed::Fail { kind, begin, end } => Parsed::Fail {
                kind,
                begin: begin + a,
                end: end + a,
            },
            Parsed::Done { value, len: b } => match tag(s.skip(a + b), Paren::right()) {
                Parsed::Fail { kind, begin, end } => Parsed::Fail {
                    kind,
                    begin: begin + a + b,
                    end: end + a + b,
                },
                Parsed::Done { len: c, .. } => Parsed::Done { value, len: a + b + c },
            },
        },
    }
}

/// What angle-bracketed generic arguments say is what the nodes of their
/// punctuated sequence say.
pub proof fn lemma_angle_model(a: AngleBracketedGenericArguments)
    ensures
        angle_model(a).items == views(a.args@.values()),
        argument_models(a.args) == views(a.args@.values()),
        angle_model(a).trailing == (a.args@.last is None && a.args@.pairs.len() > 0),
{
    assert(argument_models(a.args) =~= views(a.args@.values()));
}

/// What a list of parameterized paths says is what each of them says.
pub proof fn lemma_path_models(paths: Seq<ParameterizedPath>)
    ensures
        path_models(paths) == views(paths),
{
    assert(path_models(paths) =~= views(paths));
}

/// Parse a path.
pub fn parse_path<'a>(input: Cursor<'a>) -> (r: ParseResult<(Cursor<'a>, Path)>)
    ensures
        agrees(input, r, path_grammar(input.bytes())),
{
    reveal(path_grammar);
    match Punctuated::<Ident, Dot>::parse(
        input,
        TrailingPunctuation::Never,
        Count::OneOrMore,
        Whitespace::Absent,
    ) {
        Ok((rest, segments)) => {
            let path = Path { segments };
            proof {
                assert(path@.items =~= views(segments@.values()));
            }
            Ok((rest, path))
        },
        Err(e) => Err(e),
    }
}

/// Parse a parameterized path.
pub fn parse_parameterized_path<'a>(input: Cursor<'a>) -> (r: ParseResult<
    (Cursor<'a>, ParameterizedPath),
>)
    ensures
        agrees(input, r, parameterized_path_grammar(input.bytes())),
    decreases input.bytes().len(), 1nat,
{
    let (rest, path) = match parse_path(input) {
        Ok(pair) => pair,
        Err(e) => { return Err(e); },
    };
    let at = rest.skip_spaces();
    proof {
        let len = path_grammar(input.bytes())->len;
        let n = len + spaces(input.bytes().skip(len));
        assert(input.bytes().skip(len).skip(spaces(input.bytes().skip(len)))
            =~= input.bytes().skip(n));
        lemma_path_progress(input.bytes());
    }
    match parse_generic_arguments(at) {
        Ok((behind, args)) => {
            proof {
                let len = path_grammar(input.bytes())->len;
                let n = len + spaces(input.bytes().skip(len));
                let m = generic_arguments_grammar(input.bytes().skip(n))->len;
                assert(input.bytes().skip(n).skip(m) =~= input.bytes().skip(n + m));
            }
            Ok((behind, ParameterizedPath { path, args: Some(args) }))
        },
        Err(_) => Ok((at, ParameterizedPath { path, args: None })),
    }
}

/// A path takes at least one byte.
pub proof fn lemma_path_progress(s: Seq<u8>)
    ensures
        path_grammar(s) matches Parsed::Done { len, .. } ==> 0 < len <= s.len(),
{
    reveal(path_grammar);
    crate::chars::lemma_run(s, crate::chars::CharClass::Space);
    let lead = spaces(s);
    let body = s.skip(lead);
    let act = spaced_rule(rule::<Ident>(), false);
    if path_grammar(s) is Done {
        let first = act(body).progress(body.len() as int);
        assert(first is Done);
        let n = first->len;
        crate::chars::lemma_run(body, crate::chars::CharClass::Ident);
        assert(act(body) == Ident::grammar(body));
        assert(0 < n <= body.len());
        lemma_tail_within(act, rule::<Dot>(), body.skip(n));
    }
}

/// Parse generic arguments.
pub fn parse_generic_arguments<'a>(input: Cursor<'a>) -> (r: ParseResult<
    (Cursor<'a>, GenericArguments),
>)
    ensures
        agrees(input, r, generic_arguments_grammar(input.bytes())),
    decreases input.bytes().len(), 4nat,
{
    match parse_angle_bracketed(input) {
        Ok((rest, a)) => Ok((rest, GenericArguments::AngleBracketed(a))),
        Err(_) => match parse_space_separated(input) {
            Ok((rest, a)) => Ok((rest, GenericArguments::SpaceSeparated(a))),
            Err(e) => Err(e),
        },
    }
}

/// Parse angle-bracketed generic arguments.
pub fn parse_angle_bracketed<'a>(input: Cursor<'a>) -> (r: ParseResult<
    (Cursor<'a>, AngleBracketedGenericArguments),
>)
    ensures
        agrees(input, r, angle_grammar(input.bytes())),
    decreases input.bytes().len(), 3nat,
{
    let (rest, langle_token) = match LAngle::parse_cursor(input) {
        Ok(pair) => pair,
        Err(e) => { return Err(e); },
    };
    let ghost a = LAngle::literal().len() as int;
    let ghost limit = (input.bytes().len() - a) as nat;
    let parse = |c: Cursor<'a>| -> (o: ParseResult<(Cursor<'a>, ParameterizedPath)>)
        requires
            c.bytes().len() < input.bytes().len(),
        ensures
            agrees(c, o, parameterized_path_grammar(c.bytes())),
        { parse_parameterized_path(c) };
    let (behind, args) = match Punctuated::<ParameterizedPath, Comma>::parse_with(
        rest,
        &parse,
        Ghost(parameterized_path_rule(limit)),
        TrailingPunctuation::Optional,
        Count::OneOrMore,
        Whitespace::Present,
    ) {
        Ok(pair) => pair,
        Err(e) => { return Err(e); },
    };
    proof {
        let b = punctuated(
            parameterized_path_rule(limit),
            rule::<Comma>(),
            input.bytes().skip(a),
            true,
            true,
            true,
        )->len;
        assert(input.bytes().skip(a).skip(b) =~= input.bytes().skip(a + b));
    }
    match RAngle::parse_cursor(behind) {
        Ok((after, rangle_token)) => {
            let node = AngleBracketedGenericArguments { langle_token, args, rangle_token };
            proof {
                let b = punctuated(
                    parameterized_path_rule(limit),
                    rule::<Comma>(),
                    input.bytes().skip(a),
                    true,
                    true,
                    true,
                )->len;
                let c = RAngle::literal().len() as int;
                assert(input.bytes().skip(a + b).skip(c) =~= input.bytes().skip(a + b + c));
                lemma_angle_model(node);
            }
            Ok((after, node))
        },
        Err(e) => Err(e),
    }
}

/// Parse space-separated generic arguments.
pub fn parse_space_separated<'a>(input: Cursor<'a>) -> (r: ParseResult<
    (Cursor<'a>, SpaceSeparatedGenericArguments),
>)
    ensures
        agrees(input, r, space_separated_grammar(input.bytes())),
    decreases input.bytes().len(), 3nat,
{
    let parse = |c: Cursor<'a>| -> (o: ParseResult<(Cursor<'a>, ParameterizedPath)>)
        requires
            c.bytes().len() <= input.bytes().len(),
        ensures
            agrees(c, o, parameterized_path_grammar(c.bytes())),
        { parse_parameterized_path(c) };
    proof {
        let t = input.bytes();
        assert forall|k: int| 0 <= k <= t.len() implies (#[trigger] parameterized_path_rule(
            t.len(),
        )(t.skip(k)) matches Parsed::Done { len, .. } ==> 0 < len <= t.len() - k) by {
            crate::canonical::path::lemma_parameterized_path_read(t.skip(k));
        }
        crate::parsed::lemma_repeated1_spaced(parameterized_path_rule(t.len()), t, true);
    }
    match parse_many1(input, &parse, Ghost(parameterized_path_rule(input.bytes().len())), true) {
        Ok((rest, args)) => {
            proof {
                lemma_path_models(args@);
            }
            Ok((rest, SpaceSeparatedGenericArguments { args }))
        },
        Err(e) => Err(e),
    }
}

/// Parse a path with angle-bracketed generic arguments, if there are any,
/// right behind it.
pub fn parse_space_immune<'a>(input: Cursor<'a>) -> (r: ParseResult<
    (Cursor<'a>, SafeParameterizedPathSpaceImmune),
>)
    ensures
        agrees(input, r, space_immune_grammar(input.bytes())),
{
    reveal(space_immune_grammar);
    let (rest, path) = match parse_path(input) {
        Ok(pair) => pair,
        Err(e) => { return Err(e); },
    };
    match parse_angle_bracketed(rest) {
        Ok((behind, args)) => {
            proof {
                let len = path_grammar(input.bytes())->len;
                let m = angle_grammar(input.bytes().skip(len))->len;
                assert(input.bytes().skip(len).skip(m) =~= input.bytes().skip(len + m));
            }
            Ok((behind, SafeParameterizedPathSpaceImmune { path, args: Some(args) }))
        },
        Err(_) => Ok((rest, SafeParameterizedPathSpaceImmune { path, args: None })),
    }
}

/// Parse a parameterized path in parentheses.
pub fn parse_parenthesized<'a>(input: Cursor<'a>) -> (r: ParseResult<
    (Cursor<'a>, SafeParameterizedPathParenthesized),
>)
    ensures
        agrees(input, r, parenthesized_grammar(input.bytes())),
{
    reveal(parenthesized_grammar);
    let rest = match Paren::parse_open(input) {
        Ok(rest) => rest,
        Err(e) => { return Err(e); },
    };
    let ghost a = Paren::left().len() as int;
    let (behind, parameterized_path) = match parse_parameterized_path(rest) {
        Ok(pair) => pair,
        Err(e) => { return Err(e); },
    };
    let ghost b = parameterized_path_grammar(input.bytes().skip(a))->len;
    proof {
        assert(input.bytes().skip(a).skip(b) =~= input.bytes().skip(a + b));
    }
    match Paren::parse_close(behind, input) {
        Ok((after, paren_token)) => {
            proof {
                let c = Paren::right().len() as int;
                assert(input.bytes().skip(a + b).skip(c) =~= input.bytes().skip(a + b + c));
            }
            Ok((after, SafeParameterizedPathParenthesized { paren_token, parameterized_path }))
        },
        Err(e) => Err(e),
    }
}

/// Parse a safe parameterized path.
pub fn parse_safe_path<'a>(input: Cursor<'a>) -> (r: ParseResult<
    (Cursor<'a>, SafeParameterizedPath),
>)
    ensures
        agrees(input, r, safe_path_grammar(input.bytes())),
{
    reveal(safe_path_grammar);
    match parse_space_immune(input) {
        Ok((rest, p)) => Ok((rest, SafeParameterizedPath::SpaceImmune(p))),
        Err(_) => match parse_parenthesized(input) {
            Ok((rest, p)) => Ok((rest, SafeParameterizedPath::Parenthesized(p))),
            Err(e) => Err(e),
        },
    }
}

impl Synom for Path {
    open spec fn grammar(s: Seq<u8>) -> Parsed<Separated<Seq<char>>> {
        path_grammar(s)
    }

    fn parse_cursor<'a>(input: Cursor<'a>) -> (r: ParseResult<(Cursor<'a>, Path)>) {
        parse_path(input)
    }
}

impl Synom for ParameterizedPath {
    open spec fn grammar(s: Seq<u8>) -> Parsed<ParameterizedPathModel> {
        parameterized_path_grammar(s)
    }

    fn parse_cursor<'a>(input: Cursor<'a>) -> (r: ParseResult<(Cursor<'a>, ParameterizedPath)>) {
        parse_parameterized_path(input)
    }
}

impl Synom for GenericArguments {
    open spec fn grammar(s: Seq<u8>) -> Parsed<GenericArgumentsModel> {
        generic_arguments_grammar(s)
    }

    fn parse_cursor<'a>(input: Cursor<'a>) -> (r: ParseResult<(Cursor<'a>, GenericArguments)>) {
        parse_generic_arguments(input)
    }
}

impl Synom for AngleBracketedGenericArguments {
    open spec fn grammar(s: Seq<u8>) -> Parsed<Separated<ParameterizedPathModel>> {
        angle_grammar(s)
    }

    fn parse_cursor<'a>(input: Cursor<'a>) -> (r: ParseResult<
        (Cursor<'a>, AngleBracketedGenericArguments),
    >) {
        parse_angle_bracketed(input)
    }
}

impl Synom for SpaceSeparatedGenericArguments {
    open spec fn grammar(s: Seq<u8>) -> Parsed<Seq<ParameterizedPathModel>> {
        space_separated_grammar(s)
    }

    fn parse_cursor<'a>(input: Cursor<'a>) -> (r: ParseResult<
        (Cursor<'a>, SpaceSeparatedGenericArguments),
    >) {
        parse_space_separated(input)
    }
}

impl Synom for SafeParameterizedPath {
    open spec fn grammar(s: Seq<u8>) -> Parsed<SafeParameterizedPathModel> {
        safe_path_grammar(s)
    }

    fn parse_cursor<'a>(input: Cursor<'a>) -> (r: ParseResult<
        (Cursor<'a>, SafeParameterizedPath),
    >) {
        parse_safe_path(input)
    }
}

impl Synom for SafeParameterizedPathSpaceImmune {
    open spec fn grammar(s: Seq<u8>) -> Parsed<SafeParameterizedPathModel> {
        space_immune_grammar(s)
    }

    fn parse_cursor<'a>(input: Cursor<'a>) -> (r: ParseResult<
        (Cursor<'a>, SafeParameterizedPathSpaceImmune),
    >) {
        parse_space_immune(input)
    }
}

impl Synom for SafeParameterizedPathParenthesized {
    open spec fn grammar(s: Seq<u8>) -> Parsed<ParameterizedPathModel> {
        parenthesized_grammar(s)
    }

    fn parse_cursor<'a>(input: Cursor<'a>) -> (r: ParseResult<
        (Cursor<'a>, SafeParameterizedPathParenthesized),
    >) {
        parse_parenthesized(input)
    }
}

/// The source text of each of the identifiers `names`.
pub open spec fn ident_texts(names: Seq<Seq<char>>) -> Seq<Seq<u8>> {
    Seq::new(names.len(), |i: int| ascii_bytes(names[i]))
}

/// The source text of a path: its identifiers with a dot between each two.
pub open spec fn path_text(v: Separated<Seq<char>>) -> Seq<u8> {
    joined(ident_texts(v.items), Dot::literal())
}

/// The source text of a parameterized path: the path, and then the generic
/// arguments, with a space before them where they are space-separated.
pub open spec fn parameterized_path_text(v: ParameterizedPathModel) -> Seq<u8>
    decreases v, 0nat,
{
    path_text(v.path) + (match v.args {
        None => Seq::<u8>::empty(),
        Some(GenericArgumentsModel::AngleBracketed(a)) => angle_text(a),
        Some(GenericArgumentsModel::SpaceSeparated(list)) => seq![' ' as u8] + space_separated_text(
            list,
        ),
    })
}

/// The source text of each of the parameterized paths `list`.
pub open spec fn parameterized_path_texts(list: Seq<ParameterizedPathModel>) -> Seq<Seq<u8>>
    decreases list, 0nat,
{
    Seq::new(
        list.len(),
        |i: int|
            if 0 <= i < list.len() {
                parameterized_path_text(list[i])
            } else {
                Seq::<u8>::empty()
            },
    )
}

/// The source text of angle-bracketed generic arguments: `<`, the
/// arguments with ` , ` between each two, `>`.
pub open spec fn angle_text(a: Separated<ParameterizedPathModel>) -> Seq<u8>
    decreases a, 0nat,
{
    LAngle::literal() + joined(parameterized_path_texts(a.items), comma_glue()) + RAngle::literal()
}

/// The source text of space-separated generic arguments: the arguments with
/// a space between each two.
pub open spec fn space_separated_text(list: Seq<ParameterizedPathModel>) -> Seq<u8>
    decreases list, 1nat,
{
    joined(parameterized_path_texts(list), seq![' ' as u8])
}

/// The source text of generic arguments.
pub open spec fn generic_arguments_text(v: GenericArgumentsModel) -> Seq<u8> {
    match v {
        GenericArgumentsModel::AngleBracketed(a) => angle_text(a),
        GenericArgumentsModel::SpaceSeparated(list) => space_separated_text(list),
    }
}

/// The source text of a safe parameterized path.
pub open spec fn safe_path_text(v: SafeParameterizedPathModel) -> Seq<u8> {
    match v {
        SafeParameterizedPathModel::SpaceImmune { path, args } => path_text(path) + (match args {
            Some(a) => angle_text(a),
            None => Seq::<u8>::empty(),
        }),
        SafeParameterizedPathModel::Parenthesized(p) => Paren::left() + parameterized_path_text(p)
            + Paren::right(),
    }
}

/// Put one space behind `out`.
pub fn push_space(out: &mut Vec<u8>)
    ensures
        final(out)@ == old(out)@ + seq![' ' as u8],
        valid_utf8(old(out)@) ==> valid_utf8(final(out)@),
{
    proof {
        reveal_strlit(" ");
        lemma_literal(" ", seq![' ' as u8]);
    }
    push_str(out, " ");
}

/// Put the source text of `path` behind `out`.
pub fn print_path(path: &Path, out: &mut Vec<u8>)
    ensures
        final(out)@ == old(out)@ + path_text(path@),
        valid_utf8(old(out)@) ==> valid_utf8(final(out)@),
{
    path.segments.print(out, Count::ZeroOrMore, Whitespace::Absent);
    proof {
        let items = texts::<Ident>(views(path.segments@.values()));
        let seps = Punctuated::<Ident, Dot>::separator_texts(path.segments@);
        assert(items =~= ident_texts(path@.items));
        lemma_separated_joined(items, seps, false, Dot::literal());
    }
}

/// Put the source text of `p` behind `out`.
pub fn print_parameterized_path(p: &ParameterizedPath, out: &mut Vec<u8>)
    ensures
        final(out)@ == old(out)@ + parameterized_path_text(p@),
        valid_utf8(old(out)@) ==> valid_utf8(final(out)@),
    decreases p,
{
    print_path(&p.path, out);
    match &p.args {
        None => {
            proof {
                assert(out@ =~= old(out)@ + parameterized_path_text(p@));
            }
        },
        Some(GenericArguments::AngleBracketed(a)) => {
            print_angle_bracketed(a, out);
            proof {
                assert(out@ =~= old(out)@ + parameterized_path_text(p@));
            }
        },
        Some(GenericArguments::SpaceSeparated(a)) => {
            push_space(out);
            print_list(&a.args, out);
            proof {
                lemma_path_models(a.args@);
                assert(out@ =~= old(out)@ + parameterized_path_text(p@));
            }
        },
    }
}

/// Put the source texts of the parameterized paths `list` behind `out`,
/// with a space between each two.
pub fn print_list(list: &Vec<ParameterizedPath>, out: &mut Vec<u8>)
    ensures
        final(out)@ == old(out)@ + space_separated_text(path_models(list@)),
        valid_utf8(old(out)@) ==> valid_utf8(final(out)@),
    decreases list,
{
    let ghost all = parameterized_path_texts(path_models(list@));
    let ghost glue = seq![' ' as u8];
    let mut i: usize = 0;
    while i < list.len()
        invariant
            i <= list.len(),
            all == parameterized_path_texts(path_models(list@)),
            glue == seq![' ' as u8],
            out@ == old(out)@ + joined(all.take(i as int), glue),
            valid_utf8(old(out)@) ==> valid_utf8(out@),
        decreases list.len() - i,
    {
        if i > 0 {
            push_space(out);
        }
        print_parameterized_path(&list[i], out);
        proof {
            let now = all.take(i as int + 1);
            assert(now.drop_last() =~= all.take(i as int));
            assert(now.last() == parameterized_path_text(list@[i as int]@));
            if i == 0 {
                assert(joined(all.take(0), glue) =~= Seq::<u8>::empty());
            }
            assert(out@ =~= old(out)@ + joined(now, glue));
        }
        i += 1;
    }
    proof {
        assert(all.take(i as int) =~= all);
    }
}

/// The text with which the arguments in angle brackets are joined.
pub open spec fn comma_glue() -> Seq<u8> {
    seq![' ' as u8] + Comma::literal() + seq![' ' as u8]
}

/// Put ` , ` behind `out`, with the text of `comma`.
fn push_comma(comma: &Comma, out: &mut Vec<u8>)
    ensures
        final(out)@ == old(out)@ + comma_glue(),
        valid_utf8(old(out)@) ==> valid_utf8(final(out)@),
{
    push_space(out);
    comma.print(out);
    push_space(out);
    proof {
        assert(out@ =~= old(out)@ + comma_glue());
    }
}

/// Put the source texts of the nodes of `args` behind `out`, with ` , `
/// between each two.
pub fn print_arguments(args: &Punctuated<ParameterizedPath, Comma>, out: &mut Vec<u8>)
    ensures
        final(out)@ == old(out)@ + joined(
            parameterized_path_texts(argument_models(*args)),
            comma_glue(),
        ),
        valid_utf8(old(out)@) ==> valid_utf8(final(out)@),
    decreases args,
{
    let ghost all = parameterized_path_texts(argument_models(*args));
    let ghost glue = comma_glue();
    let paired = args.inner.len();
    let mut i: usize = 0;
    proof {
        assert(all.take(0) =~= Seq::<Seq<u8>>::empty());
        assert(old(out)@ + Seq::<u8>::empty() =~= old(out)@);
    }
    while i < paired
        invariant
            i <= paired,
            paired == args.inner@.len(),
            all.len() >= paired,
            forall|k: int|
                0 <= k < paired ==> #[trigger] all[k] == parameterized_path_text(
                    parameterized_path_model(args.inner@[k].0),
                ),
            glue == comma_glue(),
            out@ == old(out)@ + joined(all.take(i as int), glue),
            valid_utf8(old(out)@) ==> valid_utf8(out@),
        decreases paired - i,
    {
        let ghost before = out@;
        if i > 0 {
            push_comma(&args.inner[i - 1].1, out);
        }
        let ghost glued = out@;
        print_parameterized_path(&args.inner[i].0, out);
        proof {
            lemma_joined_next(all, glue, i as int);
            assert(out@ == glued + all[i as int]);
            if i == 0 {
                assert(glued == before);
                assert(before =~= old(out)@);
                assert(out@ =~= old(out)@ + joined(all.take(1), glue));
            } else {
                assert(glued == before + glue);
                assert(out@ =~= old(out)@ + joined(all.take(i as int + 1), glue));
            }
        }
        i += 1;
    }
    match &args.last {
        Some(last) => {
            let ghost before = out@;
            if paired > 0 {
                push_comma(&args.inner[paired - 1].1, out);
            }
            let ghost glued = out@;
            let node: &ParameterizedPath = &**last;
            print_parameterized_path(node, out);
            proof {
                assert(all.len() == paired + 1);
                assert(all[paired as int] == parameterized_path_text(node@));
                lemma_joined_next(all, glue, paired as int);
                assert(all.take(paired as int + 1) =~= all);
                if paired == 0 {
                    assert(before =~= old(out)@);
                    assert(out@ =~= old(out)@ + joined(all, glue));
                } else {
                    assert(glued == before + glue);
                    assert(out@ =~= old(out)@ + joined(all, glue));
                }
            }
        },
        None => {
            proof {
                assert(all.take(paired as int) =~= all);
            }
        },
    }
}

/// Put the source text of `a` behind `out`.
pub fn print_angle_bracketed(a: &AngleBracketedGenericArguments, out: &mut Vec<u8>)
    ensures
        final(out)@ == old(out)@ + angle_text(a@),
        valid_utf8(old(out)@) ==> valid_utf8(final(out)@),
    decreases a,
{
    a.langle_token.print(out);
    print_arguments(&a.args, out);
    a.rangle_token.print(out);
    proof {
        assert(out@ =~= old(out)@ + angle_text(a@));
    }
}

/// Put the source text of `p` behind `out`.
pub fn print_safe_path(p: &SafeParameterizedPath, out: &mut Vec<u8>)
    ensures
        final(out)@ == old(out)@ + safe_path_text(p@),
        valid_utf8(old(out)@) ==> valid_utf8(final(out)@),
{
    match p {
        SafeParameterizedPath::SpaceImmune(x) => {
            print_path(&x.path, out);
            match &x.args {
                Some(a) => {
                    print_angle_bracketed(a, out);
                    proof {
                        assert(out@ =~= old(out)@ + safe_path_text(p@));
                    }
                },
                None => {
                    proof {
                        assert(out@ =~= old(out)@ + safe_path_text(p@));
                    }
                },
            }
        },
        SafeParameterizedPath::Parenthesized(x) => {
            Paren::print_open(out);
            print_parameterized_path(&x.parameterized_path, out);
            Paren::print_close(out);
            proof {
                assert(out@ =~= old(out)@ + safe_path_text(p@));
            }
        },
    }
}

impl Print for Path {
    open spec fn text(v: Separated<Seq<char>>) -> Seq<u8> {
        path_text(v)
    }

    fn print(&self, out: &mut Vec<u8>) {
        print_path(self, out)
    }
}

impl Print for ParameterizedPath {
    open spec fn text(v: ParameterizedPathModel) -> Seq<u8> {
        parameterized_path_text(v)
    }

    fn print(&self, out: &mut Vec<u8>) {
        print_parameterized_path(self, out)
    }
}

impl Print for AngleBracketedGenericArguments {
    open spec fn text(v: Separated<ParameterizedPathModel>) -> Seq<u8> {
        angle_text(v)
    }

    fn print(&self, out: &mut Vec<u8>) {
        print_angle_bracketed(self, out)
    }
}

impl Print for SpaceSeparatedGenericArguments {
    open spec fn text(v: Seq<ParameterizedPathModel>) -> Seq<u8> {
        space_separated_text(v)
    }

    fn print(&self, out: &mut Vec<u8>) {
        print_list(&self.args, out)
    }
}

impl Print for GenericArguments {
    open spec fn text(v: GenericArgumentsModel) -> Seq<u8> {
        generic_arguments_text(v)
    }

    fn print(&self, out: &mut Vec<u8>) {
        match self {
            GenericArguments::AngleBracketed(a) => print_angle_bracketed(a, out),
            GenericArguments::SpaceSeparated(a) => print_list(&a.args, out),
        }
    }
}

impl Print for SafeParameterizedPath {
    open spec fn text(v: SafeParameterizedPathModel) -> Seq<u8> {
        safe_path_text(v)
    }

    fn print(&self, out: &mut Vec<u8>) {
        print_safe_path(self, out)
    }
}

/// Two sequences of identifiers are equal as punctuated sequences exactly
/// if they say the same as paths.
pub proof fn lemma_segments_eq(a: Path, b: Path)
    ensures
        a.segments.eq_spec(&b.segments) <==> a@ == b@,
{
    let x = a.segments@;
    let y = b.segments@;
    if a.segments.eq_spec(&b.segments) {
        assert(a@.items =~= b@.items) by {
            assert forall|i: int| 0 <= i < a@.items.len() implies a@.items[i] == b@.items[i] by {
                if i < x.pairs.len() {
                    assert(x.pairs[i].0.eq_spec(&y.pairs[i].0));
                }
            }
        }
    }
    if a@ == b@ {
        assert(a@.items.len() == x.values().len());
        assert(b@.items.len() == y.values().len());
        assert(a@.trailing == b@.trailing);
        assert forall|k: int| 0 <= k < x.pairs.len() implies (#[trigger] x.pairs[k]).0.eq_spec(
            &y.pairs[k].0,
        ) && x.pairs[k].1.eq_spec(&y.pairs[k].1) by {
            assert(a@.items[k] == b@.items[k]);
        }
        if x.last is Some {
            assert(a@.items[x.pairs.len() as int] == b@.items[x.pairs.len() as int]);
        }
    }
}

/// Whether two paths say the same.
pub fn path_eq(a: &Path, b: &Path) -> (r: bool)
    ensures
        r == (a@ == b@),
{
    proof {
        lemma_segments_eq(*a, *b);
    }
    a.segments == b.segments
}

/// Whether two parameterized paths say the same.
pub fn parameterized_path_eq(a: &ParameterizedPath, b: &ParameterizedPath) -> (r: bool)
    ensures
        r == (a@ == b@),
    decreases a,
{
    if !path_eq(&a.path, &b.path) {
        return false;
    }
    match &a.args {
        None => b.args.is_none(),
        Some(GenericArguments::AngleBracketed(x)) => match &b.args {
            Some(GenericArguments::AngleBracketed(y)) => angle_bracketed_eq(x, y),
            _ => false,
        },
        Some(GenericArguments::SpaceSeparated(x)) => match &b.args {
            Some(GenericArguments::SpaceSeparated(y)) => list_eq(&x.args, &y.args),
            _ => false,
        },
    }
}

/// Whether the parameterized paths of two lists say the same.
pub fn list_eq(a: &Vec<ParameterizedPath>, b: &Vec<ParameterizedPath>) -> (r: bool)
    ensures
        r == (path_models(a@) == path_models(b@)),
    decreases a,
{
    if a.len() != b.len() {
        proof {
            assert(path_models(a@).len() != path_models(b@).len());
        }
        return false;
    }
    let mut i: usize = 0;
    while i < a.len()
        invariant
            i <= a.len(),
            a.len() == b.len(),
            forall|k: int| 0 <= k < i ==> a@[k]@ == b@[k]@,
        decreases a.len() - i,
    {
        if !parameterized_path_eq(&a[i], &b[i]) {
            proof {
                assert(path_models(a@)[i as int] != path_models(b@)[i as int]);
            }
            return false;
        }
        i += 1;
    }
    proof {
        assert(path_models(a@) =~= path_models(b@));
    }
    true
}

/// Whether two angle-bracketed lists of generic arguments say the same.
pub fn angle_bracketed_eq(
    a: &AngleBracketedGenericArguments,
    b: &AngleBracketedGenericArguments,
) -> (r: bool)
    ensures
        r == (a@ == b@),
    decreases a,
{
    let x = &a.args;
    let y = &b.args;
    if x.inner.len() != y.inner.len() || x.last.is_some() != y.last.is_some() {
        proof {
            if a@ == b@ {
                assert(a@.items.len() == b@.items.len());
            }
        }
        return false;
    }
    let mut i: usize = 0;
    while i < x.inner.len()
        invariant
            i <= x.inner.len(),
            x.inner.len() == y.inner.len(),
            x == &a.args,
            y == &b.args,
            forall|k: int| 0 <= k < i ==> x.inner@[k].0@ == y.inner@[k].0@,
        decreases x.inner.len() - i,
    {
        if !parameterized_path_eq(&x.inner[i].0, &y.inner[i].0) {
            proof {
                assert(a@.items[i as int] == x.inner@[i as int].0@);
                assert(b@.items[i as int] == y.inner@[i as int].0@);
            }
            return false;
        }
        i += 1;
    }
    let same = match &x.last {
        Some(s) => match &y.last {
            Some(t) => {
                let u: &ParameterizedPath = &**s;
                let v: &ParameterizedPath = &**t;
                parameterized_path_eq(u, v)
            },
            None => false,
        },
        None => true,
    };
    proof {
        if same {
            assert(a@.items =~= b@.items);
        } else {
            assert(a@.items[x.inner@.len() as int] != b@.items[x.inner@.len() as int]);
        }
    }
    same
}

/// Whether two safe parameterized paths say the same.
pub fn safe_path_eq(a: &SafeParameterizedPath, b: &SafeParameterizedPath) -> (r: bool)
    ensures
        r == (a@ == b@),
{
    match a {
        SafeParameterizedPath::SpaceImmune(x) => match b {
            SafeParameterizedPath::SpaceImmune(y) => {
                if !path_eq(&x.path, &y.path) {
                    return false;
                }
                match &x.args {
                    Some(p) => match &y.args {
                        Some(q) => angle_bracketed_eq(p, q),
                        None => false,
                    },
                    None => y.args.is_none(),
                }
            },
            SafeParameterizedPath::Parenthesized(_) => false,
        },
        SafeParameterizedPath::Parenthesized(x) => match b {
            SafeParameterizedPath::SpaceImmune(_) => false,
            SafeParameterizedPath::Parenthesized(y) => parameterized_path_eq(
                &x.parameterized_path,
                &y.parameterized_path,
            ),
        },
    }
}

impl PartialEq for Path {
    fn eq(&self, other: &Path) -> (r: bool) {
        path_eq(self, other)
    }
}

impl Eq for Path {
}

impl vstd::std_specs::cmp::PartialEqSpecImpl for Path {
    open spec fn obeys_eq_spec() -> bool {
        true
    }

    open spec fn eq_spec(&self, other: &Path) -> bool {
        self@ == other@
    }
}

impl PartialEq for ParameterizedPath {
    fn eq(&self, other: &ParameterizedPath) -> (r: bool) {
        parameterized_path_eq(self, other)
    }
}

impl Eq for ParameterizedPath {
}

impl vstd::std_specs::cmp::PartialEqSpecImpl for ParameterizedPath {
    open spec fn obeys_eq_spec() -> bool {
        true
    }

    open spec fn eq_spec(&self, other: &ParameterizedPath) -> bool {
        self@ == other@
    }
}

impl PartialEq for AngleBracketedGenericArguments {
    fn eq(&self, other: &AngleBracketedGenericArguments) -> (r: bool) {
        angle_bracketed_eq(self, other)
    }
}

impl Eq for AngleBracketedGenericArguments {
}

impl vstd::std_specs::cmp::PartialEqSpecImpl for AngleBracketedGenericArguments {
    open spec fn obeys_eq_spec() -> bool {
        true
    }

    open spec fn eq_spec(&self, other: &AngleBracketedGenericArguments) -> bool {
        self@ == other@
    }
}

impl PartialEq for SpaceSeparatedGenericArguments {
    fn eq(&self, other: &SpaceSeparatedGenericArguments) -> (r: bool) {
        list_eq(&self.args, &other.args)
    }
}

impl Eq for SpaceSeparatedGenericArguments {
}

impl vstd::std_specs::cmp::PartialEqSpecImpl for SpaceSeparatedGenericArguments {
    open spec fn obeys_eq_spec() -> bool {
        true
    }

    open spec fn eq_spec(&self, other: &SpaceSeparatedGenericArguments) -> bool {
        self@ == other@
    }
}

impl PartialEq for GenericArguments {
    fn eq(&self, other: &GenericArguments) -> (r: bool) {
        match self {
            GenericArguments::AngleBracketed(a) => match other {
                GenericArguments::AngleBracketed(b) => angle_bracketed_eq(a, b),
                GenericArguments::SpaceSeparated(_) => false,
            },
            GenericArguments::SpaceSeparated(a) => match other {
                GenericArguments::AngleBracketed(_) => false,
                GenericArguments::SpaceSeparated(b) => list_eq(&a.args, &b.args),
            },
        }
    }
}

impl Eq for GenericArguments {
}

impl vstd::std_specs::cmp::PartialEqSpecImpl for GenericArguments {
    open spec fn obeys_eq_spec() -> bool {
        true
    }

    open spec fn eq_spec(&self, other: &GenericArguments) -> bool {
        self@ == other@
    }
}

impl PartialEq for SafeParameterizedPath {
    fn eq(&self, other: &SafeParameterizedPath) -> (r: bool) {
        safe_path_eq(self, other)
    }
}

impl Eq for SafeParameterizedPath {
}

impl vstd::std_specs::cmp::PartialEqSpecImpl for SafeParameterizedPath {
    open spec fn obeys_eq_spec() -> bool {
        true
    }

    open spec fn eq_spec(&self, other: &SafeParameterizedPath) -> bool {
        self@ == other@
    }
}

/// A copy of `p`.
pub fn path_clone(p: &Path) -> (r: Path)
    ensures
        r@ == p@,
{
    let segments = p.segments.clone();
    let r = Path { segments };
    proof {
        assert(r@.items =~= p@.items) by {
            assert forall|i: int| 0 <= i < p@.items.len() implies r@.items[i] == p@.items[i] by {
                if i < p.segments@.pairs.len() {
                    assert(cloned(p.segments@.pairs[i].0, r.segments@.pairs[i].0));
                }
            }
        }
    }
    r
}

/// A copy of `p`.
pub fn parameterized_path_clone(p: &ParameterizedPath) -> (r: ParameterizedPath)
    ensures
        r@ == p@,
    decreases p,
{
    let path = path_clone(&p.path);
    let args = match &p.args {
        None => None,
        Some(GenericArguments::AngleBracketed(a)) => Some(
            GenericArguments::AngleBracketed(angle_bracketed_clone(a)),
        ),
        Some(GenericArguments::SpaceSeparated(a)) => Some(
            GenericArguments::SpaceSeparated(
                SpaceSeparatedGenericArguments { args: list_clone(&a.args) },
            ),
        ),
    };
    ParameterizedPath { path, args }
}

/// A copy of `list`.
pub fn list_clone(list: &Vec<ParameterizedPath>) -> (r: Vec<ParameterizedPath>)
    ensures
        path_models(r@) == path_models(list@),
    decreases list,
{
    let mut out: Vec<ParameterizedPath> = Vec::new();
    let mut i: usize = 0;
    while i < list.len()
        invariant
            i <= list.len(),
            out.len() == i,
            forall|k: int| 0 <= k < i ==> out@[k]@ == list@[k]@,
        decreases list.len() - i,
    {
        out.push(parameterized_path_clone(&list[i]));
        i += 1;
    }
    proof {
        assert(path_models(out@) =~= path_models(list@));
    }
    out
}

/// A copy of `a`.
pub fn angle_bracketed_clone(a: &AngleBracketedGenericArguments) -> (r:
    AngleBracketedGenericArguments)
    ensures
        r@ == a@,
    decreases a,
{
    let mut inner: Vec<(ParameterizedPath, Comma)> = Vec::new();
    let mut i: usize = 0;
    while i < a.args.inner.len()
        invariant
            i <= a.args.inner.len(),
            inner.len() == i,
            forall|k: int| 0 <= k < i ==> inner@[k].0@ == a.args.inner@[k].0@,
        decreases a.args.inner.len() - i,
    {
        let pair = &a.args.inner[i];
        inner.push((parameterized_path_clone(&pair.0), pair.1));
        i += 1;
    }
    let last = match &a.args.last {
        Some(t) => {
            let node: &ParameterizedPath = &**t;
            Some(Box::new(parameterized_path_clone(node)))
        },
        None => None,
    };
    let r = AngleBracketedGenericArguments {
        langle_token: a.langle_token,
        args: Punctuated { inner, last },
        rangle_token: a.rangle_token,
    };
    proof {
        assert(r@.items =~= a@.items);
    }
    r
}

/// A copy of `p`.
pub fn safe_path_clone(p: &SafeParameterizedPath) -> (r: SafeParameterizedPath)
    ensures
        r@ == p@,
{
    match p {
        SafeParameterizedPath::SpaceImmune(x) => SafeParameterizedPath::SpaceImmune(
            SafeParameterizedPathSpaceImmune {
                path: path_clone(&x.path),
                args: match &x.args {
                    Some(a) => Some(angle_bracketed_clone(a)),
                    None => None,
                },
            },
        ),
        SafeParameterizedPath::Parenthesized(x) => SafeParameterizedPath::Parenthesized(
            SafeParameterizedPathParenthesized {
                paren_token: x.paren_token,
                parameterized_path: parameterized_path_clone(&x.parameterized_path),
            },
        ),
    }
}

impl Clone for Path {
    fn clone(&self) -> (r: Path)
        ensures
            r@ == self@,
    {
        path_clone(self)
    }
}

impl Clone for ParameterizedPath {
    fn clone(&self) -> (r: ParameterizedPath)
        ensures
            r@ == self@,
    {
        parameterized_path_clone(self)
    }
}

impl Clone for AngleBracketedGenericArguments {
    fn clone(&self) -> (r: AngleBracketedGenericArguments)
        ensures
            r@ == self@,
    {
        angle_bracketed_clone(self)
    }
}

impl Clone for SpaceSeparatedGenericArguments {
    fn clone(&self) -> (r: SpaceSeparatedGenericArguments)
        ensures
            r@ == self@,
    {
        SpaceSeparatedGenericArguments { args: list_clone(&self.args) }
    }
}

impl Clone for GenericArguments {
    fn clone(&self) -> (r: GenericArguments)
        ensures
            r@ == self@,
    {
        match self {
            GenericArguments::AngleBracketed(a) => GenericArguments::AngleBracketed(
                angle_bracketed_clone(a),
            ),
            GenericArguments::SpaceSeparated(a) => GenericArguments::SpaceSeparated(
                SpaceSeparatedGenericArguments { args: list_clone(&a.args) },
            ),
        }
    }
}

impl Clone for SafeParameterizedPath {
    fn clone(&self) -> (r: SafeParameterizedPath)
        ensures
            r@ == self@,
    {
        safe_path_clone(self)
    }
}

/// The extent of each of the parameterized paths `list`.
pub open spec fn path_extents(list: Seq<ParameterizedPath>) -> Seq<(int, int)>
    decreases list,
{
    Seq::new(
        list.len(),
        |i: int|
            if 0 <= i < list.len() {
                parameterized_path_extent(list[i])
            } else {
                (0int, 0int)
            },
    )
}

/// The extent of each node of `args` with the comma behind it.
pub open spec fn argument_extents(args: Punctuated<ParameterizedPath, Comma>) -> Seq<(int, int)>
    decreases args,
{
    Seq::new(
        args.inner@.len(),
        |i: int|
            if 0 <= i < args.inner@.len() {
                joined_spans(parameterized_path_extent(args.inner[i].0), args.inner[i].1.0@)
            } else {
                (0int, 0int)
            },
    )
}

/// The span that encloses `a`.
pub open spec fn angle_extent(a: AngleBracketedGenericArguments) -> (int, int)
    decreases a,
{
    joined_spans(
        joined_spans(
            a.langle_token.0@,
            joined_spans(
                joined_all(argument_extents(a.args)),
                match a.args.last {
                    Some(last) => parameterized_path_extent(*last),
                    None => (0int, 0int),
                },
            ),
        ),
        a.rangle_token.0@,
    )
}

/// The span that encloses `p`.
pub open spec fn parameterized_path_extent(p: ParameterizedPath) -> (int, int)
    decreases p,
{
    joined_spans(
        p.path.segments.extent(),
        match p.args {
            None => (0int, 0int),
            Some(GenericArguments::AngleBracketed(a)) => angle_extent(a),
            Some(GenericArguments::SpaceSeparated(a)) => joined_all(path_extents(a.args@)),
        },
    )
}

/// Return the span that encloses `p`.
pub fn parameterized_path_span(p: &ParameterizedPath) -> (r: Span)
    ensures
        r@ == parameterized_path_extent(*p),
    decreases p,
{
    let path = p.path.segments.span();
    let args = match &p.args {
        None => Span::zeroed(),
        Some(GenericArguments::AngleBracketed(a)) => angle_bracketed_span(a),
        Some(GenericArguments::SpaceSeparated(a)) => list_span(&a.args),
    };
    path.to(args)
}

/// Return the span that encloses the parameterized paths of `list`.
pub fn list_span(list: &Vec<ParameterizedPath>) -> (r: Span)
    ensures
        r@ == joined_all(path_extents(list@)),
    decreases list,
{
    let ghost all = path_extents(list@);
    let mut acc = Span::zeroed();
    let mut i: usize = 0;
    while i < list.len()
        invariant
            i <= list.len(),
            all == path_extents(list@),
            acc@ == joined_all(all.take(i as int)),
        decreases list.len() - i,
    {
        proof {
            assert(all.take(i as int + 1).drop_last() =~= all.take(i as int));
        }
        acc = acc.to(parameterized_path_span(&list[i]));
        i += 1;
    }
    proof {
        assert(all.take(i as int) =~= all);
    }
    acc
}

/// Return the span that encloses `a`.
pub fn angle_bracketed_span(a: &AngleBracketedGenericArguments) -> (r: Span)
    ensures
        r@ == angle_extent(*a),
    decreases a,
{
    let ghost all = argument_extents(a.args);
    let mut acc = Span::zeroed();
    let mut i: usize = 0;
    while i < a.args.inner.len()
        invariant
            i <= a.args.inner.len(),
            all == argument_extents(a.args),
            acc@ == joined_all(all.take(i as int)),
        decreases a.args.inner.len() - i,
    {
        proof {
            assert(all.take(i as int + 1).drop_last() =~= all.take(i as int));
        }
        let pair = &a.args.inner[i];
        acc = acc.to(parameterized_path_span(&pair.0).to(pair.1.span()));
        i += 1;
    }
    proof {
        assert(all.take(i as int) =~= all);
    }
    let last = match &a.args.last {
        Some(t) => {
            let node: &ParameterizedPath = &**t;
            parameterized_path_span(node)
        },
        None => Span::zeroed(),
    };
    a.langle_token.span().to(acc.to(last)).to(a.rangle_token.span())
}

/// The span that encloses `p`.
pub open spec fn safe_path_extent(p: SafeParameterizedPath) -> (int, int) {
    match p {
        SafeParameterizedPath::SpaceImmune(x) => joined_spans(
            x.path.segments.extent(),
            match x.args {
                Some(a) => angle_extent(a),
                None => (0int, 0int),
            },
        ),
        SafeParameterizedPath::Parenthesized(x) => joined_spans(
            x.paren_token.0@,
            parameterized_path_extent(x.parameterized_path),
        ),
    }
}

/// Return the span that encloses `p`.
pub fn safe_path_span(p: &SafeParameterizedPath) -> (r: Span)
    ensures
        r@ == safe_path_extent(*p),
{
    match p {
        SafeParameterizedPath::SpaceImmune(x) => {
            let args = match &x.args {
                Some(a) => angle_bracketed_span(a),
                None => Span::zeroed(),
            };
            x.path.segments.span().to(args)
        },
        SafeParameterizedPath::Parenthesized(x) => x.paren_token.span().to(
            parameterized_path_span(&x.parameterized_path),
        ),
    }
}

impl Spanned for Path {
    open spec fn extent(&self) -> (int, int) {
        self.segments.extent()
    }

    fn span(&self) -> (r: Span) {
        self.segments.span()
    }
}

impl Spanned for ParameterizedPath {
    open spec fn extent(&self) -> (int, int) {
        parameterized_path_extent(*self)
    }

    fn span(&self) -> (r: Span) {
        parameterized_path_span(self)
    }
}

impl Spanned for AngleBracketedGenericArguments {
    open spec fn extent(&self) -> (int, int) {
        angle_extent(*self)
    }

    fn span(&self) -> (r: Span) {
        angle_bracketed_span(self)
    }
}

impl Spanned for SpaceSeparatedGenericArguments {
    open spec fn extent(&self) -> (int, int) {
        joined_all(path_extents(self.args@))
    }

    fn span(&self) -> (r: Span) {
        list_span(&self.args)
    }
}

impl Spanned for GenericArguments {
    open spec fn extent(&self) -> (int, int) {
        match self {
            GenericArguments::AngleBracketed(a) => angle_extent(*a),
            GenericArguments::SpaceSeparated(a) => joined_all(path_extents(a.args@)),
        }
    }

    fn span(&self) -> (r: Span) {
        match self {
            GenericArguments::AngleBracketed(a) => angle_bracketed_span(a),
            GenericArguments::SpaceSeparated(a) => list_span(&a.args),
        }
    }
}

impl Spanned for SafeParameterizedPath {
    open spec fn extent(&self) -> (int, int) {
        safe_path_extent(*self)
    }

    fn span(&self) -> (r: Span) {
        safe_path_span(self)
    }
}

impl Print for SafeParameterizedPathSpaceImmune {
    open spec fn text(v: SafeParameterizedPathModel) -> Seq<u8> {
        safe_path_text(v)
    }

    fn print(&self, out: &mut Vec<u8>) {
        print_path(&self.path, out);
        match &self.args {
            Some(a) => {
                print_angle_bracketed(a, out);
            },
            None => {},
        }
        proof {
            assert(out@ =~= old(out)@ + safe_path_text(self@));
        }
    }
}

impl Print for SafeParameterizedPathParenthesized {
    open spec fn text(v: ParameterizedPathModel) -> Seq<u8> {
        Paren::left() + parameterized_path_text(v) + Paren::right()
    }

    fn print(&self, out: &mut Vec<u8>) {
        Paren::print_open(out);
        print_parameterized_path(&self.parameterized_path, out);
        Paren::print_close(out);
        proof {
            assert(out@ =~= old(out)@ + Self::text(self@));
        }
    }
}

impl PartialEq for SafeParameterizedPathSpaceImmune {
    fn eq(&self, other: &SafeParameterizedPathSpaceImmune) -> (r: bool) {
        if !path_eq(&self.path, &other.path) {
            return false;
        }
        match &self.args {
            Some(p) => match &other.args {
                Some(q) => angle_bracketed_eq(p, q),
                None => false,
            },
            None => other.args.is_none(),
        }
    }
}

impl Eq for SafeParameterizedPathSpaceImmune {
}

impl vstd::std_specs::cmp::PartialEqSpecImpl for SafeParameterizedPathSpaceImmune {
    open spec fn obeys_eq_spec() -> bool {
        true
    }

    open spec fn eq_spec(&self, other: &SafeParameterizedPathSpaceImmune) -> bool {
        self@ == other@
    }
}

impl PartialEq for SafeParameterizedPathParenthesized {
    fn eq(&self, other: &SafeParameterizedPathParenthesized) -> (r: bool) {
        parameterized_path_eq(&self.parameterized_path, &other.parameterized_path)
    }
}

impl Eq for SafeParameterizedPathParenthesized {
}

impl vstd::std_specs::cmp::PartialEqSpecImpl for SafeParameterizedPathParenthesized {
    open spec fn obeys_eq_spec() -> bool {
        true
    }

    open spec fn eq_spec(&self, other: &SafeParameterizedPathParenthesized) -> bool {
        self@ == other@
    }
}

impl Spanned for SafeParameterizedPathSpaceImmune {
    open spec fn extent(&self) -> (int, int) {
        joined_spans(
            self.path.segments.extent(),
            match self.args {
                Some(a) => angle_extent(a),
                None => (0int, 0int),
            },
        )
    }

    fn span(&self) -> (r: Span) {
        let args = match &self.args {
            Some(a) => angle_bracketed_span(a),
            None => Span::zeroed(),
        };
        self.path.segments.span().to(args)
    }
}

impl Spanned for SafeParameterizedPathParenthesized {
    open spec fn extent(&self) -> (int, int) {
        joined_spans(self.paren_token.0@, parameterized_path_extent(self.parameterized_path))
    }

    fn span(&self) -> (r: Span) {
        self.paren_token.span().to(parameterized_path_span(&self.parameterized_path))
    }
}

impl Clone for SafeParameterizedPathSpaceImmune {
    fn clone(&self) -> (r: SafeParameterizedPathSpaceImmune)
        ensures
            r@ == self@,
    {
        SafeParameterizedPathSpaceImmune {
            path: path_clone(&self.path),
            args: match &self.args {
                Some(a) => Some(angle_bracketed_clone(a)),
                None => None,
            },
        }
    }
}

impl Clone for SafeParameterizedPathParenthesized {
    fn clone(&self) -> (r: SafeParameterizedPathParenthesized)
        ensures
            r@ == self@,
    {
        SafeParameterizedPathParenthesized {
            paren_token: self.paren_token,
            parameterized_path: parameterized_path_clone(&self.parameterized_path),
        }
    }
}

} // verus!
