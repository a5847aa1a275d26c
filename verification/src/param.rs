//! The fields of a combinator: optional fields in braces, and required
//! fields of four forms.

use vstd::prelude::*;
use vstd::std_specs::cmp::PartialEqSpec;
use vstd::utf8::valid_utf8;
use crate::bit::BitIndex;
use crate::chars::{ascii_bytes, decimal_digits, spaces};
use crate::cursor::Cursor;
use crate::error::{ParseErrorKind, ParseResult};
use crate::ident::Ident;
use crate::parsed::{fail, many0, many1, spaced_rule, tag, Parsed};
use crate::path::{ident_texts, push_space};
use crate::print::{joined, print_slice_with_separator, texts, Print};
use crate::span::{joined as joined_spans, joined_all, Span};
use crate::spanned::{extents, slice_span, Spanned};
use crate::synom::{agrees, lemma_follows, parse_many0, parse_many1, rule, views, Synom};
use crate::token::{lemma_literal, Asterisk, Brace, Bracket, Colon, Dot, Paren, Question};
use crate::ty::{
    parse_type, print_type, type_eq, type_extent, type_grammar, type_span, type_text, Type,
    TypeModel,
};

verus! {

/// An optional field declaration: `{X:Type}`.
#[derive(Debug, Hash)]
pub struct OptParam {
    pub brace_token: Brace,
    pub var_idents: Vec<Ident>,
    pub colon_token: Colon,
    pub ty: Type,
}

/// A required field declaration.
#[derive(Debug, Hash)]
pub enum Param {
    Conditional(ParamConditional),
    Repeated(ParamRepeated),
    WithParen(ParamWithParen),
    TypeOnly(ParamTypeOnly),
}

/// A possibly conditional field: `bg_color:int`, `report_spam:flags.0?true`.
#[derive(Debug, Hash)]
pub struct ParamConditional {
    pub var_ident: Ident,
    pub colon_token: Colon,
    pub conditional_param_def: Option<ConditionalParamDef>,
    pub ty: Type,
}

/// The condition of a conditional field: `flags.0?`.
#[derive(Debug, Hash)]
pub struct ConditionalParamDef {
    pub var_ident: Ident,
    pub bit_selector: Option<BitSelector>,
    pub question_token: Question,
}

/// Selects a bit from a `#` parameter.
#[derive(Debug, Hash)]
pub struct BitSelector {
    pub dot_token: Dot,
    pub bit_index: BitIndex,
}

/// A group of fields in brackets, which is repeated: `[ t ]`.
#[derive(Debug, Hash)]
pub struct ParamRepeated {
    pub param_repeated_ident: Option<ParamRepeatedIdent>,
    pub multiplicity: Option<Multiplicity>,
    pub bracket_token: Bracket,
    pub params: Vec<Param>,
}

/// The name of a repeated group: `name:`.
#[derive(Debug, Hash)]
pub struct ParamRepeatedIdent {
    pub var_ident: Ident,
    pub colon_token: Colon,
}

/// How often a group is repeated: `n*`.
#[derive(Debug, Hash)]
pub struct Multiplicity {
    pub term: Ident,
    pub asterisk_token: Asterisk,
}

/// A declaration enclosed in parentheses that may have multiple fields.
#[derive(Debug, Hash)]
pub struct ParamWithParen {
    pub paren_token: Paren,
    pub var_idents: Vec<Ident>,
    pub colon_token: Colon,
    pub ty: Type,
}

/// A field with a bare type.
#[derive(Debug, Hash)]
pub struct ParamTypeOnly {
    pub ty: Type,
}

/// The names and the type that stand in a group of fields.
pub struct Fields {
    pub var_idents: Vec<Ident>,
    pub colon_token: Colon,
    pub ty: Type,
}

/// What a group of fields says: the names, and their type.
pub ghost struct FieldsModel {
    pub names: Seq<Seq<char>>,
    pub ty: TypeModel,
}

/// What the condition of a conditional field says: the name of the field
/// that holds the flags, and the bit that is tested, if one is given.
pub ghost struct ConditionModel {
    pub name: Seq<char>,
    pub bit: Option<u8>,
}

/// What a required field says.
pub ghost enum ParamModel {
    Conditional { name: Seq<char>, condition: Option<ConditionModel>, ty: TypeModel },
    Repeated { label: Option<Seq<char>>, multiplicity: Option<Seq<char>>, params: Seq<ParamModel> },
    WithParen { names: Seq<Seq<char>>, ty: TypeModel },
    TypeOnly(TypeModel),
}

/// What `c` says.
pub open spec fn condition_model(c: ConditionalParamDef) -> ConditionModel {
    ConditionModel {
        name: c.var_ident@,
        bit: match c.bit_selector {
            Some(b) => Some(b.bit_index@),
            None => None,
        },
    }
}

/// What `p` says.
pub open spec fn param_model(p: Param) -> ParamModel
    decreases p,
{
    match p {
        Param::Conditional(c) => ParamModel::Conditional {
            name: c.var_ident@,
            condition: match c.conditional_param_def {
                Some(d) => Some(condition_model(d)),
                None => None,
            },
            ty: c.ty@,
        },
        Param::Repeated(r) => ParamModel::Repeated {
            label: match r.param_repeated_ident {
                Some(i) => Some(i.var_ident@),
                None => None,
            },
            multiplicity: match r.multiplicity {
                Some(m) => Some(m.term@),
                None => None,
            },
            params: param_models(r.params@),
        },
        Param::WithParen(w) => ParamModel::WithParen { names: views(w.var_idents@), ty: w.ty@ },
        Param::TypeOnly(t) => ParamModel::TypeOnly(t.ty@),
    }
}

/// What each field of `params` says.
pub open spec fn param_models(params: Seq<Param>) -> Seq<ParamModel>
    decreases params,
{
    Seq::new(
        params.len(),
        |i: int|
            if 0 <= i < params.len() {
                param_model(params[i])
            } else {
                ParamModel::TypeOnly(TypeModel::Int)
            },
    )
}

/// What a list of fields says is what each of them says.
pub proof fn lemma_param_models(params: Seq<Param>)
    ensures
        param_models(params) == views(params),
{
    assert(param_models(params) =~= views(params));
}

impl View for Fields {
    type V = FieldsModel;

    open spec fn view(&self) -> FieldsModel {
        FieldsModel { names: views(self.var_idents@), ty: self.ty@ }
    }
}

impl View for OptParam {
    type V = FieldsModel;

    open spec fn view(&self) -> FieldsModel {
        FieldsModel { names: views(self.var_idents@), ty: self.ty@ }
    }
}

impl View for Param {
    type V = ParamModel;

    open spec fn view(&self) -> ParamModel {
        param_model(*self)
    }
}

impl View for ConditionalParamDef {
    type V = ConditionModel;

    open spec fn view(&self) -> ConditionModel {
        condition_model(*self)
    }
}

impl View for BitSelector {
    type V = u8;

    open spec fn view(&self) -> u8 {
        self.bit_index@
    }
}

impl View for ParamRepeatedIdent {
    type V = Seq<char>;

    open spec fn view(&self) -> Seq<char> {
        self.var_ident@
    }
}

impl View for Multiplicity {
    type V = Seq<char>;

    open spec fn view(&self) -> Seq<char> {
        self.term@
    }
}

impl View for ParamConditional {
    type V = ParamModel;

    open spec fn view(&self) -> ParamModel {
        ParamModel::Conditional {
            name: self.var_ident@,
            condition: match self.conditional_param_def {
                Some(d) => Some(condition_model(d)),
                None => None,
            },
            ty: self.ty@,
        }
    }
}

impl View for ParamRepeated {
    type V = ParamModel;

    open spec fn view(&self) -> ParamModel {
        ParamModel::Repeated {
            label: match self.param_repeated_ident {
                Some(i) => Some(i.var_ident@),
                None => None,
            },
            multiplicity: match self.multiplicity {
                Some(m) => Some(m.term@),
                None => None,
            },
            params: param_models(self.params@),
        }
    }
}

impl View for ParamWithParen {
    type V = ParamModel;

    open spec fn view(&self) -> ParamModel {
        ParamModel::WithParen { names: views(self.var_idents@), ty: self.ty@ }
    }
}

impl View for ParamTypeOnly {
    type V = TypeModel;

    open spec fn view(&self) -> TypeModel {
        self.ty@
    }
}

/// The inside of a group of fields: spaces, one or more names with spaces
/// behind each, `:`, spaces, a type, spaces.
#[verifier::opaque]
pub open spec fn fields_grammar(s: Seq<u8>) -> Parsed<FieldsModel> {
    let pos0 = spaces(s);
    match many1(spaced_rule(rule::<Ident>(), true), s.skip(pos0)).shift(pos0) {
        Parsed::Fail { kind, begin, end } => Parsed::Fail { kind, begin, end },
        Parsed::Done { value: names, len: pos1 } => {
            let pos2 = pos1 + spaces(s.skip(pos1));
            match tag(s.skip(pos2), Colon::literal()).shift(pos2) {
                Parsed::Fail { kind, begin, end } => Parsed::Fail { kind, begin, end },
                Parsed::Done { len: pos3, .. } => {
                    let pos4 = pos3 + spaces(s.skip(pos3));
                    match type_grammar(s.skip(pos4)).shift(pos4) {
                        Parsed::Fail { kind, begin, end } => Parsed::Fail { kind, begin, end },
                        Parsed::Done { value: ty, len: pos5 } => Parsed::Done {
                            value: FieldsModel { names, ty },
                            len: pos5 + spaces(s.skip(pos5)),
                        },
                    }
                },
            }
        },
    }
}

/// An optional field is a group of fields in braces.
#[verifier::opaque]
pub open spec fn opt_param_grammar(s: Seq<u8>) -> Parsed<FieldsModel> {
    match tag(s, Brace::left()) {
        Parsed::Fail { kind, begin, end } => Parsed::Fail { kind, begin, end },
        Parsed::Done { len: pos0, .. } => match fields_grammar(s.skip(pos0)).shift(pos0) {
            Parsed::Fail { kind, begin, end } => Parsed::Fail { kind, begin, end },
            Parsed::Done { value, len: pos1 } => match tag(s.skip(pos1), Brace::right()).shift(pos1) {
                Parsed::Fail { kind, begin, end } => Parsed::Fail { kind, begin, end },
                Parsed::Done { len: pos2, .. } => Parsed::Done { value, len: pos2 },
            },
        },
    }
}

/// A field in parentheses is a group of fields in parentheses.
#[verifier::opaque]
pub open spec fn with_paren_grammar(s: Seq<u8>) -> Parsed<ParamModel> {
    match tag(s, Paren::left()) {
        Parsed::Fail { kind, begin, end } => Parsed::Fail { kind, begin, end },
        Parsed::Done { len: pos0, .. } => match fields_grammar(s.skip(pos0)).shift(pos0) {
            Parsed::Fail { kind, begin, end } => Parsed::Fail { kind, begin, end },
            Parsed::Done { value, len: pos1 } => match tag(s.skip(pos1), Paren::right()).shift(pos1) {
                Parsed::Fail { kind, begin, end } => Parsed::Fail { kind, begin, end },
                Parsed::Done { len: pos2, .. } => Parsed::Done {
                    value: ParamModel::WithParen { names: value.names, ty: value.ty },
                    len: pos2,
                },
            },
        },
    }
}

/// A bit selector is `.` and a bit index right behind it.
#[verifier::opaque]
pub open spec fn bit_selector_grammar(s: Seq<u8>) -> Parsed<u8> {
    match tag(s, Dot::literal()) {
        Parsed::Fail { kind, begin, end } => Parsed::Fail { kind, begin, end },
        Parsed::Done { len, .. } => BitIndex::grammar(s.skip(len)).shift(len),
    }
}

/// A condition is an identifier, a bit selector if there is one, and `?`,
/// with nothing between them.
#[verifier::opaque]
pub open spec fn condition_grammar(s: Seq<u8>) -> Parsed<ConditionModel> {
    match Ident::grammar(s) {
        Parsed::Fail { kind, begin, end } => Parsed::Fail { kind, begin, end },
        Parsed::Done { value: name, len: pos0 } => {
            let bit = bit_selector_grammar(s.skip(pos0)).optional().shift(pos0);
            let pos1 = bit->len;
            match tag(s.skip(pos1), Question::literal()).shift(pos1) {
                Parsed::Fail { kind, begin, end } => Parsed::Fail { kind, begin, end },
                Parsed::Done { len: pos2, .. } => Parsed::Done {
                    value: ConditionModel { name, bit: bit->value },
                    len: pos2,
                },
            }
        },
    }
}

/// A possibly conditional field is an identifier, `:`, a condition if
/// there is one, and a type, with nothing between them.
#[verifier::opaque]
pub open spec fn conditional_grammar(s: Seq<u8>) -> Parsed<ParamModel> {
    match Ident::grammar(s) {
        Parsed::Fail { kind, begin, end } => Parsed::Fail { kind, begin, end },
        Parsed::Done { value: name, len: pos0 } => match tag(s.skip(pos0), Colon::literal()).shift(
            pos0,
        ) {
            Parsed::Fail { kind, begin, end } => Parsed::Fail { kind, begin, end },
            Parsed::Done { len: pos1, .. } => {
                let condition = condition_grammar(s.skip(pos1)).optional().shift(pos1);
                let pos2 = condition->len;
                match type_grammar(s.skip(pos2)).shift(pos2) {
                    Parsed::Fail { kind, begin, end } => Parsed::Fail { kind, begin, end },
                    Parsed::Done { value: ty, len: pos3 } => Parsed::Done {
                        value: ParamModel::Conditional { name, condition: condition->value, ty },
                        len: pos3,
                    },
                }
            },
        },
    }
}

/// The name of a repeated group is an identifier and `:` right behind it.
#[verifier::opaque]
pub open spec fn repeated_ident_grammar(s: Seq<u8>) -> Parsed<Seq<char>> {
    match Ident::grammar(s) {
        Parsed::Fail { kind, begin, end } => Parsed::Fail { kind, begin, end },
        Parsed::Done { value, len: pos0 } => match tag(s.skip(pos0), Colon::literal()).shift(pos0) {
            Parsed::Fail { kind, begin, end } => Parsed::Fail { kind, begin, end },
            Parsed::Done { len: pos1, .. } => Parsed::Done { value, len: pos1 },
        },
    }
}

/// A multiplicity is an identifier and `*` right behind it.
#[verifier::opaque]
pub open spec fn multiplicity_grammar(s: Seq<u8>) -> Parsed<Seq<char>> {
    match Ident::grammar(s) {
        Parsed::Fail { kind, begin, end } => Parsed::Fail { kind, begin, end },
        Parsed::Done { value, len: pos0 } => match tag(s.skip(pos0), Asterisk::literal()).shift(pos0) {
            Parsed::Fail { kind, begin, end } => Parsed::Fail { kind, begin, end },
            Parsed::Done { len: pos1, .. } => Parsed::Done { value, len: pos1 },
        },
    }
}

/// The rule of a required field, for inputs of up to `limit` bytes.
pub open spec fn param_rule(limit: nat) -> spec_fn(Seq<u8>) -> Parsed<ParamModel>
    decreases limit, 3nat,
{
    |t: Seq<u8>|
        if t.len() <= limit {
            param_grammar(t)
        } else {
            fail(ParseErrorKind::Mismatch, 0, 0)
        }
}

/// A repeated group is a name if there is one, a multiplicity if there is
/// one, and then, in brackets, any number of fields with spaces behind each.
pub open spec fn repeated_grammar(s: Seq<u8>) -> Parsed<ParamModel>
    decreases s.len(), 1nat,
{
    let name = repeated_ident_grammar(s).optional();
    let pos0 = name->len;
    let multiplicity = multiplicity_grammar(s.skip(pos0)).optional().shift(pos0);
    let pos1 = multiplicity->len;
    match tag(s.skip(pos1), Bracket::left()).shift(pos1) {
        Parsed::Fail { kind, begin, end } => Parsed::Fail { kind, begin, end },
        Parsed::Done { len: pos2, .. } => if 0 < pos2 <= s.len() {
            let params = many0(
                spaced_rule(param_rule((s.len() - pos2) as nat), true),
                s.skip(pos2),
            );
            let pos3 = pos2 + params.1;
            match tag(s.skip(pos3), Bracket::right()).shift(pos3) {
                Parsed::Fail { kind, begin, end } => Parsed::Fail { kind, begin, end },
                Parsed::Done { len: pos4, .. } => Parsed::Done {
                    value: ParamModel::Repeated {
                        label: name->value,
                        multiplicity: multiplicity->value,
                        params: params.0,
                    },
                    len: pos4,
                },
            }
        } else {
            fail(ParseErrorKind::Mismatch, 0, 0)
        },
    }
}

/// A required field is, in this order of preference: a possibly
/// conditional field; a repeated group; a field in parentheses; a type
/// alone. Where none matches, the field fails as the type does.
pub open spec fn param_grammar(s: Seq<u8>) -> Parsed<ParamModel>
    decreases s.len(), 2nat,
{
    match conditional_grammar(s) {
        Parsed::Done { value, len } => Parsed::Done { value, len },
        Parsed::Fail { .. } => match repeated_grammar(s) {
            Parsed::Done { value, len } => Parsed::Done { value, len },
            Parsed::Fail { .. } => match with_paren_grammar(s) {
                Parsed::Done { value, len } => Parsed::Done { value, len },
                Parsed::Fail { .. } => match type_grammar(s) {
                    Parsed::Done { value, len } => Parsed::Done {
                        value: ParamModel::TypeOnly(value),
                        len,
                    },
                    Parsed::Fail { kind, begin, end } => Parsed::Fail { kind, begin, end },
                },
            },
        },
    }
}

/// Parse the inside of a group of fields.
pub fn parse_fields<'a>(input: Cursor<'a>) -> (r: ParseResult<(Cursor<'a>, Fields)>)
    ensures
        agrees(input, r, fields_grammar(input.bytes())),
{
    reveal(fields_grammar);
    let ghost s = input.bytes();
    let ghost pos0 = spaces(s);
    let at0 = input.skip_spaces();
    let parse_ident = |c: Cursor<'a>| -> (o: ParseResult<(Cursor<'a>, Ident)>)
        ensures
            agrees(c, o, Ident::grammar(c.bytes())),
        { Ident::parse_cursor(c) };
    let ghost names = many1(spaced_rule(rule::<Ident>(), true), s.skip(pos0));
    proof {
        let t = at0.bytes();
        assert forall|k: int| 0 <= k <= t.len() implies (#[trigger] rule::<Ident>()(
            t.skip(k),
        ) matches Parsed::Done { len, .. } ==> 0 < len <= t.len() - k) by {
            crate::chars::lemma_run(t.skip(k), crate::chars::CharClass::Ident);
        }
        crate::parsed::lemma_repeated1_spaced(rule::<Ident>(), t, true);
    }
    let (at1, var_idents) = match parse_many1(at0, &parse_ident, Ghost(rule::<Ident>()), true) {
        Ok(pair) => pair,
        Err(e) => { return Err(e); },
    };
    let ghost pos1 = pos0 + names->len;
    let ghost pos2 = pos1 + spaces(s.skip(pos1));
    proof {
        lemma_follows(input, at0, at1, pos0, names->len);
    }
    let at2 = at1.skip_spaces();
    proof {
        lemma_follows(input, at1, at2, pos1, spaces(s.skip(pos1)));
    }
    let (at3, colon_token) = match Colon::parse_cursor(at2) {
        Ok(pair) => pair,
        Err(e) => { return Err(e); },
    };
    let ghost pos3 = pos2 + Colon::literal().len();
    let ghost pos4 = pos3 + spaces(s.skip(pos3));
    proof {
        lemma_follows(input, at2, at3, pos2, Colon::literal().len() as int);
    }
    let at4 = at3.skip_spaces();
    proof {
        lemma_follows(input, at3, at4, pos3, spaces(s.skip(pos3)));
    }
    let (at5, ty) = match parse_type(at4) {
        Ok(pair) => pair,
        Err(e) => { return Err(e); },
    };
    let ghost pos5 = pos4 + type_grammar(s.skip(pos4))->len;
    proof {
        lemma_follows(input, at4, at5, pos4, type_grammar(s.skip(pos4))->len);
    }
    let at6 = at5.skip_spaces();
    proof {
        lemma_follows(input, at5, at6, pos5, spaces(s.skip(pos5)));
    }
    Ok((at6, Fields { var_idents, colon_token, ty }))
}

/// Parse an optional field.
pub fn parse_opt_param<'a>(input: Cursor<'a>) -> (r: ParseResult<(Cursor<'a>, OptParam)>)
    ensures
        agrees(input, r, opt_param_grammar(input.bytes())),
{
    reveal(opt_param_grammar);
    let ghost s = input.bytes();
    let at0 = match Brace::parse_open(input) {
        Ok(rest) => rest,
        Err(e) => { return Err(e); },
    };
    let ghost pos0 = Brace::left().len() as int;
    let (at1, fields) = match parse_fields(at0) {
        Ok(pair) => pair,
        Err(e) => { return Err(e); },
    };
    let ghost pos1 = pos0 + fields_grammar(s.skip(pos0))->len;
    proof {
        lemma_follows(input, at0, at1, pos0, fields_grammar(s.skip(pos0))->len);
    }
    match Brace::parse_close(at1, input) {
        Ok((at2, brace_token)) => {
            proof {
                lemma_follows(input, at1, at2, pos1, Brace::right().len() as int);
            }
            Ok(
                (
                    at2,
                    OptParam {
                        brace_token,
                        var_idents: fields.var_idents,
                        colon_token: fields.colon_token,
                        ty: fields.ty,
                    },
                ),
            )
        },
        Err(e) => Err(e),
    }
}

/// Parse a field in parentheses.
pub fn parse_with_paren<'a>(input: Cursor<'a>) -> (r: ParseResult<(Cursor<'a>, ParamWithParen)>)
    ensures
        agrees(input, r, with_paren_grammar(input.bytes())),
{
    reveal(with_paren_grammar);
    let ghost s = input.bytes();
    let at0 = match Paren::parse_open(input) {
        Ok(rest) => rest,
        Err(e) => { return Err(e); },
    };
    let ghost pos0 = Paren::left().len() as int;
    let (at1, fields) = match parse_fields(at0) {
        Ok(pair) => pair,
        Err(e) => { return Err(e); },
    };
    let ghost pos1 = pos0 + fields_grammar(s.skip(pos0))->len;
    proof {
        lemma_follows(input, at0, at1, pos0, fields_grammar(s.skip(pos0))->len);
    }
    match Paren::parse_close(at1, input) {
        Ok((at2, paren_token)) => {
            proof {
                lemma_follows(input, at1, at2, pos1, Paren::right().len() as int);
            }
            Ok(
                (
                    at2,
                    ParamWithParen {
                        paren_token,
                        var_idents: fields.var_idents,
                        colon_token: fields.colon_token,
                        ty: fields.ty,
                    },
                ),
            )
        },
        Err(e) => Err(e),
    }
}

/// Parse a bit selector.
pub fn parse_bit_selector<'a>(input: Cursor<'a>) -> (r: ParseResult<(Cursor<'a>, BitSelector)>)
    ensures
        agrees(input, r, bit_selector_grammar(input.bytes())),
        r matches Ok((_, node)) ==> node.dot_token.0@ == (input.position(), input.position() + 1)
            && node.bit_index.extent() == (
            input.position() + 1,
            input.position() + bit_selector_grammar(input.bytes())->len,
        ),
{
    reveal(bit_selector_grammar);
    let (at0, dot_token) = match Dot::parse_cursor(input) {
        Ok(pair) => pair,
        Err(e) => { return Err(e); },
    };
    match BitIndex::parse_cursor(at0) {
        Ok((at1, bit_index)) => {
            proof {
                let pos0 = Dot::literal().len() as int;
                lemma_follows(input, at0, at1, pos0, BitIndex::grammar(input.bytes().skip(pos0))->len);
            }
            Ok((at1, BitSelector { dot_token, bit_index }))
        },
        Err(e) => Err(e),
    }
}

/// Parse the condition of a conditional field.
pub fn parse_condition<'a>(input: Cursor<'a>) -> (r: ParseResult<
    (Cursor<'a>, ConditionalParamDef),
>)
    ensures
        agrees(input, r, condition_grammar(input.bytes())),
{
    reveal(condition_grammar);
    let ghost s = input.bytes();
    let (at0, var_ident) = match Ident::parse_cursor(input) {
        Ok(pair) => pair,
        Err(e) => { return Err(e); },
    };
    let ghost pos0 = Ident::grammar(s)->len;
    let (at1, bit_selector) = match parse_bit_selector(at0) {
        Ok((rest, b)) => {
            proof {
                lemma_follows(input, at0, rest, pos0, bit_selector_grammar(s.skip(pos0))->len);
            }
            (rest, Some(b))
        },
        Err(_) => {
            proof {
                assert(s.skip(pos0).skip(0) =~= s.skip(pos0));
            }
            (at0, None)
        },
    };
    let ghost pos1 = bit_selector_grammar(s.skip(pos0)).optional().shift(pos0)->len;
    match Question::parse_cursor(at1) {
        Ok((at2, question_token)) => {
            proof {
                lemma_follows(input, at1, at2, pos1, Question::literal().len() as int);
            }
            Ok((at2, ConditionalParamDef { var_ident, bit_selector, question_token }))
        },
        Err(e) => Err(e),
    }
}

/// Parse a possibly conditional field.
pub fn parse_conditional<'a>(input: Cursor<'a>) -> (r: ParseResult<
    (Cursor<'a>, ParamConditional),
>)
    ensures
        agrees(input, r, conditional_grammar(input.bytes())),
{
    reveal(conditional_grammar);
    let ghost s = input.bytes();
    let (at0, var_ident) = match Ident::parse_cursor(input) {
        Ok(pair) => pair,
        Err(e) => { return Err(e); },
    };
    let ghost pos0 = Ident::grammar(s)->len;
    let (at1, colon_token) = match Colon::parse_cursor(at0) {
        Ok(pair) => pair,
        Err(e) => { return Err(e); },
    };
    let ghost pos1 = pos0 + Colon::literal().len();
    proof {
        lemma_follows(input, at0, at1, pos0, Colon::literal().len() as int);
    }
    let (at2, conditional_param_def) = match parse_condition(at1) {
        Ok((rest, d)) => {
            proof {
                lemma_follows(input, at1, rest, pos1, condition_grammar(s.skip(pos1))->len);
            }
            (rest, Some(d))
        },
        Err(_) => (at1, None),
    };
    let ghost pos2 = condition_grammar(s.skip(pos1)).optional().shift(pos1)->len;
    match parse_type(at2) {
        Ok((at3, ty)) => {
            proof {
                lemma_follows(input, at2, at3, pos2, type_grammar(s.skip(pos2))->len);
            }
            Ok((at3, ParamConditional { var_ident, colon_token, conditional_param_def, ty }))
        },
        Err(e) => Err(e),
    }
}

/// Parse the name of a repeated group.
pub fn parse_repeated_ident<'a>(input: Cursor<'a>) -> (r: ParseResult<
    (Cursor<'a>, ParamRepeatedIdent),
>)
    ensures
        agrees(input, r, repeated_ident_grammar(input.bytes())),
        r matches Ok((_, node)) ==> node.var_ident.extent() == (
            input.position(),
            input.position() + repeated_ident_grammar(input.bytes())->len - 1,
        ) && node.colon_token.0@ == (
            input.position() + repeated_ident_grammar(input.bytes())->len - 1,
            input.position() + repeated_ident_grammar(input.bytes())->len,
        ),
{
    reveal(repeated_ident_grammar);
    let (at0, var_ident) = match Ident::parse_cursor(input) {
        Ok(pair) => pair,
        Err(e) => { return Err(e); },
    };
    match Colon::parse_cursor(at0) {
        Ok((at1, colon_token)) => {
            proof {
                lemma_follows(
                    input,
                    at0,
                    at1,
                    Ident::grammar(input.bytes())->len,
                    Colon::literal().len() as int,
                );
            }
            Ok((at1, ParamRepeatedIdent { var_ident, colon_token }))
        },
        Err(e) => Err(e),
    }
}

/// Parse a multiplicity.
pub fn parse_multiplicity<'a>(input: Cursor<'a>) -> (r: ParseResult<(Cursor<'a>, Multiplicity)>)
    ensures
        agrees(input, r, multiplicity_grammar(input.bytes())),
        r matches Ok((_, node)) ==> node.term.extent() == (
            input.position(),
            input.position() + multiplicity_grammar(input.bytes())->len - 1,
        ) && node.asterisk_token.0@ == (
            input.position() + multiplicity_grammar(input.bytes())->len - 1,
            input.position() + multiplicity_grammar(input.bytes())->len,
        ),
{
    reveal(multiplicity_grammar);
    let (at0, term) = match Ident::parse_cursor(input) {
        Ok(pair) => pair,
        Err(e) => { return Err(e); },
    };
    match Asterisk::parse_cursor(at0) {
        Ok((at1, asterisk_token)) => {
            proof {
                lemma_follows(
                    input,
                    at0,
                    at1,
                    Ident::grammar(input.bytes())->len,
                    Asterisk::literal().len() as int,
                );
            }
            Ok((at1, Multiplicity { term, asterisk_token }))
        },
        Err(e) => Err(e),
    }
}

/// The repetition of the fields of a repeated group does not fail: every
/// field takes input.
pub proof fn lemma_group_progress(t: Seq<u8>, limit: nat)
    ensures
        crate::parsed::repeated(spaced_rule(param_rule(limit), true), t) == (Parsed::Done {
            value: many0(spaced_rule(param_rule(limit), true), t).0,
            len: many0(spaced_rule(param_rule(limit), true), t).1,
        }),
{
    assert forall|k: int| 0 <= k <= t.len() implies (#[trigger] param_rule(limit)(
        t.skip(k),
    ) matches Parsed::Done { len, .. } ==> 0 < len) by {
        crate::canonical::param::lemma_param_read(t.skip(k));
    }
    crate::parsed::lemma_repeated_spaced(param_rule(limit), t, true);
}

/// Parse a repeated group.
pub fn parse_repeated<'a>(input: Cursor<'a>) -> (r: ParseResult<(Cursor<'a>, ParamRepeated)>)
    ensures
        agrees(input, r, repeated_grammar(input.bytes())),
    decreases input.bytes().len(), 1nat,
{
    let ghost s = input.bytes();
    let (at0, param_repeated_ident) = match parse_repeated_ident(input) {
        Ok((rest, i)) => (rest, Some(i)),
        Err(_) => {
            proof {
                assert(s.skip(0) =~= s);
            }
            (input, None)
        },
    };
    let ghost pos0 = repeated_ident_grammar(s).optional()->len;
    let (at1, multiplicity) = match parse_multiplicity(at0) {
        Ok((rest, m)) => {
            proof {
                lemma_follows(input, at0, rest, pos0, multiplicity_grammar(s.skip(pos0))->len);
            }
            (rest, Some(m))
        },
        Err(_) => (at0, None),
    };
    let ghost pos1 = multiplicity_grammar(s.skip(pos0)).optional().shift(pos0)->len;
    let at2 = match Bracket::parse_open(at1) {
        Ok(rest) => rest,
        Err(e) => { return Err(e); },
    };
    let ghost pos2 = pos1 + Bracket::left().len();
    proof {
        lemma_follows(input, at1, at2, pos1, Bracket::left().len() as int);
    }
    let ghost limit = (s.len() - pos2) as nat;
    let parse = |c: Cursor<'a>| -> (o: ParseResult<(Cursor<'a>, Param)>)
        requires
            c.bytes().len() < input.bytes().len(),
        ensures
            agrees(c, o, param_grammar(c.bytes())),
        { parse_param(c) };
    proof {
        lemma_group_progress(at2.bytes(), limit);
    }
    let (at3, params) = match parse_many0(at2, &parse, Ghost(param_rule(limit)), true) {
        Ok(pair) => pair,
        Err(e) => { return Err(e); },
    };
    let ghost found = many0(spaced_rule(param_rule(limit), true), s.skip(pos2));
    let ghost pos3 = pos2 + found.1;
    proof {
        lemma_follows(input, at2, at3, pos2, found.1);
        lemma_param_models(params@);
    }
    match Bracket::parse_close(at3, at1) {
        Ok((at4, bracket_token)) => {
            proof {
                lemma_follows(input, at3, at4, pos3, Bracket::right().len() as int);
            }
            Ok((at4, ParamRepeated { param_repeated_ident, multiplicity, bracket_token, params }))
        },
        Err(e) => Err(e),
    }
}

/// Parse a required field.
pub fn parse_param<'a>(input: Cursor<'a>) -> (r: ParseResult<(Cursor<'a>, Param)>)
    ensures
        agrees(input, r, param_grammar(input.bytes())),
    decreases input.bytes().len(), 2nat,
{
    match parse_conditional(input) {
        Ok((rest, p)) => { return Ok((rest, Param::Conditional(p))); },
        Err(_) => {},
    }
    match parse_repeated(input) {
        Ok((rest, p)) => { return Ok((rest, Param::Repeated(p))); },
        Err(_) => {},
    }
    match parse_with_paren(input) {
        Ok((rest, p)) => { return Ok((rest, Param::WithParen(p))); },
        Err(_) => {},
    }
    match parse_type(input) {
        Ok((rest, ty)) => Ok((rest, Param::TypeOnly(ParamTypeOnly { ty }))),
        Err(e) => Err(e),
    }
}

impl Synom for OptParam {
    open spec fn grammar(s: Seq<u8>) -> Parsed<FieldsModel> {
        opt_param_grammar(s)
    }

    fn parse_cursor<'a>(input: Cursor<'a>) -> (r: ParseResult<(Cursor<'a>, OptParam)>) {
        parse_opt_param(input)
    }
}

impl Synom for Param {
    open spec fn grammar(s: Seq<u8>) -> Parsed<ParamModel> {
        param_grammar(s)
    }

    fn parse_cursor<'a>(input: Cursor<'a>) -> (r: ParseResult<(Cursor<'a>, Param)>) {
        parse_param(input)
    }
}

impl Synom for ParamConditional {
    open spec fn grammar(s: Seq<u8>) -> Parsed<ParamModel> {
        conditional_grammar(s)
    }

    fn parse_cursor<'a>(input: Cursor<'a>) -> (r: ParseResult<(Cursor<'a>, ParamConditional)>) {
        parse_conditional(input)
    }
}

impl Synom for ConditionalParamDef {
    open spec fn grammar(s: Seq<u8>) -> Parsed<ConditionModel> {
        condition_grammar(s)
    }

    fn parse_cursor<'a>(input: Cursor<'a>) -> (r: ParseResult<(Cursor<'a>, ConditionalParamDef)>) {
        parse_condition(input)
    }
}

impl Synom for BitSelector {
    open spec fn grammar(s: Seq<u8>) -> Parsed<u8> {
        bit_selector_grammar(s)
    }

    fn parse_cursor<'a>(input: Cursor<'a>) -> (r: ParseResult<(Cursor<'a>, BitSelector)>) {
        parse_bit_selector(input)
    }
}

impl Synom for ParamRepeated {
    open spec fn grammar(s: Seq<u8>) -> Parsed<ParamModel> {
        repeated_grammar(s)
    }

    fn parse_cursor<'a>(input: Cursor<'a>) -> (r: ParseResult<(Cursor<'a>, ParamRepeated)>) {
        parse_repeated(input)
    }
}

impl Synom for ParamRepeatedIdent {
    open spec fn grammar(s: Seq<u8>) -> Parsed<Seq<char>> {
        repeated_ident_grammar(s)
    }

    fn parse_cursor<'a>(input: Cursor<'a>) -> (r: ParseResult<(Cursor<'a>, ParamRepeatedIdent)>) {
        parse_repeated_ident(input)
    }
}

impl Synom for Multiplicity {
    open spec fn grammar(s: Seq<u8>) -> Parsed<Seq<char>> {
        multiplicity_grammar(s)
    }

    fn parse_cursor<'a>(input: Cursor<'a>) -> (r: ParseResult<(Cursor<'a>, Multiplicity)>) {
        parse_multiplicity(input)
    }
}

impl Synom for ParamWithParen {
    open spec fn grammar(s: Seq<u8>) -> Parsed<ParamModel> {
        with_paren_grammar(s)
    }

    fn parse_cursor<'a>(input: Cursor<'a>) -> (r: ParseResult<(Cursor<'a>, ParamWithParen)>) {
        parse_with_paren(input)
    }
}

impl Synom for ParamTypeOnly {
    open spec fn grammar(s: Seq<u8>) -> Parsed<TypeModel> {
        type_grammar(s)
    }

    fn parse_cursor<'a>(input: Cursor<'a>) -> (r: ParseResult<(Cursor<'a>, ParamTypeOnly)>) {
        match parse_type(input) {
            Ok((rest, ty)) => Ok((rest, ParamTypeOnly { ty })),
            Err(e) => Err(e),
        }
    }
}

/// The source text of the inside of a group of fields: the names with a
/// space between each two, `:`, the type.
pub open spec fn fields_text(v: FieldsModel) -> Seq<u8> {
    joined(ident_texts(v.names), seq![' ' as u8]) + Colon::literal() + type_text(v.ty)
}

/// The source text of an optional field.
pub open spec fn opt_param_text(v: FieldsModel) -> Seq<u8> {
    Brace::left() + fields_text(v) + Brace::right()
}

/// The source text of a condition.
pub open spec fn condition_text(v: ConditionModel) -> Seq<u8> {
    ascii_bytes(v.name) + (match v.bit {
        Some(b) => Dot::literal() + decimal_digits(b as nat),
        None => Seq::<u8>::empty(),
    }) + Question::literal()
}

/// The source text of a required field.
pub open spec fn param_text(v: ParamModel) -> Seq<u8>
    decreases v,
{
    match v {
        ParamModel::Conditional { name, condition, ty } => ascii_bytes(name) + Colon::literal() + (
        match condition {
            Some(c) => condition_text(c),
            None => Seq::<u8>::empty(),
        }) + type_text(ty),
        ParamModel::Repeated { label, multiplicity, params } => (match label {
            Some(n) => ascii_bytes(n) + Colon::literal(),
            None => Seq::<u8>::empty(),
        }) + (match multiplicity {
            Some(m) => ascii_bytes(m) + Asterisk::literal(),
            None => Seq::<u8>::empty(),
        }) + Bracket::left() + joined(param_texts(params), seq![' ' as u8]) + Bracket::right(),
        ParamModel::WithParen { names, ty } => Paren::left() + fields_text(
            FieldsModel { names, ty },
        ) + Paren::right(),
        ParamModel::TypeOnly(ty) => type_text(ty),
    }
}

/// The source text of each of the fields `params`.
pub open spec fn param_texts(params: Seq<ParamModel>) -> Seq<Seq<u8>>
    decreases params,
{
    Seq::new(
        params.len(),
        |i: int|
            if 0 <= i < params.len() {
                param_text(params[i])
            } else {
                Seq::<u8>::empty()
            },
    )
}

/// Put the source text of the names `var_idents`, `:` and the type `ty`
/// behind `out`.
pub fn print_fields(var_idents: &Vec<Ident>, colon_token: &Colon, ty: &Type, out: &mut Vec<u8>)
    ensures
        final(out)@ == old(out)@ + fields_text(FieldsModel { names: views(var_idents@), ty: ty@ }),
        valid_utf8(old(out)@) ==> valid_utf8(final(out)@),
{
    proof {
        reveal_strlit(" ");
        lemma_literal(" ", seq![' ' as u8]);
    }
    print_slice_with_separator(var_idents.as_slice(), " ", out);
    colon_token.print(out);
    print_type(ty, out);
    proof {
        assert(texts::<Ident>(views(var_idents@)) =~= ident_texts(views(var_idents@)));
        assert(out@ =~= old(out)@ + fields_text(FieldsModel { names: views(var_idents@), ty: ty@ }));
    }
}

/// Put the source text of `p` behind `out`.
pub fn print_opt_param(p: &OptParam, out: &mut Vec<u8>)
    ensures
        final(out)@ == old(out)@ + opt_param_text(p@),
        valid_utf8(old(out)@) ==> valid_utf8(final(out)@),
{
    Brace::print_open(out);
    print_fields(&p.var_idents, &p.colon_token, &p.ty, out);
    Brace::print_close(out);
    proof {
        assert(out@ =~= old(out)@ + opt_param_text(p@));
    }
}

/// Put the source text of `c` behind `out`.
pub fn print_condition(c: &ConditionalParamDef, out: &mut Vec<u8>)
    ensures
        final(out)@ == old(out)@ + condition_text(c@),
        valid_utf8(old(out)@) ==> valid_utf8(final(out)@),
{
    c.var_ident.print(out);
    match &c.bit_selector {
        Some(b) => {
            b.print(out);
        },
        None => {},
    }
    c.question_token.print(out);
    proof {
        assert(out@ =~= old(out)@ + condition_text(c@));
    }
}

/// Put the source text of `c` behind `out`.
pub fn print_conditional(c: &ParamConditional, out: &mut Vec<u8>)
    ensures
        final(out)@ == old(out)@ + param_text(c@),
        valid_utf8(old(out)@) ==> valid_utf8(final(out)@),
{
    c.var_ident.print(out);
    c.colon_token.print(out);
    match &c.conditional_param_def {
        Some(d) => {
            print_condition(d, out);
        },
        None => {},
    }
    print_type(&c.ty, out);
    proof {
        assert(out@ =~= old(out)@ + param_text(c@));
    }
}

/// Put the source text of `r` behind `out`.
pub fn print_repeated(r: &ParamRepeated, out: &mut Vec<u8>)
    ensures
        final(out)@ == old(out)@ + param_text(r@),
        valid_utf8(old(out)@) ==> valid_utf8(final(out)@),
    decreases r,
{
    match &r.param_repeated_ident {
        Some(i) => {
            i.print(out);
        },
        None => {},
    }
    let ghost labelled = out@;
    match &r.multiplicity {
        Some(m) => {
            m.print(out);
        },
        None => {},
    }
    let ghost counted = out@;
    Bracket::print_open(out);
    print_params(&r.params, out);
    Bracket::print_close(out);
    proof {
        let label = match &r.param_repeated_ident {
            Some(i) => ascii_bytes(i.var_ident@) + Colon::literal(),
            None => Seq::<u8>::empty(),
        };
        let count = match &r.multiplicity {
            Some(m) => ascii_bytes(m.term@) + Asterisk::literal(),
            None => Seq::<u8>::empty(),
        };
        assert(labelled =~= old(out)@ + label);
        assert(counted =~= labelled + count);
        assert(out@ =~= old(out)@ + param_text(r@));
    }
}

/// Put the source text of `w` behind `out`.
pub fn print_with_paren(w: &ParamWithParen, out: &mut Vec<u8>)
    ensures
        final(out)@ == old(out)@ + param_text(w@),
        valid_utf8(old(out)@) ==> valid_utf8(final(out)@),
{
    Paren::print_open(out);
    print_fields(&w.var_idents, &w.colon_token, &w.ty, out);
    Paren::print_close(out);
    proof {
        assert(out@ =~= old(out)@ + param_text(w@));
    }
}

/// Put the source text of `p` behind `out`.
pub fn print_param(p: &Param, out: &mut Vec<u8>)
    ensures
        final(out)@ == old(out)@ + param_text(p@),
        valid_utf8(old(out)@) ==> valid_utf8(final(out)@),
    decreases p,
{
    match p {
        Param::Conditional(c) => print_conditional(c, out),
        Param::Repeated(r) => print_repeated(r, out),
        Param::WithParen(w) => print_with_paren(w, out),
        Param::TypeOnly(t) => print_type(&t.ty, out),
    }
}

/// Put the source texts of the fields `params` behind `out`, with a space
/// between each two.
pub fn print_params(params: &Vec<Param>, out: &mut Vec<u8>)
    ensures
        final(out)@ == old(out)@ + joined(param_texts(param_models(params@)), seq![' ' as u8]),
        valid_utf8(old(out)@) ==> valid_utf8(final(out)@),
    decreases params,
{
    let ghost all = param_texts(param_models(params@));
    let ghost glue = seq![' ' as u8];
    let mut i: usize = 0;
    while i < params.len()
        invariant
            i <= params.len(),
            all == param_texts(param_models(params@)),
            glue == seq![' ' as u8],
            out@ == old(out)@ + joined(all.take(i as int), glue),
            valid_utf8(old(out)@) ==> valid_utf8(out@),
        decreases params.len() - i,
    {
        if i > 0 {
            push_space(out);
        }
        print_param(&params[i], out);
        proof {
            let now = all.take(i as int + 1);
            assert(now.drop_last() =~= all.take(i as int));
            assert(now.last() == param_text(params@[i as int]@));
            if i == 0 {
                assert(joined(all.take(0), glue) =~= Seq::<u8>::empty());
            }
            assert(out@ =~= old(out)@ + joined(now, glue));
        }
        i += 1;
    }
    proof {
        assert(all.take(i as int) =~= all);
    }
}

/// Whether the identifiers of two lists say the same.
pub fn idents_eq(a: &Vec<Ident>, b: &Vec<Ident>) -> (r: bool)
    ensures
        r == (views(a@) == views(b@)),
{
    if a.len() != b.len() {
        proof {
            assert(views(a@).len() != views(b@).len());
        }
        return false;
    }
    let mut i: usize = 0;
    while i < a.len()
        invariant
            i <= a.len(),
            a.len() == b.len(),
            forall|k: int| 0 <= k < i ==> a@[k]@ == b@[k]@,
        decreases a.len() - i,
    {
        if !(a[i] == b[i]) {
            proof {
                assert(views(a@)[i as int] != views(b@)[i as int]);
            }
            return false;
        }
        i += 1;
    }
    proof {
        assert(views(a@) =~= views(b@));
    }
    true
}

/// Whether two optional fields say the same.
pub fn opt_param_eq(a: &OptParam, b: &OptParam) -> (r: bool)
    ensures
        r == (a@ == b@),
{
    idents_eq(&a.var_idents, &b.var_idents) && type_eq(&a.ty, &b.ty)
}

/// Whether two conditions say the same.
pub fn condition_eq(a: &ConditionalParamDef, b: &ConditionalParamDef) -> (r: bool)
    ensures
        r == (a@ == b@),
{
    if !(a.var_ident == b.var_ident) {
        return false;
    }
    match &a.bit_selector {
        Some(x) => match &b.bit_selector {
            Some(y) => x.bit_index == y.bit_index,
            None => false,
        },
        None => b.bit_selector.is_none(),
    }
}

/// Whether two required fields say the same.
pub fn param_eq(a: &Param, b: &Param) -> (r: bool)
    ensures
        r == (a@ == b@),
    decreases a,
{
    match a {
        Param::Conditional(x) => match b {
            Param::Conditional(y) => conditional_eq(x, y),
            _ => false,
        },
        Param::Repeated(x) => match b {
            Param::Repeated(y) => repeated_eq(x, y),
            _ => false,
        },
        Param::WithParen(x) => match b {
            Param::WithParen(y) => with_paren_eq(x, y),
            _ => false,
        },
        Param::TypeOnly(x) => match b {
            Param::TypeOnly(y) => type_eq(&x.ty, &y.ty),
            _ => false,
        },
    }
}

/// Whether two possibly conditional fields say the same.
pub fn conditional_eq(x: &ParamConditional, y: &ParamConditional) -> (r: bool)
    ensures
        r == (x@ == y@),
{
    if !(x.var_ident == y.var_ident) {
        return false;
    }
    let same = match &x.conditional_param_def {
        Some(c) => match &y.conditional_param_def {
            Some(d) => condition_eq(c, d),
            None => false,
        },
        None => y.conditional_param_def.is_none(),
    };
    same && type_eq(&x.ty, &y.ty)
}

/// Whether two repeated groups say the same.
pub fn repeated_eq(x: &ParamRepeated, y: &ParamRepeated) -> (r: bool)
    ensures
        r == (x@ == y@),
    decreases x,
{
    let same_label = match &x.param_repeated_ident {
        Some(c) => match &y.param_repeated_ident {
            Some(d) => c.var_ident == d.var_ident,
            None => false,
        },
        None => y.param_repeated_ident.is_none(),
    };
    let same_count = match &x.multiplicity {
        Some(c) => match &y.multiplicity {
            Some(d) => c.term == d.term,
            None => false,
        },
        None => y.multiplicity.is_none(),
    };
    same_label && same_count && params_eq(&x.params, &y.params)
}

/// Whether two fields in parentheses say the same.
pub fn with_paren_eq(x: &ParamWithParen, y: &ParamWithParen) -> (r: bool)
    ensures
        r == (x@ == y@),
{
    idents_eq(&x.var_idents, &y.var_idents) && type_eq(&x.ty, &y.ty)
}

/// Whether the fields of two lists say the same.
pub fn params_eq(a: &Vec<Param>, b: &Vec<Param>) -> (r: bool)
    ensures
        r == (param_models(a@) == param_models(b@)),
    decreases a,
{
    if a.len() != b.len() {
        proof {
            assert(param_models(a@).len() != param_models(b@).len());
        }
        return false;
    }
    let mut i: usize = 0;
    while i < a.len()
        invariant
            i <= a.len(),
            a.len() == b.len(),
            forall|k: int| 0 <= k < i ==> a@[k]@ == b@[k]@,
        decreases a.len() - i,
    {
        if !param_eq(&a[i], &b[i]) {
            proof {
                assert(param_models(a@)[i as int] != param_models(b@)[i as int]);
            }
            return false;
        }
        i += 1;
    }
    proof {
        assert(param_models(a@) =~= param_models(b@));
    }
    true
}

impl Print for OptParam {
    open spec fn text(v: FieldsModel) -> Seq<u8> {
        opt_param_text(v)
    }

    fn print(&self, out: &mut Vec<u8>) {
        print_opt_param(self, out)
    }
}

impl Print for Param {
    open spec fn text(v: ParamModel) -> Seq<u8> {
        param_text(v)
    }

    fn print(&self, out: &mut Vec<u8>) {
        print_param(self, out)
    }
}

impl PartialEq for OptParam {
    fn eq(&self, other: &OptParam) -> (r: bool) {
        opt_param_eq(self, other)
    }
}

impl Eq for OptParam {
}

impl vstd::std_specs::cmp::PartialEqSpecImpl for OptParam {
    open spec fn obeys_eq_spec() -> bool {
        true
    }

    open spec fn eq_spec(&self, other: &OptParam) -> bool {
        self@ == other@
    }
}

impl PartialEq for Param {
    fn eq(&self, other: &Param) -> (r: bool) {
        param_eq(self, other)
    }
}

impl Eq for Param {
}

impl vstd::std_specs::cmp::PartialEqSpecImpl for Param {
    open spec fn obeys_eq_spec() -> bool {
        true
    }

    open spec fn eq_spec(&self, other: &Param) -> bool {
        self@ == other@
    }
}

/// The span that encloses the inside of a group of fields.
pub open spec fn fields_extent(var_idents: Seq<Ident>, colon_token: Colon, ty: Type) -> (int, int) {
    joined_spans(joined_spans(joined_all(extents(var_idents)), colon_token.0@), type_extent(ty))
}

/// The span that encloses `c`.
pub open spec fn condition_extent(c: ConditionalParamDef) -> (int, int) {
    joined_spans(
        joined_spans(
            c.var_ident.extent(),
            match c.bit_selector {
                Some(b) => joined_spans(b.dot_token.0@, b.bit_index.extent()),
                None => (0int, 0int),
            },
        ),
        c.question_token.0@,
    )
}

/// The span that encloses `p`.
pub open spec fn param_extent(p: Param) -> (int, int)
    decreases p,
{
    match p {
        Param::Conditional(c) => joined_spans(
            joined_spans(
                joined_spans(c.var_ident.extent(), c.colon_token.0@),
                match c.conditional_param_def {
                    Some(d) => condition_extent(d),
                    None => (0int, 0int),
                },
            ),
            type_extent(c.ty),
        ),
        Param::Repeated(r) => joined_spans(
            joined_spans(
                joined_spans(
                    match r.param_repeated_ident {
                        Some(i) => joined_spans(i.var_ident.extent(), i.colon_token.0@),
                        None => (0int, 0int),
                    },
                    match r.multiplicity {
                        Some(m) => joined_spans(m.term.extent(), m.asterisk_token.0@),
                        None => (0int, 0int),
                    },
                ),
                r.bracket_token.0@,
            ),
            joined_all(param_extents(r.params@)),
        ),
        Param::WithParen(w) => joined_spans(
            w.paren_token.0@,
            fields_extent(w.var_idents@, w.colon_token, w.ty),
        ),
        Param::TypeOnly(t) => type_extent(t.ty),
    }
}

/// The extent of each of the fields `params`.
pub open spec fn param_extents(params: Seq<Param>) -> Seq<(int, int)>
    decreases params,
{
    Seq::new(
        params.len(),
        |i: int|
            if 0 <= i < params.len() {
                param_extent(params[i])
            } else {
                (0int, 0int)
            },
    )
}

/// Return the span that encloses the inside of a group of fields.
pub fn fields_span(var_idents: &Vec<Ident>, colon_token: &Colon, ty: &Type) -> (r: Span)
    ensures
        r@ == fields_extent(var_idents@, *colon_token, *ty),
{
    slice_span(var_idents.as_slice()).to(colon_token.span()).to(type_span(ty))
}

/// Return the span that encloses `c`.
pub fn condition_span(c: &ConditionalParamDef) -> (r: Span)
    ensures
        r@ == condition_extent(*c),
{
    let bit = match &c.bit_selector {
        Some(b) => b.span(),
        None => Span::zeroed(),
    };
    c.var_ident.span().to(bit).to(c.question_token.span())
}

/// Return the span that encloses `p`.
pub fn param_span(p: &Param) -> (r: Span)
    ensures
        r@ == param_extent(*p),
    decreases p,
{
    match p {
        Param::Conditional(c) => conditional_span(c),
        Param::Repeated(r) => repeated_span(r),
        Param::WithParen(w) => with_paren_span(w),
        Param::TypeOnly(t) => type_span(&t.ty),
    }
}

/// Return the span that encloses `c`.
pub fn conditional_span(c: &ParamConditional) -> (r: Span)
    ensures
        r@ == param_extent(Param::Conditional(*c)),
{
    let condition = match &c.conditional_param_def {
        Some(d) => condition_span(d),
        None => Span::zeroed(),
    };
    c.var_ident.span().to(c.colon_token.span()).to(condition).to(type_span(&c.ty))
}

/// Return the span that encloses `r`.
pub fn repeated_span(r: &ParamRepeated) -> (span: Span)
    ensures
        span@ == param_extent(Param::Repeated(*r)),
    decreases r,
{
    let label = match &r.param_repeated_ident {
        Some(i) => i.span(),
        None => Span::zeroed(),
    };
    let count = match &r.multiplicity {
        Some(m) => m.span(),
        None => Span::zeroed(),
    };
    label.to(count).to(r.bracket_token.span()).to(params_span(&r.params))
}

/// Return the span that encloses `w`.
pub fn with_paren_span(w: &ParamWithParen) -> (r: Span)
    ensures
        r@ == param_extent(Param::WithParen(*w)),
{
    w.paren_token.span().to(fields_span(&w.var_idents, &w.colon_token, &w.ty))
}

/// Return the span that encloses the fields `params`.
pub fn params_span(params: &Vec<Param>) -> (r: Span)
    ensures
        r@ == joined_all(param_extents(params@)),
    decreases params,
{
    let ghost all = param_extents(params@);
    let mut acc = Span::zeroed();
    let mut i: usize = 0;
    while i < params.len()
        invariant
            i <= params.len(),
            all == param_extents(params@),
            acc@ == joined_all(all.take(i as int)),
        decreases params.len() - i,
    {
        proof {
            assert(all.take(i as int + 1).drop_last() =~= all.take(i as int));
        }
        acc = acc.to(param_span(&params[i]));
        i += 1;
    }
    proof {
        assert(all.take(i as int) =~= all);
    }
    acc
}

impl Spanned for OptParam {
    open spec fn extent(&self) -> (int, int) {
        joined_spans(self.brace_token.0@, fields_extent(self.var_idents@, self.colon_token, self.ty))
    }

    fn span(&self) -> (r: Span) {
        self.brace_token.span().to(fields_span(&self.var_idents, &self.colon_token, &self.ty))
    }
}

impl Spanned for Param {
    open spec fn extent(&self) -> (int, int) {
        param_extent(*self)
    }

    fn span(&self) -> (r: Span) {
        param_span(self)
    }
}

/// A copy of `list`.
pub fn idents_clone(list: &Vec<Ident>) -> (r: Vec<Ident>)
    ensures
        views(r@) == views(list@),
{
    let mut out: Vec<Ident> = Vec::new();
    let mut i: usize = 0;
    while i < list.len()
        invariant
            i <= list.len(),
            out.len() == i,
            forall|k: int| 0 <= k < i ==> out@[k]@ == list@[k]@,
        decreases list.len() - i,
    {
        out.push(list[i].clone());
        i += 1;
    }
    proof {
        assert(views(out@) =~= views(list@));
    }
    out
}

/// A copy of `p`.
pub fn opt_param_clone(p: &OptParam) -> (r: OptParam)
    ensures
        r@ == p@,
{
    OptParam {
        brace_token: p.brace_token,
        var_idents: idents_clone(&p.var_idents),
        colon_token: p.colon_token,
        ty: crate::ty::type_clone(&p.ty),
    }
}

/// A copy of `p`.
pub fn param_clone(p: &Param) -> (r: Param)
    ensures
        r@ == p@,
    decreases p,
{
    match p {
        Param::Conditional(c) => Param::Conditional(conditional_clone(c)),
        Param::Repeated(r) => Param::Repeated(repeated_clone(r)),
        Param::WithParen(w) => Param::WithParen(with_paren_clone(w)),
        Param::TypeOnly(t) => Param::TypeOnly(ParamTypeOnly { ty: crate::ty::type_clone(&t.ty) }),
    }
}

/// A copy of `c`.
pub fn condition_clone(c: &ConditionalParamDef) -> (r: ConditionalParamDef)
    ensures
        r@ == c@,
{
    ConditionalParamDef {
        var_ident: c.var_ident.clone(),
        bit_selector: match &c.bit_selector {
            Some(b) => Some(BitSelector { dot_token: b.dot_token, bit_index: b.bit_index }),
            None => None,
        },
        question_token: c.question_token,
    }
}

/// A copy of `c`.
pub fn conditional_clone(c: &ParamConditional) -> (r: ParamConditional)
    ensures
        r@ == c@,
{
    ParamConditional {
        var_ident: c.var_ident.clone(),
        colon_token: c.colon_token,
        conditional_param_def: match &c.conditional_param_def {
            Some(d) => Some(condition_clone(d)),
            None => None,
        },
        ty: crate::ty::type_clone(&c.ty),
    }
}

/// A copy of `r`.
pub fn repeated_clone(r: &ParamRepeated) -> (copy: ParamRepeated)
    ensures
        copy@ == r@,
    decreases r,
{
    ParamRepeated {
        param_repeated_ident: match &r.param_repeated_ident {
            Some(i) => Some(
                ParamRepeatedIdent { var_ident: i.var_ident.clone(), colon_token: i.colon_token },
            ),
            None => None,
        },
        multiplicity: match &r.multiplicity {
            Some(m) => Some(
                Multiplicity { term: m.term.clone(), asterisk_token: m.asterisk_token },
            ),
            None => None,
        },
        bracket_token: r.bracket_token,
        params: params_clone(&r.params),
    }
}

/// A copy of `w`.
pub fn with_paren_clone(w: &ParamWithParen) -> (r: ParamWithParen)
    ensures
        r@ == w@,
{
    ParamWithParen {
        paren_token: w.paren_token,
        var_idents: idents_clone(&w.var_idents),
        colon_token: w.colon_token,
        ty: crate::ty::type_clone(&w.ty),
    }
}

/// A copy of `list`.
pub fn params_clone(list: &Vec<Param>) -> (r: Vec<Param>)
    ensures
        param_models(r@) == param_models(list@),
    decreases list,
{
    let mut out: Vec<Param> = Vec::new();
    let mut i: usize = 0;
    while i < list.len()
        invariant
            i <= list.len(),
            out.len() == i,
            forall|k: int| 0 <= k < i ==> out@[k]@ == list@[k]@,
        decreases list.len() - i,
    {
        out.push(param_clone(&list[i]));
        i += 1;
    }
    proof {
        assert(param_models(out@) =~= param_models(list@));
    }
    out
}

impl Clone for OptParam {
    fn clone(&self) -> (r: OptParam)
        ensures
            r@ == self@,
    {
        opt_param_clone(self)
    }
}

impl Clone for Param {
    fn clone(&self) -> (r: Param)
        ensures
            r@ == self@,
    {
        param_clone(self)
    }
}

impl Print for ParamConditional {
    open spec fn text(v: ParamModel) -> Seq<u8> {
        param_text(v)
    }

    fn print(&self, out: &mut Vec<u8>) {
        print_conditional(self, out)
    }
}

impl Print for ConditionalParamDef {
    open spec fn text(v: ConditionModel) -> Seq<u8> {
        condition_text(v)
    }

    fn print(&self, out: &mut Vec<u8>) {
        print_condition(self, out)
    }
}

impl Print for BitSelector {
    open spec fn text(v: u8) -> Seq<u8> {
        Dot::literal() + crate::chars::decimal_digits(v as nat)
    }

    fn print(&self, out: &mut Vec<u8>) {
        self.dot_token.print(out);
        self.bit_index.print(out);
        proof {
            assert(out@ =~= old(out)@ + Self::text(self@));
        }
    }
}

impl Print for ParamRepeated {
    open spec fn text(v: ParamModel) -> Seq<u8> {
        param_text(v)
    }

    fn print(&self, out: &mut Vec<u8>) {
        print_repeated(self, out)
    }
}

impl Print for ParamRepeatedIdent {
    open spec fn text(v: Seq<char>) -> Seq<u8> {
        ascii_bytes(v) + Colon::literal()
    }

    fn print(&self, out: &mut Vec<u8>) {
        self.var_ident.print(out);
        self.colon_token.print(out);
        proof {
            assert(out@ =~= old(out)@ + Self::text(self@));
        }
    }
}

impl Print for Multiplicity {
    open spec fn text(v: Seq<char>) -> Seq<u8> {
        ascii_bytes(v) + Asterisk::literal()
    }

    fn print(&self, out: &mut Vec<u8>) {
        self.term.print(out);
        self.asterisk_token.print(out);
        proof {
            assert(out@ =~= old(out)@ + Self::text(self@));
        }
    }
}

impl Print for ParamWithParen {
    open spec fn text(v: ParamModel) -> Seq<u8> {
        param_text(v)
    }

    fn print(&self, out: &mut Vec<u8>) {
        print_with_paren(self, out)
    }
}

impl Print for ParamTypeOnly {
    open spec fn text(v: TypeModel) -> Seq<u8> {
        type_text(v)
    }

    fn print(&self, out: &mut Vec<u8>) {
        print_type(&self.ty, out)
    }
}

impl PartialEq for ParamConditional {
    fn eq(&self, other: &ParamConditional) -> (r: bool) {
        conditional_eq(self, other)
    }
}

impl Eq for ParamConditional {
}

impl vstd::std_specs::cmp::PartialEqSpecImpl for ParamConditional {
    open spec fn obeys_eq_spec() -> bool {
        true
    }

    open spec fn eq_spec(&self, other: &ParamConditional) -> bool {
        self@ == other@
    }
}

impl PartialEq for ConditionalParamDef {
    fn eq(&self, other: &ConditionalParamDef) -> (r: bool) {
        condition_eq(self, other)
    }
}

impl Eq for ConditionalParamDef {
}

impl vstd::std_specs::cmp::PartialEqSpecImpl for ConditionalParamDef {
    open spec fn obeys_eq_spec() -> bool {
        true
    }

    open spec fn eq_spec(&self, other: &ConditionalParamDef) -> bool {
        self@ == other@
    }
}

impl PartialEq for BitSelector {
    fn eq(&self, other: &BitSelector) -> (r: bool) {
        self.bit_index == other.bit_index
    }
}

impl Eq for BitSelector {
}

impl vstd::std_specs::cmp::PartialEqSpecImpl for BitSelector {
    open spec fn obeys_eq_spec() -> bool {
        true
    }

    open spec fn eq_spec(&self, other: &BitSelector) -> bool {
        self@ == other@
    }
}

impl PartialEq for ParamRepeated {
    fn eq(&self, other: &ParamRepeated) -> (r: bool) {
        repeated_eq(self, other)
    }
}

impl Eq for ParamRepeated {
}

impl vstd::std_specs::cmp::PartialEqSpecImpl for ParamRepeated {
    open spec fn obeys_eq_spec() -> bool {
        true
    }

    open spec fn eq_spec(&self, other: &ParamRepeated) -> bool {
        self@ == other@
    }
}

impl PartialEq for ParamRepeatedIdent {
    fn eq(&self, other: &ParamRepeatedIdent) -> (r: bool) {
        self.var_ident == other.var_ident
    }
}

impl Eq for ParamRepeatedIdent {
}

impl vstd::std_specs::cmp::PartialEqSpecImpl for ParamRepeatedIdent {
    open spec fn obeys_eq_spec() -> bool {
        true
    }

    open spec fn eq_spec(&self, other: &ParamRepeatedIdent) -> bool {
        self@ == other@
    }
}

impl PartialEq for Multiplicity {
    fn eq(&self, other: &Multiplicity) -> (r: bool) {
        self.term == other.term
    }
}

impl Eq for Multiplicity {
}

impl vstd::std_specs::cmp::PartialEqSpecImpl for Multiplicity {
    open spec fn obeys_eq_spec() -> bool {
        true
    }

    open spec fn eq_spec(&self, other: &Multiplicity) -> bool {
        self@ == other@
    }
}

impl PartialEq for ParamWithParen {
    fn eq(&self, other: &ParamWithParen) -> (r: bool) {
        with_paren_eq(self, other)
    }
}

impl Eq for ParamWithParen {
}

impl vstd::std_specs::cmp::PartialEqSpecImpl for ParamWithParen {
    open spec fn obeys_eq_spec() -> bool {
        true
    }

    open spec fn eq_spec(&self, other: &ParamWithParen) -> bool {
        self@ == other@
    }
}

impl PartialEq for ParamTypeOnly {
    fn eq(&self, other: &ParamTypeOnly) -> (r: bool) {
        type_eq(&self.ty, &other.ty)
    }
}

impl Eq for ParamTypeOnly {
}

impl vstd::std_specs::cmp::PartialEqSpecImpl for ParamTypeOnly {
    open spec fn obeys_eq_spec() -> bool {
        true
    }

    open spec fn eq_spec(&self, other: &ParamTypeOnly) -> bool {
        self@ == other@
    }
}

impl Spanned for ParamConditional {
    open spec fn extent(&self) -> (int, int) {
        param_extent(Param::Conditional(*self))
    }

    fn span(&self) -> (r: Span) {
        conditional_span(self)
    }
}

impl Spanned for ConditionalParamDef {
    open spec fn extent(&self) -> (int, int) {
        condition_extent(*self)
    }

    fn span(&self) -> (r: Span) {
        condition_span(self)
    }
}

impl Spanned for BitSelector {
    open spec fn extent(&self) -> (int, int) {
        joined_spans(self.dot_token.0@, self.bit_index.extent())
    }

    fn span(&self) -> (r: Span) {
        proof {
            assert(self.dot_token.extent() == self.dot_token.0@);
            assert(self.extent() == joined_spans(self.dot_token.0@, self.bit_index.extent()));
        }
        self.dot_token.span().to(self.bit_index.span())
    }
}

impl Spanned for ParamRepeated {
    open spec fn extent(&self) -> (int, int) {
        param_extent(Param::Repeated(*self))
    }

    fn span(&self) -> (r: Span) {
        repeated_span(self)
    }
}

impl Spanned for ParamRepeatedIdent {
    open spec fn extent(&self) -> (int, int) {
        joined_spans(self.var_ident.extent(), self.colon_token.0@)
    }

    fn span(&self) -> (r: Span) {
        proof {
            assert(self.colon_token.extent() == self.colon_token.0@);
            assert(self.extent() == joined_spans(
                self.var_ident.extent(),
                self.colon_token.0@,
            ));
        }
        self.var_ident.span().to(self.colon_token.span())
    }
}

impl Spanned for Multiplicity {
    open spec fn extent(&self) -> (int, int) {
        joined_spans(self.term.extent(), self.asterisk_token.0@)
    }

    fn span(&self) -> (r: Span) {
        proof {
            assert(self.asterisk_token.extent() == self.asterisk_token.0@);
            assert(self.extent() == joined_spans(self.term.extent(), self.asterisk_token.0@));
        }
        self.term.span().to(self.asterisk_token.span())
    }
}

impl Spanned for ParamWithParen {
    open spec fn extent(&self) -> (int, int) {
        param_extent(Param::WithParen(*self))
    }

    fn span(&self) -> (r: Span) {
        with_paren_span(self)
    }
}

impl Spanned for ParamTypeOnly {
    open spec fn extent(&self) -> (int, int) {
        type_extent(self.ty)
    }

    fn span(&self) -> (r: Span) {
        type_span(&self.ty)
    }
}

impl Clone for ParamConditional {
    fn clone(&self) -> (r: ParamConditional)
        ensures
            r@ == self@,
    {
        conditional_clone(self)
    }
}

impl Clone for ConditionalParamDef {
    fn clone(&self) -> (r: ConditionalParamDef)
        ensures
            r@ == self@,
    {
        condition_clone(self)
    }
}

impl Clone for BitSelector {
    fn clone(&self) -> (r: BitSelector)
        ensures
            r@ == self@,
    {
        BitSelector { dot_token: self.dot_token, bit_index: self.bit_index }
    }
}

impl Clone for ParamRepeated {
    fn clone(&self) -> (r: ParamRepeated)
        ensures
            r@ == self@,
    {
        repeated_clone(self)
    }
}

impl Clone for ParamRepeatedIdent {
    fn clone(&self) -> (r: ParamRepeatedIdent)
        ensures
            r@ == self@,
    {
        ParamRepeatedIdent { var_ident: self.var_ident.clone(), colon_token: self.colon_token }
    }
}

impl Clone for Multiplicity {
    fn clone(&self) -> (r: Multiplicity)
        ensures
            r@ == self@,
    {
        Multiplicity { term: self.term.clone(), asterisk_token: self.asterisk_token }
    }
}

impl Clone for ParamWithParen {
    fn clone(&self) -> (r: ParamWithParen)
        ensures
            r@ == self@,
    {
        with_paren_clone(self)
    }
}

impl Clone for ParamTypeOnly {
    fn clone(&self) -> (r: ParamTypeOnly)
        ensures
            r@ == self@,
    {
        ParamTypeOnly { ty: crate::ty::type_clone(&self.ty) }
    }
}

} // verus!
