//! Top-level entities in TL schema that occupy whole lines.

use vstd::prelude::*;
use vstd::std_specs::cmp::PartialEqSpec;
use vstd::utf8::valid_utf8;
use crate::chars::{decimal_digits, lemma_run, number, number_of, push_decimal, run, spaces, CharClass};
use crate::comment::{Comment, CommentModel};
use crate::cursor::Cursor;
use crate::error::{ParseErrorKind, ParseResult};
use crate::id::Id;
use crate::parsed::{fail, many0, spaced_rule, tag, Parsed};
use crate::param::{
    opt_param_eq, opt_param_text, param_models, param_texts, params_eq, print_params, FieldsModel,
    OptParam, Param, ParamModel,
};
use crate::path::{
    parameterized_path_eq, parameterized_path_grammar, parameterized_path_text, parse_parameterized_path,
    parse_path, path_eq, path_grammar, path_text, print_parameterized_path, print_path, push_space,
    ParameterizedPath, ParameterizedPathModel, Path, Separated,
};
use crate::print::{joined, print_slice_with_separator, texts, Print};
use crate::span::{joined as joined_spans, Span};
use crate::spanned::Spanned;
use crate::synom::{agrees, lemma_follows, parse_many0, rule, views, Synom};
use crate::token::{lemma_literal, parse_literal, push_str, Equals, Layer, Semicolon, SlashSlash};

verus! {

/// Top-level entities in TL schema that occupy whole lines.
#[derive(Debug, Hash)]
pub enum Item {
    Combinator(ItemCombinator),
    Delimiter(ItemDelimiter),
    Layer(ItemLayer),
    Comment(ItemComment),
}

/// A TL combinator item: `inputMediaPhoto#8f2ab2ec id:InputPhoto = InputMedia;`.
#[derive(Debug, Hash)]
pub struct ItemCombinator {
    pub name: Path,
    pub combinator_id: Option<CombinatorId>,
    pub opt_params: Vec<OptParam>,
    pub params: Vec<Param>,
    pub equals_token: Equals,
    pub result_type: ParameterizedPath,
    pub semicolon_token: Semicolon,
}

/// A TL combinator id: `#1cb5c415`.
#[derive(Clone, Copy, Debug, Hash)]
pub struct CombinatorId {
    pub hash_token: crate::token::Hash,
    pub id: Id,
}

/// A delimiter item.
#[derive(Clone, Copy, Debug, Hash)]
pub struct ItemDelimiter {
    pub delimiter: Delimiter,
}

/// Divides sections of declarations of TL combinators.
#[derive(Clone, Copy, Debug, Hash)]
pub enum Delimiter {
    Types(DelimiterTypes),
    Functions(DelimiterFunctions),
}

/// A `---types---` delimiter.
#[derive(Clone, Copy, Debug, Hash)]
pub struct DelimiterTypes {
    pub span: Span,
}

/// A `---functions---` delimiter.
#[derive(Clone, Copy, Debug, Hash)]
pub struct DelimiterFunctions {
    pub span: Span,
}

/// A layer item: `// LAYER 78`.
#[derive(Clone, Copy, Debug, Hash)]
pub struct ItemLayer {
    pub slash_slash_token: SlashSlash,
    pub layer_token: Layer,
    pub layer_span: Span,
    pub layer: u32,
}

/// A comment item.
#[derive(Clone, Debug, Hash)]
pub struct ItemComment {
    pub comment: Comment,
}

/// What a combinator says.
pub ghost struct CombinatorModel {
    pub name: Separated<Seq<char>>,
    pub id: Option<u32>,
    pub opt_params: Seq<FieldsModel>,
    pub params: Seq<ParamModel>,
    pub result_type: ParameterizedPathModel,
}

/// What a delimiter says: which section begins.
pub ghost enum DelimiterModel {
    Types,
    Functions,
}

/// What an item says.
pub ghost enum ItemModel {
    Combinator(CombinatorModel),
    Delimiter(DelimiterModel),
    Layer(u32),
    Comment(CommentModel),
}

impl View for CombinatorId {
    type V = u32;

    open spec fn view(&self) -> u32 {
        self.id@
    }
}

impl View for ItemCombinator {
    type V = CombinatorModel;

    open spec fn view(&self) -> CombinatorModel {
        CombinatorModel {
            name: self.name@,
            id: match self.combinator_id {
                Some(i) => Some(i@),
                None => None,
            },
            opt_params: views(self.opt_params@),
            params: param_models(self.params@),
            result_type: self.result_type@,
        }
    }
}

impl View for DelimiterTypes {
    type V = ();

    open spec fn view(&self) -> () {
        ()
    }
}

impl View for DelimiterFunctions {
    type V = ();

    open spec fn view(&self) -> () {
        ()
    }
}

impl View for Delimiter {
    type V = DelimiterModel;

    open spec fn view(&self) -> DelimiterModel {
        match self {
            Delimiter::Types(_) => DelimiterModel::Types,
            Delimiter::Functions(_) => DelimiterModel::Functions,
        }
    }
}

impl View for ItemDelimiter {
    type V = DelimiterModel;

    open spec fn view(&self) -> DelimiterModel {
        self.delimiter@
    }
}

impl View for ItemLayer {
    type V = u32;

    open spec fn view(&self) -> u32 {
        self.layer
    }
}

impl View for ItemComment {
    type V = CommentModel;

    open spec fn view(&self) -> CommentModel {
        self.comment@
    }
}

impl View for Item {
    type V = ItemModel;

    open spec fn view(&self) -> ItemModel {
        match self {
            Item::Combinator(c) => ItemModel::Combinator(c@),
            Item::Delimiter(d) => ItemModel::Delimiter(d@),
            Item::Layer(l) => ItemModel::Layer(l@),
            Item::Comment(c) => ItemModel::Comment(c@),
        }
    }
}

/// The text of the delimiter that begins the section of types.
pub open spec fn types_literal() -> Seq<u8> {
    seq![
        '-' as u8,
        '-' as u8,
        '-' as u8,
        't' as u8,
        'y' as u8,
        'p' as u8,
        'e' as u8,
        's' as u8,
        '-' as u8,
        '-' as u8,
        '-' as u8,
    ]
}

/// The text of the delimiter that begins the section of functions.
pub open spec fn functions_literal() -> Seq<u8> {
    seq![
        '-' as u8,
        '-' as u8,
        '-' as u8,
        'f' as u8,
        'u' as u8,
        'n' as u8,
        'c' as u8,
        't' as u8,
        'i' as u8,
        'o' as u8,
        'n' as u8,
        's' as u8,
        '-' as u8,
        '-' as u8,
        '-' as u8,
    ]
}

/// A combinator id is `#` and an id right behind it.
#[verifier::opaque]
pub open spec fn combinator_id_grammar(s: Seq<u8>) -> Parsed<u32> {
    match tag(s, crate::token::Hash::literal()) {
        Parsed::Fail { kind, begin, end } => Parsed::Fail { kind, begin, end },
        Parsed::Done { len, .. } => Id::grammar(s.skip(len)).shift(len),
    }
}

/// A combinator is, with spaces and tabs allowed between all of them: the
/// name, a path; the id, if there is one, right behind the name; any number
/// of optional fields; any number of required fields; `=`; the result type,
/// a parameterized path; `;`.
#[verifier::opaque]
pub open spec fn combinator_grammar(s: Seq<u8>) -> Parsed<CombinatorModel> {
    let pos0 = spaces(s);
    match path_grammar(s.skip(pos0)).shift(pos0) {
        Parsed::Fail { kind, begin, end } => Parsed::Fail { kind, begin, end },
        Parsed::Done { value: name, len: pos1 } => {
            let id = combinator_id_grammar(s.skip(pos1)).optional().shift(pos1);
            let pos2 = id->len + spaces(s.skip(id->len));
            let opt_params = many0(spaced_rule(rule::<OptParam>(), true), s.skip(pos2));
            let pos3 = pos2 + opt_params.1;
            let pos4 = pos3 + spaces(s.skip(pos3));
            let params = many0(spaced_rule(rule::<Param>(), true), s.skip(pos4));
            let pos5 = pos4 + params.1;
            let pos6 = pos5 + spaces(s.skip(pos5));
            match tag(s.skip(pos6), Equals::literal()).shift(pos6) {
                Parsed::Fail { kind, begin, end } => Parsed::Fail { kind, begin, end },
                Parsed::Done { len: pos7, .. } => {
                    let pos8 = pos7 + spaces(s.skip(pos7));
                    match parameterized_path_grammar(s.skip(pos8)).shift(pos8) {
                        Parsed::Fail { kind, begin, end } => Parsed::Fail { kind, begin, end },
                        Parsed::Done { value: result_type, len: pos9 } => {
                            let pos10 = pos9 + spaces(s.skip(pos9));
                            match tag(s.skip(pos10), Semicolon::literal()).shift(pos10) {
                                Parsed::Fail { kind, begin, end } => Parsed::Fail {
                                    kind,
                                    begin,
                                    end,
                                },
                                Parsed::Done { len: pos11, .. } => Parsed::Done {
                                    value: CombinatorModel {
                                        name,
                                        id: id->value,
                                        opt_params: opt_params.0,
                                        params: params.0,
                                        result_type,
                                    },
                                    len: pos11 + spaces(s.skip(pos11)),
                                },
                            }
                        },
                    }
                },
            }
        },
    }
}

/// A delimiter is `---types---` or `---functions---`.
#[verifier::opaque]
pub open spec fn delimiter_grammar(s: Seq<u8>) -> Parsed<DelimiterModel> {
    match tag(s, types_literal()) {
        Parsed::Done { len, .. } => Parsed::Done { value: DelimiterModel::Types, len },
        Parsed::Fail { .. } => match tag(s, functions_literal()) {
            Parsed::Done { len, .. } => Parsed::Done { value: DelimiterModel::Functions, len },
            Parsed::Fail { kind, begin, end } => Parsed::Fail { kind, begin, end },
        },
    }
}

/// A decimal number that fits 32 bits: a run of decimal digits.
#[verifier::opaque]
pub open spec fn layer_number_grammar(s: Seq<u8>) -> Parsed<u32> {
    let n = run(s, CharClass::DecimalDigit);
    if n == 0 {
        fail(ParseErrorKind::Mismatch, 0, s.len() as int)
    } else if number(s.take(n), 10) > u32::MAX {
        fail(ParseErrorKind::InvalidValue, 0, n)
    } else {
        Parsed::Done { value: number(s.take(n), 10) as u32, len: n }
    }
}

/// A layer is, with spaces and tabs allowed before, between and after them:
/// `//`, `LAYER`, a decimal number.
#[verifier::opaque]
pub open spec fn layer_grammar(s: Seq<u8>) -> Parsed<u32> {
    let pos0 = spaces(s);
    match tag(s.skip(pos0), SlashSlash::literal()).shift(pos0) {
        Parsed::Fail { kind, begin, end } => Parsed::Fail { kind, begin, end },
        Parsed::Done { len: pos1, .. } => {
            let pos2 = pos1 + spaces(s.skip(pos1));
            match tag(s.skip(pos2), Layer::literal()).shift(pos2) {
                Parsed::Fail { kind, begin, end } => Parsed::Fail { kind, begin, end },
                Parsed::Done { len: pos3, .. } => {
                    let pos4 = pos3 + spaces(s.skip(pos3));
                    match layer_number_grammar(s.skip(pos4)).shift(pos4) {
                        Parsed::Fail { kind, begin, end } => Parsed::Fail { kind, begin, end },
                        Parsed::Done { value, len: pos5 } => Parsed::Done {
                            value,
                            len: pos5 + spaces(s.skip(pos5)),
                        },
                    }
                },
            }
        },
    }
}

/// An item is, in this order of preference: a combinator; a delimiter; a
/// layer; a comment. Where none matches, the item fails as the comment
/// does.
#[verifier::opaque]
pub open spec fn item_grammar(s: Seq<u8>) -> Parsed<ItemModel> {
    match combinator_grammar(s) {
        Parsed::Done { value, len } => Parsed::Done { value: ItemModel::Combinator(value), len },
        Parsed::Fail { .. } => match delimiter_grammar(s) {
            Parsed::Done { value, len } => Parsed::Done {
                value: ItemModel::Delimiter(value),
                len,
            },
            Parsed::Fail { .. } => match layer_grammar(s) {
                Parsed::Done { value, len } => Parsed::Done { value: ItemModel::Layer(value), len },
                Parsed::Fail { .. } => match Comment::grammar(s) {
                    Parsed::Done { value, len } => Parsed::Done {
                        value: ItemModel::Comment(value),
                        len,
                    },
                    Parsed::Fail { kind, begin, end } => Parsed::Fail { kind, begin, end },
                },
            },
        },
    }
}

/// Parse a combinator id.
pub fn parse_combinator_id<'a>(input: Cursor<'a>) -> (r: ParseResult<(Cursor<'a>, CombinatorId)>)
    ensures
        agrees(input, r, combinator_id_grammar(input.bytes())),
        r matches Ok((_, node)) ==> node.hash_token.0@ == (input.position(), input.position() + 1)
            && node.id.extent() == (
            input.position() + 1,
            input.position() + combinator_id_grammar(input.bytes())->len,
        ),
{
    reveal(combinator_id_grammar);
    let (at0, hash_token) = match crate::token::Hash::parse_cursor(input) {
        Ok(pair) => pair,
        Err(e) => { return Err(e); },
    };
    match Id::parse_cursor(at0) {
        Ok((at1, id)) => {
            proof {
                let pos0 = crate::token::Hash::literal().len() as int;
                lemma_follows(input, at0, at1, pos0, Id::grammar(input.bytes().skip(pos0))->len);
            }
            Ok((at1, CombinatorId { hash_token, id }))
        },
        Err(e) => Err(e),
    }
}

/// The repetitions of optional fields and of required fields do not fail:
/// every field takes input.
pub proof fn lemma_fields_progress(s: Seq<u8>)
    ensures
        crate::parsed::repeated(spaced_rule(rule::<OptParam>(), true), s) == (Parsed::Done {
            value: many0(spaced_rule(rule::<OptParam>(), true), s).0,
            len: many0(spaced_rule(rule::<OptParam>(), true), s).1,
        }),
        crate::parsed::repeated(spaced_rule(rule::<Param>(), true), s) == (Parsed::Done {
            value: many0(spaced_rule(rule::<Param>(), true), s).0,
            len: many0(spaced_rule(rule::<Param>(), true), s).1,
        }),
{
    assert forall|k: int| 0 <= k <= s.len() implies (#[trigger] rule::<OptParam>()(
        s.skip(k),
    ) matches Parsed::Done { len, .. } ==> 0 < len) by {
        crate::canonical::param::lemma_opt_param_read(s.skip(k));
    }
    crate::parsed::lemma_repeated_spaced(rule::<OptParam>(), s, true);
    assert forall|k: int| 0 <= k <= s.len() implies (#[trigger] rule::<Param>()(
        s.skip(k),
    ) matches Parsed::Done { len, .. } ==> 0 < len) by {
        crate::canonical::param::lemma_param_read(s.skip(k));
    }
    crate::parsed::lemma_repeated_spaced(rule::<Param>(), s, true);
}

/// Parse a combinator.
#[verifier::rlimit(60)]
pub fn parse_combinator<'a>(input: Cursor<'a>) -> (r: ParseResult<(Cursor<'a>, ItemCombinator)>)
    ensures
        agrees(input, r, combinator_grammar(input.bytes())),
{
    reveal(combinator_grammar);
    let ghost s = input.bytes();
    let ghost pos0 = spaces(s);
    let at0 = input.skip_spaces();
    let (at1, name) = match parse_path(at0) {
        Ok(pair) => pair,
        Err(e) => { return Err(e); },
    };
    let ghost pos1 = pos0 + path_grammar(s.skip(pos0))->len;
    proof {
        lemma_follows(input, at0, at1, pos0, path_grammar(s.skip(pos0))->len);
    }
    let (at1b, combinator_id) = match parse_combinator_id(at1) {
        Ok((rest, i)) => {
            proof {
                lemma_follows(input, at1, rest, pos1, combinator_id_grammar(s.skip(pos1))->len);
            }
            (rest, Some(i))
        },
        Err(_) => (at1, None),
    };
    let ghost id = combinator_id_grammar(s.skip(pos1)).optional().shift(pos1);
    let ghost pos2 = id->len + spaces(s.skip(id->len));
    let at2 = at1b.skip_spaces();
    proof {
        lemma_follows(input, at1b, at2, id->len, spaces(s.skip(id->len)));
    }
    let parse_opt = |c: Cursor<'a>| -> (o: ParseResult<(Cursor<'a>, OptParam)>)
        ensures
            agrees(c, o, OptParam::grammar(c.bytes())),
        { OptParam::parse_cursor(c) };
    proof {
        lemma_fields_progress(at2.bytes());
    }
    let (at3, opt_params) = match parse_many0(at2, &parse_opt, Ghost(rule::<OptParam>()), true) {
        Ok(pair) => pair,
        Err(e) => { return Err(e); },
    };
    let ghost opts = many0(spaced_rule(rule::<OptParam>(), true), s.skip(pos2));
    let ghost pos3 = pos2 + opts.1;
    let ghost pos4 = pos3 + spaces(s.skip(pos3));
    proof {
        lemma_follows(input, at2, at3, pos2, opts.1);
    }
    let at4 = at3.skip_spaces();
    proof {
        lemma_follows(input, at3, at4, pos3, spaces(s.skip(pos3)));
    }
    let parse_one = |c: Cursor<'a>| -> (o: ParseResult<(Cursor<'a>, Param)>)
        ensures
            agrees(c, o, Param::grammar(c.bytes())),
        { Param::parse_cursor(c) };
    proof {
        lemma_fields_progress(at4.bytes());
    }
    let (at5, params) = match parse_many0(at4, &parse_one, Ghost(rule::<Param>()), true) {
        Ok(pair) => pair,
        Err(e) => { return Err(e); },
    };
    let ghost found = many0(spaced_rule(rule::<Param>(), true), s.skip(pos4));
    let ghost pos5 = pos4 + found.1;
    let ghost pos6 = pos5 + spaces(s.skip(pos5));
    proof {
        lemma_follows(input, at4, at5, pos4, found.1);
        crate::param::lemma_param_models(params@);
    }
    let at6 = at5.skip_spaces();
    proof {
        lemma_follows(input, at5, at6, pos5, spaces(s.skip(pos5)));
    }
    let (at7, equals_token) = match Equals::parse_cursor(at6) {
        Ok(pair) => pair,
        Err(e) => { return Err(e); },
    };
    let ghost pos7 = pos6 + Equals::literal().len();
    let ghost pos8 = pos7 + spaces(s.skip(pos7));
    proof {
        lemma_follows(input, at6, at7, pos6, Equals::literal().len() as int);
    }
    let at8 = at7.skip_spaces();
    proof {
        lemma_follows(input, at7, at8, pos7, spaces(s.skip(pos7)));
    }
    let (at9, result_type) = match parse_parameterized_path(at8) {
        Ok(pair) => pair,
        Err(e) => { return Err(e); },
    };
    let ghost pos9 = pos8 + parameterized_path_grammar(s.skip(pos8))->len;
    let ghost pos10 = pos9 + spaces(s.skip(pos9));
    proof {
        lemma_follows(input, at8, at9, pos8, parameterized_path_grammar(s.skip(pos8))->len);
    }
    let at10 = at9.skip_spaces();
    proof {
        lemma_follows(input, at9, at10, pos9, spaces(s.skip(pos9)));
    }
    let (at11, semicolon_token) = match Semicolon::parse_cursor(at10) {
        Ok(pair) => pair,
        Err(e) => { return Err(e); },
    };
    let ghost pos11 = pos10 + Semicolon::literal().len();
    proof {
        lemma_follows(input, at10, at11, pos10, Semicolon::literal().len() as int);
    }
    let at12 = at11.skip_spaces();
    proof {
        lemma_follows(input, at11, at12, pos11, spaces(s.skip(pos11)));
    }
    Ok(
        (
            at12,
            ItemCombinator {
                name,
                combinator_id,
                opt_params,
                params,
                equals_token,
                result_type,
                semicolon_token,
            },
        ),
    )
}

/// Parse a delimiter.
pub fn parse_delimiter<'a>(input: Cursor<'a>) -> (r: ParseResult<(Cursor<'a>, Delimiter)>)
    ensures
        agrees(input, r, delimiter_grammar(input.bytes())),
{
    reveal(delimiter_grammar);
    proof {
        reveal_strlit("---types---");
        lemma_literal("---types---", types_literal());
        reveal_strlit("---functions---");
        lemma_literal("---functions---", functions_literal());
    }
    match parse_literal(input, "---types---") {
        Ok((rest, span)) => Ok((rest, Delimiter::Types(DelimiterTypes { span }))),
        Err(_) => match parse_literal(input, "---functions---") {
            Ok((rest, span)) => Ok((rest, Delimiter::Functions(DelimiterFunctions { span }))),
            Err(e) => Err(e),
        },
    }
}

/// Parse a layer.
pub fn parse_layer<'a>(input: Cursor<'a>) -> (r: ParseResult<(Cursor<'a>, ItemLayer)>)
    ensures
        agrees(input, r, layer_grammar(input.bytes())),
{
    reveal(layer_grammar);
    reveal(layer_number_grammar);
    let ghost s = input.bytes();
    let ghost pos0 = spaces(s);
    let at0 = input.skip_spaces();
    let (at1, slash_slash_token) = match SlashSlash::parse_cursor(at0) {
        Ok(pair) => pair,
        Err(e) => { return Err(e); },
    };
    let ghost pos1 = pos0 + SlashSlash::literal().len();
    let ghost pos2 = pos1 + spaces(s.skip(pos1));
    proof {
        lemma_follows(input, at0, at1, pos0, SlashSlash::literal().len() as int);
    }
    let at2 = at1.skip_spaces();
    proof {
        lemma_follows(input, at1, at2, pos1, spaces(s.skip(pos1)));
    }
    let (at3, layer_token) = match Layer::parse_cursor(at2) {
        Ok(pair) => pair,
        Err(e) => { return Err(e); },
    };
    let ghost pos3 = pos2 + Layer::literal().len();
    let ghost pos4 = pos3 + spaces(s.skip(pos3));
    proof {
        lemma_follows(input, at2, at3, pos2, Layer::literal().len() as int);
    }
    let at4 = at3.skip_spaces();
    proof {
        lemma_follows(input, at3, at4, pos3, spaces(s.skip(pos3)));
    }
    let (at5, digits) = at4.take_while(CharClass::DecimalDigit);
    proof {
        lemma_run(s.skip(pos4), CharClass::DecimalDigit);
    }
    if digits.len() == 0 {
        return at4.error(ParseErrorKind::Mismatch);
    }
    let layer = match number_of(digits.as_bytes(), 10) {
        Some(value) => value,
        None => { return digits.error(ParseErrorKind::InvalidValue); },
    };
    let ghost pos5 = pos4 + run(s.skip(pos4), CharClass::DecimalDigit);
    proof {
        lemma_follows(input, at4, at5, pos4, run(s.skip(pos4), CharClass::DecimalDigit));
    }
    let at6 = at5.skip_spaces();
    proof {
        lemma_follows(input, at5, at6, pos5, spaces(s.skip(pos5)));
    }
    Ok((at6, ItemLayer { slash_slash_token, layer_token, layer_span: digits.span(), layer }))
}

/// Parse an item.
pub fn parse_item<'a>(input: Cursor<'a>) -> (r: ParseResult<(Cursor<'a>, Item)>)
    ensures
        agrees(input, r, item_grammar(input.bytes())),
{
    reveal(item_grammar);
    match parse_combinator(input) {
        Ok((rest, c)) => { return Ok((rest, Item::Combinator(c))); },
        Err(_) => {},
    }
    match parse_delimiter(input) {
        Ok((rest, delimiter)) => {
            return Ok((rest, Item::Delimiter(ItemDelimiter { delimiter })));
        },
        Err(_) => {},
    }
    match parse_layer(input) {
        Ok((rest, l)) => { return Ok((rest, Item::Layer(l))); },
        Err(_) => {},
    }
    match Comment::parse_cursor(input) {
        Ok((rest, comment)) => Ok((rest, Item::Comment(ItemComment { comment }))),
        Err(e) => Err(e),
    }
}

impl Synom for CombinatorId {
    open spec fn grammar(s: Seq<u8>) -> Parsed<u32> {
        combinator_id_grammar(s)
    }

    fn parse_cursor<'a>(input: Cursor<'a>) -> (r: ParseResult<(Cursor<'a>, CombinatorId)>) {
        parse_combinator_id(input)
    }
}

impl Synom for ItemCombinator {
    open spec fn grammar(s: Seq<u8>) -> Parsed<CombinatorModel> {
        combinator_grammar(s)
    }

    fn parse_cursor<'a>(input: Cursor<'a>) -> (r: ParseResult<(Cursor<'a>, ItemCombinator)>) {
        parse_combinator(input)
    }
}

impl Synom for Delimiter {
    open spec fn grammar(s: Seq<u8>) -> Parsed<DelimiterModel> {
        delimiter_grammar(s)
    }

    fn parse_cursor<'a>(input: Cursor<'a>) -> (r: ParseResult<(Cursor<'a>, Delimiter)>) {
        parse_delimiter(input)
    }
}

impl Synom for DelimiterTypes {
    open spec fn grammar(s: Seq<u8>) -> Parsed<()> {
        tag(s, types_literal())
    }

    fn parse_cursor<'a>(input: Cursor<'a>) -> (r: ParseResult<(Cursor<'a>, DelimiterTypes)>)
        ensures
            r matches Ok((_, node)) ==> node.span@ == (
                input.position(),
                input.position() + Self::grammar(input.bytes())->len,
            ),
    {
        proof {
            reveal_strlit("---types---");
            lemma_literal("---types---", types_literal());
        }
        match parse_literal(input, "---types---") {
            Ok((rest, span)) => Ok((rest, DelimiterTypes { span })),
            Err(e) => Err(e),
        }
    }
}

impl Synom for DelimiterFunctions {
    open spec fn grammar(s: Seq<u8>) -> Parsed<()> {
        tag(s, functions_literal())
    }

    fn parse_cursor<'a>(input: Cursor<'a>) -> (r: ParseResult<(Cursor<'a>, DelimiterFunctions)>)
        ensures
            r matches Ok((_, node)) ==> node.span@ == (
                input.position(),
                input.position() + Self::grammar(input.bytes())->len,
            ),
    {
        proof {
            reveal_strlit("---functions---");
            lemma_literal("---functions---", functions_literal());
        }
        match parse_literal(input, "---functions---") {
            Ok((rest, span)) => Ok((rest, DelimiterFunctions { span })),
            Err(e) => Err(e),
        }
    }
}

impl Synom for ItemDelimiter {
    open spec fn grammar(s: Seq<u8>) -> Parsed<DelimiterModel> {
        delimiter_grammar(s)
    }

    fn parse_cursor<'a>(input: Cursor<'a>) -> (r: ParseResult<(Cursor<'a>, ItemDelimiter)>) {
        match parse_delimiter(input) {
            Ok((rest, delimiter)) => Ok((rest, ItemDelimiter { delimiter })),
            Err(e) => Err(e),
        }
    }
}

impl Synom for ItemLayer {
    open spec fn grammar(s: Seq<u8>) -> Parsed<u32> {
        layer_grammar(s)
    }

    fn parse_cursor<'a>(input: Cursor<'a>) -> (r: ParseResult<(Cursor<'a>, ItemLayer)>) {
        parse_layer(input)
    }
}

impl Synom for ItemComment {
    open spec fn grammar(s: Seq<u8>) -> Parsed<CommentModel> {
        Comment::grammar(s)
    }

    fn parse_cursor<'a>(input: Cursor<'a>) -> (r: ParseResult<(Cursor<'a>, ItemComment)>) {
        match Comment::parse_cursor(input) {
            Ok((rest, comment)) => Ok((rest, ItemComment { comment })),
            Err(e) => Err(e),
        }
    }
}

impl Synom for Item {
    open spec fn grammar(s: Seq<u8>) -> Parsed<ItemModel> {
        item_grammar(s)
    }

    fn parse_cursor<'a>(input: Cursor<'a>) -> (r: ParseResult<(Cursor<'a>, Item)>) {
        parse_item(input)
    }
}

/// The source text of each of the optional fields `fields`.
pub open spec fn opt_param_texts(fields: Seq<FieldsModel>) -> Seq<Seq<u8>> {
    Seq::new(fields.len(), |i: int| opt_param_text(fields[i]))
}

/// The source text of the name of a combinator: the path, the id, if there
/// is one, right behind it, and a space.
pub open spec fn name_text(name: Separated<Seq<char>>, id: Option<u32>) -> Seq<u8> {
    path_text(name) + (match id {
        Some(id) => crate::token::Hash::literal() + crate::chars::hex_digits(id as nat),
        None => Seq::<u8>::empty(),
    }) + seq![' ' as u8]
}

/// The texts `items` with a space between each two and a space behind the
/// last, or nothing where there are none.
pub open spec fn spaced_list(items: Seq<Seq<u8>>) -> Seq<u8> {
    if items.len() > 0 {
        joined(items, seq![' ' as u8]) + seq![' ' as u8]
    } else {
        Seq::<u8>::empty()
    }
}

/// The source text of the result of a combinator: `=`, a space, the result
/// type, `;`.
pub open spec fn result_text(result_type: ParameterizedPathModel) -> Seq<u8> {
    Equals::literal() + seq![' ' as u8] + parameterized_path_text(result_type)
        + Semicolon::literal()
}

/// The source text of a combinator: the name with the id, if there is one,
/// right behind it; the optional fields and the required fields, with one
/// space between each two; `=`; the result type with `;` right behind it.
/// One space stands between these parts.
pub open spec fn combinator_text(v: CombinatorModel) -> Seq<u8> {
    name_text(v.name, v.id) + spaced_list(opt_param_texts(v.opt_params)) + spaced_list(
        param_texts(v.params),
    ) + result_text(v.result_type)
}

/// The source text of a delimiter.
pub open spec fn delimiter_text(v: DelimiterModel) -> Seq<u8> {
    match v {
        DelimiterModel::Types => types_literal(),
        DelimiterModel::Functions => functions_literal(),
    }
}

/// The source text of a layer: `// LAYER` and the number, with one space
/// between each two.
pub open spec fn layer_text(v: u32) -> Seq<u8> {
    SlashSlash::literal() + seq![' ' as u8] + Layer::literal() + seq![' ' as u8] + decimal_digits(
        v as nat,
    )
}

/// The source text of an item.
pub open spec fn item_text(v: ItemModel) -> Seq<u8> {
    match v {
        ItemModel::Combinator(c) => combinator_text(c),
        ItemModel::Delimiter(d) => delimiter_text(d),
        ItemModel::Layer(l) => layer_text(l),
        ItemModel::Comment(c) => Comment::text(c),
    }
}

/// Put the source text of the name and the id of `c` behind `out`.
fn print_name(c: &ItemCombinator, out: &mut Vec<u8>)
    ensures
        final(out)@ == old(out)@ + name_text(c@.name, c@.id),
        valid_utf8(old(out)@) ==> valid_utf8(final(out)@),
{
    print_path(&c.name, out);
    match &c.combinator_id {
        Some(i) => {
            i.print(out);
        },
        None => {},
    }
    push_space(out);
    proof {
        assert(out@ =~= old(out)@ + name_text(c@.name, c@.id));
    }
}

/// Put the source texts of the optional fields of `c` behind `out`, with a
/// space behind each.
fn print_opt_params(c: &ItemCombinator, out: &mut Vec<u8>)
    ensures
        final(out)@ == old(out)@ + spaced_list(opt_param_texts(c@.opt_params)),
        valid_utf8(old(out)@) ==> valid_utf8(final(out)@),
{
    proof {
        reveal_strlit(" ");
        lemma_literal(" ", seq![' ' as u8]);
        assert(texts::<OptParam>(views(c.opt_params@)) =~= opt_param_texts(c@.opt_params));
    }
    if print_slice_with_separator(c.opt_params.as_slice(), " ", out) {
        push_space(out);
        proof {
            assert(out@ =~= old(out)@ + spaced_list(opt_param_texts(c@.opt_params)));
        }
    } else {
        proof {
            assert(joined(opt_param_texts(c@.opt_params), seq![' ' as u8]) =~= Seq::<u8>::empty());
            assert(out@ =~= old(out)@ + spaced_list(opt_param_texts(c@.opt_params)));
        }
    }
}

/// Put the source texts of the required fields of `c` behind `out`, with a
/// space behind each.
fn print_required_params(c: &ItemCombinator, out: &mut Vec<u8>)
    ensures
        final(out)@ == old(out)@ + spaced_list(param_texts(c@.params)),
        valid_utf8(old(out)@) ==> valid_utf8(final(out)@),
{
    if c.params.len() > 0 {
        print_params(&c.params, out);
        push_space(out);
        proof {
            assert(out@ =~= old(out)@ + spaced_list(param_texts(c@.params)));
        }
    } else {
        proof {
            assert(out@ =~= old(out)@ + spaced_list(param_texts(c@.params)));
        }
    }
}

/// Put the source text of the result of `c` behind `out`.
fn print_result(c: &ItemCombinator, out: &mut Vec<u8>)
    ensures
        final(out)@ == old(out)@ + result_text(c@.result_type),
        valid_utf8(old(out)@) ==> valid_utf8(final(out)@),
{
    c.equals_token.print(out);
    push_space(out);
    print_parameterized_path(&c.result_type, out);
    c.semicolon_token.print(out);
    proof {
        assert(out@ =~= old(out)@ + result_text(c@.result_type));
    }
}

/// Put the source text of `c` behind `out`.
pub fn print_combinator(c: &ItemCombinator, out: &mut Vec<u8>)
    ensures
        final(out)@ == old(out)@ + combinator_text(c@),
        valid_utf8(old(out)@) ==> valid_utf8(final(out)@),
{
    print_name(c, out);
    print_opt_params(c, out);
    print_required_params(c, out);
    print_result(c, out);
    proof {
        assert(out@ =~= old(out)@ + combinator_text(c@));
    }
}

/// Put the source text of `l` behind `out`.
pub fn print_layer(l: &ItemLayer, out: &mut Vec<u8>)
    ensures
        final(out)@ == old(out)@ + layer_text(l@),
        valid_utf8(old(out)@) ==> valid_utf8(final(out)@),
{
    l.slash_slash_token.print(out);
    push_space(out);
    l.layer_token.print(out);
    push_space(out);
    push_decimal(out, l.layer);
    proof {
        assert(out@ =~= old(out)@ + layer_text(l@));
    }
}

/// Put the source text of `d` behind `out`.
pub fn print_delimiter(d: &Delimiter, out: &mut Vec<u8>)
    ensures
        final(out)@ == old(out)@ + delimiter_text(d@),
        valid_utf8(old(out)@) ==> valid_utf8(final(out)@),
{
    match d {
        Delimiter::Types(t) => t.print(out),
        Delimiter::Functions(f) => f.print(out),
    }
}

/// Put the source text of `item` behind `out`.
pub fn print_item(item: &Item, out: &mut Vec<u8>)
    ensures
        final(out)@ == old(out)@ + item_text(item@),
        valid_utf8(old(out)@) ==> valid_utf8(final(out)@),
{
    match item {
        Item::Combinator(c) => print_combinator(c, out),
        Item::Delimiter(d) => print_delimiter(&d.delimiter, out),
        Item::Layer(l) => print_layer(l, out),
        Item::Comment(c) => c.comment.print(out),
    }
}

/// Whether the optional fields of two lists say the same.
pub fn opt_params_eq(a: &Vec<OptParam>, b: &Vec<OptParam>) -> (r: bool)
    ensures
        r == (views(a@) == views(b@)),
{
    if a.len() != b.len() {
        proof {
            assert(views(a@).len() != views(b@).len());
        }
        return false;
    }
    let mut i: usize = 0;
    while i < a.len()
        invariant
            i <= a.len(),
            a.len() == b.len(),
            forall|k: int| 0 <= k < i ==> a@[k]@ == b@[k]@,
        decreases a.len() - i,
    {
        if !opt_param_eq(&a[i], &b[i]) {
            proof {
                assert(views(a@)[i as int] != views(b@)[i as int]);
            }
            return false;
        }
        i += 1;
    }
    proof {
        assert(views(a@) =~= views(b@));
    }
    true
}

/// Whether two combinators say the same.
pub fn combinator_eq(a: &ItemCombinator, b: &ItemCombinator) -> (r: bool)
    ensures
        r == (a@ == b@),
{
    let same_id = match &a.combinator_id {
        Some(x) => match &b.combinator_id {
            Some(y) => x.id == y.id,
            None => false,
        },
        None => b.combinator_id.is_none(),
    };
    same_id && path_eq(&a.name, &b.name) && opt_params_eq(&a.opt_params, &b.opt_params)
        && params_eq(&a.params, &b.params) && parameterized_path_eq(
        &a.result_type,
        &b.result_type,
    )
}

/// Whether two items say the same.
pub fn item_eq(a: &Item, b: &Item) -> (r: bool)
    ensures
        r == (a@ == b@),
{
    match a {
        Item::Combinator(x) => match b {
            Item::Combinator(y) => combinator_eq(x, y),
            _ => false,
        },
        Item::Delimiter(x) => match b {
            Item::Delimiter(y) => x.delimiter == y.delimiter,
            _ => false,
        },
        Item::Layer(x) => match b {
            Item::Layer(y) => x.layer == y.layer,
            _ => false,
        },
        Item::Comment(x) => match b {
            Item::Comment(y) => x.comment == y.comment,
            _ => false,
        },
    }
}

impl Print for ItemCombinator {
    open spec fn text(v: CombinatorModel) -> Seq<u8> {
        combinator_text(v)
    }

    fn print(&self, out: &mut Vec<u8>) {
        print_combinator(self, out)
    }
}

impl Print for ItemLayer {
    open spec fn text(v: u32) -> Seq<u8> {
        layer_text(v)
    }

    fn print(&self, out: &mut Vec<u8>) {
        print_layer(self, out)
    }
}

impl Print for Delimiter {
    open spec fn text(v: DelimiterModel) -> Seq<u8> {
        delimiter_text(v)
    }

    fn print(&self, out: &mut Vec<u8>) {
        print_delimiter(self, out)
    }
}

impl Print for ItemDelimiter {
    open spec fn text(v: DelimiterModel) -> Seq<u8> {
        delimiter_text(v)
    }

    fn print(&self, out: &mut Vec<u8>) {
        print_delimiter(&self.delimiter, out)
    }
}

impl Print for ItemComment {
    open spec fn text(v: CommentModel) -> Seq<u8> {
        Comment::text(v)
    }

    fn print(&self, out: &mut Vec<u8>) {
        self.comment.print(out)
    }
}

impl Print for Item {
    open spec fn text(v: ItemModel) -> Seq<u8> {
        item_text(v)
    }

    fn print(&self, out: &mut Vec<u8>) {
        print_item(self, out)
    }
}

impl PartialEq for DelimiterTypes {
    fn eq(&self, other: &DelimiterTypes) -> (r: bool) {
        true
    }
}

impl Eq for DelimiterTypes {
}

impl vstd::std_specs::cmp::PartialEqSpecImpl for DelimiterTypes {
    open spec fn obeys_eq_spec() -> bool {
        true
    }

    open spec fn eq_spec(&self, other: &DelimiterTypes) -> bool {
        true
    }
}

impl PartialEq for DelimiterFunctions {
    fn eq(&self, other: &DelimiterFunctions) -> (r: bool) {
        true
    }
}

impl Eq for DelimiterFunctions {
}

impl vstd::std_specs::cmp::PartialEqSpecImpl for DelimiterFunctions {
    open spec fn obeys_eq_spec() -> bool {
        true
    }

    open spec fn eq_spec(&self, other: &DelimiterFunctions) -> bool {
        true
    }
}

impl PartialEq for Delimiter {
    fn eq(&self, other: &Delimiter) -> (r: bool) {
        match self {
            Delimiter::Types(_) => match other {
                Delimiter::Types(_) => true,
                Delimiter::Functions(_) => false,
            },
            Delimiter::Functions(_) => match other {
                Delimiter::Types(_) => false,
                Delimiter::Functions(_) => true,
            },
        }
    }
}

impl Eq for Delimiter {
}

impl vstd::std_specs::cmp::PartialEqSpecImpl for Delimiter {
    open spec fn obeys_eq_spec() -> bool {
        true
    }

    open spec fn eq_spec(&self, other: &Delimiter) -> bool {
        self@ == other@
    }
}

impl PartialEq for ItemDelimiter {
    fn eq(&self, other: &ItemDelimiter) -> (r: bool) {
        self.delimiter == other.delimiter
    }
}

impl Eq for ItemDelimiter {
}

impl vstd::std_specs::cmp::PartialEqSpecImpl for ItemDelimiter {
    open spec fn obeys_eq_spec() -> bool {
        true
    }

    open spec fn eq_spec(&self, other: &ItemDelimiter) -> bool {
        self@ == other@
    }
}

impl PartialEq for ItemLayer {
    fn eq(&self, other: &ItemLayer) -> (r: bool) {
        self.layer == other.layer
    }
}

impl Eq for ItemLayer {
}

impl vstd::std_specs::cmp::PartialEqSpecImpl for ItemLayer {
    open spec fn obeys_eq_spec() -> bool {
        true
    }

    open spec fn eq_spec(&self, other: &ItemLayer) -> bool {
        self@ == other@
    }
}

impl PartialEq for ItemComment {
    fn eq(&self, other: &ItemComment) -> (r: bool) {
        self.comment == other.comment
    }
}

impl Eq for ItemComment {
}

impl vstd::std_specs::cmp::PartialEqSpecImpl for ItemComment {
    open spec fn obeys_eq_spec() -> bool {
        true
    }

    open spec fn eq_spec(&self, other: &ItemComment) -> bool {
        self@ == other@
    }
}

impl PartialEq for CombinatorId {
    fn eq(&self, other: &CombinatorId) -> (r: bool) {
        self.id == other.id
    }
}

impl Eq for CombinatorId {
}

impl vstd::std_specs::cmp::PartialEqSpecImpl for CombinatorId {
    open spec fn obeys_eq_spec() -> bool {
        true
    }

    open spec fn eq_spec(&self, other: &CombinatorId) -> bool {
        self@ == other@
    }
}

impl PartialEq for ItemCombinator {
    fn eq(&self, other: &ItemCombinator) -> (r: bool) {
        combinator_eq(self, other)
    }
}

impl Eq for ItemCombinator {
}

impl vstd::std_specs::cmp::PartialEqSpecImpl for ItemCombinator {
    open spec fn obeys_eq_spec() -> bool {
        true
    }

    open spec fn eq_spec(&self, other: &ItemCombinator) -> bool {
        self@ == other@
    }
}

impl PartialEq for Item {
    fn eq(&self, other: &Item) -> (r: bool) {
        item_eq(self, other)
    }
}

impl Eq for Item {
}

impl vstd::std_specs::cmp::PartialEqSpecImpl for Item {
    open spec fn obeys_eq_spec() -> bool {
        true
    }

    open spec fn eq_spec(&self, other: &Item) -> bool {
        self@ == other@
    }
}

impl Spanned for CombinatorId {
    open spec fn extent(&self) -> (int, int) {
        joined_spans(self.hash_token.0@, self.id.span@)
    }

    fn span(&self) -> (r: Span) {
        self.hash_token.span().to(self.id.span())
    }
}

impl Spanned for ItemCombinator {
    open spec fn extent(&self) -> (int, int) {
        joined_spans(
            joined_spans(
                joined_spans(
                    joined_spans(
                        joined_spans(
                            joined_spans(
                                self.name.extent(),
                                crate::spanned::option_extent(self.combinator_id),
                            ),
                            crate::span::joined_all(crate::spanned::extents(self.opt_params@)),
                        ),
                        crate::span::joined_all(crate::param::param_extents(self.params@)),
                    ),
                    self.equals_token.0@,
                ),
                self.result_type.extent(),
            ),
            self.semicolon_token.0@,
        )
    }

    fn span(&self) -> (r: Span) {
        self.name.span().to(crate::spanned::option_span(&self.combinator_id)).to(
            crate::spanned::slice_span(self.opt_params.as_slice()),
        ).to(crate::param::params_span(&self.params)).to(self.equals_token.span()).to(
            self.result_type.span(),
        ).to(self.semicolon_token.span())
    }
}

impl Spanned for DelimiterTypes {
    open spec fn extent(&self) -> (int, int) {
        self.span@
    }

    fn span(&self) -> (r: Span) {
        proof {
            assert(self.extent() == self.span@);
        }
        self.span
    }
}

impl Spanned for DelimiterFunctions {
    open spec fn extent(&self) -> (int, int) {
        self.span@
    }

    fn span(&self) -> (r: Span) {
        proof {
            assert(self.extent() == self.span@);
        }
        self.span
    }
}

impl Spanned for Delimiter {
    open spec fn extent(&self) -> (int, int) {
        match self {
            Delimiter::Types(t) => t.span@,
            Delimiter::Functions(t) => t.span@,
        }
    }

    fn span(&self) -> (r: Span) {
        match self {
            Delimiter::Types(t) => t.span,
            Delimiter::Functions(t) => t.span,
        }
    }
}

impl Spanned for ItemDelimiter {
    open spec fn extent(&self) -> (int, int) {
        self.delimiter.extent()
    }

    fn span(&self) -> (r: Span) {
        self.delimiter.span()
    }
}

impl Spanned for ItemLayer {
    open spec fn extent(&self) -> (int, int) {
        joined_spans(joined_spans(self.slash_slash_token.0@, self.layer_token.0@), self.layer_span@)
    }

    fn span(&self) -> (r: Span) {
        self.slash_slash_token.span().to(self.layer_token.span()).to(self.layer_span)
    }
}

impl Spanned for ItemComment {
    open spec fn extent(&self) -> (int, int) {
        self.comment.extent()
    }

    fn span(&self) -> (r: Span) {
        self.comment.span()
    }
}

impl Spanned for Item {
    open spec fn extent(&self) -> (int, int) {
        match self {
            Item::Combinator(t) => t.extent(),
            Item::Delimiter(t) => t.extent(),
            Item::Layer(t) => t.extent(),
            Item::Comment(t) => t.extent(),
        }
    }

    fn span(&self) -> (r: Span) {
        match self {
            Item::Combinator(t) => t.span(),
            Item::Delimiter(t) => t.span(),
            Item::Layer(t) => t.span(),
            Item::Comment(t) => t.span(),
        }
    }
}

/// A copy of `c`.
pub fn combinator_clone(c: &ItemCombinator) -> (r: ItemCombinator)
    ensures
        r@ == c@,
{
    let mut opt_params: Vec<OptParam> = Vec::new();
    let mut i: usize = 0;
    while i < c.opt_params.len()
        invariant
            i <= c.opt_params.len(),
            opt_params.len() == i,
            forall|k: int| 0 <= k < i ==> opt_params@[k]@ == c.opt_params@[k]@,
        decreases c.opt_params.len() - i,
    {
        opt_params.push(crate::param::opt_param_clone(&c.opt_params[i]));
        i += 1;
    }
    proof {
        assert(views(opt_params@) =~= views(c.opt_params@));
    }
    ItemCombinator {
        name: crate::path::path_clone(&c.name),
        combinator_id: c.combinator_id,
        opt_params,
        params: crate::param::params_clone(&c.params),
        equals_token: c.equals_token,
        result_type: crate::path::parameterized_path_clone(&c.result_type),
        semicolon_token: c.semicolon_token,
    }
}

/// A copy of `item`.
pub fn item_clone(item: &Item) -> (r: Item)
    ensures
        r@ == item@,
{
    match item {
        Item::Combinator(c) => Item::Combinator(combinator_clone(c)),
        Item::Delimiter(d) => Item::Delimiter(*d),
        Item::Layer(l) => Item::Layer(*l),
        Item::Comment(c) => Item::Comment(
            ItemComment {
                comment: match &c.comment {
                    Comment::SingleLine(x) => Comment::SingleLine(
                        crate::comment::CommentSingleLine {
                            slash_slash_token: x.slash_slash_token,
                            content_span: x.content_span,
                            content: x.content.clone(),
                        },
                    ),
                    Comment::MultiLine(x) => Comment::MultiLine(
                        crate::comment::CommentMultiLine {
                            slash_asterisk_token: x.slash_asterisk_token,
                            content_span: x.content_span,
                            content: x.content.clone(),
                        },
                    ),
                },
            },
        ),
    }
}

impl Clone for ItemCombinator {
    fn clone(&self) -> (r: ItemCombinator)
        ensures
            r@ == self@,
    {
        combinator_clone(self)
    }
}

impl Clone for Item {
    fn clone(&self) -> (r: Item)
        ensures
            r@ == self@,
    {
        item_clone(self)
    }
}

impl Print for CombinatorId {
    open spec fn text(v: u32) -> Seq<u8> {
        crate::token::Hash::literal() + crate::chars::hex_digits(v as nat)
    }

    fn print(&self, out: &mut Vec<u8>) {
        self.hash_token.print(out);
        self.id.print(out);
        proof {
            assert(out@ =~= old(out)@ + Self::text(self@));
        }
    }
}

impl Print for DelimiterTypes {
    open spec fn text(v: ()) -> Seq<u8> {
        types_literal()
    }

    fn print(&self, out: &mut Vec<u8>) {
        proof {
            reveal_strlit("---types---");
            lemma_literal("---types---", types_literal());
        }
        push_str(out, "---types---");
    }
}

impl Print for DelimiterFunctions {
    open spec fn text(v: ()) -> Seq<u8> {
        functions_literal()
    }

    fn print(&self, out: &mut Vec<u8>) {
        proof {
            reveal_strlit("---functions---");
            lemma_literal("---functions---", functions_literal());
        }
        push_str(out, "---functions---");
    }
}

} // verus!
