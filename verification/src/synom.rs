//! Parsing interface for parsing source text into a syntax tree node.
//!
//! Every syntax tree node that can be parsed in a default way implements
//! [`Synom`]: its grammar rule, as a function from the input bytes to a
//! [`Parsed`] value, and `parse_cursor`, which computes what the rule says.

use vstd::prelude::*;
use crate::cursor::Cursor;
use vstd::string::StringSliceAdditionalSpecFns;
use crate::chars::whitespace_run;
use crate::error::{ParseErrorKind, ParseResult};
use crate::parsed::{many0, repeated, repeated1, spaced_rule, Parsed};

verus! {

/// Whether `r`, the result of parsing at `input`, is what the outcome `p` of
/// a grammar rule on the bytes at `input` asks for: the node that was read
/// and the cursor behind it, or the error at the right place.
pub open spec fn agrees<'a, T: View>(
    input: Cursor<'a>,
    r: ParseResult<(Cursor<'a>, T)>,
    p: Parsed<T::V>,
) -> bool {
    match p {
        Parsed::Done { value, len } => r matches Ok((rest, node)) && rest.follows(input, len)
            && node@ == value,
        Parsed::Fail { kind, begin, end } => r matches Err(e) && 0 <= begin <= end
            <= input.bytes().len() && e@ == (
            kind,
            (input.position() + begin, input.position() + end),
        ),
    }
}

/// A cursor that follows one that follows a third follows the third.
pub proof fn lemma_follows<'a>(input: Cursor<'a>, at: Cursor<'a>, rest: Cursor<'a>, n: int, m: int)
    requires
        at.follows(input, n),
        rest.follows(at, m),
    ensures
        rest.follows(input, n + m),
{
    assert(input.bytes().skip(n).skip(m) =~= input.bytes().skip(n + m));
}

/// The views of the elements of `s`.
pub open spec fn views<T: View>(s: Seq<T>) -> Seq<T::V> {
    Seq::new(s.len(), |i: int| s[i]@)
}

/// The grammar rule of `T`, as a value.
pub open spec fn rule<T: Synom>() -> spec_fn(Seq<u8>) -> Parsed<T::V> {
    |s: Seq<u8>| T::grammar(s)
}

/// Parse with `parse`, and take the spaces and tabs behind what it matched
/// if `spaced` is set.
pub fn parse_spaced<'a, T: View, F: Fn(Cursor<'a>) -> ParseResult<(Cursor<'a>, T)>>(
    input: Cursor<'a>,
    parse: &F,
    Ghost(elem): Ghost<spec_fn(Seq<u8>) -> Parsed<T::V>>,
    spaced: bool,
) -> (r: ParseResult<(Cursor<'a>, T)>)
    requires
        call_requires(*parse, (input,)),
        forall|o: ParseResult<(Cursor<'a>, T)>|
            call_ensures(*parse, (input,), o) ==> agrees(input, o, elem(input.bytes())),
    ensures
        agrees(input, r, spaced_rule(elem, spaced)(input.bytes())),
{
    match parse(input) {
        Ok((rest, node)) => {
            if spaced {
                let behind = rest.skip_spaces();
                proof {
                    let len = elem(input.bytes())->len;
                    let more = crate::chars::spaces(rest.bytes());
                    assert(input.bytes().skip(len).skip(more) =~= input.bytes().skip(len + more));
                }
                Ok((behind, node))
            } else {
                Ok((rest, node))
            }
        },
        Err(e) => Err(e),
    }
}

/// Parsing interface implemented by all types that can be parsed in a
/// default way from a string.
pub trait Synom: Sized + View + crate::sealed::Sealed {
    /// The grammar rule of this node.
    spec fn grammar(s: Seq<u8>) -> Parsed<Self::V>;

    /// Parse a node of this type from the start of the input.
    fn parse_cursor<'a>(input: Cursor<'a>) -> (r: ParseResult<(Cursor<'a>, Self)>)
        ensures
            agrees(input, r, Self::grammar(input.bytes())),
    ;
}

/// Whether `r`, the result of a repetition at `input`, is what the outcome
/// `p` of the repetition asks for: the nodes that were read and the cursor
/// behind them, or the error at the right place.
pub open spec fn run_agrees<'a, T: View>(
    input: Cursor<'a>,
    r: ParseResult<(Cursor<'a>, Vec<T>)>,
    p: Parsed<Seq<T::V>>,
) -> bool {
    match p {
        Parsed::Done { value, len } => r matches Ok((rest, nodes)) && rest.follows(input, len)
            && views(nodes@) == value,
        Parsed::Fail { kind, begin, end } => r matches Err(e) && 0 <= begin <= end
            <= input.bytes().len() && e@ == (
            kind,
            (input.position() + begin, input.position() + end),
        ),
    }
}

/// Go on parsing with `parse` at `at`, as often as it matches and takes
/// input, and put the nodes behind `nodes`, which were read from `input` up
/// to `at`. A match that takes no input ends the repetition: with an error
/// about what is left, unless nothing is left. With `spaced` set, the spaces
/// and tabs behind each match are taken too.
fn parse_more<'a, T: View, F: Fn(Cursor<'a>) -> ParseResult<(Cursor<'a>, T)>>(
    input: Cursor<'a>,
    at: Cursor<'a>,
    nodes: Vec<T>,
    parse: &F,
    Ghost(elem): Ghost<spec_fn(Seq<u8>) -> Parsed<T::V>>,
    spaced: bool,
    Ghost(taken): Ghost<int>,
) -> (r: ParseResult<(Cursor<'a>, Vec<T>)>)
    requires
        at.follows(input, taken),
        many0(spaced_rule(elem, spaced), input.bytes()).0 == views(nodes@) + many0(
            spaced_rule(elem, spaced),
            at.bytes(),
        ).0,
        many0(spaced_rule(elem, spaced), input.bytes()).1 == taken + many0(
            spaced_rule(elem, spaced),
            at.bytes(),
        ).1,
        forall|c: Cursor<'a>|
            c.bytes().len() <= input.bytes().len() ==> call_requires(*parse, (c,)),
        forall|c: Cursor<'a>, o: ParseResult<(Cursor<'a>, T)>|
            c.bytes().len() <= input.bytes().len() && call_ensures(*parse, (c,), o) ==> agrees(
                c,
                o,
                elem(c.bytes()),
            ),
    ensures
        run_agrees(input, r, repeated(spaced_rule(elem, spaced), input.bytes())),
{
    let ghost act = spaced_rule(elem, spaced);
    let mut nodes = nodes;
    let mut at = at;
    let ghost mut taken = taken;
    loop
        invariant
            at.follows(input, taken),
            act == spaced_rule(elem, spaced),
            many0(act, input.bytes()).0 == views(nodes@) + many0(act, at.bytes()).0,
            many0(act, input.bytes()).1 == taken + many0(act, at.bytes()).1,
            forall|c: Cursor<'a>|
                c.bytes().len() <= input.bytes().len() ==> call_requires(*parse, (c,)),
            forall|c: Cursor<'a>, o: ParseResult<(Cursor<'a>, T)>|
                c.bytes().len() <= input.bytes().len() && call_ensures(*parse, (c,), o)
                    ==> agrees(c, o, elem(c.bytes())),
        decreases at.bytes().len(),
    {
        match parse_spaced(at, parse, Ghost(elem), spaced) {
            Ok((rest, node)) => {
                if rest.len() == at.len() {
                    proof {
                        assert(views(nodes@) + Seq::<T::V>::empty() =~= views(nodes@));
                    }
                    if at.at_eof() {
                        return Ok((at, nodes));
                    }
                    return at.error(ParseErrorKind::NoProgress);
                }
                proof {
                    let len = act(at.bytes())->len;
                    let more = many0(act, rest.bytes());
                    assert(many0(act, at.bytes()).0 == seq![node@] + more.0);
                    assert(views(nodes@.push(node)) =~= views(nodes@) + seq![node@]);
                    assert(views(nodes@) + (seq![node@] + more.0) =~= (views(nodes@) + seq![
                        node@,
                    ]) + more.0);
                    assert(input.bytes().skip(taken).skip(len) =~= input.bytes().skip(taken + len));
                    taken = taken + len;
                }
                nodes.push(node);
                at = rest;
            },
            Err(_) => {
                proof {
                    assert(views(nodes@) + Seq::<T::V>::empty() =~= views(nodes@));
                }
                return Ok((at, nodes));
            },
        }
    }
}

/// Parse with `parse`, as often as it matches and takes input. Returns the
/// cursor behind the last match, and the nodes that were read. A match that
/// takes no input is an error about what is left, unless nothing is left.
/// With `spaced` set, the spaces and tabs behind each match are taken too.
pub fn parse_many0<'a, T: View, F: Fn(Cursor<'a>) -> ParseResult<(Cursor<'a>, T)>>(
    input: Cursor<'a>,
    parse: &F,
    Ghost(elem): Ghost<spec_fn(Seq<u8>) -> Parsed<T::V>>,
    spaced: bool,
) -> (r: ParseResult<(Cursor<'a>, Vec<T>)>)
    requires
        forall|c: Cursor<'a>|
            c.bytes().len() <= input.bytes().len() ==> call_requires(*parse, (c,)),
        forall|c: Cursor<'a>, o: ParseResult<(Cursor<'a>, T)>|
            c.bytes().len() <= input.bytes().len() && call_ensures(*parse, (c,), o) ==> agrees(
                c,
                o,
                elem(c.bytes()),
            ),
    ensures
        run_agrees(input, r, repeated(spaced_rule(elem, spaced), input.bytes())),
{
    let nodes: Vec<T> = Vec::new();
    proof {
        let all = many0(spaced_rule(elem, spaced), input.bytes());
        assert(input.bytes().skip(0) =~= input.bytes());
        assert(views(nodes@) + all.0 =~= all.0);
    }
    parse_more(input, input, nodes, parse, Ghost(elem), spaced, Ghost(0))
}

/// Parse with `parse` once, and then as often as it matches and takes input.
/// Fails as `parse` does on the whole input, and as the repetition behind
/// the first match does. With `spaced` set, the spaces and tabs behind each
/// match are taken too.
pub fn parse_many1<'a, T: View, F: Fn(Cursor<'a>) -> ParseResult<(Cursor<'a>, T)>>(
    input: Cursor<'a>,
    parse: &F,
    Ghost(elem): Ghost<spec_fn(Seq<u8>) -> Parsed<T::V>>,
    spaced: bool,
) -> (r: ParseResult<(Cursor<'a>, Vec<T>)>)
    requires
        forall|c: Cursor<'a>|
            c.bytes().len() <= input.bytes().len() ==> call_requires(*parse, (c,)),
        forall|c: Cursor<'a>, o: ParseResult<(Cursor<'a>, T)>|
            c.bytes().len() <= input.bytes().len() && call_ensures(*parse, (c,), o) ==> agrees(
                c,
                o,
                elem(c.bytes()),
            ),
    ensures
        run_agrees(input, r, repeated1(spaced_rule(elem, spaced), input.bytes())),
{
    match parse_spaced(input, parse, Ghost(elem), spaced) {
        Ok((rest, node)) => {
            if rest.len() == input.len() {
                input.error(crate::error::ParseErrorKind::NoProgress)
            } else {
                let ghost first = spaced_rule(elem, spaced)(input.bytes())->len;
                let mut nodes: Vec<T> = Vec::new();
                nodes.push(node);
                proof {
                    assert(views(nodes@) =~= seq![node@]);
                }
                parse_first(input, rest, nodes, parse, Ghost(elem), spaced, Ghost(first))
            }
        },
        Err(e) => Err(e),
    }
}

/// Go on behind the first node of a repetition: parse with `parse` at `at`,
/// which is `first` bytes behind `input`, as often as it matches and takes
/// input, and put the nodes behind `nodes`, which holds the first node.
fn parse_first<'a, T: View, F: Fn(Cursor<'a>) -> ParseResult<(Cursor<'a>, T)>>(
    input: Cursor<'a>,
    at: Cursor<'a>,
    nodes: Vec<T>,
    parse: &F,
    Ghost(elem): Ghost<spec_fn(Seq<u8>) -> Parsed<T::V>>,
    spaced: bool,
    Ghost(first): Ghost<int>,
) -> (r: ParseResult<(Cursor<'a>, Vec<T>)>)
    requires
        nodes@.len() == 1,
        spaced_rule(elem, spaced)(input.bytes()) == (Parsed::Done {
            value: nodes@[0]@,
            len: first,
        }),
        0 < first,
        at.follows(input, first),
        forall|c: Cursor<'a>|
            c.bytes().len() <= input.bytes().len() ==> call_requires(*parse, (c,)),
        forall|c: Cursor<'a>, o: ParseResult<(Cursor<'a>, T)>|
            c.bytes().len() <= input.bytes().len() && call_ensures(*parse, (c,), o) ==> agrees(
                c,
                o,
                elem(c.bytes()),
            ),
    ensures
        run_agrees(input, r, repeated1(spaced_rule(elem, spaced), input.bytes())),
{
    let ghost act = spaced_rule(elem, spaced);
    let ghost head = nodes@[0]@;
    let mut all = nodes;
    match parse_many0(at, parse, Ghost(elem), spaced) {
        Ok((rest, more)) => {
            let ghost tail = views(more@);
            let mut more = more;
            all.append(&mut more);
            proof {
                let n = repeated(act, at.bytes())->len;
                assert(input.bytes().skip(first).skip(n) =~= input.bytes().skip(first + n));
                assert(views(all@) =~= seq![head] + tail);
            }
            Ok((rest, all))
        },
        Err(e) => Err(e),
    }
}

/// What a rule comes to when it has to match the whole input `s`: after a
/// match, whitespace of any kind may follow, and anything else is trailing
/// input, which is an error about the part that is left.
pub open spec fn whole<V>(p: Parsed<V>, s: Seq<u8>) -> Parsed<V> {
    match p {
        Parsed::Fail { .. } => p,
        Parsed::Done { value, len } => {
            let end = len + whitespace_run(s.skip(len));
            if end == s.len() {
                Parsed::Done { value, len: end }
            } else {
                Parsed::Fail { kind: ParseErrorKind::TrailingInput, begin: end, end: s.len() as int }
            }
        },
    }
}

/// Parse a string of TL language schema into the chosen syntax tree node.
/// The node has to take up the whole string, but for whitespace behind it.
/// Offsets count from 1 at the first byte of the string.
pub fn parse_str<T: Synom>(s: &str) -> (r: ParseResult<T>)
    requires
        s.spec_bytes().len() < usize::MAX,
    ensures
        match whole(T::grammar(s.spec_bytes()), s.spec_bytes()) {
            Parsed::Done { value, .. } => r matches Ok(node) && node@ == value,
            Parsed::Fail { kind, begin, end } => r matches Err(e) && e@ == (
                kind,
                (1 + begin, 1 + end),
            ),
        },
{
    let input = Cursor::new(s);
    match T::parse_cursor(input) {
        Ok((rest, node)) => {
            let behind = rest.skip_whitespace();
            proof {
                let len = T::grammar(s.spec_bytes())->len;
                lemma_follows(input, rest, behind, len, whitespace_run(s.spec_bytes().skip(len)));
            }
            if behind.at_eof() {
                Ok(node)
            } else {
                behind.error(ParseErrorKind::TrailingInput)
            }
        },
        Err(e) => Err(e),
    }
}

} // verus!
