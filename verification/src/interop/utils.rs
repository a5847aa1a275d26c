//! What the lowering of a schema shares between its parts.

use vstd::prelude::*;
use vstd::string::StringSliceAdditionalSpecFns;
use crate::ident::{valid_ident_text, Ident};
use crate::item::DelimiterModel;
use crate::span::Span;

verus! {

/// The section of a schema that is being walked.
#[derive(Clone, Copy, Debug, PartialEq, Eq, Structural)]
pub enum TraversalMode {
    /// No delimiter was met yet: the section of types, by default.
    Start,
    /// Behind a `---types---` delimiter.
    Types,
    /// Behind a `---functions---` delimiter.
    Functions,
}

/// Why a schema cannot be lowered.
#[derive(Clone, Copy, Debug, PartialEq, Eq, Structural)]
pub enum LoweringError {
    /// A delimiter begins the section that the delimiter before it began
    /// already.
    WrongDelimiter,
    /// A declaration that needs an id has none.
    MissingId,
    /// A declaration is named by a path without segments.
    EmptyPath,
    /// A declaration has a repeated group among its fields.
    RepeatedParam,
}

/// The section that is walked behind a delimiter, or nothing where the
/// delimiter is the same as the delimiter before it.
pub open spec fn next_mode(mode: TraversalMode, delimiter: DelimiterModel) -> Option<
    TraversalMode,
> {
    match (mode, delimiter) {
        (TraversalMode::Types, DelimiterModel::Types) => None,
        (TraversalMode::Functions, DelimiterModel::Functions) => None,
        (_, DelimiterModel::Types) => Some(TraversalMode::Types),
        (_, DelimiterModel::Functions) => Some(TraversalMode::Functions),
    }
}

/// Whether the section of types is being walked, which is the case before
/// the first delimiter too.
pub open spec fn in_types(mode: TraversalMode) -> bool {
    mode != TraversalMode::Functions
}

/// The section that is walked behind `delimiter`.
pub fn step_mode(mode: TraversalMode, delimiter: &crate::item::Delimiter) -> (r: Result<
    TraversalMode,
    LoweringError,
>)
    ensures
        match next_mode(mode, delimiter@) {
            Some(m) => r == Ok::<TraversalMode, LoweringError>(m),
            None => r == Err::<TraversalMode, LoweringError>(LoweringError::WrongDelimiter),
        },
{
    match mode {
        TraversalMode::Start => match delimiter {
            crate::item::Delimiter::Functions(_) => Ok(TraversalMode::Functions),
            crate::item::Delimiter::Types(_) => Ok(TraversalMode::Types),
        },
        TraversalMode::Types => match delimiter {
            crate::item::Delimiter::Functions(_) => Ok(TraversalMode::Functions),
            crate::item::Delimiter::Types(_) => Err(LoweringError::WrongDelimiter),
        },
        TraversalMode::Functions => match delimiter {
            crate::item::Delimiter::Types(_) => Ok(TraversalMode::Types),
            crate::item::Delimiter::Functions(_) => Err(LoweringError::WrongDelimiter),
        },
    }
}

/// The identifier `string`, found nowhere in a source text.
pub fn tl_ident_span_zeroed(string: &str) -> (r: Option<Ident>)
    ensures
        r is Some <==> valid_ident_text(string@),
        r matches Some(ident) ==> ident@ == string@,
{
    Ident::new(Span::zeroed(), string)
}

/// Whether two strings hold the same text.
pub fn same_text(a: &str, b: &str) -> (r: bool)
    ensures
        r == (a@ == b@),
{
    let x = a.as_bytes();
    let y = b.as_bytes();
    proof {
        vstd::utf8::encode_utf8_decode_utf8(a@);
        vstd::utf8::encode_utf8_decode_utf8(b@);
    }
    if x.len() != y.len() {
        return false;
    }
    let mut i: usize = 0;
    while i < x.len()
        invariant
            i <= x.len(),
            x.len() == y.len(),
            x@ == a.spec_bytes(),
            y@ == b.spec_bytes(),
            forall|k: int| 0 <= k < i ==> x@[k] == y@[k],
        decreases x.len() - i,
    {
        if x[i] != y[i] {
            return false;
        }
        i += 1;
    }
    proof {
        assert(x@ =~= y@);
    }
    true
}

/// What a namespace says: its name, the definitions right inside it, and
/// the namespaces right inside it, in the order in which they were met.
pub ghost struct Namespace<D> {
    pub name: Seq<char>,
    pub defs: Seq<D>,
    pub namespaces: Seq<Namespace<D>>,
}

/// The namespace `name` with nothing inside it.
pub open spec fn empty_namespace<D>(name: Seq<char>) -> Namespace<D> {
    Namespace { name, defs: Seq::empty(), namespaces: Seq::empty() }
}

/// The position of the first of `names` that is `name`, or the length of
/// `names` where none is.
pub open spec fn position_of(names: Seq<Seq<char>>, name: Seq<char>) -> int
    decreases names.len(),
{
    if names.len() == 0 || names[0] == name {
        0
    } else {
        1 + position_of(names.drop_first(), name)
    }
}

/// The names of the namespaces `children`.
pub open spec fn names_of<D>(children: Seq<Namespace<D>>) -> Seq<Seq<char>> {
    Seq::new(children.len(), |i: int| children[i].name)
}

/// The namespace `ns` with the definition `def` put where the path
/// `segments` leads: the last segment names the definition itself, so it
/// goes inside the namespace that the segments before it name, one inside
/// the other, and each of these is made where it is not there yet.
pub open spec fn inserted<D>(ns: Namespace<D>, segments: Seq<Seq<char>>, def: D) -> Namespace<D>
    decreases segments.len(),
{
    if segments.len() == 0 {
        ns
    } else if segments.len() == 1 {
        Namespace { name: ns.name, defs: ns.defs.push(def), namespaces: ns.namespaces }
    } else {
        let k = position_of(names_of(ns.namespaces), segments[0]);
        let children = if k < ns.namespaces.len() {
            ns.namespaces
        } else {
            ns.namespaces.push(empty_namespace(segments[0]))
        };
        Namespace {
            name: ns.name,
            defs: ns.defs,
            namespaces: children.update(k, inserted(children[k], segments.drop_first(), def)),
        }
    }
}

/// The position of a name is inside the names or their length, and no name
/// before it is that name.
pub proof fn lemma_position_of(names: Seq<Seq<char>>, name: Seq<char>)
    ensures
        0 <= position_of(names, name) <= names.len(),
        position_of(names, name) < names.len() ==> names[position_of(names, name)] == name,
        forall|i: int| 0 <= i < position_of(names, name) ==> names[i] != name,
    decreases names.len(),
{
    if names.len() == 0 || names[0] == name {
    } else {
        let rest = names.drop_first();
        lemma_position_of(rest, name);
        assert forall|i: int| 0 <= i < position_of(names, name) implies names[i] != name by {
            if i > 0 {
                assert(names[i] == rest[i - 1]);
            }
        }
    }
}

/// The position of a name is the only position at which it stands and
/// before which it does not.
pub proof fn lemma_position_is(names: Seq<Seq<char>>, name: Seq<char>, k: int)
    requires
        0 <= k <= names.len(),
        k < names.len() ==> names[k] == name,
        forall|i: int| 0 <= i < k ==> names[i] != name,
    ensures
        position_of(names, name) == k,
    decreases names.len(),
{
    if k > 0 {
        let rest = names.drop_first();
        assert(names[0] != name);
        assert forall|i: int| 0 <= i < k - 1 implies rest[i] != name by {
            assert(rest[i] == names[i + 1]);
        }
        lemma_position_is(rest, name, k - 1);
    }
}

/// The segments of `path`, in order.
pub fn path_idents(path: &crate::path::Path) -> (r: Vec<&Ident>)
    ensures
        r@.len() == path@.items.len(),
        forall|i: int| 0 <= i < r@.len() ==> (#[trigger] r@[i])@ == path@.items[i],
{
    let mut out: Vec<&Ident> = Vec::new();
    let mut i: usize = 0;
    while i < path.segments.inner.len()
        invariant
            i <= path.segments.inner.len(),
            out@.len() == i,
            forall|k: int| 0 <= k < i ==> (#[trigger] out@[k])@ == path@.items[k],
        decreases path.segments.inner.len() - i,
    {
        out.push(&path.segments.inner[i].0);
        i += 1;
    }
    match &path.segments.last {
        Some(t) => {
            let node: &Ident = &**t;
            out.push(node);
        },
        None => {},
    }
    out
}

/// The texts of the identifiers `names`.
pub open spec fn texts_of(names: Seq<&Ident>) -> Seq<Seq<char>> {
    Seq::new(names.len(), |i: int| names[i]@)
}

/// Whether no two of `names` are the same.
pub open spec fn distinct(names: Seq<Seq<char>>) -> bool {
    forall|i: int, j: int| 0 <= i < j < names.len() ==> names[i] != names[j]
}

/// Whether no two namespaces right inside `ns` have the same name, and the
/// same holds inside each of them.
pub open spec fn well_named<D>(ns: Namespace<D>) -> bool
    decreases ns,
{
    distinct(names_of(ns.namespaces)) && forall|i: int|
        0 <= i < ns.namespaces.len() ==> well_named(#[trigger] ns.namespaces[i])
}

/// Names stay distinct where a name that is not among them is put behind
/// them.
pub proof fn lemma_distinct_push(names: Seq<Seq<char>>, name: Seq<char>)
    requires
        distinct(names),
        position_of(names, name) == names.len(),
    ensures
        distinct(names.push(name)),
{
    lemma_position_of(names, name);
}

/// Putting a definition into a namespace keeps the name of the namespace,
/// and keeps the names of the namespaces inside it distinct.
pub proof fn lemma_inserted_named<D>(ns: Namespace<D>, segments: Seq<Seq<char>>, def: D)
    requires
        well_named(ns),
    ensures
        well_named(inserted(ns, segments, def)),
        inserted(ns, segments, def).name == ns.name,
    decreases segments.len(),
{
    if segments.len() >= 2 {
        let names = names_of(ns.namespaces);
        let k = position_of(names, segments[0]);
        lemma_position_of(names, segments[0]);
        let children = if k < ns.namespaces.len() {
            ns.namespaces
        } else {
            ns.namespaces.push(empty_namespace(segments[0]))
        };
        if k >= ns.namespaces.len() {
            lemma_distinct_push(names, segments[0]);
            assert(names_of(children) =~= names.push(segments[0]));
        }
        assert forall|i: int| 0 <= i < children.len() implies well_named(
            #[trigger] children[i],
        ) by {
            if i < ns.namespaces.len() {
                assert(children[i] == ns.namespaces[i]);
            } else {
                assert(names_of(empty_namespace::<D>(segments[0]).namespaces) =~= Seq::<
                    Seq<char>,
                >::empty());
            }
        }
        lemma_inserted_named(children[k], segments.drop_first(), def);
        let after = children.update(k, inserted(children[k], segments.drop_first(), def));
        assert(names_of(after) =~= names_of(children));
        assert forall|i: int| 0 <= i < after.len() implies well_named(#[trigger] after[i]) by {
            if i != k {
                assert(after[i] == children[i]);
            }
        }
    }
}

} // verus!
