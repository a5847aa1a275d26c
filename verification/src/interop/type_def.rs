//! Type definitions, grouped by namespace.

use vstd::prelude::*;
use crate::ident::valid_ident_text;
use crate::interop::constructor_variant::{lower_variant, ConstructorVariant, VariantModel};
use crate::interop::ident::Ident;
use crate::interop::ty::lemma_names;
use crate::interop::utils::{
    distinct, lemma_distinct_push, lemma_position_of,
    in_types,
    lemma_position_is, next_mode, path_idents, position_of, same_text, step_mode, texts_of,
    LoweringError, TraversalMode,
};
use crate::item::{Item, ItemModel};
use crate::synom::views;

verus! {

/// The type definitions of one namespace, and the namespaces inside it. No
/// two of the type definitions have the same name, and no two of the
/// namespaces.
#[derive(Debug, PartialEq, Eq)]
pub struct TypeDefNamespace {
    pub name: Ident,
    pub type_defs: Vec<TypeDef>,
    pub namespaces: Vec<TypeDefNamespace>,
}

/// The definition of a type: its name and its constructors.
#[derive(Debug, PartialEq, Eq)]
pub struct TypeDef {
    pub name: Ident,
    pub constructor_variants: Vec<ConstructorVariant>,
}

/// What a type definition says.
pub ghost struct TypeDefModel {
    pub name: Seq<char>,
    pub variants: Seq<VariantModel>,
}

/// What a namespace of type definitions says: its name, the type
/// definitions right inside it, and the namespaces right inside it, in the
/// order in which they were met.
pub ghost struct TypeNamespace {
    pub name: Seq<char>,
    pub type_defs: Seq<TypeDefModel>,
    pub namespaces: Seq<TypeNamespace>,
}

impl View for TypeDef {
    type V = TypeDefModel;

    open spec fn view(&self) -> TypeDefModel {
        TypeDefModel { name: self.name@, variants: views(self.constructor_variants@) }
    }
}

/// The namespace `name` with nothing inside it.
pub open spec fn empty_types(name: Seq<char>) -> TypeNamespace {
    TypeNamespace { name, type_defs: Seq::empty(), namespaces: Seq::empty() }
}

/// What `ns` says.
pub open spec fn type_namespace(ns: TypeDefNamespace) -> TypeNamespace
    decreases ns,
{
    TypeNamespace {
        name: ns.name@,
        type_defs: views(ns.type_defs@),
        namespaces: type_namespaces(ns.namespaces@),
    }
}

/// What each namespace of `list` says.
pub open spec fn type_namespaces(list: Seq<TypeDefNamespace>) -> Seq<TypeNamespace>
    decreases list,
{
    Seq::new(
        list.len(),
        |i: int|
            if 0 <= i < list.len() {
                type_namespace(list[i])
            } else {
                empty_types(Seq::empty())
            },
    )
}

impl View for TypeDefNamespace {
    type V = TypeNamespace;

    open spec fn view(&self) -> TypeNamespace {
        type_namespace(*self)
    }
}

/// The names of the type definitions `defs`.
pub open spec fn def_names(defs: Seq<TypeDefModel>) -> Seq<Seq<char>> {
    Seq::new(defs.len(), |i: int| defs[i].name)
}

/// The names of the namespaces `children`.
pub open spec fn child_names(children: Seq<TypeNamespace>) -> Seq<Seq<char>> {
    Seq::new(children.len(), |i: int| children[i].name)
}

/// The type definitions `defs` with `variant` as one more constructor of
/// the type `name`, which is defined first where it is not there yet.
pub open spec fn with_variant(defs: Seq<TypeDefModel>, name: Seq<char>, variant: VariantModel)
    -> Seq<TypeDefModel> {
    let k = position_of(def_names(defs), name);
    let all = if k < defs.len() {
        defs
    } else {
        defs.push(TypeDefModel { name, variants: Seq::empty() })
    };
    all.update(k, TypeDefModel { name: all[k].name, variants: all[k].variants.push(variant) })
}

/// The namespace `ns` with `variant` put where the path `segments` leads:
/// the last segment names the type that the variant belongs to, which is
/// inside the namespace that the segments before it name, one inside the
/// other, and each of these is made where it is not there yet.
pub open spec fn type_inserted(ns: TypeNamespace, segments: Seq<Seq<char>>, variant: VariantModel)
    -> TypeNamespace
    decreases segments.len(),
{
    if segments.len() == 0 {
        ns
    } else if segments.len() == 1 {
        TypeNamespace {
            name: ns.name,
            type_defs: with_variant(ns.type_defs, segments[0], variant),
            namespaces: ns.namespaces,
        }
    } else {
        let k = position_of(child_names(ns.namespaces), segments[0]);
        let children = if k < ns.namespaces.len() {
            ns.namespaces
        } else {
            ns.namespaces.push(empty_types(segments[0]))
        };
        TypeNamespace {
            name: ns.name,
            type_defs: ns.type_defs,
            namespaces: children.update(
                k,
                type_inserted(children[k], segments.drop_first(), variant),
            ),
        }
    }
}

/// Whether a path of these segments names one of the types that the target
/// language has by itself, whose constructors are left out.
pub open spec fn built_in_type(name: Seq<Seq<char>>) -> bool {
    name.len() == 1 && (name[0] == "Bool"@ || name[0] == "True"@ || name[0] == "Vector"@)
}

/// What walking one more item comes to, from the section `state.0` and the
/// namespace `state.1`: a combinator in the section of types, unless its
/// result type is built in, puts its variant where the path of its result
/// type leads; a delimiter begins the other section; anything else changes
/// nothing.
pub open spec fn type_step(state: (TraversalMode, TypeNamespace), item: ItemModel) -> Result<
    (TraversalMode, TypeNamespace),
    LoweringError,
> {
    match item {
        ItemModel::Combinator(c) => if in_types(state.0) && !built_in_type(
            c.result_type.path.items,
        ) && c.result_type.path.items.len() > 0 {
            match lower_variant(c) {
                Err(e) => Err(e),
                Ok(variant) => Ok(
                    (state.0, type_inserted(state.1, c.result_type.path.items, variant)),
                ),
            }
        } else {
            Ok(state)
        },
        ItemModel::Delimiter(d) => match next_mode(state.0, d) {
            Some(mode) => Ok((mode, state.1)),
            None => Err(LoweringError::WrongDelimiter),
        },
        _ => Ok(state),
    }
}

/// What walking the items `items` comes to, from before the first delimiter and
/// the empty namespace `types`.
pub open spec fn type_walk(items: Seq<ItemModel>) -> Result<
    (TraversalMode, TypeNamespace),
    LoweringError,
>
    decreases items.len(),
{
    if items.len() == 0 {
        Ok((TraversalMode::Start, empty_types("types"@)))
    } else {
        match type_walk(items.drop_last()) {
            Err(e) => Err(e),
            Ok(state) => type_step(state, items.last()),
        }
    }
}

/// A walk that fails on the first items of a list fails in the same way on
/// the whole list.
pub proof fn lemma_type_walk_fails(items: Seq<ItemModel>, n: int)
    requires
        0 <= n <= items.len(),
    ensures
        type_walk(items.take(n)) matches Err(e) ==> type_walk(items) == Err::<
            (TraversalMode, TypeNamespace),
            LoweringError,
        >(e),
    decreases items.len() - n,
{
    if n < items.len() {
        assert(items.take(n + 1).drop_last() =~= items.take(n));
        lemma_type_walk_fails(items, n + 1);
    } else {
        assert(items.take(n) =~= items);
    }
}

impl TypeDefNamespace {
    /// The empty namespace `name`, if that is a valid identifier.
    pub fn with_str(name: &str) -> (r: Option<TypeDefNamespace>)
        ensures
            r is Some <==> valid_ident_text(name@),
            r matches Some(ns) ==> ns@ == empty_types(name@),
    {
        match Ident::with_str(name) {
            Some(ident) => Some(Self::with_ident(ident)),
            None => None,
        }
    }

    /// The empty namespace `name`.
    pub fn with_tl_ident(name: crate::ident::Ident) -> (r: TypeDefNamespace)
        ensures
            r@ == empty_types(name@),
    {
        Self::with_ident(Ident(name))
    }

    /// The empty namespace `name`.
    pub fn with_ident(name: Ident) -> (r: TypeDefNamespace)
        ensures
            r@ == empty_types(name@),
    {
        let r = TypeDefNamespace { name, type_defs: Vec::new(), namespaces: Vec::new() };
        proof {
            assert(r@.type_defs =~= Seq::empty());
            assert(r@.namespaces =~= Seq::empty());
        }
        r
    }

    /// The position of the namespace `name` among those right inside this
    /// one, or their number where there is none of that name.
    fn find(&self, name: &crate::ident::Ident) -> (k: usize)
        ensures
            k as int == position_of(child_names(self@.namespaces), name@),
            k <= self.namespaces@.len(),
    {
        let ghost names = child_names(self@.namespaces);
        let mut k: usize = 0;
        while k < self.namespaces.len()
            invariant
                k <= self.namespaces.len(),
                names == child_names(self@.namespaces),
                forall|i: int| 0 <= i < k ==> names[i] != name@,
            decreases self.namespaces.len() - k,
        {
            proof {
                reveal_with_fuel(type_namespace, 2);
                assert(self@.namespaces == type_namespaces(self.namespaces@));
                assert(self@.namespaces[k as int] == type_namespace(self.namespaces@[k as int]));
                assert(names[k as int] == self.namespaces@[k as int].name@);
            }
            if same_text(self.namespaces[k].name.as_str(), name.as_str()) {
                proof {
                    lemma_position_is(names, name@, k as int);
                }
                return k;
            }
            k += 1;
        }
        proof {
            lemma_position_is(names, name@, k as int);
        }
        k
    }

    /// The position of the type definition `name` among those right inside
    /// this namespace, or their number where there is none of that name.
    fn find_def(&self, name: &crate::ident::Ident) -> (k: usize)
        ensures
            k as int == position_of(def_names(self@.type_defs), name@),
            k <= self.type_defs@.len(),
    {
        let ghost names = def_names(self@.type_defs);
        let mut k: usize = 0;
        while k < self.type_defs.len()
            invariant
                k <= self.type_defs.len(),
                names == def_names(self@.type_defs),
                forall|i: int| 0 <= i < k ==> names[i] != name@,
            decreases self.type_defs.len() - k,
        {
            proof {
                assert(names[k as int] == self.type_defs@[k as int].name@);
            }
            if same_text(self.type_defs[k].name.as_str(), name.as_str()) {
                proof {
                    lemma_position_is(names, name@, k as int);
                }
                return k;
            }
            k += 1;
        }
        proof {
            lemma_position_is(names, name@, k as int);
        }
        k
    }

    /// Put `variant` where the path `names`, from its segment `depth` on,
    /// leads.
    fn insert(self, names: &Vec<&crate::ident::Ident>, depth: usize, variant: ConstructorVariant)
        -> (r: TypeDefNamespace)
        requires
            depth < names@.len(),
        ensures
            r@ == type_inserted(self@, texts_of(names@).skip(depth as int), variant@),
        decreases names@.len() - depth,
    {
        let ghost segments = texts_of(names@).skip(depth as int);
        let mut ns = self;
        proof {
            assert(segments[0] == names@[depth as int]@);
        }
        if depth == names.len() - 1 {
            let k = ns.find_def(names[depth]);
            if k == ns.type_defs.len() {
                let fresh = TypeDef {
                    name: Ident(names[depth].clone()),
                    constructor_variants: Vec::new(),
                };
                proof {
                    assert(fresh@.variants =~= Seq::empty());
                    assert(fresh@ == (TypeDefModel { name: segments[0], variants: Seq::empty() }));
                }
                ns.type_defs.push(fresh);
                proof {
                    assert(ns@.type_defs =~= self@.type_defs.push(fresh@));
                }
            }
            let ghost defs = ns@.type_defs;
            let mut def = ns.type_defs.remove(k);
            def.constructor_variants.push(variant);
            ns.type_defs.insert(k, def);
            proof {
                if k as int == self@.type_defs.len() {
                    assert(defs =~= self@.type_defs.push(
                        TypeDefModel { name: segments[0], variants: Seq::empty() },
                    ));
                } else {
                    assert(defs =~= self@.type_defs);
                }
                assert(def@.variants =~= defs[k as int].variants.push(variant@));
                assert(ns@.type_defs =~= with_variant(self@.type_defs, segments[0], variant@));
            }
            ns
        } else {
            let k = ns.find(names[depth]);
            if k == ns.namespaces.len() {
                ns.namespaces.push(Self::with_tl_ident(names[depth].clone()));
            }
            let ghost children = ns@.namespaces;
            let child = ns.namespaces.remove(k);
            let child = child.insert(names, depth + 1, variant);
            ns.namespaces.insert(k, child);
            proof {
                assert(segments.drop_first() =~= texts_of(names@).skip(depth as int + 1));
                if k as int == self@.namespaces.len() {
                    assert(children =~= self@.namespaces.push(empty_types(segments[0])));
                } else {
                    assert(children =~= self@.namespaces);
                }
                assert(ns@.namespaces =~= children.update(
                    k as int,
                    type_inserted(children[k as int], segments.drop_first(), variant@),
                ));
            }
            ns
        }
    }

    /// The namespaces of the types that the combinators of `items` give a
    /// constructor to in the sections of types.
    pub fn from_tl_items(items: &Vec<Item>) -> (r: Result<TypeDefNamespace, LoweringError>)
        ensures
            match type_walk(views(items@)) {
                Ok(state) => r matches Ok(ns) && ns@ == state.1,
                Err(e) => r == Err::<TypeDefNamespace, LoweringError>(e),
            },
            r matches Ok(ns) ==> well_named_types(ns@),
    {
        proof {
            lemma_names();
            lemma_type_walk_named(views(items@));
        }
        let ghost all = views(items@);
        let mut mode = TraversalMode::Start;
        let mut type_def_ns = Self::with_str("types").unwrap();
        let mut i: usize = 0;
        proof {
            assert(all.take(0) =~= Seq::empty());
        }
        while i < items.len()
            invariant
                i <= items.len(),
                all == views(items@),
                type_walk(all.take(i as int)) == Ok::<(TraversalMode, TypeNamespace), LoweringError>(
                    (mode, type_def_ns@),
                ),
            decreases items.len() - i,
        {
            proof {
                assert(all.take(i as int + 1).drop_last() =~= all.take(i as int));
                assert(all.take(i as int + 1).last() == items@[i as int]@);
                lemma_type_walk_fails(all, i as int + 1);
            }
            match &items[i] {
                Item::Combinator(combinator) => match mode {
                    TraversalMode::Functions => {},
                    _ => {
                        let names = path_idents(&combinator.result_type.path);
                        proof {
                            assert(texts_of(names@) =~= combinator@.result_type.path.items);
                            assert(texts_of(names@).skip(0) =~= texts_of(names@));
                        }
                        let built_in = names.len() == 1 && (same_text(names[0].as_str(), "Bool")
                            || same_text(names[0].as_str(), "True") || same_text(
                            names[0].as_str(),
                            "Vector",
                        ));
                        if !built_in && names.len() > 0 {
                            let variant = match ConstructorVariant::from_tl_combinator(combinator) {
                                Ok(variant) => variant,
                                Err(e) => { return Err(e); },
                            };
                            type_def_ns = type_def_ns.insert(&names, 0, variant);
                        }
                    },
                },
                Item::Delimiter(delimiter) => {
                    mode = match step_mode(mode, &delimiter.delimiter) {
                        Ok(m) => m,
                        Err(e) => { return Err(e); },
                    };
                },
                Item::Layer(_) => {},
                Item::Comment(_) => {},
            }
            i += 1;
        }
        proof {
            assert(all.take(i as int) =~= all);
        }
        Ok(type_def_ns)
    }
}

/// Whether no two type definitions right inside `ns` have the same name,
/// no two namespaces right inside it have, and the same holds inside each
/// of these namespaces.
pub open spec fn well_named_types(ns: TypeNamespace) -> bool
    decreases ns,
{
    distinct(def_names(ns.type_defs)) && distinct(child_names(ns.namespaces)) && forall|i: int|
        0 <= i < ns.namespaces.len() ==> well_named_types(#[trigger] ns.namespaces[i])
}

/// Giving a type one more constructor keeps the names of the type
/// definitions distinct.
pub proof fn lemma_with_variant_named(
    defs: Seq<TypeDefModel>,
    name: Seq<char>,
    variant: VariantModel,
)
    requires
        distinct(def_names(defs)),
    ensures
        distinct(def_names(with_variant(defs, name, variant))),
{
    let names = def_names(defs);
    let k = position_of(names, name);
    lemma_position_of(names, name);
    let all = if k < defs.len() {
        defs
    } else {
        defs.push(TypeDefModel { name, variants: Seq::empty() })
    };
    if k >= defs.len() {
        lemma_distinct_push(names, name);
        assert(def_names(all) =~= names.push(name));
    }
    assert(def_names(with_variant(defs, name, variant)) =~= def_names(all));
}

/// Putting a variant into a namespace keeps the name of the namespace, and
/// keeps the names inside it distinct.
pub proof fn lemma_type_inserted_named(
    ns: TypeNamespace,
    segments: Seq<Seq<char>>,
    variant: VariantModel,
)
    requires
        well_named_types(ns),
    ensures
        well_named_types(type_inserted(ns, segments, variant)),
        type_inserted(ns, segments, variant).name == ns.name,
    decreases segments.len(),
{
    if segments.len() == 1 {
        lemma_with_variant_named(ns.type_defs, segments[0], variant);
    } else if segments.len() >= 2 {
        let names = child_names(ns.namespaces);
        let k = position_of(names, segments[0]);
        lemma_position_of(names, segments[0]);
        let children = if k < ns.namespaces.len() {
            ns.namespaces
        } else {
            ns.namespaces.push(empty_types(segments[0]))
        };
        if k >= ns.namespaces.len() {
            lemma_distinct_push(names, segments[0]);
            assert(child_names(children) =~= names.push(segments[0]));
        }
        assert forall|i: int| 0 <= i < children.len() implies well_named_types(
            #[trigger] children[i],
        ) by {
            if i < ns.namespaces.len() {
                assert(children[i] == ns.namespaces[i]);
            } else {
                assert(def_names(empty_types(segments[0]).type_defs) =~= Seq::<
                    Seq<char>,
                >::empty());
                assert(child_names(empty_types(segments[0]).namespaces) =~= Seq::<
                    Seq<char>,
                >::empty());
            }
        }
        lemma_type_inserted_named(children[k], segments.drop_first(), variant);
        let after = children.update(
            k,
            type_inserted(children[k], segments.drop_first(), variant),
        );
        assert(child_names(after) =~= child_names(children));
        assert forall|i: int| 0 <= i < after.len() implies well_named_types(
            #[trigger] after[i],
        ) by {
            if i != k {
                assert(after[i] == children[i]);
            }
        }
    }
}

/// No two type definitions and no two namespaces that a walk makes inside
/// one namespace have the same name.
pub proof fn lemma_type_walk_named(items: Seq<ItemModel>)
    ensures
        type_walk(items) matches Ok(state) ==> well_named_types(state.1),
    decreases items.len(),
{
    if items.len() == 0 {
        assert(def_names(empty_types("types"@).type_defs) =~= Seq::<Seq<char>>::empty());
        assert(child_names(empty_types("types"@).namespaces) =~= Seq::<Seq<char>>::empty());
    } else {
        lemma_type_walk_named(items.drop_last());
        if let Ok(state) = type_walk(items.drop_last()) {
            if let ItemModel::Combinator(c) = items.last() {
                if let Ok(variant) = lower_variant(c) {
                    lemma_type_inserted_named(state.1, c.result_type.path.items, variant);
                }
            }
        }
    }
}

} // verus!
