//! Constructor definitions, grouped by namespace.

use vstd::prelude::*;
use crate::ident::valid_ident_text;
use crate::interop::field::{lower_params, Field, FieldModel};
use crate::interop::ident::Ident;
use crate::interop::ty::lemma_names;
use crate::interop::utils::{
    in_types, empty_namespace, inserted, lemma_position_is, names_of, next_mode, path_idents,
    position_of, same_text, step_mode, texts_of, LoweringError, Namespace, TraversalMode,
};
use crate::item::{CombinatorModel, Item, ItemCombinator, ItemModel};
use crate::synom::views;

verus! {

/// The constructor definitions of one namespace, and the namespaces inside
/// it. No two of these namespaces have the same name.
#[derive(Debug, PartialEq, Eq)]
pub struct ConstructorDefNamespace {
    pub name: Ident,
    pub constructor_defs: Vec<ConstructorDef>,
    pub namespaces: Vec<ConstructorDefNamespace>,
}

/// The definition of a constructor: its name and its fields.
#[derive(Debug, PartialEq, Eq)]
pub struct ConstructorDef {
    pub name: Ident,
    pub fields: Vec<Field>,
}

/// What a constructor definition says.
pub ghost struct ConstructorDefModel {
    pub name: Seq<char>,
    pub fields: Seq<FieldModel>,
}

impl View for ConstructorDef {
    type V = ConstructorDefModel;

    open spec fn view(&self) -> ConstructorDefModel {
        ConstructorDefModel { name: self.name@, fields: views(self.fields@) }
    }
}

/// What `ns` says.
pub open spec fn constructor_namespace(ns: ConstructorDefNamespace) -> Namespace<
    ConstructorDefModel,
>
    decreases ns,
{
    Namespace {
        name: ns.name@,
        defs: views(ns.constructor_defs@),
        namespaces: constructor_namespaces(ns.namespaces@),
    }
}

/// What each namespace of `list` says.
pub open spec fn constructor_namespaces(list: Seq<ConstructorDefNamespace>) -> Seq<
    Namespace<ConstructorDefModel>,
>
    decreases list,
{
    Seq::new(
        list.len(),
        |i: int|
            if 0 <= i < list.len() {
                constructor_namespace(list[i])
            } else {
                empty_namespace(Seq::empty())
            },
    )
}

impl View for ConstructorDefNamespace {
    type V = Namespace<ConstructorDefModel>;

    open spec fn view(&self) -> Namespace<ConstructorDefModel> {
        constructor_namespace(*self)
    }
}

/// The definition of the constructor that a combinator declares: named by
/// the last segment of the combinator's name, with the combinator's fields.
pub open spec fn lower_constructor(c: CombinatorModel) -> Result<
    ConstructorDefModel,
    LoweringError,
> {
    if c.name.items.len() == 0 {
        Err(LoweringError::EmptyPath)
    } else {
        match lower_params(c.params, 0) {
            Err(e) => Err(e),
            Ok(fields) => Ok(ConstructorDefModel { name: c.name.items.last(), fields }),
        }
    }
}

/// Whether a combinator of this name declares one of the constructors that
/// the target language has by itself, which are left out.
pub open spec fn built_in_constructor(name: Seq<Seq<char>>) -> bool {
    name.len() == 1 && (name[0] == "boolFalse"@ || name[0] == "boolTrue"@ || name[0] == "true"@
        || name[0] == "vector"@)
}

/// What walking one more item comes to, from the section `state.0` and the
/// namespace `state.1`: a combinator in the section of types, unless it is
/// built in, puts its constructor where its name leads; a delimiter begins
/// the other section; anything else changes nothing.
pub open spec fn constructor_step(
    state: (TraversalMode, Namespace<ConstructorDefModel>),
    item: ItemModel,
) -> Result<(TraversalMode, Namespace<ConstructorDefModel>), LoweringError> {
    match item {
        ItemModel::Combinator(c) => if in_types(state.0) && !built_in_constructor(
            c.name.items,
        ) && c.name.items.len() > 0 {
            match lower_constructor(c) {
                Err(e) => Err(e),
                Ok(def) => Ok((state.0, inserted(state.1, c.name.items, def))),
            }
        } else {
            Ok(state)
        },
        ItemModel::Delimiter(d) => match next_mode(state.0, d) {
            Some(mode) => Ok((mode, state.1)),
            None => Err(LoweringError::WrongDelimiter),
        },
        _ => Ok(state),
    }
}

/// What walking the items `items` comes to, from before the first delimiter and
/// the empty namespace `constructors`.
pub open spec fn constructor_walk(items: Seq<ItemModel>) -> Result<
    (TraversalMode, Namespace<ConstructorDefModel>),
    LoweringError,
>
    decreases items.len(),
{
    if items.len() == 0 {
        Ok((TraversalMode::Start, empty_namespace("constructors"@)))
    } else {
        match constructor_walk(items.drop_last()) {
            Err(e) => Err(e),
            Ok(state) => constructor_step(state, items.last()),
        }
    }
}

impl ConstructorDef {
    /// The definition of the constructor that `combinator` declares.
    pub fn from_tl_combinator(combinator: &ItemCombinator) -> (r: Result<
        ConstructorDef,
        LoweringError,
    >)
        ensures
            match lower_constructor(combinator@) {
                Ok(def) => r matches Ok(d) && d@ == def,
                Err(e) => r == Err::<ConstructorDef, LoweringError>(e),
            },
    {
        let name = match Ident::from_path_last_segment(&combinator.name) {
            Some(name) => name,
            None => { return Err(LoweringError::EmptyPath); },
        };
        match Field::from_tl_params(&combinator.params) {
            Ok(fields) => Ok(ConstructorDef { name, fields }),
            Err(e) => Err(e),
        }
    }
}

impl ConstructorDefNamespace {
    /// The empty namespace `name`, if that is a valid identifier.
    pub fn with_str(name: &str) -> (r: Option<ConstructorDefNamespace>)
        ensures
            r is Some <==> valid_ident_text(name@),
            r matches Some(ns) ==> ns@ == empty_namespace::<ConstructorDefModel>(name@),
    {
        match Ident::with_str(name) {
            Some(ident) => Some(Self::with_ident(ident)),
            None => None,
        }
    }

    /// The empty namespace `name`.
    pub fn with_tl_ident(name: crate::ident::Ident) -> (r: ConstructorDefNamespace)
        ensures
            r@ == empty_namespace::<ConstructorDefModel>(name@),
    {
        Self::with_ident(Ident(name))
    }

    /// The empty namespace `name`.
    pub fn with_ident(name: Ident) -> (r: ConstructorDefNamespace)
        ensures
            r@ == empty_namespace::<ConstructorDefModel>(name@),
    {
        let r = ConstructorDefNamespace {
            name,
            constructor_defs: Vec::new(),
            namespaces: Vec::new(),
        };
        proof {
            assert(r@.defs =~= Seq::empty());
            assert(r@.namespaces =~= Seq::empty());
        }
        r
    }

    /// The position of the namespace `name` among those right inside this
    /// one, or their number where there is none of that name.
    fn find(&self, name: &crate::ident::Ident) -> (k: usize)
        ensures
            k as int == position_of(names_of(self@.namespaces), name@),
            k <= self.namespaces@.len(),
    {
        reveal_with_fuel(constructor_namespace, 2);
        let ghost names = names_of(self@.namespaces);
        let mut k: usize = 0;
        while k < self.namespaces.len()
            invariant
                k <= self.namespaces.len(),
                names == names_of(self@.namespaces),
                forall|i: int| 0 <= i < k ==> names[i] != name@,
            decreases self.namespaces.len() - k,
        {
            proof {
                reveal_with_fuel(constructor_namespace, 2);
                assert(self@.namespaces == constructor_namespaces(self.namespaces@));
                assert(self@.namespaces[k as int] == constructor_namespace(
                    self.namespaces@[k as int],
                ));
                assert(names[k as int] == self.namespaces@[k as int].name@);
            }
            if same_text(self.namespaces[k].name.as_str(), name.as_str()) {
                proof {
                    lemma_position_is(names, name@, k as int);
                }
                return k;
            }
            k += 1;
        }
        proof {
            lemma_position_is(names, name@, k as int);
        }
        k
    }

    /// Put `def` where the path `names`, from its segment `depth` on,
    /// leads.
    fn insert(self, names: &Vec<&crate::ident::Ident>, depth: usize, def: ConstructorDef) -> (r:
        ConstructorDefNamespace)
        requires
            depth < names@.len(),
        ensures
            r@ == inserted(self@, texts_of(names@).skip(depth as int), def@),
        decreases names@.len() - depth,
    {
        let ghost segments = texts_of(names@).skip(depth as int);
        let mut ns = self;
        if depth == names.len() - 1 {
            ns.constructor_defs.push(def);
            proof {
                assert(ns@.defs =~= self@.defs.push(def@));
            }
            ns
        } else {
            let k = ns.find(names[depth]);
            if k == ns.namespaces.len() {
                ns.namespaces.push(Self::with_tl_ident(names[depth].clone()));
            }
            let ghost children = ns@.namespaces;
            let child = ns.namespaces.remove(k);
            let child = child.insert(names, depth + 1, def);
            ns.namespaces.insert(k, child);
            proof {
                assert(segments[0] == names@[depth as int]@);
                assert(segments.drop_first() =~= texts_of(names@).skip(depth as int + 1));
                if k as int == self@.namespaces.len() {
                    assert(children =~= self@.namespaces.push(empty_namespace(segments[0])));
                } else {
                    assert(children =~= self@.namespaces);
                }
                assert(ns@.namespaces =~= children.update(
                    k as int,
                    inserted(children[k as int], segments.drop_first(), def@),
                ));
            }
            ns
        }
    }

    /// The namespaces of the constructors that the combinators of `items`
    /// declare in the sections of types.
    pub fn from_tl_items(items: &Vec<Item>) -> (r: Result<ConstructorDefNamespace, LoweringError>)
        ensures
            match constructor_walk(views(items@)) {
                Ok(state) => r matches Ok(ns) && ns@ == state.1,
                Err(e) => r == Err::<ConstructorDefNamespace, LoweringError>(e),
            },
            r matches Ok(ns) ==> crate::interop::utils::well_named(ns@),
    {
        proof {
            lemma_names();
            lemma_constructor_walk_named(views(items@));
        }
        let ghost all = views(items@);
        let mut mode = TraversalMode::Start;
        let mut constructor_def_ns = Self::with_str("constructors").unwrap();
        let mut i: usize = 0;
        proof {
            assert(all.take(0) =~= Seq::empty());
        }
        while i < items.len()
            invariant
                i <= items.len(),
                all == views(items@),
                constructor_walk(all.take(i as int)) == Ok::<
                    (TraversalMode, Namespace<ConstructorDefModel>),
                    LoweringError,
                >((mode, constructor_def_ns@)),
            decreases items.len() - i,
        {
            proof {
                assert(all.take(i as int + 1).drop_last() =~= all.take(i as int));
                assert(all.take(i as int + 1).last() == items@[i as int]@);
                assert(all.take(items@.len() as int) =~= all);
                lemma_walk_fails(all, i as int + 1);
            }
            match &items[i] {
                Item::Combinator(combinator) => match mode {
                    TraversalMode::Functions => {},
                    _ => {
                        let names = path_idents(&combinator.name);
                        proof {
                            assert(texts_of(names@) =~= combinator@.name.items);
                            assert(texts_of(names@).skip(0) =~= texts_of(names@));
                        }
                        let built_in = names.len() == 1 && (same_text(names[0].as_str(), "boolFalse")
                            || same_text(names[0].as_str(), "boolTrue") || same_text(
                            names[0].as_str(),
                            "true",
                        ) || same_text(names[0].as_str(), "vector"));
                        if !built_in && names.len() > 0 {
                            let def = match ConstructorDef::from_tl_combinator(combinator) {
                                Ok(def) => def,
                                Err(e) => { return Err(e); },
                            };
                            constructor_def_ns = constructor_def_ns.insert(&names, 0, def);
                        }
                    },
                },
                Item::Delimiter(delimiter) => {
                    mode = match step_mode(mode, &delimiter.delimiter) {
                        Ok(m) => m,
                        Err(e) => { return Err(e); },
                    };
                },
                Item::Layer(_) => {},
                Item::Comment(_) => {},
            }
            i += 1;
        }
        proof {
            assert(all.take(i as int) =~= all);
        }
        Ok(constructor_def_ns)
    }
}

/// A walk that fails on the first items of a list fails in the same way on
/// the whole list.
pub proof fn lemma_walk_fails(items: Seq<ItemModel>, n: int)
    requires
        0 <= n <= items.len(),
    ensures
        constructor_walk(items.take(n)) matches Err(e) ==> constructor_walk(items) == Err::<
            (TraversalMode, Namespace<ConstructorDefModel>),
            LoweringError,
        >(e),
    decreases items.len() - n,
{
    if n < items.len() {
        assert(items.take(n + 1).drop_last() =~= items.take(n));
        lemma_walk_fails(items, n + 1);
    } else {
        assert(items.take(n) =~= items);
    }
}

/// No two namespaces that a walk makes inside one namespace have the same
/// name.
pub proof fn lemma_constructor_walk_named(items: Seq<ItemModel>)
    ensures
        constructor_walk(items) matches Ok(state) ==> crate::interop::utils::well_named(state.1),
    decreases items.len(),
{
    if items.len() == 0 {
        assert(crate::interop::utils::names_of(
            empty_namespace::<ConstructorDefModel>("constructors"@).namespaces,
        ) =~= Seq::<Seq<char>>::empty());
    } else {
        lemma_constructor_walk_named(items.drop_last());
        if let Ok(state) = constructor_walk(items.drop_last()) {
            if let ItemModel::Combinator(c) = items.last() {
                if let Ok(def) = lower_constructor(c) {
                    crate::interop::utils::lemma_inserted_named(state.1, c.name.items, def);
                }
            }
        }
    }
}

} // verus!
