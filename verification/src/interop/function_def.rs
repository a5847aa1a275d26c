//! Function definitions, grouped by namespace.

use vstd::prelude::*;
use crate::ident::valid_ident_text;
use crate::interop::field::{lower_params, Field, FieldModel};
use crate::interop::ident::Ident;
use crate::interop::ty::lemma_names;
use crate::interop::utils::{
    empty_namespace, inserted, lemma_position_is, names_of, next_mode, path_idents, position_of,
    same_text, step_mode, texts_of, LoweringError, Namespace, TraversalMode,
};
use crate::interop::path::Path;
use crate::interop::ty::only_segment;
use crate::item::{CombinatorModel, Item, ItemCombinator, ItemModel};
use crate::param::{FieldsModel, OptParam};
use crate::path::{ParameterizedPathModel, SafeParameterizedPath, SafeParameterizedPathModel};
use crate::synom::views;
use crate::ty::TypeModel;

verus! {

/// The function definitions of one namespace, and the namespaces inside it.
/// No two of these namespaces have the same name.
#[derive(Debug, PartialEq, Eq)]
pub struct FunctionDefNamespace {
    pub name: Ident,
    pub function_defs: Vec<FunctionDef>,
    pub namespaces: Vec<FunctionDefNamespace>,
}

/// The definition of a function: its name, its id, the names of its type
/// parameters, its fields and the type of its result.
#[derive(Debug, PartialEq, Eq)]
pub struct FunctionDef {
    pub name: Ident,
    pub id: u32,
    pub generics: Vec<Ident>,
    pub fields: Vec<Field>,
    pub return_type: Path,
}

/// What a function definition says.
pub ghost struct FunctionDefModel {
    pub name: Seq<char>,
    pub id: u32,
    pub generics: Seq<Seq<char>>,
    pub fields: Seq<FieldModel>,
    pub return_type: ParameterizedPathModel,
}

impl View for FunctionDef {
    type V = FunctionDefModel;

    open spec fn view(&self) -> FunctionDefModel {
        FunctionDefModel {
            name: self.name@,
            id: self.id,
            generics: views(self.generics@),
            fields: views(self.fields@),
            return_type: self.return_type@,
        }
    }
}

/// What `ns` says.
pub open spec fn function_namespace(ns: FunctionDefNamespace) -> Namespace<
    FunctionDefModel,
>
    decreases ns,
{
    Namespace {
        name: ns.name@,
        defs: views(ns.function_defs@),
        namespaces: function_namespaces(ns.namespaces@),
    }
}

/// What each namespace of `list` says.
pub open spec fn function_namespaces(list: Seq<FunctionDefNamespace>) -> Seq<
    Namespace<FunctionDefModel>,
>
    decreases list,
{
    Seq::new(
        list.len(),
        |i: int|
            if 0 <= i < list.len() {
                function_namespace(list[i])
            } else {
                empty_namespace(Seq::empty())
            },
    )
}

impl View for FunctionDefNamespace {
    type V = Namespace<FunctionDefModel>;

    open spec fn view(&self) -> Namespace<FunctionDefModel> {
        function_namespace(*self)
    }
}

/// Whether `ty` is the type of types, `Type`: an optional field of this
/// type declares type parameters.
pub open spec fn type_of_types(ty: TypeModel) -> bool {
    ty matches TypeModel::ParameterizedPath(
        SafeParameterizedPathModel::SpaceImmune { path, args },
    ) && args is None && path.items == seq!["Type"@]
}

/// The names of the type parameters that the optional fields `fields`
/// declare: the names of each field of the type `Type`.
pub open spec fn generics_of(fields: Seq<FieldsModel>) -> Seq<Seq<char>>
    decreases fields.len(),
{
    if fields.len() == 0 {
        Seq::empty()
    } else {
        generics_of(fields.drop_last()) + (if type_of_types(fields.last().ty) {
            fields.last().names
        } else {
            Seq::empty()
        })
    }
}

/// The definition of the function that a combinator declares: named by the
/// last segment of the combinator's name, with the combinator's id, type
/// parameters, fields and result type.
pub open spec fn lower_function(c: CombinatorModel) -> Result<FunctionDefModel, LoweringError> {
    if c.name.items.len() == 0 {
        Err(LoweringError::EmptyPath)
    } else {
        match c.id {
            None => Err(LoweringError::MissingId),
            Some(id) => match lower_params(c.params, 0) {
                Err(e) => Err(e),
                Ok(fields) => Ok(
                    FunctionDefModel {
                        name: c.name.items.last(),
                        id,
                        generics: generics_of(c.opt_params),
                        fields,
                        return_type: c.result_type,
                    },
                ),
            },
        }
    }
}

/// What walking one more item comes to, from the section `state.0` and the
/// namespace `state.1`: a combinator in the section of functions puts its
/// function where its name leads; a delimiter begins the other section;
/// anything else changes nothing.
pub open spec fn function_step(
    state: (TraversalMode, Namespace<FunctionDefModel>),
    item: ItemModel,
) -> Result<(TraversalMode, Namespace<FunctionDefModel>), LoweringError> {
    match item {
        ItemModel::Combinator(c) => if state.0 == TraversalMode::Functions && c.name.items.len()
            > 0 {
            match lower_function(c) {
                Err(e) => Err(e),
                Ok(def) => Ok((state.0, inserted(state.1, c.name.items, def))),
            }
        } else {
            Ok(state)
        },
        ItemModel::Delimiter(d) => match next_mode(state.0, d) {
            Some(mode) => Ok((mode, state.1)),
            None => Err(LoweringError::WrongDelimiter),
        },
        _ => Ok(state),
    }
}

/// What walking the items `items` comes to, from before the first delimiter and
/// the empty namespace `functions`.
pub open spec fn function_walk(items: Seq<ItemModel>) -> Result<
    (TraversalMode, Namespace<FunctionDefModel>),
    LoweringError,
>
    decreases items.len(),
{
    if items.len() == 0 {
        Ok((TraversalMode::Start, empty_namespace("functions"@)))
    } else {
        match function_walk(items.drop_last()) {
            Err(e) => Err(e),
            Ok(state) => function_step(state, items.last()),
        }
    }
}

/// Whether `ty` is the type of types, `Type`.
pub fn is_type_of_types(ty: &crate::ty::Type) -> (r: bool)
    ensures
        r == type_of_types(ty@),
{
    match ty {
        crate::ty::Type::ParameterizedPath(p) => match &p.safe_parameterized_path {
            SafeParameterizedPath::SpaceImmune(space_immune) => {
                if space_immune.args.is_some() {
                    return false;
                }
                match only_segment(&space_immune.path) {
                    Some(ident) => {
                        let same = same_text(ident.as_str(), "Type");
                        proof {
                            assert(space_immune.path@.items =~= seq![ident@]);
                            if !same {
                                assert(seq![ident@][0] != seq!["Type"@][0]);
                            }
                        }
                        same
                    },
                    None => {
                        proof {
                            assert(seq!["Type"@].len() == 1);
                        }
                        false
                    },
                }
            },
            SafeParameterizedPath::Parenthesized(_) => false,
        },
        _ => false,
    }
}

impl FunctionDef {
    /// The definition of the function that `combinator` declares.
    pub fn from_tl_combinator(combinator: &ItemCombinator) -> (r: Result<
        FunctionDef,
        LoweringError,
    >)
        ensures
            match lower_function(combinator@) {
                Ok(def) => r matches Ok(d) && d@ == def,
                Err(e) => r == Err::<FunctionDef, LoweringError>(e),
            },
    {
        let name = match Ident::from_path_last_segment(&combinator.name) {
            Some(name) => name,
            None => { return Err(LoweringError::EmptyPath); },
        };
        let id = match &combinator.combinator_id {
            Some(i) => i.id.id,
            None => { return Err(LoweringError::MissingId); },
        };
        let generics = Self::generics(&combinator.opt_params);
        let fields = match Field::from_tl_params(&combinator.params) {
            Ok(fields) => fields,
            Err(e) => { return Err(e); },
        };
        let return_type = Path(combinator.result_type.clone());
        Ok(FunctionDef { name, id, generics, fields, return_type })
    }

    /// The names of the type parameters that `opt_params` declare.
    fn generics(opt_params: &Vec<OptParam>) -> (generics: Vec<Ident>)
        ensures
            views(generics@) == generics_of(views(opt_params@)),
    {
        let mut generics: Vec<Ident> = Vec::new();
        let ghost all = views(opt_params@);
        let mut i: usize = 0;
        proof {
            assert(all.take(0) =~= Seq::empty());
            assert(views(generics@) =~= Seq::empty());
        }
        while i < opt_params.len()
            invariant
                i <= opt_params.len(),
                all == views(opt_params@),
                views(generics@) == generics_of(all.take(i as int)),
            decreases opt_params.len() - i,
        {
            let opt_param = &opt_params[i];
            proof {
                assert(all.take(i as int + 1).drop_last() =~= all.take(i as int));
                assert(all.take(i as int + 1).last() == opt_param@);
            }
            if is_type_of_types(&opt_param.ty) {
                let ghost before = views(generics@);
                let mut k: usize = 0;
                proof {
                    assert(opt_param@.names.take(0) =~= Seq::empty());
                    assert(before + Seq::<Seq<char>>::empty() =~= before);
                }
                while k < opt_param.var_idents.len()
                    invariant
                        k <= opt_param.var_idents.len(),
                        views(generics@) == before + opt_param@.names.take(k as int),
                    decreases opt_param.var_idents.len() - k,
                {
                    let ghost sofar = views(generics@);
                    let ident = Ident(opt_param.var_idents[k].clone());
                    generics.push(ident);
                    proof {
                        assert(opt_param@.names.take(k as int + 1) =~= opt_param@.names.take(
                            k as int,
                        ).push(ident@));
                        assert(views(generics@) =~= sofar.push(ident@));
                        assert(before + opt_param@.names.take(k as int + 1) =~= (before
                            + opt_param@.names.take(k as int)).push(ident@));
                    }
                    k += 1;
                }
                proof {
                    assert(opt_param@.names.take(k as int) =~= opt_param@.names);
                }
            } else {
                proof {
                    assert(views(generics@) + Seq::<Seq<char>>::empty() =~= views(generics@));
                }
            }
            i += 1;
        }
        proof {
            assert(all.take(i as int) =~= all);
        }
        generics
    }
}

impl FunctionDefNamespace {
    /// The empty namespace `name`, if that is a valid identifier.
    pub fn with_str(name: &str) -> (r: Option<FunctionDefNamespace>)
        ensures
            r is Some <==> valid_ident_text(name@),
            r matches Some(ns) ==> ns@ == empty_namespace::<FunctionDefModel>(name@),
    {
        match Ident::with_str(name) {
            Some(ident) => Some(Self::with_ident(ident)),
            None => None,
        }
    }

    /// The empty namespace `name`.
    pub fn with_tl_ident(name: crate::ident::Ident) -> (r: FunctionDefNamespace)
        ensures
            r@ == empty_namespace::<FunctionDefModel>(name@),
    {
        Self::with_ident(Ident(name))
    }

    /// The empty namespace `name`.
    pub fn with_ident(name: Ident) -> (r: FunctionDefNamespace)
        ensures
            r@ == empty_namespace::<FunctionDefModel>(name@),
    {
        let r = FunctionDefNamespace {
            name,
            function_defs: Vec::new(),
            namespaces: Vec::new(),
        };
        proof {
            assert(r@.defs =~= Seq::empty());
            assert(r@.namespaces =~= Seq::empty());
        }
        r
    }

    /// The position of the namespace `name` among those right inside this
    /// one, or their number where there is none of that name.
    fn find(&self, name: &crate::ident::Ident) -> (k: usize)
        ensures
            k as int == position_of(names_of(self@.namespaces), name@),
            k <= self.namespaces@.len(),
    {
        reveal_with_fuel(function_namespace, 2);
        let ghost names = names_of(self@.namespaces);
        let mut k: usize = 0;
        while k < self.namespaces.len()
            invariant
                k <= self.namespaces.len(),
                names == names_of(self@.namespaces),
                forall|i: int| 0 <= i < k ==> names[i] != name@,
            decreases self.namespaces.len() - k,
        {
            proof {
                reveal_with_fuel(function_namespace, 2);
                assert(self@.namespaces == function_namespaces(self.namespaces@));
                assert(self@.namespaces[k as int] == function_namespace(
                    self.namespaces@[k as int],
                ));
                assert(names[k as int] == self.namespaces@[k as int].name@);
            }
            if same_text(self.namespaces[k].name.as_str(), name.as_str()) {
                proof {
                    lemma_position_is(names, name@, k as int);
                }
                return k;
            }
            k += 1;
        }
        proof {
            lemma_position_is(names, name@, k as int);
        }
        k
    }

    /// Put `def` where the path `names`, from its segment `depth` on,
    /// leads.
    fn insert(self, names: &Vec<&crate::ident::Ident>, depth: usize, def: FunctionDef) -> (r:
        FunctionDefNamespace)
        requires
            depth < names@.len(),
        ensures
            r@ == inserted(self@, texts_of(names@).skip(depth as int), def@),
        decreases names@.len() - depth,
    {
        let ghost segments = texts_of(names@).skip(depth as int);
        let mut ns = self;
        if depth == names.len() - 1 {
            ns.function_defs.push(def);
            proof {
                assert(ns@.defs =~= self@.defs.push(def@));
            }
            ns
        } else {
            let k = ns.find(names[depth]);
            if k == ns.namespaces.len() {
                ns.namespaces.push(Self::with_tl_ident(names[depth].clone()));
            }
            let ghost children = ns@.namespaces;
            let child = ns.namespaces.remove(k);
            let child = child.insert(names, depth + 1, def);
            ns.namespaces.insert(k, child);
            proof {
                assert(segments[0] == names@[depth as int]@);
                assert(segments.drop_first() =~= texts_of(names@).skip(depth as int + 1));
                if k as int == self@.namespaces.len() {
                    assert(children =~= self@.namespaces.push(empty_namespace(segments[0])));
                } else {
                    assert(children =~= self@.namespaces);
                }
                assert(ns@.namespaces =~= children.update(
                    k as int,
                    inserted(children[k as int], segments.drop_first(), def@),
                ));
            }
            ns
        }
    }

    /// The namespaces of the functions that the combinators of `items`
    /// declare in the sections of functions.
    pub fn from_tl_items(items: &Vec<Item>) -> (r: Result<FunctionDefNamespace, LoweringError>)
        ensures
            match function_walk(views(items@)) {
                Ok(state) => r matches Ok(ns) && ns@ == state.1,
                Err(e) => r == Err::<FunctionDefNamespace, LoweringError>(e),
            },
            r matches Ok(ns) ==> crate::interop::utils::well_named(ns@),
    {
        proof {
            lemma_names();
            lemma_function_walk_named(views(items@));
        }
        let ghost all = views(items@);
        let mut mode = TraversalMode::Start;
        let mut function_def_ns = Self::with_str("functions").unwrap();
        let mut i: usize = 0;
        proof {
            assert(all.take(0) =~= Seq::empty());
        }
        while i < items.len()
            invariant
                i <= items.len(),
                all == views(items@),
                function_walk(all.take(i as int)) == Ok::<
                    (TraversalMode, Namespace<FunctionDefModel>),
                    LoweringError,
                >((mode, function_def_ns@)),
            decreases items.len() - i,
        {
            proof {
                assert(all.take(i as int + 1).drop_last() =~= all.take(i as int));
                assert(all.take(i as int + 1).last() == items@[i as int]@);
                assert(all.take(items@.len() as int) =~= all);
                lemma_function_walk_fails(all, i as int + 1);
            }
            match &items[i] {
                Item::Combinator(combinator) => match mode {
                    TraversalMode::Start => {},
                    TraversalMode::Types => {},
                    TraversalMode::Functions => {
                        let names = path_idents(&combinator.name);
                        proof {
                            assert(texts_of(names@) =~= combinator@.name.items);
                            assert(texts_of(names@).skip(0) =~= texts_of(names@));
                        }
                        if names.len() > 0 {
                            let def = match FunctionDef::from_tl_combinator(combinator) {
                                Ok(def) => def,
                                Err(e) => { return Err(e); },
                            };
                            function_def_ns = function_def_ns.insert(&names, 0, def);
                        }
                    },
                },
                Item::Delimiter(delimiter) => {
                    mode = match step_mode(mode, &delimiter.delimiter) {
                        Ok(m) => m,
                        Err(e) => { return Err(e); },
                    };
                },
                Item::Layer(_) => {},
                Item::Comment(_) => {},
            }
            i += 1;
        }
        proof {
            assert(all.take(i as int) =~= all);
        }
        Ok(function_def_ns)
    }
}

/// A walk that fails on the first items of a list fails in the same way on
/// the whole list.
pub proof fn lemma_function_walk_fails(items: Seq<ItemModel>, n: int)
    requires
        0 <= n <= items.len(),
    ensures
        function_walk(items.take(n)) matches Err(e) ==> function_walk(items) == Err::<
            (TraversalMode, Namespace<FunctionDefModel>),
            LoweringError,
        >(e),
    decreases items.len() - n,
{
    if n < items.len() {
        assert(items.take(n + 1).drop_last() =~= items.take(n));
        lemma_function_walk_fails(items, n + 1);
    } else {
        assert(items.take(n) =~= items);
    }
}

/// No two namespaces that a walk makes inside one namespace have the same
/// name.
pub proof fn lemma_function_walk_named(items: Seq<ItemModel>)
    ensures
        function_walk(items) matches Ok(state) ==> crate::interop::utils::well_named(state.1),
    decreases items.len(),
{
    if items.len() == 0 {
        assert(crate::interop::utils::names_of(
            empty_namespace::<FunctionDefModel>("functions"@).namespaces,
        ) =~= Seq::<Seq<char>>::empty());
    } else {
        lemma_function_walk_named(items.drop_last());
        if let Ok(state) = function_walk(items.drop_last()) {
            if let ItemModel::Combinator(c) = items.last() {
                if let Ok(def) = lower_function(c) {
                    crate::interop::utils::lemma_inserted_named(state.1, c.name.items, def);
                }
            }
        }
    }
}

} // verus!
