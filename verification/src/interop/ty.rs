//! Types of the fields of lowered declarations.

use vstd::prelude::*;
use crate::ident::valid_ident_text;
use crate::interop::ident::Ident;
use crate::interop::path::Path;
use crate::interop::utils::{same_text, tl_ident_span_zeroed};
use crate::path::{
    path_models, plain, AngleBracketedGenericArguments, GenericArguments, GenericArgumentsModel,
    ParameterizedPath, ParameterizedPathModel, SafeParameterizedPath, SafeParameterizedPathModel,
    SafeParameterizedPathSpaceImmune, Separated,
};
use crate::punctuated::Punctuated;
use crate::token::Dot;
use crate::ty::TypeModel;

verus! {

/// The type of a field of a lowered declaration.
#[derive(Debug, PartialEq, Eq)]
pub enum Type {
    BuiltIn(TypeBuiltIn),
    Path(Path),
    Generic(Ident),
}

/// A type that the target language has by itself.
#[derive(Debug, PartialEq, Eq)]
pub enum TypeBuiltIn {
    Bool,
    True,
    Int,
    Long,
    Int128,
    Int256,
    Double,
    Bytes,
    String,
    Vector(Vec<Type>),
    VectorBoxed(Vec<Type>),
}

/// What a lowered type says.
pub ghost enum LoweredType {
    BuiltIn(LoweredBuiltIn),
    Path(ParameterizedPathModel),
    Generic(Seq<char>),
}

/// What a built-in type says.
pub ghost enum LoweredBuiltIn {
    Bool,
    True,
    Int,
    Long,
    Int128,
    Int256,
    Double,
    Bytes,
    String,
    Vector(Seq<LoweredType>),
    VectorBoxed(Seq<LoweredType>),
}

/// What `t` says.
pub open spec fn lowered_type(t: Type) -> LoweredType
    decreases t,
{
    match t {
        Type::BuiltIn(b) => LoweredType::BuiltIn(
            match b {
                TypeBuiltIn::Bool => LoweredBuiltIn::Bool,
                TypeBuiltIn::True => LoweredBuiltIn::True,
                TypeBuiltIn::Int => LoweredBuiltIn::Int,
                TypeBuiltIn::Long => LoweredBuiltIn::Long,
                TypeBuiltIn::Int128 => LoweredBuiltIn::Int128,
                TypeBuiltIn::Int256 => LoweredBuiltIn::Int256,
                TypeBuiltIn::Double => LoweredBuiltIn::Double,
                TypeBuiltIn::Bytes => LoweredBuiltIn::Bytes,
                TypeBuiltIn::String => LoweredBuiltIn::String,
                TypeBuiltIn::Vector(v) => LoweredBuiltIn::Vector(lowered_types(v@)),
                TypeBuiltIn::VectorBoxed(v) => LoweredBuiltIn::VectorBoxed(lowered_types(v@)),
            },
        ),
        Type::Path(p) => LoweredType::Path(p@),
        Type::Generic(i) => LoweredType::Generic(i@),
    }
}

/// What each type of `types` says.
pub open spec fn lowered_types(types: Seq<Type>) -> Seq<LoweredType>
    decreases types,
{
    Seq::new(
        types.len(),
        |i: int|
            if 0 <= i < types.len() {
                lowered_type(types[i])
            } else {
                LoweredType::Generic(Seq::empty())
            },
    )
}

impl View for Type {
    type V = LoweredType;

    open spec fn view(&self) -> LoweredType {
        lowered_type(*self)
    }
}

impl View for TypeBuiltIn {
    type V = LoweredBuiltIn;

    open spec fn view(&self) -> LoweredBuiltIn {
        match self {
            TypeBuiltIn::Bool => LoweredBuiltIn::Bool,
            TypeBuiltIn::True => LoweredBuiltIn::True,
            TypeBuiltIn::Int => LoweredBuiltIn::Int,
            TypeBuiltIn::Long => LoweredBuiltIn::Long,
            TypeBuiltIn::Int128 => LoweredBuiltIn::Int128,
            TypeBuiltIn::Int256 => LoweredBuiltIn::Int256,
            TypeBuiltIn::Double => LoweredBuiltIn::Double,
            TypeBuiltIn::Bytes => LoweredBuiltIn::Bytes,
            TypeBuiltIn::String => LoweredBuiltIn::String,
            TypeBuiltIn::Vector(v) => LoweredBuiltIn::Vector(lowered_types(v@)),
            TypeBuiltIn::VectorBoxed(v) => LoweredBuiltIn::VectorBoxed(lowered_types(v@)),
        }
    }
}

/// The built-in type that the name `name` alone stands for, if it stands
/// for one.
pub open spec fn primitive(name: Seq<char>) -> Option<LoweredBuiltIn> {
    if name == "Bool"@ {
        Some(LoweredBuiltIn::Bool)
    } else if name == "true"@ {
        Some(LoweredBuiltIn::True)
    } else if name == "int"@ {
        Some(LoweredBuiltIn::Int)
    } else if name == "long"@ {
        Some(LoweredBuiltIn::Long)
    } else if name == "int128"@ {
        Some(LoweredBuiltIn::Int128)
    } else if name == "int256"@ {
        Some(LoweredBuiltIn::Int256)
    } else if name == "double"@ {
        Some(LoweredBuiltIn::Double)
    } else if name == "bytes"@ {
        Some(LoweredBuiltIn::Bytes)
    } else if name == "string"@ {
        Some(LoweredBuiltIn::String)
    } else {
        None
    }
}

/// The path `path` behind the two segments `first` and `second`.
pub open spec fn prefixed(first: Seq<char>, second: Seq<char>, path: Separated<Seq<char>>)
    -> Separated<Seq<char>> {
    plain(seq![first, second] + path.items)
}

/// The lowered form of each of the parameterized paths `list`.
pub open spec fn lower_list(list: Seq<ParameterizedPathModel>) -> Seq<LoweredType>
    decreases list, 0nat,
{
    Seq::new(
        list.len(),
        |i: int|
            if 0 <= i < list.len() {
                lower_parameterized_path(list[i])
            } else {
                LoweredType::Generic(Seq::empty())
            },
    )
}

/// The lowered form of each of the generic arguments `args`.
pub open spec fn lower_arguments(args: GenericArgumentsModel) -> Seq<LoweredType>
    decreases args, 1nat,
{
    match args {
        GenericArgumentsModel::AngleBracketed(a) => lower_list(a.items),
        GenericArgumentsModel::SpaceSeparated(list) => lower_list(list),
    }
}

/// The built-in type that a parameterized path stands for, if it stands for
/// one: a path of one segment that, without arguments, is the name of a
/// primitive type or, with arguments, is `vector` or `Vector`.
pub open spec fn built_in(p: ParameterizedPathModel) -> Option<LoweredBuiltIn>
    decreases p, 2nat,
{
    if p.path.items.len() == 1 {
        match p.args {
            None => primitive(p.path.items[0]),
            Some(args) => if p.path.items[0] == "vector"@ {
                Some(LoweredBuiltIn::Vector(lower_arguments(args)))
            } else if p.path.items[0] == "Vector"@ {
                Some(LoweredBuiltIn::VectorBoxed(lower_arguments(args)))
            } else {
                None
            },
        }
    } else {
        None
    }
}

/// The lowered form of a parameterized path: the built-in type that it
/// stands for or, where it stands for none, the path behind `schema.types`.
pub open spec fn lower_parameterized_path(p: ParameterizedPathModel) -> LoweredType
    decreases p, 3nat,
{
    match built_in(p) {
        Some(b) => LoweredType::BuiltIn(b),
        None => LoweredType::Path(
            ParameterizedPathModel { path: prefixed("schema"@, "types"@, p.path), args: p.args },
        ),
    }
}

/// The lowered form of a safe parameterized path.
pub open spec fn lower_safe_path(p: SafeParameterizedPathModel) -> LoweredType {
    match p {
        SafeParameterizedPathModel::SpaceImmune { path, args } => lower_parameterized_path(
            ParameterizedPathModel {
                path,
                args: match args {
                    Some(a) => Some(GenericArgumentsModel::AngleBracketed(a)),
                    None => None,
                },
            },
        ),
        SafeParameterizedPathModel::Parenthesized(p) => lower_parameterized_path(p),
    }
}

/// The built-in type that a safe parameterized path stands for, if it
/// stands for one.
pub open spec fn built_in_safe(p: SafeParameterizedPathModel) -> Option<LoweredBuiltIn> {
    match p {
        SafeParameterizedPathModel::SpaceImmune { path, args } => built_in(
            ParameterizedPathModel {
                path,
                args: match args {
                    Some(a) => Some(GenericArgumentsModel::AngleBracketed(a)),
                    None => None,
                },
            },
        ),
        SafeParameterizedPathModel::Parenthesized(p) => built_in(p),
    }
}

/// The lowered form of a type, where it has one: `#` has none; a bare type
/// has that of the type inside it.
pub open spec fn lower_type(t: TypeModel) -> Option<LoweredType>
    decreases t,
{
    match t {
        TypeModel::Int => None,
        TypeModel::ParameterizedPath(p) => Some(lower_safe_path(p)),
        TypeModel::TypeParameter(name) => Some(LoweredType::Generic(name)),
        TypeModel::Bare(inner) => lower_type(*inner),
    }
}

/// The path `path` behind the two segments `first` and `second`.
pub fn prefixed_path(first: &str, second: &str, path: &crate::path::Path) -> (r: crate::path::Path)
    requires
        valid_ident_text(first@),
        valid_ident_text(second@),
    ensures
        r@ == prefixed(first@, second@, path@),
{
    let mut segments: Punctuated<crate::ident::Ident, Dot> = Punctuated::new();
    segments.push(tl_ident_span_zeroed(first).unwrap());
    segments.push(tl_ident_span_zeroed(second).unwrap());
    let ghost wanted = prefixed(first@, second@, path@).items;
    let ghost head = crate::synom::views(segments@.values());
    proof {
        assert(head =~= seq![first@, second@]);
    }
    let mut i: usize = 0;
    while i < path.segments.inner.len()
        invariant
            i <= path.segments.inner.len(),
            segments@.last is Some,
            crate::synom::views(segments@.values()) == seq![first@, second@] + path@.items.take(
                i as int,
            ),
        decreases path.segments.inner.len() - i,
    {
        let ghost before = segments@.values();
        let ident = path.segments.inner[i].0.clone();
        segments.push(ident);
        proof {
            assert(path@.items.take(i as int + 1) =~= path@.items.take(i as int).push(ident@));
            assert(crate::synom::views(before.push(ident)) =~= crate::synom::views(before).push(
                ident@,
            ));
            assert(crate::synom::views(segments@.values()) =~= seq![first@, second@]
                + path@.items.take(i as int + 1));
        }
        i += 1;
    }
    match &path.segments.last {
        Some(t) => {
            let ghost before = segments@.values();
            let node: &crate::ident::Ident = &**t;
            let ident = node.clone();
            segments.push(ident);
            proof {
                assert(path@.items =~= path@.items.take(i as int).push(ident@));
                assert(crate::synom::views(before.push(ident)) =~= crate::synom::views(
                    before,
                ).push(ident@));
                assert(crate::synom::views(segments@.values()) =~= wanted);
            }
        },
        None => {
            proof {
                assert(path@.items.take(i as int) =~= path@.items);
            }
        },
    }
    let r = crate::path::Path { segments };
    proof {
        assert(r@.items =~= wanted);
    }
    r
}

/// The lowered form of each of the parameterized paths of `list`.
pub fn types_from_list(list: &Vec<ParameterizedPath>) -> (r: Vec<Type>)
    ensures
        lowered_types(r@) == lower_list(path_models(list@)),
    decreases list, 0nat,
{
    let mut out: Vec<Type> = Vec::new();
    let mut i: usize = 0;
    while i < list.len()
        invariant
            i <= list.len(),
            out.len() == i,
            forall|k: int| 0 <= k < i ==> out@[k]@ == lower_parameterized_path(list@[k]@),
        decreases list.len() - i,
    {
        out.push(type_from_parameterized_path(&list[i]));
        i += 1;
    }
    proof {
        assert(lowered_types(out@) =~= lower_list(path_models(list@)));
    }
    out
}

/// The lowered form of each of the generic arguments in the angle brackets
/// `args`.
pub fn types_from_angle_bracketed(args: &AngleBracketedGenericArguments) -> (r: Vec<Type>)
    ensures
        lowered_types(r@) == lower_list(args@.items),
    decreases args, 0nat,
{
    let mut out: Vec<Type> = Vec::new();
    let mut i: usize = 0;
    while i < args.args.inner.len()
        invariant
            i <= args.args.inner.len(),
            out.len() == i,
            forall|k: int|
                0 <= k < i ==> out@[k]@ == lower_parameterized_path(args.args.inner@[k].0@),
        decreases args.args.inner.len() - i,
    {
        out.push(type_from_parameterized_path(&args.args.inner[i].0));
        i += 1;
    }
    match &args.args.last {
        Some(t) => {
            let node: &ParameterizedPath = &**t;
            out.push(type_from_parameterized_path(node));
        },
        None => {},
    }
    proof {
        assert(lowered_types(out@) =~= lower_list(args@.items));
    }
    out
}

/// The lowered form of each of the generic arguments `args`.
pub fn types_from_generic_arguments(args: &GenericArguments) -> (r: Vec<Type>)
    ensures
        lowered_types(r@) == lower_arguments(args@),
    decreases args, 1nat,
{
    match args {
        GenericArguments::AngleBracketed(a) => types_from_angle_bracketed(a),
        GenericArguments::SpaceSeparated(a) => types_from_list(&a.args),
    }
}

/// The built-in type that `name` alone stands for, if it stands for one.
pub fn built_in_from_primitive(name: &str) -> (r: Option<TypeBuiltIn>)
    ensures
        match primitive(name@) {
            Some(b) => r matches Some(t) && t@ == b,
            None => r is None,
        },
{
    if same_text(name, "Bool") {
        Some(TypeBuiltIn::Bool)
    } else if same_text(name, "true") {
        Some(TypeBuiltIn::True)
    } else if same_text(name, "int") {
        Some(TypeBuiltIn::Int)
    } else if same_text(name, "long") {
        Some(TypeBuiltIn::Long)
    } else if same_text(name, "int128") {
        Some(TypeBuiltIn::Int128)
    } else if same_text(name, "int256") {
        Some(TypeBuiltIn::Int256)
    } else if same_text(name, "double") {
        Some(TypeBuiltIn::Double)
    } else if same_text(name, "bytes") {
        Some(TypeBuiltIn::Bytes)
    } else if same_text(name, "string") {
        Some(TypeBuiltIn::String)
    } else {
        None
    }
}

/// The only segment of `path`, where it has exactly one.
pub fn only_segment(path: &crate::path::Path) -> (r: Option<&crate::ident::Ident>)
    ensures
        match r {
            Some(ident) => path@.items.len() == 1 && ident@ == path@.items[0],
            None => path@.items.len() != 1,
        },
{
    if path.segments.inner.len() == 0 {
        match &path.segments.last {
            Some(t) => {
                let node: &crate::ident::Ident = &**t;
                Some(node)
            },
            None => None,
        }
    } else if path.segments.inner.len() == 1 && path.segments.last.is_none() {
        Some(&path.segments.inner[0].0)
    } else {
        None
    }
}

/// The built-in type that `p` stands for, if it stands for one.
pub fn built_in_from_parameterized_path(p: &ParameterizedPath) -> (r: Option<TypeBuiltIn>)
    ensures
        match built_in(p@) {
            Some(b) => r matches Some(t) && t@ == b,
            None => r is None,
        },
    decreases p, 2nat,
{
    match only_segment(&p.path) {
        Some(ident) => match &p.args {
            None => built_in_from_primitive(ident.as_str()),
            Some(args) => {
                if same_text(ident.as_str(), "vector") {
                    Some(TypeBuiltIn::Vector(types_from_generic_arguments(args)))
                } else if same_text(ident.as_str(), "Vector") {
                    Some(TypeBuiltIn::VectorBoxed(types_from_generic_arguments(args)))
                } else {
                    None
                }
            },
        },
        None => None,
    }
}

/// The lowered form of `p`.
pub fn type_from_parameterized_path(p: &ParameterizedPath) -> (r: Type)
    ensures
        r@ == lower_parameterized_path(p@),
    decreases p, 3nat,
{
    match built_in_from_parameterized_path(p) {
        Some(b) => Type::BuiltIn(b),
        None => {
            proof {
                lemma_names();
            }
            let path = prefixed_path("schema", "types", &p.path);
            let args = match &p.args {
                Some(a) => Some(a.clone()),
                None => None,
            };
            Type::Path(Path(ParameterizedPath { path, args }))
        },
    }
}

/// The names that lowered paths begin with are valid identifiers.
pub proof fn lemma_names()
    ensures
        valid_ident_text("schema"@),
        valid_ident_text("types"@),
        valid_ident_text("constructors"@),
        valid_ident_text("functions"@),
{
    reveal_strlit("schema");
    reveal_strlit("types");
    reveal_strlit("constructors");
    reveal_strlit("functions");
}

/// The parameterized path that `p` is with its angle brackets, if it has
/// any, as generic arguments.
pub fn space_immune_as_path(p: &SafeParameterizedPathSpaceImmune) -> (r: ParameterizedPath)
    ensures
        r@ == (ParameterizedPathModel {
            path: p.path@,
            args: match p.args {
                Some(a) => Some(GenericArgumentsModel::AngleBracketed(a@)),
                None => None,
            },
        }),
{
    ParameterizedPath {
        path: p.path.clone(),
        args: match &p.args {
            Some(a) => Some(GenericArguments::AngleBracketed(a.clone())),
            None => None,
        },
    }
}

impl TypeBuiltIn {
    /// The built-in type that `parameterized_path` stands for, if it stands
    /// for one.
    pub fn from_tl_parameterized_path(parameterized_path: &ParameterizedPath) -> (r: Option<
        TypeBuiltIn,
    >)
        ensures
            match built_in(parameterized_path@) {
                Some(b) => r matches Some(t) && t@ == b,
                None => r is None,
            },
    {
        built_in_from_parameterized_path(parameterized_path)
    }

    /// The built-in type that `space_immune` stands for, if it stands for
    /// one.
    pub fn from_tl_safe_parameterized_path_space_immune(
        space_immune: &SafeParameterizedPathSpaceImmune,
    ) -> (r: Option<TypeBuiltIn>)
        ensures
            match built_in_safe(space_immune@) {
                Some(b) => r matches Some(t) && t@ == b,
                None => r is None,
            },
    {
        let p = space_immune_as_path(space_immune);
        built_in_from_parameterized_path(&p)
    }

    /// The built-in type that `safe_parameterized_path` stands for, if it
    /// stands for one.
    pub fn from_tl_safe_parameterized_path(safe_parameterized_path: &SafeParameterizedPath) -> (r:
        Option<TypeBuiltIn>)
        ensures
            match built_in_safe(safe_parameterized_path@) {
                Some(b) => r matches Some(t) && t@ == b,
                None => r is None,
            },
    {
        match safe_parameterized_path {
            SafeParameterizedPath::SpaceImmune(space_immune) => {
                Self::from_tl_safe_parameterized_path_space_immune(space_immune)
            },
            SafeParameterizedPath::Parenthesized(parenthesized) => {
                Self::from_tl_parameterized_path(&parenthesized.parameterized_path)
            },
        }
    }

    /// The built-in type that the name `string` alone stands for, if it
    /// stands for one.
    pub fn from_primitive(string: &str) -> (r: Option<TypeBuiltIn>)
        ensures
            match primitive(string@) {
                Some(b) => r matches Some(t) && t@ == b,
                None => r is None,
            },
    {
        built_in_from_primitive(string)
    }
}

impl Type {
    /// The lowered form of `ty`, where it has one.
    pub fn from_tl_type(ty: &crate::ty::Type) -> (r: Option<Type>)
        ensures
            match lower_type(ty@) {
                Some(t) => r matches Some(x) && x@ == t,
                None => r is None,
            },
        decreases ty,
    {
        match ty {
            crate::ty::Type::Int(_) => None,
            crate::ty::Type::ParameterizedPath(parameterized_path) => Some(
                Self::from_tl_safe_parameterized_path(&parameterized_path.safe_parameterized_path),
            ),
            crate::ty::Type::TypeParameter(type_parameter) => Some(
                Type::Generic(Ident(type_parameter.ident.clone())),
            ),
            crate::ty::Type::Bare(bare) => Self::from_tl_type(&bare.inner),
        }
    }

    /// The lowered form of `parameterized_path`.
    pub fn from_tl_parameterized_path(parameterized_path: &ParameterizedPath) -> (r: Type)
        ensures
            r@ == lower_parameterized_path(parameterized_path@),
    {
        type_from_parameterized_path(parameterized_path)
    }

    /// The lowered form of `space_immune`.
    pub fn from_tl_safe_parameterized_path_space_immune(
        space_immune: &SafeParameterizedPathSpaceImmune,
    ) -> (r: Type)
        ensures
            r@ == lower_safe_path(space_immune@),
    {
        let p = space_immune_as_path(space_immune);
        type_from_parameterized_path(&p)
    }

    /// The lowered form of `safe_parameterized_path`.
    pub fn from_tl_safe_parameterized_path(safe_parameterized_path: &SafeParameterizedPath) -> (r:
        Type)
        ensures
            r@ == lower_safe_path(safe_parameterized_path@),
    {
        match safe_parameterized_path {
            SafeParameterizedPath::SpaceImmune(space_immune) => {
                Self::from_tl_safe_parameterized_path_space_immune(space_immune)
            },
            SafeParameterizedPath::Parenthesized(parenthesized) => {
                Self::from_tl_parameterized_path(&parenthesized.parameterized_path)
            },
        }
    }
}

} // verus!
