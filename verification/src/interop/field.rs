//! Fields of lowered declarations.

use vstd::prelude::*;
use crate::interop::ident::Ident;
use crate::interop::ty::{lower_type, LoweredType, Type};
use crate::interop::utils::LoweringError;
use crate::param::{param_models, Param, ParamModel};
use crate::ty::TypeModel;

verus! {

/// A field of a lowered declaration.
#[derive(Debug, PartialEq, Eq)]
pub enum Field {
    Named(FieldNamed),
    Unnamed(FieldUnnamed),
}

/// A field with a name.
#[derive(Debug, PartialEq, Eq)]
pub struct FieldNamed {
    pub name: Ident,
    pub ty: Type,
}

/// A field without a name, known by its position among the fields without
/// names.
#[derive(Debug, PartialEq, Eq)]
pub struct FieldUnnamed {
    pub index: usize,
    pub ty: Type,
}

/// What a field says.
pub ghost enum FieldModel {
    Named { name: Seq<char>, ty: LoweredType },
    Unnamed { index: nat, ty: LoweredType },
}

impl View for Field {
    type V = FieldModel;

    open spec fn view(&self) -> FieldModel {
        match self {
            Field::Named(f) => FieldModel::Named { name: f.name@, ty: f.ty@ },
            Field::Unnamed(f) => FieldModel::Unnamed { index: f.index as nat, ty: f.ty@ },
        }
    }
}

/// The fields that the names `names`, all of type `ty`, come to: one for
/// each name, or none where the type has no lowered form.
pub open spec fn named_fields(names: Seq<Seq<char>>, ty: TypeModel) -> Seq<FieldModel> {
    match lower_type(ty) {
        Some(t) => Seq::new(names.len(), |i: int| FieldModel::Named { name: names[i], ty: t }),
        None => Seq::empty(),
    }
}

/// What lowering the fields `params` comes to: the lowered fields, and the
/// number of fields without a name that were met, of which `unnamed` were
/// met before. A conditional field is left out, as is one whose type has no
/// lowered form; a repeated group cannot be lowered.
pub open spec fn lower_params(params: Seq<ParamModel>, unnamed: nat) -> Result<
    Seq<FieldModel>,
    LoweringError,
>
    decreases params.len(),
{
    if params.len() == 0 {
        Ok(Seq::empty())
    } else {
        let (first, met) = match params[0] {
            ParamModel::Conditional { name, condition, ty } => (
                Ok::<Seq<FieldModel>, LoweringError>(
                    match condition {
                        None => named_fields(seq![name], ty),
                        Some(_) => Seq::empty(),
                    },
                ),
                unnamed,
            ),
            ParamModel::Repeated { .. } => (Err(LoweringError::RepeatedParam), unnamed),
            ParamModel::WithParen { names, ty } => (Ok(named_fields(names, ty)), unnamed),
            ParamModel::TypeOnly(ty) => (
                Ok(
                    match lower_type(ty) {
                        Some(t) => seq![FieldModel::Unnamed { index: unnamed, ty: t }],
                        None => Seq::empty(),
                    },
                ),
                unnamed + 1,
            ),
        };
        match first {
            Err(e) => Err(e),
            Ok(fields) => match lower_params(params.drop_first(), met as nat) {
                Err(e) => Err(e),
                Ok(rest) => Ok(fields + rest),
            },
        }
    }
}

impl Field {
    /// The field named `name` of the type `ty`, where the type has a
    /// lowered form.
    pub fn from_ident_tl_ty(name: Ident, ty: &crate::ty::Type) -> (r: Option<Field>)
        ensures
            match lower_type(ty@) {
                Some(t) => r matches Some(f) && f@ == (FieldModel::Named { name: name@, ty: t }),
                None => r is None,
            },
    {
        match Type::from_tl_type(ty) {
            Some(ty) => Some(Field::Named(FieldNamed { name, ty })),
            None => None,
        }
    }

    /// The field without a name at position `index`, of the type `ty`,
    /// where the type has a lowered form.
    pub fn from_index_tl_ty(index: usize, ty: &crate::ty::Type) -> (r: Option<Field>)
        ensures
            match lower_type(ty@) {
                Some(t) => r matches Some(f) && f@ == (FieldModel::Unnamed {
                    index: index as nat,
                    ty: t,
                }),
                None => r is None,
            },
    {
        match Type::from_tl_type(ty) {
            Some(ty) => Some(Field::Unnamed(FieldUnnamed { index, ty })),
            None => None,
        }
    }

    /// The lowered fields of `params`.
    pub fn from_tl_params(params: &Vec<Param>) -> (r: Result<Vec<Field>, LoweringError>)
        ensures
            match lower_params(param_models(params@), 0) {
                Ok(fields) => r matches Ok(v) && crate::synom::views(v@) == fields,
                Err(e) => r == Err::<Vec<Field>, LoweringError>(e),
            },
    {
        let ghost all = param_models(params@);
        let mut out: Vec<Field> = Vec::new();
        let mut unnamed_field_index: usize = 0;
        let mut i: usize = 0;
        proof {
            assert(all.skip(0) =~= all);
        }
        while i < params.len()
            invariant
                i <= params.len(),
                unnamed_field_index <= i,
                all == param_models(params@),
                match lower_params(all.skip(i as int), unnamed_field_index as nat) {
                    Ok(rest) => lower_params(all, 0) == Ok::<Seq<FieldModel>, LoweringError>(
                        crate::synom::views(out@) + rest,
                    ),
                    Err(e) => lower_params(all, 0) == Err::<Seq<FieldModel>, LoweringError>(e),
                },
            decreases params.len() - i,
        {
            let ghost before = crate::synom::views(out@);
            let ghost tail = all.skip(i as int);
            let ghost met_before = unnamed_field_index as nat;
            let ghost mut fields: Seq<FieldModel> = Seq::empty();
            proof {
                assert(tail[0] == params@[i as int]@);
                assert(tail.drop_first() =~= all.skip(i as int + 1));
            }
            match &params[i] {
                Param::Conditional(conditional) => {
                    if conditional.conditional_param_def.is_none() {
                        match Self::from_ident_tl_ty(
                            Ident(conditional.var_ident.clone()),
                            &conditional.ty,
                        ) {
                            Some(f) => {
                                out.push(f);
                                proof {
                                    fields = named_fields(
                                        seq![conditional.var_ident@],
                                        conditional.ty@,
                                    );
                                    assert(fields =~= seq![f@]);
                                    assert(crate::synom::views(out@) =~= before + fields);
                                }
                            },
                            None => {
                                proof {
                                    fields = named_fields(
                                        seq![conditional.var_ident@],
                                        conditional.ty@,
                                    );
                                    assert(crate::synom::views(out@) =~= before + fields);
                                }
                            },
                        }
                    } else {
                        proof {
                            assert(crate::synom::views(out@) =~= before + fields);
                        }
                    }
                },
                Param::Repeated(_) => {
                    return Err(LoweringError::RepeatedParam);
                },
                Param::WithParen(with_paren) => {
                    let ghost got = named_fields(
                        crate::synom::views(with_paren.var_idents@),
                        with_paren.ty@,
                    );
                    let mut k: usize = 0;
                    proof {
                        assert(before + got.take(0) =~= before);
                    }
                    while k < with_paren.var_idents.len()
                        invariant
                            k <= with_paren.var_idents.len(),
                            got == named_fields(
                                crate::synom::views(with_paren.var_idents@),
                                with_paren.ty@,
                            ),
                            lower_type(with_paren.ty@) is Some ==> crate::synom::views(out@)
                                == before + got.take(k as int),
                            lower_type(with_paren.ty@) is None ==> crate::synom::views(out@)
                                == before,
                        decreases with_paren.var_idents.len() - k,
                    {
                        let ghost sofar = crate::synom::views(out@);
                        match Self::from_ident_tl_ty(
                            Ident(with_paren.var_idents[k].clone()),
                            &with_paren.ty,
                        ) {
                            Some(f) => {
                                out.push(f);
                                proof {
                                    assert(got.take(k as int + 1) =~= got.take(k as int).push(f@));
                                    assert(crate::synom::views(out@) =~= sofar.push(f@));
                                    assert(before + got.take(k as int + 1) =~= (before + got.take(
                                        k as int,
                                    )).push(f@));
                                }
                            },
                            None => {},
                        }
                        k += 1;
                    }
                    proof {
                        fields = got;
                        if lower_type(with_paren.ty@) is Some {
                            assert(got.take(k as int) =~= got);
                        } else {
                            assert(before + got =~= before);
                        }
                    }
                },
                Param::TypeOnly(type_only) => {
                    let index = unnamed_field_index;
                    unnamed_field_index += 1;
                    match Self::from_index_tl_ty(index, &type_only.ty) {
                        Some(f) => {
                            out.push(f);
                            proof {
                                fields = seq![f@];
                                assert(crate::synom::views(out@) =~= before + fields);
                            }
                        },
                        None => {
                            proof {
                                assert(crate::synom::views(out@) =~= before + fields);
                            }
                        },
                    }
                },
            }
            proof {
                let met = unnamed_field_index as nat;
                assert(crate::synom::views(out@) == before + fields);
                assert(lower_params(tail, met_before) == (match lower_params(
                    tail.drop_first(),
                    met,
                ) {
                    Err(e) => Err::<Seq<FieldModel>, LoweringError>(e),
                    Ok(rest) => Ok(fields + rest),
                }));
                match lower_params(all.skip(i as int + 1), met) {
                    Ok(rest) => {
                        assert(before + (fields + rest) =~= (before + fields) + rest);
                    },
                    Err(_) => {},
                }
            }
            i += 1;
        }
        proof {
            assert(crate::synom::views(out@) + Seq::<FieldModel>::empty() =~= crate::synom::views(
                out@,
            ));
        }
        Ok(out)
    }
}

} // verus!
