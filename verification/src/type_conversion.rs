//! Types as written, resolved to declared types in the scope of an entity,
//! and the signatures of functions.
use vstd::prelude::*;

use crate::db::{LarkDatabase, Signature, Ty, TyBase};
use crate::entity::{Entity, EntityData, LangItem};
use crate::error::{ErrorReported, WithError};
use crate::hir_lower::{AstIdentifier, AstItem, AstParameter};
use crate::indices::{U32Index, INDEX_LIMIT};
use crate::queries::{declaration_ty_named, unit_ty};
use crate::scope::{
    entity_of, intern_entity, lemma_scope_resolves, lemma_scope_resolves_extend, name_view, resolve_effect,
    resolve_name, scope_resolves, unchanged_besides_names, NameView,
};
use crate::span::Span;

verus! {

/// The type written `t` in the scope of `scope`: the names after resolving
/// it, the type named by the entity it resolves to (the error type where it
/// resolves to none), and the errors reported (one at `t` in that case).
pub open spec fn ast_ty_effect(nv: NameView, scope: Entity, t: AstIdentifier) -> (NameView, Ty, Seq<Span>) {
    let (nv1, found) = resolve_effect(nv, scope, t.text);
    match found {
        Some(e) => (nv1, Ty { base: TyBase::Named(e) }, Seq::empty()),
        None => (nv1, Ty { base: TyBase::Error }, seq![t.span]),
    }
}

/// The types of the parameters `params` written in the scope of `scope`, in
/// order, with the names after resolving them and the errors reported.
pub open spec fn input_tys_effect(nv: NameView, scope: Entity, params: Seq<AstParameter>) -> (NameView, Seq<Ty>, Seq<Span>)
    decreases params.len(),
{
    if params.len() == 0 {
        (nv, Seq::empty(), Seq::empty())
    } else {
        let (nv1, tys, errors) = input_tys_effect(nv, scope, params.drop_last());
        let (nv2, t, more) = ast_ty_effect(nv1, scope, params.last().ty);
        (nv2, tys.push(t), errors + more)
    }
}

/// The unit type, with the names after interning the lang item of the
/// empty tuple that names it.
pub open spec fn unit_effect(nv: NameView) -> (NameView, Ty) {
    let ents = intern_entity(nv.entities, EntityData::LangItem(LangItem::Tuple(0)));
    (NameView { entities: ents, ..nv }, Ty { base: TyBase::Named(entity_of(ents, EntityData::LangItem(LangItem::Tuple(0)))) })
}

/// The signature of a function whose parameters are `parameters` and whose
/// written return type is `ret`, in the scope of `owner`: the names after
/// it, the input types, the output type (the unit type where none is
/// written), and the errors reported, parameters first.
pub open spec fn signature_effect(nv: NameView, owner: Entity, parameters: Seq<AstParameter>, ret: Option<AstIdentifier>) -> (NameView, Seq<Ty>, Ty, Seq<Span>) {
    let (nv1, inputs, errors) = input_tys_effect(nv, owner, parameters);
    match ret {
        None => {
            let (nv2, output) = unit_effect(nv1);
            (nv2, inputs, output, errors)
        },
        Some(t) => {
            let (nv2, output, more) = ast_ty_effect(nv1, owner, t);
            (nv2, inputs, output, errors + more)
        },
    }
}

/// The names of `db` are those of `before`, with perhaps more interned:
/// each table keeps what it held and grows by at most `ids` identifiers and
/// `ents` entities.
pub open spec fn names_grown(db: &LarkDatabase, before: &LarkDatabase, ids: nat, ents: nat) -> bool {
    &&& before.identifiers@.len() <= db.identifiers@.len() <= before.identifiers@.len() + ids
    &&& before.entities@.len() <= db.entities@.len() <= before.entities@.len() + ents
    &&& forall|i: int| 0 <= i < before.entities@.len() ==> #[trigger] db.entities@[i] == before.entities@[i]
}

/// The declared type written `t`, resolved in the scope of `scope_entity`;
/// a name that resolves to nothing is reported at its span and gives the
/// error type.
pub fn declaration_ty_from_ast_ty(db: &mut LarkDatabase, scope_entity: Entity, t: AstIdentifier) -> (r: WithError<Ty>)
    requires
        scope_resolves(old(db).entities@, scope_entity),
        t.text.index_value() < old(db).identifiers@.len(),
        old(db).identifiers@.len() + 7 < INDEX_LIMIT,
        old(db).entities@.len() < INDEX_LIMIT,
    ensures
        ast_ty_effect(name_view(old(db)), scope_entity, t) == (name_view(final(db)), r.value, r.errors@),
        unchanged_besides_names(final(db), old(db)),
        names_grown(final(db), old(db), 7, 1),
{
    proof {
        lemma_scope_resolves(name_view(db), scope_entity, t.text);
    }
    match resolve_name(db, scope_entity, t.text) {
        Some(entity) => WithError::ok(declaration_ty_named(entity)),
        None => WithError::report_error((), t.span),
    }
}

/// The signature of the function `ast`, whose entity is `owner`: the type
/// of each parameter in order, and the return type, the unit type where
/// none is written; each type name that resolves to nothing is reported.
pub fn signature(db: &mut LarkDatabase, owner: Entity, ast: &AstItem) -> (r: WithError<Result<Signature, ErrorReported>>)
    requires
        ast is Def,
        scope_resolves(old(db).entities@, owner),
        match *ast {
            AstItem::Def { parameters, ret, .. } => {
                &&& forall|k: int| 0 <= k < parameters@.len() ==> (#[trigger] parameters@[k]).ty.text.index_value() < old(db).identifiers@.len()
                &&& ret matches Some(t) ==> t.text.index_value() < old(db).identifiers@.len()
                &&& old(db).identifiers@.len() + 7 * (parameters@.len() + 2) < INDEX_LIMIT
                &&& old(db).entities@.len() + parameters@.len() + 2 < INDEX_LIMIT
            },
            AstItem::Struct => false,
        },
    ensures
        match *ast {
            AstItem::Def { parameters, ret, .. } => {
                let (nv, inputs, output, errors) = signature_effect(name_view(old(db)), owner, parameters@, ret);
                &&& r.value matches Ok(sig) && sig.inputs@ == inputs && sig.output == output
                &&& r.errors@ == errors
                &&& name_view(final(db)) == nv
            },
            AstItem::Struct => false,
        },
        unchanged_besides_names(final(db), old(db)),
{
    match ast {
        AstItem::Def { parameters, ret, .. } => {
            let mut errors: Vec<Span> = Vec::new();
            let mut inputs: Vec<Ty> = Vec::new();
            let mut i: usize = 0;
            while i < parameters.len()
                invariant
                    i <= parameters@.len(),
                    (name_view(db), inputs@, errors@) == input_tys_effect(name_view(old(db)), owner, parameters@.take(i as int)),
                    unchanged_besides_names(db, old(db)),
                    names_grown(db, old(db), 7 * i as nat, i as nat),
                    scope_resolves(db.entities@, owner),
                    forall|k: int| 0 <= k < parameters@.len() ==> (#[trigger] parameters@[k]).ty.text.index_value() < old(db).identifiers@.len(),
                    old(db).identifiers@.len() + 7 * (parameters@.len() + 2) < INDEX_LIMIT,
                    old(db).entities@.len() + parameters@.len() + 2 < INDEX_LIMIT,
                decreases parameters@.len() - i,
            {
                let ghost before = *db;
                let t = declaration_ty_from_ast_ty(db, owner, parameters[i].ty).accumulate_errors_into(&mut errors);
                inputs.push(t);
                proof {
                    lemma_scope_resolves_extend(before.entities@, db.entities@, owner);
                    assert(parameters@.take(i + 1).drop_last() =~= parameters@.take(i as int));
                }
                i = i + 1;
            }
            proof {
                assert(parameters@.take(i as int) =~= parameters@);
            }
            let output = match ret {
                None => {
                    let ghost before = *db;
                    let output = unit_ty(db);
                    proof {
                        let ents = intern_entity(before.entities@, EntityData::LangItem(LangItem::Tuple(0)));
                        let u = entity_of(ents, EntityData::LangItem(LangItem::Tuple(0)));
                        assert(db.entities@ == ents);
                        if let TyBase::Named(e) = output.base {
                            assert(u.index_value() < ents.len() && ents[u.index_value() as int] == EntityData::LangItem(LangItem::Tuple(0)));
                            e.lemma_same_value(u);
                        }
                        assert(name_view(db) == unit_effect(name_view(&before)).0);
                    }
                    output
                },
                Some(t) => declaration_ty_from_ast_ty(db, owner, *t).accumulate_errors_into(&mut errors),
            };
            WithError { value: Ok(Signature { inputs, output }), errors }
        },
        // A struct has no signature: the precondition rules it out.
        AstItem::Struct => vstd::pervasive::unreached(),
    }
}

} // verus!
