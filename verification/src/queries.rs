//! Queries on the entities of a program: the lang items that types are
//! named by, and the entities nested in an entity.
use vstd::prelude::*;

use crate::db::{entity_data, members_of, LarkDatabase, Ty, TyBase};
use crate::entity::{Entity, EntityData, ItemKind, LangItem};
use crate::hir::Member;
use crate::indices::{U32Index, INDEX_LIMIT};
use crate::scope::{file_items, items_in_file, unchanged_besides_names};

verus! {

/// The entity of the `bool` lang item.
pub fn boolean_entity(db: &mut LarkDatabase) -> (r: Entity)
    requires
        old(db).entities@.contains(EntityData::LangItem(LangItem::Boolean)) || old(db).entities@.len() < INDEX_LIMIT,
    ensures
        entity_data(final(db), r) == Some(EntityData::LangItem(LangItem::Boolean)),
        old(db).entities@.contains(EntityData::LangItem(LangItem::Boolean)) ==> final(db).entities@ == old(db).entities@,
        !old(db).entities@.contains(EntityData::LangItem(LangItem::Boolean))
            ==> final(db).entities@ == old(db).entities@.push(EntityData::LangItem(LangItem::Boolean)),
        final(db).identifiers == old(db).identifiers,
{
    db.entities.intern(EntityData::LangItem(LangItem::Boolean))
}

/// The type named by `entity` (types here carry no generic arguments).
pub fn declaration_ty_named(entity: Entity) -> (r: Ty)
    ensures
        r == (Ty { base: TyBase::Named(entity) }),
{
    Ty { base: TyBase::Named(entity) }
}

/// The unit type: the one named by the lang item of the empty tuple.
pub fn unit_ty(db: &mut LarkDatabase) -> (r: Ty)
    requires
        old(db).entities@.contains(EntityData::LangItem(LangItem::Tuple(0))) || old(db).entities@.len() < INDEX_LIMIT,
    ensures
        r.base matches TyBase::Named(e) && entity_data(final(db), e) == Some(EntityData::LangItem(LangItem::Tuple(0)))
            && forall|j: int| 0 <= j < final(db).entities@.len() && final(db).entities@[j] == EntityData::LangItem(LangItem::Tuple(0))
                ==> j == e.index_value(),
        final(db).file_names == old(db).file_names,
        final(db).top_level == old(db).top_level,
        unchanged_besides_names(final(db), old(db)),
        old(db).entities@.contains(EntityData::LangItem(LangItem::Tuple(0))) ==> final(db).entities@ == old(db).entities@,
        !old(db).entities@.contains(EntityData::LangItem(LangItem::Tuple(0)))
            ==> final(db).entities@ == old(db).entities@.push(EntityData::LangItem(LangItem::Tuple(0))),
        final(db).identifiers == old(db).identifiers,
{
    let unit = db.entities.intern(EntityData::LangItem(LangItem::Tuple(0)));
    declaration_ty_named(unit)
}

/// The entities directly nested in `e`: the fields of a struct (none where
/// its members could not be had), the items of an input file.
pub open spec fn children(db: &LarkDatabase, e: Entity) -> Seq<Entity> {
    match entity_data(db, e) {
        Some(EntityData::ItemName { kind: ItemKind::Struct, .. }) => match members_of(db, e) {
            Some(Ok(ms)) => ms.map_values(|m: Member| m.entity),
            _ => Seq::empty(),
        },
        Some(EntityData::InputFile { file }) => items_in_file(db, file),
        _ => Seq::empty(),
    }
}

/// How deep entities can nest below `e`: an input file holds items, a
/// struct holds fields, nothing else holds anything.
pub open spec fn nesting_level(db: &LarkDatabase, e: Entity) -> nat {
    match entity_data(db, e) {
        Some(EntityData::InputFile { .. }) => 2,
        Some(EntityData::ItemName { kind: ItemKind::Struct, .. }) => 1,
        _ => 0,
    }
}

/// `e` is interned, and what it holds is interned and nests less deeply.
pub open spec fn nests_properly(db: &LarkDatabase, e: Entity) -> bool {
    &&& entity_data(db, e) is Some
    &&& forall|k: int| 0 <= k < children(db, e).len() ==> {
        &&& entity_data(db, #[trigger] children(db, e)[k]) is Some
        &&& nesting_level(db, children(db, e)[k]) < nesting_level(db, e)
    }
}

/// The entities nested in each of `es`, in turn.
pub open spec fn children_of_all(db: &LarkDatabase, es: Seq<Entity>) -> Seq<Entity>
    decreases es.len(),
{
    if es.len() == 0 {
        Seq::empty()
    } else {
        children_of_all(db, es.drop_last()) + children(db, es.last())
    }
}

/// `root` and every entity nested in it, level by level: `root`, what it
/// holds, then what each of those holds in turn.
pub open spec fn subentities_spec(db: &LarkDatabase, root: Entity) -> Seq<Entity> {
    seq![root] + children(db, root) + children_of_all(db, children(db, root))
}

/// The entities directly nested in `e`.
fn children_vec(db: &LarkDatabase, e: Entity) -> (r: Vec<Entity>)
    requires
        entity_data(db, e) is Some,
    ensures
        r@ == children(db, e),
{
    match db.untern_entity(e) {
        EntityData::ItemName { kind: ItemKind::Struct, .. } => match db.members(e) {
            Some(Ok(members)) => {
                let mut out: Vec<Entity> = Vec::new();
                let mut k: usize = 0;
                while k < members.len()
                    invariant
                        k <= members@.len(),
                        out@ == members@.take(k as int).map_values(|m: Member| m.entity),
                    decreases members@.len() - k,
                {
                    out.push(members[k].entity);
                    proof {
                        assert(members@.take(k + 1).map_values(|m: Member| m.entity)
                            =~= members@.take(k as int).map_values(|m: Member| m.entity).push(members@[k as int].entity));
                    }
                    k = k + 1;
                }
                proof {
                    assert(members@.take(k as int) =~= members@);
                }
                out
            },
            _ => Vec::new(),
        },
        EntityData::InputFile { file } => match file_items(db, file) {
            Some(items) => {
                let mut out: Vec<Entity> = Vec::new();
                let mut k: usize = 0;
                while k < items.len()
                    invariant
                        k <= items@.len(),
                        out@ == items@.take(k as int),
                    decreases items@.len() - k,
                {
                    out.push(items[k]);
                    proof {
                        assert(items@.take(k + 1) =~= items@.take(k as int).push(items@[k as int]));
                    }
                    k = k + 1;
                }
                proof {
                    assert(items@.take(k as int) =~= items@);
                }
                out
            },
            None => Vec::new(),
        },
        _ => Vec::new(),
    }
}

proof fn lemma_children_of_all_prefix(db: &LarkDatabase, es: Seq<Entity>, k: int)
    requires
        0 <= k <= es.len(),
    ensures
        children_of_all(db, es.take(k)).len() <= children_of_all(db, es).len(),
    decreases es.len(),
{
    if k < es.len() {
        assert(es.drop_last().take(k) =~= es.take(k));
        lemma_children_of_all_prefix(db, es.drop_last(), k);
    } else {
        assert(es.take(k) =~= es);
    }
}

/// Each entity nested in one of `es` is one held by some entity of `es`.
proof fn lemma_children_of_all_member(db: &LarkDatabase, es: Seq<Entity>, q: int)
    requires
        0 <= q < children_of_all(db, es).len(),
    ensures
        exists|k: int, j: int| 0 <= k < es.len() && 0 <= j < children(db, es[k]).len() && children_of_all(db, es)[q] == children(db, es[k])[j],
    decreases es.len(),
{
    let front = children_of_all(db, es.drop_last());
    if q < front.len() {
        lemma_children_of_all_member(db, es.drop_last(), q);
        let (k, j) = choose|k: int, j: int| 0 <= k < es.drop_last().len() && 0 <= j < children(db, es.drop_last()[k]).len()
            && children_of_all(db, es.drop_last())[q] == children(db, es.drop_last()[k])[j];
        assert(es.drop_last()[k] == es[k]);
        assert(children_of_all(db, es)[q] == children(db, es[k])[j]);
    } else {
        let k = es.len() - 1;
        let j = q - front.len();
        assert(children_of_all(db, es)[q] == children(db, es[k])[j]);
    }
}

/// The root and every entity nested in it, level by level.
pub fn subentities(db: &LarkDatabase, root: Entity) -> (r: Vec<Entity>)
    requires
        nests_properly(db, root),
        forall|k: int| 0 <= k < children(db, root).len() ==> nests_properly(db, #[trigger] children(db, root)[k]),
    ensures
        r@ == subentities_spec(db, root),
{
    let ghost c1 = children(db, root);
    let ghost full = subentities_spec(db, root);
    let mut entities: Vec<Entity> = vec![root];
    let mut index: usize = 0;
    proof {
        assert forall|p: int| 1 + c1.len() <= p < full.len() implies {
            &&& entity_data(db, #[trigger] full[p]) is Some
            &&& children(db, full[p]) == Seq::<Entity>::empty()
        } by {
            lemma_children_of_all_member(db, c1, p - 1 - c1.len());
            let (k, j) = choose|k: int, j: int| 0 <= k < c1.len() && 0 <= j < children(db, c1[k]).len()
                && children_of_all(db, c1)[p - 1 - c1.len()] == children(db, c1[k])[j];
            assert(full[p] == children(db, c1[k])[j]);
            assert(nests_properly(db, c1[k]));
            assert(nesting_level(db, full[p]) == 0);
        }
        lemma_children_of_all_prefix(db, c1, 0);
        assert(c1.take(0) =~= Seq::<Entity>::empty());
    }
    while index < entities.len()
        invariant
            c1 == children(db, root),
            full == subentities_spec(db, root),
            nests_properly(db, root),
            forall|k: int| 0 <= k < c1.len() ==> nests_properly(db, #[trigger] c1[k]),
            forall|p: int| 1 + c1.len() <= p < full.len() ==> {
                &&& entity_data(db, #[trigger] full[p]) is Some
                &&& children(db, full[p]) == Seq::<Entity>::empty()
            },
            index <= entities@.len(),
            index == 0 ==> entities@ == seq![root],
            1 <= index <= c1.len() + 1 ==> entities@ == seq![root] + c1 + children_of_all(db, c1.take(index - 1)),
            index > c1.len() + 1 ==> entities@ == full,
            entities@.len() <= full.len(),
        decreases full.len() - index,
    {
        let entity = entities[index];
        let ghost before = entities@;
        proof {
            if 1 <= index <= c1.len() + 1 {
                lemma_children_of_all_prefix(db, c1, index - 1);
            }
            if index > c1.len() {
                assert(c1.take(c1.len() as int) =~= c1);
                assert(entities@ == full);
            }
            if 1 <= index <= c1.len() {
                assert(entity == c1[index - 1]);
            }
        }
        let mut nested = children_vec(db, entity);
        entities.append(&mut nested);
        proof {
            if index == 0 {
                assert(c1.take(0) =~= Seq::<Entity>::empty());
                assert(entities@ =~= seq![root] + c1 + children_of_all(db, c1.take(0)));
            } else if index <= c1.len() {
                assert(c1.take(index as int).drop_last() =~= c1.take(index - 1));
                assert(c1.take(index as int).last() == c1[index - 1]);
                assert(entities@ =~= seq![root] + c1 + children_of_all(db, c1.take(index as int)));
                lemma_children_of_all_prefix(db, c1, index as int);
                if index == c1.len() {
                    assert(c1.take(index as int) =~= c1);
                }
            } else {
                assert(entities@ =~= full);
            }
        }
        index = index + 1;
    }
    proof {
        if 1 <= index <= c1.len() + 1 {
            assert(entities@.len() >= 1 + c1.len());
            assert(index == c1.len() + 1);
            assert(c1.take(c1.len() as int) =~= c1);
        }
    }
    entities
}

} // verus!
