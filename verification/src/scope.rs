//! Name resolution: what a name means in the scope of an entity.
use vstd::prelude::*;

use crate::db::{entity_data, ident_text, LarkDatabase};
use crate::entity::{Entity, EntityData, LangItem};
use crate::eval::file_entities;
use crate::indices::{U32Index, INDEX_LIMIT};
use crate::span::FileName;
use crate::strings::GlobalIdentifier;

verus! {

/// What a name resolves to.
pub enum Resolution {
    /// An entity already interned.
    Entity(Entity),
    /// A language item of the implicit root scope.
    Lang(LangItem),
    /// Nothing.
    Unresolved,
}

/// What name resolution reads of a database: the interned names and
/// entities, and the items of each input file.
#[verifier::ext_equal]
pub struct NameView {
    pub identifiers: Seq<Seq<char>>,
    pub entities: Seq<EntityData>,
    pub file_names: Seq<FileName>,
    pub top_level: Seq<Seq<Entity>>,
}

/// What name resolution reads of `db`.
pub open spec fn name_view(db: &LarkDatabase) -> NameView {
    NameView {
        identifiers: db.identifiers@,
        entities: db.entities@,
        file_names: db.file_names@,
        top_level: db.top_level@.map_values(|v: Vec<Entity>| v@),
    }
}

/// What `e` names in `nv`, if interned.
pub open spec fn entity_in(nv: NameView, e: Entity) -> Option<EntityData> {
    if e.index_value() < nv.entities.len() {
        Some(nv.entities[e.index_value() as int])
    } else {
        None
    }
}

/// The text of `id` in `nv`, if interned.
pub open spec fn text_in(nv: NameView, id: GlobalIdentifier) -> Option<Seq<char>> {
    if id.index_value() < nv.identifiers.len() {
        Some(nv.identifiers[id.index_value() as int])
    } else {
        None
    }
}

/// The position of the first input file of `nv` equal to `file`, from `i`.
pub open spec fn file_index_in(nv: NameView, file: FileName, i: nat) -> Option<nat>
    decreases nv.file_names.len() - i,
{
    if i >= nv.file_names.len() {
        None
    } else if nv.file_names[i as int] == file {
        Some(i)
    } else {
        file_index_in(nv, file, i + 1)
    }
}

/// The items of `file` in `nv`.
pub open spec fn items_in(nv: NameView, file: FileName) -> Seq<Entity> {
    match file_index_in(nv, file, 0) {
        Some(i) => if i < nv.top_level.len() {
            nv.top_level[i as int]
        } else {
            Seq::empty()
        },
        None => Seq::empty(),
    }
}

/// The first of `items[k..]` that is an item or a member named `name`.
pub open spec fn first_named_in(nv: NameView, items: Seq<Entity>, name: GlobalIdentifier, k: nat) -> Option<Entity>
    decreases items.len() - k,
{
    if k >= items.len() {
        None
    } else {
        match entity_in(nv, items[k as int]) {
            Some(EntityData::ItemName { id, .. }) | Some(EntityData::MemberName { id, .. }) => if id == name {
                Some(items[k as int])
            } else {
                first_named_in(nv, items, name, k + 1)
            },
            _ => first_named_in(nv, items, name, k + 1),
        }
    }
}

/// The language item that `name` means in the implicit root scope.
pub open spec fn root_lang_item_in(nv: NameView, name: GlobalIdentifier) -> Option<LangItem> {
    match text_in(nv, name) {
        Some(t) => if t == "bool"@ {
            Some(LangItem::Boolean)
        } else if t == "int"@ {
            Some(LangItem::Int)
        } else if t == "uint"@ {
            Some(LangItem::Uint)
        } else if t == "false"@ {
            Some(LangItem::False)
        } else if t == "true"@ {
            Some(LangItem::True)
        } else if t == "debug"@ {
            Some(LangItem::Debug)
        } else {
            None
        },
        None => None,
    }
}

/// The position of the first input file equal to `file`.
pub open spec fn file_index(db: &LarkDatabase, file: FileName, i: nat) -> Option<nat> {
    file_index_in(name_view(db), file, i)
}

/// The items of `file`.
pub open spec fn items_in_file(db: &LarkDatabase, file: FileName) -> Seq<Entity> {
    items_in(name_view(db), file)
}

/// The first of `items[k..]` that is an item or a member named `name`.
pub open spec fn first_named(db: &LarkDatabase, items: Seq<Entity>, name: GlobalIdentifier, k: nat) -> Option<Entity> {
    first_named_in(name_view(db), items, name, k)
}

/// The language item that `name` means in the implicit root scope.
pub open spec fn root_lang_item(db: &LarkDatabase, name: GlobalIdentifier) -> Option<LangItem> {
    root_lang_item_in(name_view(db), name)
}

/// The interned identifiers `ids` after interning `text`.
pub open spec fn intern_text(ids: Seq<Seq<char>>, text: Seq<char>) -> Seq<Seq<char>> {
    if ids.contains(text) {
        ids
    } else {
        ids.push(text)
    }
}

/// The interned identifiers `ids` after interning the names of the
/// implicit root scope, in the order a fallback to it interns them.
pub open spec fn root_interned(ids: Seq<Seq<char>>) -> Seq<Seq<char>> {
    intern_text(
        intern_text(
            intern_text(
                intern_text(intern_text(intern_text(intern_text(ids, "bool"@), "int"@), "uint"@), "String"@),
                "false"@,
            ),
            "true"@,
        ),
        "debug"@,
    )
}

/// What `name` means in the scope `scope` of `nv`: the first item of the
/// file named so, else a language item of the root scope. Items and
/// members look in their parent's scope; an error entity resolves every
/// name to itself. `None` where resolution stops: a scope that is a
/// language item, or is not interned.
pub open spec fn resolve_in(nv: NameView, scope: Entity, name: GlobalIdentifier) -> Option<Resolution>
    decreases scope.index_value(),
{
    match entity_in(nv, scope) {
        Some(EntityData::InputFile { file }) => match first_named_in(nv, items_in(nv, file), name, 0) {
            Some(e) => Some(Resolution::Entity(e)),
            None => match root_lang_item_in(nv, name) {
                Some(l) => Some(Resolution::Lang(l)),
                None => Some(Resolution::Unresolved),
            },
        },
        Some(EntityData::ItemName { base, .. }) => if base.index_value() < scope.index_value() {
            resolve_in(nv, base, name)
        } else {
            None
        },
        Some(EntityData::MemberName { base, .. }) => if base.index_value() < scope.index_value() {
            resolve_in(nv, base, name)
        } else {
            None
        },
        Some(EntityData::Error(_)) => Some(Resolution::Entity(scope)),
        _ => None,
    }
}

/// Resolution in `scope` comes to an end among the entities `ents`: the
/// scope is interned, and through its parents (each interned before it)
/// it reaches an input file or an error entity.
pub open spec fn scope_resolves(ents: Seq<EntityData>, scope: Entity) -> bool
    decreases scope.index_value(),
{
    if scope.index_value() < ents.len() {
        match ents[scope.index_value() as int] {
            EntityData::InputFile { .. } => true,
            EntityData::Error(_) => true,
            EntityData::ItemName { base, .. } => base.index_value() < scope.index_value() && scope_resolves(ents, base),
            EntityData::MemberName { base, .. } => base.index_value() < scope.index_value() && scope_resolves(ents, base),
            EntityData::LangItem(_) => false,
        }
    } else {
        false
    }
}

/// Where resolution in `scope` comes to an end, every name resolves.
pub proof fn lemma_scope_resolves(nv: NameView, scope: Entity, name: GlobalIdentifier)
    requires
        scope_resolves(nv.entities, scope),
    ensures
        resolve_in(nv, scope, name) is Some,
    decreases scope.index_value(),
{
    match nv.entities[scope.index_value() as int] {
        EntityData::ItemName { base, .. } => lemma_scope_resolves(nv, base, name),
        EntityData::MemberName { base, .. } => lemma_scope_resolves(nv, base, name),
        _ => {},
    }
}

/// Interning more entities keeps resolution coming to an end.
pub proof fn lemma_scope_resolves_extend(ents: Seq<EntityData>, more: Seq<EntityData>, scope: Entity)
    requires
        scope_resolves(ents, scope),
        ents.len() <= more.len(),
        forall|i: int| 0 <= i < ents.len() ==> more[i] == ents[i],
    ensures
        scope_resolves(more, scope),
    decreases scope.index_value(),
{
    assert(more[scope.index_value() as int] == ents[scope.index_value() as int]);
    match ents[scope.index_value() as int] {
        EntityData::ItemName { base, .. } => lemma_scope_resolves_extend(ents, more, base),
        EntityData::MemberName { base, .. } => lemma_scope_resolves_extend(ents, more, base),
        _ => {},
    }
}

/// What `name` means in the scope `scope` of `db`.
pub open spec fn resolve_spec(db: &LarkDatabase, scope: Entity, name: GlobalIdentifier) -> Option<Resolution> {
    resolve_in(name_view(db), scope, name)
}

/// The entities `ents` after interning `d`.
pub open spec fn intern_entity(ents: Seq<EntityData>, d: EntityData) -> Seq<EntityData> {
    if ents.contains(d) {
        ents
    } else {
        ents.push(d)
    }
}

/// The entity at which `d` is interned in `ents`.
pub open spec fn entity_of(ents: Seq<EntityData>, d: EntityData) -> Entity {
    choose|e: Entity| e.index_value() < ents.len() && ents[e.index_value() as int] == d
}

/// What resolving `name` in `scope` does to the names of `nv`, and what it
/// gives: nothing changes where an entity is found; a fallback to the root
/// scope interns the root scope's names, and the language item it finds.
pub open spec fn resolve_effect(nv: NameView, scope: Entity, name: GlobalIdentifier) -> (NameView, Option<Entity>) {
    match resolve_in(nv, scope, name) {
        Some(Resolution::Entity(e)) => (nv, Some(e)),
        Some(Resolution::Unresolved) => (NameView { identifiers: root_interned(nv.identifiers), ..nv }, None),
        Some(Resolution::Lang(l)) => {
            let ents = intern_entity(nv.entities, EntityData::LangItem(l));
            (
                NameView { identifiers: root_interned(nv.identifiers), entities: ents, ..nv },
                Some(entity_of(ents, EntityData::LangItem(l))),
            )
        },
        None => (nv, None),
    }
}

/// The first item of `items` named `name`.
fn find_named(db: &LarkDatabase, items: &Vec<Entity>, name: GlobalIdentifier) -> (r: Option<Entity>)
    ensures
        r == first_named(db, items@, name, 0),
{
    let mut k: usize = 0;
    while k < items.len()
        invariant
            k <= items@.len(),
            first_named(db, items@, name, 0) == first_named(db, items@, name, k as nat),
        decreases items@.len() - k,
    {
        let entity = items[k];
        if entity.as_usize() < db.entities.len() {
            match db.untern_entity(entity) {
                EntityData::ItemName { id, .. } | EntityData::MemberName { id, .. } => {
                    if id == name {
                        return Some(entity);
                    }
                },
                _ => {},
            }
        }
        k = k + 1;
    }
    None
}

/// The items of `file`.
pub(crate) fn file_items<'a>(db: &'a LarkDatabase, file: FileName) -> (r: Option<&'a Vec<Entity>>)
    ensures
        match r {
            Some(v) => v@ == items_in_file(db, file),
            None => items_in_file(db, file) == Seq::<Entity>::empty(),
        },
{
    let n = db.file_names.len();
    let mut i: usize = 0;
    while i < n
        invariant
            n == db.file_names@.len(),
            i <= n,
            file_index(db, file, 0) == file_index(db, file, i as nat),
        decreases n - i,
    {
        if db.file_names[i] == file {
            if i < db.top_level.len() {
                return Some(&db.top_level[i]);
            } else {
                return None;
            }
        }
        i = i + 1;
    }
    None
}

/// Whether `name` is the interned string `text`.
fn names(db: &LarkDatabase, name: GlobalIdentifier, text: &str) -> (r: bool)
    ensures
        r == (ident_text(db, name) == Some(text@)),
{
    match db.identifiers.lookup(text) {
        Some(id) => id.as_u32() == name.as_u32(),
        None => {
            proof {
                if ident_text(db, name) == Some(text@) {
                    assert(db.identifiers@[name.index_value() as int] == text@);
                    assert(db.identifiers@.contains(text@));
                }
            }
            false
        },
    }
}

/// Resolves `name` in the scope of `scope`. Where the name falls back to
/// the implicit root scope, the root scope's names are interned first, and
/// the language item it names, if any.
pub fn resolve_name(db: &mut LarkDatabase, scope: Entity, name: GlobalIdentifier) -> (r: Option<Entity>)
    requires
        resolve_spec(old(db), scope, name) is Some,
        !(resolve_spec(old(db), scope, name) matches Some(Resolution::Entity(_))) ==> {
            &&& name.index_value() < old(db).identifiers@.len()
            &&& old(db).identifiers@.len() + 7 < INDEX_LIMIT
        },
        resolve_spec(old(db), scope, name) matches Some(Resolution::Lang(l)) ==> old(db).entities@.contains(
            EntityData::LangItem(l),
        ) || old(db).entities@.len() < INDEX_LIMIT,
    ensures
        match resolve_spec(old(db), scope, name).unwrap() {
            Resolution::Entity(e) => r == Some(e) && *final(db) == *old(db),
            Resolution::Unresolved => {
                &&& r is None
                &&& final(db).identifiers@ == root_interned(old(db).identifiers@)
                &&& final(db).entities == old(db).entities
                &&& unchanged_besides_names(final(db), old(db))
            },
            Resolution::Lang(l) => {
                &&& r matches Some(e) && entity_data(final(db), e) == Some(EntityData::LangItem(l))
                &&& forall|j: int| 0 <= j < final(db).entities@.len() && final(db).entities@[j] == EntityData::LangItem(l)
                    ==> j == r.unwrap().index_value()
                &&& final(db).identifiers@ == root_interned(old(db).identifiers@)
                &&& old(db).entities@.contains(EntityData::LangItem(l)) ==> final(db).entities@ == old(db).entities@
                &&& !old(db).entities@.contains(EntityData::LangItem(l)) ==> final(db).entities@
                    == old(db).entities@.push(EntityData::LangItem(l))
                &&& unchanged_besides_names(final(db), old(db))
            },
        },
        resolve_effect(name_view(old(db)), scope, name) == (name_view(final(db)), r),
        unchanged_besides_names(final(db), old(db)),
    decreases scope.index_value(),
{
    if scope.as_usize() >= db.entities.len() {
        proof {
            assert(false);
        }
        return None;
    }
    match db.untern_entity(scope) {
        EntityData::InputFile { file } => {
            let found = match file_items(db, file) {
                Some(items) => find_named(db, items, name),
                None => None,
            };
            match found {
                Some(e) => Some(e),
                None => {
                    // The implicit root scope.
                    let ghost i0 = db.identifiers@;
                    let bool_id = db.identifiers.intern("bool");
                    let ghost i1 = db.identifiers@;
                    let int_id = db.identifiers.intern("int");
                    let ghost i2 = db.identifiers@;
                    let uint_id = db.identifiers.intern("uint");
                    let ghost i3 = db.identifiers@;
                    let _string_id = db.identifiers.intern("String");
                    let false_id = db.identifiers.intern("false");
                    let ghost i5 = db.identifiers@;
                    let true_id = db.identifiers.intern("true");
                    let ghost i6 = db.identifiers@;
                    let debug_id = db.identifiers.intern("debug");
                    let ghost i7 = db.identifiers@;
                    let n = name.as_u32();
                    proof {
                        let k = name.index_value() as int;
                        assert(i1[k] == i0[k] && i2[k] == i0[k] && i3[k] == i0[k]);
                        assert(i5[k] == i0[k] && i6[k] == i0[k] && i7[k] == i0[k]);
                    }
                    let lang = if n == bool_id.as_u32() {
                        Some(LangItem::Boolean)
                    } else if n == int_id.as_u32() {
                        Some(LangItem::Int)
                    } else if n == uint_id.as_u32() {
                        Some(LangItem::Uint)
                    } else if n == false_id.as_u32() {
                        Some(LangItem::False)
                    } else if n == true_id.as_u32() {
                        Some(LangItem::True)
                    } else if n == debug_id.as_u32() {
                        Some(LangItem::Debug)
                    } else {
                        None
                    };
                    proof {
                        assert(lang == root_lang_item(old(db), name));
                    }
                    match lang {
                        Some(l) => {
                            let e = db.entities.intern(EntityData::LangItem(l));
                            proof {
                                let ents = db.entities@;
                                let c = entity_of(ents, EntityData::LangItem(l));
                                assert(e.index_value() < ents.len() && ents[e.index_value() as int] == EntityData::LangItem(l));
                                e.lemma_same_value(c);
                                assert(name_view(&*db) =~= NameView {
                                    identifiers: root_interned(name_view(old(db)).identifiers),
                                    entities: ents,
                                    ..name_view(old(db))
                                });
                            }
                            Some(e)
                        },
                        None => {
                            proof {
                                assert(name_view(&*db) =~= NameView {
                                    identifiers: root_interned(name_view(old(db)).identifiers),
                                    ..name_view(old(db))
                                });
                            }
                            None
                        },
                    }
                },
            }
        },
        EntityData::ItemName { base, .. } => resolve_name(db, base, name),
        EntityData::MemberName { base, .. } => resolve_name(db, base, name),
        EntityData::Error(_) => Some(scope),
        EntityData::LangItem(_) => {
            proof {
                assert(false);
            }
            None
        },
    }
}

/// Every field of `db` but the identifiers and the entities is as in
/// `before`.
pub open spec fn unchanged_besides_names(db: &LarkDatabase, before: &LarkDatabase) -> bool {
    &&& db.file_names == before.file_names
    &&& db.top_level == before.top_level
    &&& db.fn_bodies == before.fn_bodies
    &&& db.members == before.members
    &&& db.types == before.types
    &&& db.signatures == before.signatures
}

} // verus!
