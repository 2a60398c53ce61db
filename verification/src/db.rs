//! The program database: the interned names and the per-entity facts
//! (function bodies, members, types, signatures) that the evaluator and
//! the code generator read.
use vstd::prelude::*;

use crate::entity::{Entity, EntityData, EntityTables, MemberKind};
use crate::error::{ErrorReported, ErrorSentinel, WithError};
use crate::hir::{FnBody, Member};
use crate::indices::U32Index;
use crate::span::FileName;
use crate::strings::{GlobalIdentifier, GlobalIdentifierTables};

verus! {

/// The base of a declared type.
#[derive(Copy, Clone, Debug, PartialEq, Eq, Structural, Hash)]
pub enum TyBase {
    /// A bound type variable.
    BoundVar(u32),
    /// A type named by an entity (a struct or a lang item).
    Named(Entity),
    /// A type that could not be determined.
    Error,
}

/// A declared type.
#[derive(Copy, Clone, Debug, PartialEq, Eq, Structural, Hash)]
pub struct Ty {
    pub base: TyBase,
}

/// The error type stands in for a type that could not be determined.
impl<Cx> ErrorSentinel<Cx> for Ty {
    open spec fn sentinel_of(cx: Cx) -> Self {
        Ty { base: TyBase::Error }
    }

    fn error_sentinel(cx: Cx) -> (r: Self) {
        Ty { base: TyBase::Error }
    }
}

/// The signature of a function or method.
pub struct Signature {
    pub inputs: Vec<Ty>,
    pub output: Ty,
}

/// Everything known about a program.
pub struct LarkDatabase {
    pub identifiers: GlobalIdentifierTables,
    pub entities: EntityTables,
    /// The input files, in order.
    pub file_names: Vec<FileName>,
    /// For each input file (same position), its top-level entities.
    pub top_level: Vec<Vec<Entity>>,
    /// The body of each function or method that has one.
    pub fn_bodies: Vec<(Entity, WithError<FnBody>)>,
    /// The members of each struct.
    pub members: Vec<(Entity, Result<Vec<Member>, ErrorReported>)>,
    /// The type of each field.
    pub types: Vec<(Entity, WithError<Ty>)>,
    /// The signature of each function or method.
    pub signatures: Vec<(Entity, WithError<Result<Signature, ErrorReported>>)>,
}

/// Position of the first entry of `s` whose key is `k`.
pub open spec fn key_position<V>(s: Seq<(Entity, V)>, k: Entity) -> Option<nat>
    decreases s.len(),
{
    if s.len() == 0 {
        None
    } else if s[0].0 == k {
        Some(0)
    } else {
        match key_position(s.drop_first(), k) {
            Some(i) => Some(i + 1),
            None => None,
        }
    }
}

proof fn lemma_key_position<V>(s: Seq<(Entity, V)>, k: Entity, i: nat)
    requires
        i <= s.len(),
        forall|j: int| 0 <= j < i ==> s[j].0 != k,
    ensures
        i < s.len() && s[i as int].0 == k ==> key_position(s, k) == Some(i),
        i == s.len() ==> key_position(s, k) is None,
    decreases i,
{
    if i > 0 {
        lemma_key_position(s.drop_first(), k, (i - 1) as nat);
    } else if s.len() > 0 {
    }
}

/// Searches `s` for the first entry with key `k`.
pub(crate) fn find_key<V>(s: &Vec<(Entity, V)>, k: Entity) -> (r: Option<usize>)
    ensures
        r matches Some(i) ==> key_position(s@, k) == Some(i as nat) && i < s@.len(),
        r is None ==> key_position(s@, k) is None,
{
    let n = s.len();
    let mut i: usize = 0;
    while i < n
        invariant
            n == s@.len(),
            i <= n,
            forall|j: int| 0 <= j < i ==> s@[j].0 != k,
        decreases n - i,
    {
        if s[i].0 == k {
            proof {
                lemma_key_position(s@, k, i as nat);
            }
            return Some(i);
        }
        i = i + 1;
    }
    proof {
        lemma_key_position(s@, k, i as nat);
    }
    None
}

/// The text of identifier `id`, if interned in `db`.
pub open spec fn ident_text(db: &LarkDatabase, id: GlobalIdentifier) -> Option<Seq<char>> {
    if id.index_value() < db.identifiers@.len() {
        Some(db.identifiers@[id.index_value() as int])
    } else {
        None
    }
}

/// What `e` names, if interned in `db`.
pub open spec fn entity_data(db: &LarkDatabase, e: Entity) -> Option<EntityData> {
    if e.index_value() < db.entities@.len() {
        Some(db.entities@[e.index_value() as int])
    } else {
        None
    }
}

/// The recorded body of `e`, if any.
pub open spec fn body_of(db: &LarkDatabase, e: Entity) -> Option<FnBody> {
    match key_position(db.fn_bodies@, e) {
        Some(i) => Some(db.fn_bodies@[i as int].1.value),
        None => None,
    }
}

/// The members recorded for `e`, if any.
pub open spec fn members_of(db: &LarkDatabase, e: Entity) -> Option<Result<Seq<Member>, ErrorReported>> {
    match key_position(db.members@, e) {
        Some(i) => Some(
            match db.members@[i as int].1 {
                Ok(v) => Ok(v@),
                Err(x) => Err(x),
            },
        ),
        None => None,
    }
}

/// The entity of the first member of `members` with `kind` and `name`.
pub open spec fn find_member(members: Seq<Member>, kind: MemberKind, name: GlobalIdentifier) -> Option<Entity>
    decreases members.len(),
{
    if members.len() == 0 {
        None
    } else if members[0].kind == kind && members[0].name == name {
        Some(members[0].entity)
    } else {
        find_member(members.drop_first(), kind, name)
    }
}

/// What `member_entity` gives.
pub open spec fn member_entity_of(db: &LarkDatabase, owner: Entity, kind: MemberKind, name: GlobalIdentifier) -> Option<Entity> {
    match members_of(db, owner) {
        Some(Ok(ms)) => find_member(ms, kind, name),
        _ => None,
    }
}

proof fn lemma_find_member(ms: Seq<Member>, kind: MemberKind, name: GlobalIdentifier, i: nat)
    requires
        i <= ms.len(),
        forall|j: int| 0 <= j < i ==> !(ms[j].kind == kind && ms[j].name == name),
    ensures
        i < ms.len() && ms[i as int].kind == kind && ms[i as int].name == name ==> find_member(ms, kind, name) == Some(ms[i as int].entity),
        i == ms.len() ==> find_member(ms, kind, name) is None,
    decreases i,
{
    if i > 0 {
        lemma_find_member(ms.drop_first(), kind, name, (i - 1) as nat);
    }
}

impl LarkDatabase {
    /// The text of `id`.
    pub fn untern_identifier(&self, id: GlobalIdentifier) -> (r: &String)
        requires
            id.index_value() < self.identifiers@.len(),
        ensures
            r@ == self.identifiers@[id.index_value() as int],
    {
        self.identifiers.untern(id)
    }

    /// What `e` names.
    pub fn untern_entity(&self, e: Entity) -> (r: EntityData)
        requires
            e.index_value() < self.entities@.len(),
        ensures
            r == self.entities@[e.index_value() as int],
            crate::entity::parent_of(r) matches Some(b) ==> b.index_value() < e.index_value(),
    {
        self.entities.untern(e)
    }

    /// The body recorded for `e`, with the errors found building it.
    pub fn fn_body(&self, e: Entity) -> (r: Option<&WithError<FnBody>>)
        ensures
            r matches Some(b) ==> {
                &&& body_of(self, e) == Some(b.value)
                &&& key_position(self.fn_bodies@, e) matches Some(i)
                &&& self.fn_bodies@[i as int].1 == *b
            },
            r is None ==> body_of(self, e) is None,
    {
        match find_key(&self.fn_bodies, e) {
            Some(i) => Some(&self.fn_bodies[i].1),
            None => None,
        }
    }

    /// The members of `e`, if recorded.
    pub fn members(&self, e: Entity) -> (r: Option<&Result<Vec<Member>, ErrorReported>>)
        ensures
            r matches Some(m) ==> {
                &&& key_position(self.members@, e) matches Some(i)
                &&& self.members@[i as int].1 == *m
            },
            r is None ==> key_position(self.members@, e) is None,
    {
        match find_key(&self.members, e) {
            Some(i) => Some(&self.members[i].1),
            None => None,
        }
    }

    /// The member of `owner` of the given kind and name, if any.
    pub fn member_entity(&self, owner: Entity, kind: MemberKind, name: GlobalIdentifier) -> (r: Option<Entity>)
        ensures
            r == member_entity_of(self, owner, kind, name),
    {
        match self.members(owner) {
            Some(Ok(ms)) => {
                proof {
                    assert(members_of(self, owner) == Some(Ok::<Seq<Member>, ErrorReported>(ms@)));
                }
                let n = ms.len();
                let mut i: usize = 0;
                while i < n
                    invariant
                        n == ms@.len(),
                        i <= n,
                        members_of(self, owner) == Some(Ok::<Seq<Member>, ErrorReported>(ms@)),
                        forall|j: int| 0 <= j < i ==> !(ms@[j].kind == kind && ms@[j].name == name),
                    decreases n - i,
                {
                    if ms[i].kind == kind && ms[i].name == name {
                        proof {
                            lemma_find_member(ms@, kind, name, i as nat);
                        }
                        return Some(ms[i].entity);
                    }
                    i = i + 1;
                }
                proof {
                    lemma_find_member(ms@, kind, name, i as nat);
                }
                None
            },
            _ => None,
        }
    }

    /// The type recorded for `e`, with its errors.
    pub fn ty(&self, e: Entity) -> (r: Option<&WithError<Ty>>)
        ensures
            r matches Some(t) ==> {
                &&& key_position(self.types@, e) matches Some(i)
                &&& self.types@[i as int].1 == *t
            },
            r is None ==> key_position(self.types@, e) is None,
    {
        match find_key(&self.types, e) {
            Some(i) => Some(&self.types[i].1),
            None => None,
        }
    }

    /// The signature recorded for `e`, with its errors.
    pub fn signature(&self, e: Entity) -> (r: Option<&WithError<Result<Signature, ErrorReported>>>)
        ensures
            r matches Some(s) ==> {
                &&& key_position(self.signatures@, e) matches Some(i)
                &&& self.signatures@[i as int].1 == *s
            },
            r is None ==> key_position(self.signatures@, e) is None,
    {
        match find_key(&self.signatures, e) {
            Some(i) => Some(&self.signatures[i].1),
            None => None,
        }
    }
}

} // verus!
