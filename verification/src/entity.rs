//! Entities: interned names for everything a Lark program declares
//! (input files, items, members) plus the built-in language items.
use vstd::prelude::*;

use crate::error::ErrorReported;
use crate::indices::{U32Index, INDEX_LIMIT};
use crate::numbers::{decimal, u64_to_string};
use crate::span::FileName;
use crate::strings::{GlobalIdentifier, GlobalIdentifierTables};

verus! {

/// An interned `EntityData`, named by its position in an `EntityTables`.
#[derive(Copy, Clone, Debug, PartialEq, Eq, Structural, Hash, PartialOrd, Ord)]
pub struct Entity {
    private: u32,
}

impl Entity {
    #[verifier::type_invariant]
    spec fn below_limit(self) -> bool {
        self.private < INDEX_LIMIT
    }

    /// Two indices with the same value are the same index.
    pub proof fn lemma_same_value(self, other: Self)
        requires
            self.index_value() == other.index_value(),
        ensures
            self == other,
    {
    }

    /// The index with value `index`.
    pub fn new(index: usize) -> (r: Self)
        requires
            index < INDEX_LIMIT,
        ensures
            r.index_value() == index,
    {
        Entity { private: index as u32 }
    }

    /// The index with value `index`.
    pub fn from_u32(index: u32) -> (r: Self)
        requires
            index < INDEX_LIMIT,
        ensures
            r.index_value() == index,
    {
        Entity { private: index }
    }

    pub fn as_u32(self) -> (r: u32)
        ensures
            r == self.index_value(),
            r < INDEX_LIMIT,
    {
        proof { use_type_invariant(self); }
        self.private
    }

    pub fn as_usize(self) -> (r: usize)
        ensures
            r == self.index_value(),
            r < INDEX_LIMIT,
    {
        proof { use_type_invariant(self); }
        self.private as usize
    }
}

impl U32Index for Entity {
    closed spec fn index_value(self) -> nat {
        self.private as nat
    }

    proof fn lemma_index_value_injective(self, other: Self) {
    }

    fn as_usize(self) -> (r: usize) {
        proof { use_type_invariant(self); }
        self.private as usize
    }

    fn from_usize(v: usize) -> (r: Self) {
        Entity { private: v as u32 }
    }

    fn as_u32(self) -> (r: u32) {
        proof { use_type_invariant(self); }
        self.private
    }

    fn from_u32(v: u32) -> (r: Self) {
        Entity { private: v }
    }
}

/// Struct definitions that are built in to Lark.
#[derive(Copy, Clone, Debug, PartialEq, Eq, Structural, Hash)]
pub enum LangItem {
    Boolean,
    Int,
    Uint,
    Tuple(usize),
    String,
    True,
    False,
    Debug,
}

#[derive(Copy, Clone, Debug, PartialEq, Eq, Structural, Hash)]
pub enum ItemKind {
    Struct,
    Function,
}

#[derive(Copy, Clone, Debug, PartialEq, Eq, Structural, Hash)]
pub enum MemberKind {
    Field,
    Method,
}

/// What an entity is.
#[allow(inconsistent_fields)]
#[derive(Copy, Clone, Debug, PartialEq, Eq, Structural, Hash)]
pub enum EntityData {
    /// Fetching the entity failed with an error (reported separately).
    Error(ErrorReported),
    LangItem(LangItem),
    InputFile { file: FileName },
    ItemName { base: Entity, kind: ItemKind, id: GlobalIdentifier },
    MemberName { base: Entity, kind: MemberKind, id: GlobalIdentifier },
}

/// The parent entity of `d`: `Some` for items and members.
pub open spec fn parent_of(d: EntityData) -> Option<Entity> {
    match d {
        EntityData::ItemName { base, .. } => Some(base),
        EntityData::MemberName { base, .. } => Some(base),
        _ => None,
    }
}

/// No entity occurs twice in `s`, and each parent is interned before its
/// child.
pub open spec fn entities_well_formed(s: Seq<EntityData>) -> bool {
    &&& forall|i: int, j: int| 0 <= i < s.len() && 0 <= j < s.len() && i != j ==> s[i] != s[j]
    &&& forall|i: int| 0 <= i < s.len() ==> (#[trigger] parent_of(s[i]) matches Some(b) ==> b.index_value() < i)
    &&& s.len() <= INDEX_LIMIT
}

/// The table of interned entities.
pub struct EntityTables {
    items: Vec<EntityData>,
}

impl View for EntityTables {
    type V = Seq<EntityData>;

    closed spec fn view(&self) -> Seq<EntityData> {
        self.items@
    }
}

/// The input file an entity appears in, following parents.
pub open spec fn entity_file(tables: Seq<EntityData>, e: nat) -> Option<FileName>
    decreases e,
{
    if e >= tables.len() {
        None
    } else {
        match tables[e as int] {
            EntityData::InputFile { file } => Some(file),
            EntityData::ItemName { base, .. } => if base.index_value() < e {
                entity_file(tables, base.index_value())
            } else {
                None
            },
            EntityData::MemberName { base, .. } => if base.index_value() < e {
                entity_file(tables, base.index_value())
            } else {
                None
            },
            _ => None,
        }
    }
}

impl EntityTables {
    #[verifier::type_invariant]
    spec fn well_formed(self) -> bool {
        entities_well_formed(self@)
    }

    pub fn new() -> (r: Self)
        ensures
            r@ == Seq::<EntityData>::empty(),
    {
        EntityTables { items: Vec::new() }
    }

    pub fn len(&self) -> (r: usize)
        ensures
            r == self@.len(),
    {
        self.items.len()
    }

    /// Looks `data` up without interning it.
    pub fn lookup(&self, data: EntityData) -> (r: Option<Entity>)
        ensures
            r matches Some(e) ==> e.index_value() < self@.len() && self@[e.index_value() as int] == data,
            r is None ==> !self@.contains(data),
    {
        proof { use_type_invariant(self); }
        let n = self.items.len();
        let mut k: usize = 0;
        while k < n
            invariant
                n == self@.len(),
                n <= INDEX_LIMIT,
                k <= n,
                forall|j: int| 0 <= j < k ==> self@[j] != data,
            decreases n - k,
        {
            if self.items[k] == data {
                return Some(Entity::new(k));
            }
            k = k + 1;
        }
        None
    }

    /// Interns `data`: the entity already naming it, or a new one appended
    /// at the end. A parent must be interned before its children.
    pub fn intern(&mut self, data: EntityData) -> (r: Entity)
        requires
            old(self)@.contains(data) || old(self)@.len() < INDEX_LIMIT,
            parent_of(data) matches Some(b) ==> b.index_value() < old(self)@.len(),
        ensures
            old(self)@.contains(data) ==> final(self)@ == old(self)@,
            !old(self)@.contains(data) ==> final(self)@ == old(self)@.push(data),
            r.index_value() < final(self)@.len(),
            final(self)@[r.index_value() as int] == data,
            forall|j: int| 0 <= j < final(self)@.len() && final(self)@[j] == data ==> j == r.index_value(),
    {
        proof { use_type_invariant(&*self); }
        match self.lookup(data) {
            Some(e) => e,
            None => {
                proof { use_type_invariant(&*self); }
                let n = self.items.len();
                let ghost before = self@;
                let mut v: Vec<EntityData> = Vec::new();
                std::mem::swap(&mut v, &mut self.items);
                v.push(data);
                proof {
                    assert(v@ == before.push(data));
                    assert forall|i: int| 0 <= i < v@.len() implies (#[trigger] parent_of(v@[i]) matches Some(b) ==> b.index_value() < i) by {
                        if i < before.len() {
                            assert(v@[i] == before[i]);
                        }
                    }
                }
                self.items = v;
                proof {
                    assert forall|j: int| 0 <= j < self@.len() && self@[j] == data implies j == n by {
                        if j < n {
                            assert(before[j] == data);
                            assert(before.contains(data));
                        }
                    }
                }
                Entity::new(n)
            }
        }
    }

    /// The data that `e` names.
    pub fn untern(&self, e: Entity) -> (r: EntityData)
        requires
            e.index_value() < self@.len(),
        ensures
            r == self@[e.index_value() as int],
            parent_of(r) matches Some(b) ==> b.index_value() < e.index_value(),
    {
        proof { use_type_invariant(self); }
        self.items[e.as_usize()]
    }
}

impl EntityData {
    /// The parent entity, if any: `Some` for items and members.
    pub fn parent(&self) -> (r: Option<Entity>)
        ensures
            r == parent_of(*self),
    {
        match self {
            EntityData::Error(_) | EntityData::LangItem(_) | EntityData::InputFile { .. } => None,
            EntityData::ItemName { base, .. } => Some(*base),
            EntityData::MemberName { base, .. } => Some(*base),
        }
    }

    /// The file in which this entity is located, if any (none for lang
    /// items and errors).
    pub fn file_name(&self, db: &EntityTables) -> (r: Option<FileName>)
        requires
            parent_of(*self) matches Some(b) ==> b.index_value() < db@.len(),
        ensures
            r == (match *self {
                EntityData::InputFile { file } => Some(file),
                _ => match parent_of(*self) {
                    Some(b) => entity_file(db@, b.index_value()),
                    None => None,
                },
            }),
        decreases
            (match parent_of(*self) {
                Some(b) => b.index_value() + 1,
                None => 0,
            }),
    {
        proof { use_type_invariant(db); }
        match self {
            EntityData::InputFile { file } => Some(*file),
            _ => match self.parent() {
                None => None,
                Some(base) => {
                    let d = db.untern(base);
                    proof {
                        assert(parent_of(d) matches Some(b) ==> b.index_value() < base.index_value());
                    }
                    d.file_name(db)
                },
            },
        }
    }

    /// True if this entity is a value the user could store in a variable
    /// (or might, for error entities).
    pub fn is_value(&self) -> (r: bool)
        ensures
            r == (match *self {
                EntityData::InputFile { .. } => false,
                EntityData::ItemName { kind, .. } => kind == ItemKind::Function,
                EntityData::MemberName { .. } => true,
                EntityData::LangItem(li) => li == LangItem::True || li == LangItem::False || li == LangItem::Debug,
                EntityData::Error(_) => true,
            }),
    {
        match self {
            EntityData::InputFile { .. }
            | EntityData::ItemName { kind: ItemKind::Struct, .. }
            | EntityData::LangItem(LangItem::Int)
            | EntityData::LangItem(LangItem::Tuple(_))
            | EntityData::LangItem(LangItem::String)
            | EntityData::LangItem(LangItem::Uint)
            | EntityData::LangItem(LangItem::Boolean) => false,
            EntityData::ItemName { kind: ItemKind::Function, .. }
            | EntityData::MemberName { kind: MemberKind::Method, .. }
            | EntityData::MemberName { kind: MemberKind::Field, .. }
            | EntityData::LangItem(LangItem::True)
            | EntityData::LangItem(LangItem::False)
            | EntityData::LangItem(LangItem::Debug)
            | EntityData::Error(_) => true,
        }
    }

    /// True if this entity has a fn body: functions and methods.
    pub fn has_fn_body(&self) -> (r: bool)
        ensures
            r == (match *self {
                EntityData::ItemName { kind, .. } => kind == ItemKind::Function,
                EntityData::MemberName { kind, .. } => kind == MemberKind::Method,
                _ => false,
            }),
    {
        match self {
            EntityData::InputFile { .. }
            | EntityData::ItemName { kind: ItemKind::Struct, .. }
            | EntityData::MemberName { kind: MemberKind::Field, .. }
            | EntityData::LangItem(_)
            | EntityData::Error(_) => false,
            EntityData::ItemName { kind: ItemKind::Function, .. }
            | EntityData::MemberName { kind: MemberKind::Method, .. } => true,
        }
    }

    /// A short description of this entity's name and kind, for debugging.
    pub fn relative_name(self, db: &GlobalIdentifierTables) -> (r: String)
        requires
            identifiers_known(self, db@),
        ensures
            r@ == relative_name_text(self, db@),
    {
        match self {
            EntityData::Error(_) => str_string("<error>"),
            EntityData::LangItem(li) => lang_item_string(li),
            EntityData::InputFile { file } => wrapped("InputFile(", db.untern(file.id)),
            EntityData::ItemName { id, .. } => wrapped("ItemName(", db.untern(id)),
            EntityData::MemberName { id, .. } => wrapped("MemberName(", db.untern(id)),
        }
    }
}

/// Every identifier that `d` holds directly is interned in `idents`.
pub open spec fn identifiers_known(d: EntityData, idents: Seq<Seq<char>>) -> bool {
    match d {
        EntityData::InputFile { file } => file.id.index_value() < idents.len(),
        EntityData::ItemName { id, .. } => id.index_value() < idents.len(),
        EntityData::MemberName { id, .. } => id.index_value() < idents.len(),
        _ => true,
    }
}

/// How `Debug` prints a lang item.
pub open spec fn lang_item_text(li: LangItem) -> Seq<char> {
    match li {
        LangItem::Boolean => "Boolean"@,
        LangItem::Int => "Int"@,
        LangItem::Uint => "Uint"@,
        LangItem::Tuple(n) => "Tuple("@ + decimal(n as nat) + ")"@,
        LangItem::String => "String"@,
        LangItem::True => "True"@,
        LangItem::False => "False"@,
        LangItem::Debug => "Debug"@,
    }
}

/// How `Debug` prints an item kind.
pub open spec fn item_kind_text(k: ItemKind) -> Seq<char> {
    match k {
        ItemKind::Struct => "Struct"@,
        ItemKind::Function => "Function"@,
    }
}

/// How `Debug` prints a member kind.
pub open spec fn member_kind_text(k: MemberKind) -> Seq<char> {
    match k {
        MemberKind::Field => "Field"@,
        MemberKind::Method => "Method"@,
    }
}

/// The text `relative_name` gives for `d`.
pub open spec fn relative_name_text(d: EntityData, idents: Seq<Seq<char>>) -> Seq<char> {
    match d {
        EntityData::Error(_) => "<error>"@,
        EntityData::LangItem(li) => lang_item_text(li),
        EntityData::InputFile { file } => "InputFile("@ + idents[file.id.index_value() as int] + ")"@,
        EntityData::ItemName { id, .. } => "ItemName("@ + idents[id.index_value() as int] + ")"@,
        EntityData::MemberName { id, .. } => "MemberName("@ + idents[id.index_value() as int] + ")"@,
    }
}

/// An owned copy of the literal `s`.
pub fn str_string(s: &str) -> (r: String)
    ensures
        r@ == s@,
{
    String::from_str(s)
}

/// `prefix`, then `inner`, then `)`.
fn wrapped(prefix: &str, inner: &String) -> (r: String)
    ensures
        r@ == prefix@ + inner@ + ")"@,
{
    let mut s = String::from_str(prefix);
    s.append(inner.as_str());
    s.append(")");
    s
}

/// The `Debug` text of a lang item.
pub fn lang_item_string(li: LangItem) -> (r: String)
    ensures
        r@ == lang_item_text(li),
{
    match li {
        LangItem::Boolean => str_string("Boolean"),
        LangItem::Int => str_string("Int"),
        LangItem::Uint => str_string("Uint"),
        LangItem::Tuple(n) => {
            let digits = u64_to_string(n as u64);
            let mut s = str_string("Tuple(");
            s.append(digits.as_str());
            s.append(")");
            s
        },
        LangItem::String => str_string("String"),
        LangItem::True => str_string("True"),
        LangItem::False => str_string("False"),
        LangItem::Debug => str_string("Debug"),
    }
}

/// The directory components `dump_dir` gives for `e`.
pub open spec fn dump_dir_parts(tables: Seq<EntityData>, idents: Seq<Seq<char>>, e: nat) -> Seq<Seq<char>>
    decreases e,
{
    if e >= tables.len() {
        seq![]
    } else {
        match tables[e as int] {
            EntityData::Error(_) => seq!["error"@],
            EntityData::LangItem(li) => seq![lang_item_text(li)],
            EntityData::InputFile { file } => seq![idents[file.id.index_value() as int]],
            EntityData::ItemName { base, kind, id } => if base.index_value() < e {
                dump_dir_parts(tables, idents, base.index_value()).push(item_kind_text(kind)).push(
                    idents[id.index_value() as int],
                )
            } else {
                seq![]
            },
            EntityData::MemberName { base, kind, id } => if base.index_value() < e {
                dump_dir_parts(tables, idents, base.index_value()).push(member_kind_text(kind)).push(
                    idents[id.index_value() as int],
                )
            } else {
                seq![]
            },
        }
    }
}

/// Every identifier held by an entity of `tables` is interned in `idents`.
pub open spec fn entity_identifiers_known(tables: Seq<EntityData>, idents: Seq<Seq<char>>) -> bool {
    forall|i: int| 0 <= i < tables.len() ==> identifiers_known(#[trigger] tables[i], idents)
}

impl Entity {
    /// The relative directory where debug information about this entity is
    /// dumped, as its path components.
    pub fn dump_dir(&self, db: &EntityTables, idents: &GlobalIdentifierTables) -> (r: Vec<String>)
        requires
            self.index_value() < db@.len(),
            entity_identifiers_known(db@, idents@),
        ensures
            r@.map_values(|s: String| s@) == dump_dir_parts(db@, idents@, self.index_value()),
        decreases self.index_value(),
    {
        proof { use_type_invariant(db); }
        let data = db.untern(*self);
        proof {
            assert(identifiers_known(data, idents@));
        }
        let mut dir: Vec<String> = Vec::new();
        match data {
            EntityData::Error(_) => {
                dir.push(str_string("error"));
            },
            EntityData::LangItem(li) => {
                dir.push(lang_item_string(li));
            },
            EntityData::InputFile { file } => {
                dir.push(idents.untern(file.id).clone());
            },
            EntityData::ItemName { base, kind, id } => {
                proof {
                    assert(parent_of(data) == Some(base));
                }
                dir = base.dump_dir(db, idents);
                let k = match kind {
                    ItemKind::Struct => str_string("Struct"),
                    ItemKind::Function => str_string("Function"),
                };
                dir.push(k);
                dir.push(idents.untern(id).clone());
            },
            EntityData::MemberName { base, kind, id } => {
                proof {
                    assert(parent_of(data) == Some(base));
                }
                dir = base.dump_dir(db, idents);
                let k = match kind {
                    MemberKind::Field => str_string("Field"),
                    MemberKind::Method => str_string("Method"),
                };
                dir.push(k);
                dir.push(idents.untern(id).clone());
            },
        }
        proof {
            assert(dir@.map_values(|s: String| s@) =~= dump_dir_parts(db@, idents@, self.index_value()));
        }
        dir
    }

    /// The input file in which this entity appears, if any.
    pub fn input_file(self, db: &EntityTables) -> (r: Option<FileName>)
        requires
            self.index_value() < db@.len(),
        ensures
            r == entity_file(db@, self.index_value()),
        decreases self.index_value(),
    {
        proof { use_type_invariant(db); }
        let data = db.untern(self);
        match data {
            EntityData::LangItem(_) => None,
            EntityData::InputFile { file } => Some(file),
            EntityData::ItemName { base, .. } => {
                proof { assert(parent_of(data) == Some(base)); }
                base.input_file(db)
            },
            EntityData::MemberName { base, .. } => {
                proof { assert(parent_of(data) == Some(base)); }
                base.input_file(db)
            },
            EntityData::Error(_) => None,
        }
    }
}

} // verus!
