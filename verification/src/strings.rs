//! Interned identifiers: each distinct string is stored once and named by
//! a small index.
use vstd::prelude::*;

use crate::indices::{U32Index, INDEX_LIMIT};

verus! {

/// An interned string, named by its position in a `GlobalIdentifierTables`.
#[derive(Copy, Clone, Debug, PartialEq, Eq, Structural, Hash, PartialOrd, Ord)]
pub struct GlobalIdentifier {
    private: u32,
}

impl GlobalIdentifier {
    #[verifier::type_invariant]
    spec fn below_limit(self) -> bool {
        self.private < INDEX_LIMIT
    }

    /// Two indices with the same value are the same index.
    pub proof fn lemma_same_value(self, other: Self)
        requires
            self.index_value() == other.index_value(),
        ensures
            self == other,
    {
    }

    /// The index with value `index`.
    pub fn new(index: usize) -> (r: Self)
        requires
            index < INDEX_LIMIT,
        ensures
            r.index_value() == index,
    {
        GlobalIdentifier { private: index as u32 }
    }

    /// The index with value `index`.
    pub fn from_u32(index: u32) -> (r: Self)
        requires
            index < INDEX_LIMIT,
        ensures
            r.index_value() == index,
    {
        GlobalIdentifier { private: index }
    }

    pub fn as_u32(self) -> (r: u32)
        ensures
            r == self.index_value(),
            r < INDEX_LIMIT,
    {
        proof { use_type_invariant(self); }
        self.private
    }

    pub fn as_usize(self) -> (r: usize)
        ensures
            r == self.index_value(),
            r < INDEX_LIMIT,
    {
        proof { use_type_invariant(self); }
        self.private as usize
    }
}

impl U32Index for GlobalIdentifier {
    closed spec fn index_value(self) -> nat {
        self.private as nat
    }

    proof fn lemma_index_value_injective(self, other: Self) {
    }

    fn as_usize(self) -> (r: usize) {
        proof { use_type_invariant(self); }
        self.private as usize
    }

    fn from_usize(v: usize) -> (r: Self) {
        GlobalIdentifier { private: v as u32 }
    }

    fn as_u32(self) -> (r: u32) {
        proof { use_type_invariant(self); }
        self.private
    }

    fn from_u32(v: u32) -> (r: Self) {
        GlobalIdentifier { private: v }
    }
}

/// The table of interned strings. Each string occurs at most once.
pub struct GlobalIdentifierTables {
    strings: Vec<String>,
}

/// No string occurs twice in `s`.
pub open spec fn all_distinct(s: Seq<Seq<char>>) -> bool {
    forall|i: int, j: int| 0 <= i < s.len() && 0 <= j < s.len() && i != j ==> s[i] != s[j]
}

impl View for GlobalIdentifierTables {
    type V = Seq<Seq<char>>;

    closed spec fn view(&self) -> Seq<Seq<char>> {
        self.strings@.map_values(|s: String| s@)
    }
}

impl GlobalIdentifierTables {
    #[verifier::type_invariant]
    spec fn distinct_and_bounded(self) -> bool {
        &&& all_distinct(self@)
        &&& self@.len() <= INDEX_LIMIT
    }

    /// A table with nothing interned yet.
    pub fn new() -> (r: Self)
        ensures
            r@ == Seq::<Seq<char>>::empty(),
    {
        let r = GlobalIdentifierTables { strings: Vec::new() };
        proof {
            assert(r@ =~= Seq::<Seq<char>>::empty());
        }
        r
    }

    pub fn len(&self) -> (r: usize)
        ensures
            r == self@.len(),
    {
        self.strings.len()
    }

    /// Looks `s` up without interning it.
    pub fn lookup(&self, s: &str) -> (r: Option<GlobalIdentifier>)
        ensures
            r matches Some(id) ==> id.index_value() < self@.len() && self@[id.index_value() as int] == s@,
            r matches Some(id) ==> forall|j: int| 0 <= j < self@.len() && j != id.index_value() ==> self@[j] != s@,
            r is None ==> !self@.contains(s@),
    {
        proof { use_type_invariant(self); }
        let owned = String::from_str(s);
        let n = self.strings.len();
        let mut k: usize = 0;
        while k < n
            invariant
                n == self@.len(),
                n <= INDEX_LIMIT,
                all_distinct(self@),
                k <= n,
                owned@ == s@,
                forall|j: int| 0 <= j < k ==> self@[j] != s@,
            decreases n - k,
        {
            if self.strings[k] == owned {
                proof {
                    assert(self@[k as int] == s@);
                    assert forall|j: int| 0 <= j < self@.len() && j != k implies self@[j] != s@ by {
                        assert(self@[j] != self@[k as int]);
                    }
                }
                return Some(GlobalIdentifier::new(k));
            }
            k = k + 1;
        }
        None
    }

    /// Interns `s`: the identifier already naming `s`, or a new one
    /// appended at the end.
    pub fn intern(&mut self, s: &str) -> (r: GlobalIdentifier)
        requires
            old(self)@.contains(s@) || old(self)@.len() < INDEX_LIMIT,
        ensures
            old(self)@.contains(s@) ==> final(self)@ == old(self)@,
            !old(self)@.contains(s@) ==> final(self)@ == old(self)@.push(s@),
            r.index_value() < final(self)@.len(),
            final(self)@[r.index_value() as int] == s@,
            forall|j: int| 0 <= j < final(self)@.len() && final(self)@[j] == s@ ==> j == r.index_value(),
    {
        match self.lookup(s) {
            Some(id) => id,
            None => {
                let n = self.strings.len();
                let ghost before = self@;
                proof {
                    use_type_invariant(&*self);
                }
                let owned = String::from_str(s);
                let mut v: Vec<String> = Vec::new();
                std::mem::swap(&mut v, &mut self.strings);
                v.push(owned);
                proof {
                    assert(v@.map_values(|s: String| s@) =~= before.push(s@));
                }
                self.strings = v;
                proof {
                    assert(self@ =~= before.push(s@));
                    assert forall|j: int| 0 <= j < self@.len() && self@[j] == s@ implies j == n by {
                        if j < n {
                            assert(before[j] == s@);
                            assert(before.contains(s@));
                        }
                    }
                }
                GlobalIdentifier::new(n)
            }
        }
    }

    /// The string that `id` names.
    pub fn untern(&self, id: GlobalIdentifier) -> (r: &String)
        requires
            id.index_value() < self@.len(),
        ensures
            r@ == self@[id.index_value() as int],
    {
        &self.strings[id.as_usize()]
    }
}

} // verus!
