//! The symbol table: a mapping from symbol name to 16-bit address.
//!
//! The table is pre-seeded with the fixed architectural symbols (`R0`–`R15`,
//! the pointer aliases `SP`/`LCL`/`ARG`/`THIS`/`THAT`, `SCREEN` and `KBD`).
//! Label resolution adds label entries; code generation adds variable entries
//! on first reference. An insertion with an existing name overwrites it,
//! which only label re-declaration ever does.

use vstd::prelude::*;

verus! {

/// Mapping from symbol name to 16-bit address, abstracted as a `Map`.
pub struct SymbolTable {
    entries: Vec<(Vec<char>, u16)>,
}

/// The mapping an entry list denotes: later entries shadow earlier ones.
pub closed spec fn map_of(entries: Seq<(Vec<char>, u16)>) -> Map<Seq<char>, u16>
    decreases entries.len(),
{
    if entries.len() == 0 {
        Map::empty()
    } else {
        map_of(entries.drop_last()).insert(entries.last().0@, entries.last().1)
    }
}

impl View for SymbolTable {
    type V = Map<Seq<char>, u16>;

    closed spec fn view(&self) -> Map<Seq<char>, u16> {
        map_of(self.entries@)
    }
}

/// The fixed architectural symbols a fresh table holds: registers `R0`–`R15`
/// at 0–15, the pointer aliases `SP`/`LCL`/`ARG`/`THIS`/`THAT` at 0–4, and
/// the device bases `SCREEN` at 16384 and `KBD` at 24576.
pub open spec fn predefined_table() -> Map<Seq<char>, u16> {
    Map::empty().insert(seq!['R', '0'], 0u16).insert(seq!['R', '1'], 1u16).insert(
        seq!['R', '2'],
        2u16,
    ).insert(seq!['R', '3'], 3u16).insert(seq!['R', '4'], 4u16).insert(seq!['R', '5'], 5u16).insert(
        seq!['R', '6'],
        6u16,
    ).insert(seq!['R', '7'], 7u16).insert(seq!['R', '8'], 8u16).insert(seq!['R', '9'], 9u16).insert(
        seq!['R', '1', '0'],
        10u16,
    ).insert(seq!['R', '1', '1'], 11u16).insert(seq!['R', '1', '2'], 12u16).insert(
        seq!['R', '1', '3'],
        13u16,
    ).insert(seq!['R', '1', '4'], 14u16).insert(seq!['R', '1', '5'], 15u16).insert(
        seq!['S', 'C', 'R', 'E', 'E', 'N'],
        16384u16,
    ).insert(seq!['K', 'B', 'D'], 24576u16).insert(seq!['S', 'P'], 0u16).insert(
        seq!['L', 'C', 'L'],
        1u16,
    ).insert(seq!['A', 'R', 'G'], 2u16).insert(seq!['T', 'H', 'I', 'S'], 3u16).insert(
        seq!['T', 'H', 'A', 'T'],
        4u16,
    )
}

/// Character-for-character equality of two owned tokens.
fn token_eq(a: &Vec<char>, b: &Vec<char>) -> (r: bool)
    ensures
        r == (a@ == b@),
{
    if a.len() != b.len() {
        return false;
    }
    let mut i: usize = 0;
    while i < a.len()
        invariant
            a@.len() == b@.len(),
            0 <= i <= a@.len(),
            forall|j: int| 0 <= j < i ==> a@[j] == b@[j],
        decreases a@.len() - i,
    {
        if a[i] != b[i] {
            return false;
        }
        i = i + 1;
    }
    proof {
        assert(a@ =~= b@);
    }
    true
}

impl SymbolTable {
    /// A fresh table holding exactly the pre-seeded architectural symbols.
    pub fn new() -> (t: SymbolTable)
        ensures
            t@ == predefined_table(),
    {
        let mut t = SymbolTable { entries: Vec::new() };
        t.insert(vec!['R', '0'], 0);
        t.insert(vec!['R', '1'], 1);
        t.insert(vec!['R', '2'], 2);
        t.insert(vec!['R', '3'], 3);
        t.insert(vec!['R', '4'], 4);
        t.insert(vec!['R', '5'], 5);
        t.insert(vec!['R', '6'], 6);
        t.insert(vec!['R', '7'], 7);
        t.insert(vec!['R', '8'], 8);
        t.insert(vec!['R', '9'], 9);
        t.insert(vec!['R', '1', '0'], 10);
        t.insert(vec!['R', '1', '1'], 11);
        t.insert(vec!['R', '1', '2'], 12);
        t.insert(vec!['R', '1', '3'], 13);
        t.insert(vec!['R', '1', '4'], 14);
        t.insert(vec!['R', '1', '5'], 15);
        t.insert(vec!['S', 'C', 'R', 'E', 'E', 'N'], 16384);
        t.insert(vec!['K', 'B', 'D'], 24576);
        t.insert(vec!['S', 'P'], 0);
        t.insert(vec!['L', 'C', 'L'], 1);
        t.insert(vec!['A', 'R', 'G'], 2);
        t.insert(vec!['T', 'H', 'I', 'S'], 3);
        t.insert(vec!['T', 'H', 'A', 'T'], 4);
        t
    }

    /// Binds `name` to `addr`, overwriting any earlier binding.
    pub fn insert(&mut self, name: Vec<char>, addr: u16)
        ensures
            final(self)@ == old(self)@.insert(name@, addr),
    {
        let ghost before = self.entries@;
        let ghost key = name@;
        self.entries.push((name, addr));
        proof {
            assert(self.entries@.drop_last() =~= before);
            assert(self.entries@.last().0@ == key);
        }
    }

    /// The address bound to `name`, or `None` when the name is unbound.
    pub fn get(&self, name: &Vec<char>) -> (r: Option<u16>)
        ensures
            r == (if self@.contains_key(name@) {
                Some(self@[name@])
            } else {
                None
            }),
    {
        let ghost key = name@;
        let mut i: usize = self.entries.len();
        proof {
            assert(self.entries@.take(self.entries@.len() as int) =~= self.entries@);
        }
        while i > 0
            invariant
                key == name@,
                0 <= i <= self.entries@.len(),
                ({
                    let whole = map_of(self.entries@);
                    let part = map_of(self.entries@.take(i as int));
                    &&& whole.contains_key(key) == part.contains_key(key)
                    &&& (part.contains_key(key) ==> whole[key] == part[key])
                }),
            decreases i,
        {
            i = i - 1;
            proof {
                assert(self.entries@.take(i + 1).drop_last() =~= self.entries@.take(i as int));
                assert(self.entries@.take(i + 1).last() == self.entries@[i as int]);
                assert(map_of(self.entries@.take(i + 1)) == map_of(
                    self.entries@.take(i as int),
                ).insert(self.entries@[i as int].0@, self.entries@[i as int].1));
            }
            let entry = &self.entries[i];
            if token_eq(&entry.0, name) {
                return Some(entry.1);
            }
        }
        proof {
            assert(self.entries@.take(0) =~= Seq::<(Vec<char>, u16)>::empty());
        }
        None
    }
}

} // verus!
