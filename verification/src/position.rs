//! Positions on the grid, and how they are stored in hashed collections.

use std::collections::HashSet;
use vstd::prelude::*;
use vstd::std_specs::hash::*;

verus! {

broadcast use vstd::std_specs::hash::group_hash_axioms;

/// Whether both coordinates fit the coordinate type.
pub open spec fn in_range(p: (int, int)) -> bool {
    &&& i32::MIN <= p.0 <= i32::MAX
    &&& i32::MIN <= p.1 <= i32::MAX
}

/// The position as a pair of mathematical integers.
pub open spec fn at(p: (i32, i32)) -> (int, int) {
    (p.0 as int, p.1 as int)
}

/// The key under which the cell at `(x, y)` is stored.
pub(crate) closed spec fn key_of(p: (int, int)) -> u64 {
    ((p.0 + 0x8000_0000) * 0x1_0000_0000 + (p.1 + 0x8000_0000)) as u64
}

/// The position stored under a key.
pub(crate) closed spec fn position_of(key: u64) -> (int, int) {
    (key / 0x1_0000_0000 - 0x8000_0000, key % 0x1_0000_0000 - 0x8000_0000)
}

pub(crate) proof fn lemma_keys(p: (int, int))
    requires
        in_range(p),
    ensures
        position_of(key_of(p)) == p,
        key_of(p) == (p.0 + 0x8000_0000) * 0x1_0000_0000 + (p.1 + 0x8000_0000),
{
}

/// Every key is the key of the position stored under it.
pub(crate) proof fn lemma_positions(key: u64)
    ensures
        in_range(position_of(key)),
        key_of(position_of(key)) == key,
{
}

pub(crate) fn unpack_key(key: u64) -> (p: (i32, i32))
    ensures
        at(p) == position_of(key),
{
    let column = (key / 0x1_0000_0000) as i64 - 0x8000_0000;
    let row = (key % 0x1_0000_0000) as i64 - 0x8000_0000;
    (column as i32, row as i32)
}

pub(crate) fn pack_key(x: i32, y: i32) -> (key: u64)
    ensures
        key == key_of((x as int, y as int)),
{
    let column = (x as i64 + 0x8000_0000) as u64;
    let row = (y as i64 + 0x8000_0000) as u64;
    column * 0x1_0000_0000 + row
}

/// A finite set of positions.
pub struct PositionSet {
    keys: HashSet<u64>,
}

impl View for PositionSet {
    type V = Set<(int, int)>;

    closed spec fn view(&self) -> Set<(int, int)> {
        Set::new(|p: (int, int)| in_range(p) && self.keys@.contains(key_of(p)))
    }
}

impl PositionSet {
    /// The empty set.
    pub fn new() -> (r: Self)
        ensures
            r@ == Set::<(int, int)>::empty(),
    {
        let r = Self { keys: HashSet::new() };
        assert(r@ =~= Set::<(int, int)>::empty());
        r
    }

    /// Adds a position to the set.
    pub fn insert(&mut self, x: i32, y: i32)
        ensures
            final(self)@ == old(self)@.insert((x as int, y as int)),
    {
        let key = pack_key(x, y);
        self.keys.insert(key);
        proof {
            let p = (x as int, y as int);
            lemma_keys(p);
            assert forall|q: (int, int)| in_range(q) && q != p implies key_of(q) != key_of(p) by {
                lemma_keys(q);
            }
            assert(final(self)@ =~= old(self)@.insert(p));
        }
    }

    /// Whether the set holds a position.
    pub fn contains(&self, x: i32, y: i32) -> (r: bool)
        ensures
            r == self@.contains((x as int, y as int)),
    {
        let key = pack_key(x, y);
        self.keys.contains(&key)
    }
}

} // verus!
