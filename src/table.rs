//! The variable bound table: the bound most recently registered for each
//! (identifier, bit width).

use crate::ir::UMetadata;
use vstd::prelude::*;

verus! {

/// What the table knows of a variable: its bound and its reduction flag.
pub type BoundView = (nat, Option<bool>);

#[derive(Debug)]
pub struct Entry {
    pub name: String,
    pub bitwidth: u32,
    pub meta: UMetadata,
}

pub open spec fn entry_key(e: Entry) -> (Seq<char>, u32) {
    (e.name@, e.bitwidth)
}

pub open spec fn entry_bound(e: Entry) -> BoundView {
    (e.meta.max.value(), e.meta.should_reduce)
}

/// The bound recorded for `k`, searching from the most recent entry.
pub open spec fn find_last(s: Seq<Entry>, k: (Seq<char>, u32)) -> Option<BoundView>
    decreases s.len(),
{
    if s.len() == 0 {
        None
    } else if entry_key(s.last()) == k {
        Some(entry_bound(s.last()))
    } else {
        find_last(s.drop_last(), k)
    }
}

/// No two entries share a key.
pub open spec fn keys_unique(s: Seq<Entry>) -> bool {
    forall|i: int, j: int| 0 <= i < j < s.len() ==> entry_key(s[i]) != entry_key(s[j])
}

/// With unique keys, the entry holding `k` gives its bound.
proof fn lemma_find_at(s: Seq<Entry>, j: int, k: (Seq<char>, u32))
    requires
        keys_unique(s),
        0 <= j < s.len(),
        entry_key(s[j]) == k,
    ensures
        find_last(s, k) == Some(entry_bound(s[j])),
    decreases s.len(),
{
    if j < s.len() - 1 {
        assert(entry_key(s.last()) != k);
        lemma_find_at(s.drop_last(), j, k);
    }
}

/// A key that no entry holds has no bound.
proof fn lemma_find_none(s: Seq<Entry>, k: (Seq<char>, u32))
    requires
        forall|j: int| 0 <= j < s.len() ==> entry_key(#[trigger] s[j]) != k,
    ensures
        find_last(s, k) is None,
    decreases s.len(),
{
    if s.len() > 0 {
        assert(entry_key(s[s.len() - 1]) != k);
        lemma_find_none(s.drop_last(), k);
    }
}

/// A table of variable bounds, one entry per (identifier, bit width).
#[derive(Debug)]
pub struct VarTable {
    entries: Vec<Entry>,
}

impl VarTable {
    /// Each key has at most one entry.
    pub closed spec fn wf(&self) -> bool {
        keys_unique(self.entries@)
    }

    /// The bound of each registered key.
    pub closed spec fn view(&self) -> Map<(Seq<char>, u32), BoundView> {
        Map::new(
            |k: (Seq<char>, u32)| find_last(self.entries@, k) is Some,
            |k: (Seq<char>, u32)| find_last(self.entries@, k)->0,
        )
    }

    pub fn new() -> (r: VarTable)
        ensures
            r.wf(),
            r.view() == Map::<(Seq<char>, u32), BoundView>::empty(),
    {
        let r = VarTable { entries: Vec::new() };
        assert(r.view() =~= Map::<(Seq<char>, u32), BoundView>::empty());
        r
    }

    /// The position of the entry for `name` at `bitwidth`, if there is one.
    fn position(&self, name: &String, bitwidth: u32) -> (r: Option<usize>)
        ensures
            r is Some ==> r->0 < self.entries@.len() && entry_key(self.entries@[r->0 as int]) == (
                name@,
                bitwidth,
            ),
            r is None ==> forall|j: int|
                0 <= j < self.entries@.len() ==> entry_key(#[trigger] self.entries@[j]) != (
                    name@,
                    bitwidth,
                ),
    {
        let mut i: usize = 0;
        while i < self.entries.len()
            invariant
                i <= self.entries@.len(),
                forall|j: int|
                    0 <= j < i ==> entry_key(#[trigger] self.entries@[j]) != (name@, bitwidth),
            decreases self.entries@.len() - i,
        {
            let e = &self.entries[i];
            let same_name = e.name == *name;
            if e.bitwidth == bitwidth && same_name {
                return Some(i);
            }
            i = i + 1;
        }
        None
    }

    /// Registers `meta` for `name` at `bitwidth`, replacing what was there.
    pub fn register(&mut self, name: String, bitwidth: u32, meta: UMetadata)
        requires
            old(self).wf(),
        ensures
            final(self).wf(),
            final(self).view() == old(self).view().insert(
                (name@, bitwidth),
                (meta.max.value(), meta.should_reduce),
            ),
    {
        let ghost k0: (Seq<char>, u32) = (name@, bitwidth);
        let ghost b0 = (meta.max.value(), meta.should_reduce);
        let ghost before = self.entries@;
        let pos = self.position(&name, bitwidth);
        let e = Entry { name, bitwidth, meta };
        match pos {
            Some(i) => {
                self.entries.set(i, e);
            },
            None => {
                self.entries.push(e);
            },
        }
        let ghost after = self.entries@;
        assert(keys_unique(after));
        assert forall|k: (Seq<char>, u32)| find_last(after, k) == (if k == k0 {
            Some(b0)
        } else {
            find_last(before, k)
        }) by {
            if k == k0 {
                let j = if pos is Some { pos->0 as int } else { before.len() as int };
                lemma_find_at(after, j, k);
            } else if exists|j: int| 0 <= j < before.len() && entry_key(#[trigger] before[j]) == k {
                let j = choose|j: int| 0 <= j < before.len() && entry_key(#[trigger] before[j]) == k;
                lemma_find_at(before, j, k);
                assert(after[j] == before[j]);
                lemma_find_at(after, j, k);
            } else {
                lemma_find_none(before, k);
                assert forall|j: int| 0 <= j < after.len() implies entry_key(#[trigger] after[j]) != k by {
                    if j < before.len() {
                        assert(entry_key(before[j]) != k);
                    }
                }
                lemma_find_none(after, k);
            }
        }
        assert(self.view() =~= old(self).view().insert(k0, b0));
    }

    /// The bound registered for `name` at `bitwidth`, as a copy.
    pub fn lookup(&self, name: &String, bitwidth: u32) -> (r: Option<UMetadata>)
        ensures
            r is Some <==> self.view().contains_key((name@, bitwidth)),
            r is Some ==> self.view()[(name@, bitwidth)] == (
                r->0.max.value(),
                r->0.should_reduce,
            ),
    {
        let ghost k: (Seq<char>, u32) = (name@, bitwidth);
        let mut i: usize = self.entries.len();
        assert(self.entries@.take(i as int) =~= self.entries@);
        while i > 0
            invariant
                i <= self.entries@.len(),
                k == (name@, bitwidth),
                find_last(self.entries@, k) == find_last(self.entries@.take(i as int), k),
            decreases i,
        {
            assert(self.entries@.take(i as int).drop_last() =~= self.entries@.take(i - 1));
            let e = &self.entries[i - 1];
            assert(self.entries@.take(i as int).last() == self.entries@[i - 1]);
            let same_name = e.name == *name;
            if e.bitwidth == bitwidth && same_name {
                assert(entry_key(self.entries@.take(i as int).last()) == k);
                return Some(e.meta.duplicate());
            }
            i = i - 1;
        }
        assert(self.entries@.take(0) =~= Seq::<Entry>::empty());
        None
    }
}

} // verus!
