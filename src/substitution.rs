//! A table that maps a variable name to a value, where a name may carry a
//! bit-index suffix after the marker `_b`: only the part before the marker is
//! stored, and a lookup with a suffix hands back the value with the same
//! suffix attached.

use vstd::prelude::*;
use vstd::string::*;

verus! {

/// Whether the marker `_b` starts at position `i` of `s`.
pub open spec fn marker_at(s: Seq<char>, i: int) -> bool {
    0 <= i && i + 1 < s.len() && s[i] == '_' && s[i + 1] == 'b'
}

/// The first position at or after `from` where the marker starts, or the
/// length of `s` when there is none.
pub open spec fn next_marker(s: Seq<char>, from: int) -> int
    decreases s.len() - from,
{
    if from < 0 || from + 1 >= s.len() {
        s.len() as int
    } else if marker_at(s, from) {
        from
    } else {
        next_marker(s, from + 1)
    }
}

/// The part of a key that is stored: everything before the first marker.
pub open spec fn key_base(s: Seq<char>) -> Seq<char> {
    s.take(next_marker(s, 0))
}

/// The bit-index suffix of a key: the text between the first marker and the
/// next one (or the end), when the key has a marker.
pub open spec fn key_suffix(s: Seq<char>) -> Option<Seq<char>> {
    let i = next_marker(s, 0);
    if i == s.len() {
        None
    } else {
        Some(s.subrange(i + 2, next_marker(s, i + 2)))
    }
}

/// The value stored for `k`, searching from the most recent entry.
pub open spec fn last_value(s: Seq<(String, String)>, k: Seq<char>) -> Option<Seq<char>>
    decreases s.len(),
{
    if s.len() == 0 {
        None
    } else if s.last().0@ == k {
        Some(s.last().1@)
    } else {
        last_value(s.drop_last(), k)
    }
}

/// No two entries share a key.
pub open spec fn keys_unique(s: Seq<(String, String)>) -> bool {
    forall|i: int, j: int| 0 <= i < j < s.len() ==> s[i].0@ != s[j].0@
}

/// With unique keys, the entry holding `k` gives its value.
proof fn lemma_value_at(s: Seq<(String, String)>, j: int, k: Seq<char>)
    requires
        keys_unique(s),
        0 <= j < s.len(),
        s[j].0@ == k,
    ensures
        last_value(s, k) == Some(s[j].1@),
    decreases s.len(),
{
    if j < s.len() - 1 {
        assert(s.last().0@ != k);
        lemma_value_at(s.drop_last(), j, k);
    }
}

/// A key that no entry holds has no value.
proof fn lemma_value_none(s: Seq<(String, String)>, k: Seq<char>)
    requires
        forall|j: int| 0 <= j < s.len() ==> (#[trigger] s[j]).0@ != k,
    ensures
        last_value(s, k) is None,
    decreases s.len(),
{
    if s.len() > 0 {
        assert(s[s.len() - 1].0@ != k);
        lemma_value_none(s.drop_last(), k);
    }
}

/// The value `get` hands back for `key` when its base maps to `v`.
pub open spec fn with_suffix(v: Seq<char>, key: Seq<char>) -> Seq<char> {
    match key_suffix(key) {
        Some(sfx) => v + "_b"@ + sfx,
        None => v,
    }
}

proof fn lemma_next_marker_bounds(s: Seq<char>, from: int)
    requires
        0 <= from,
    ensures
        next_marker(s, from) == s.len() || (from <= next_marker(s, from) && marker_at(s, next_marker(s, from))),
    decreases s.len() - from,
{
    if from + 1 < s.len() && !marker_at(s, from) {
        lemma_next_marker_bounds(s, from + 1);
    }
}

/// The first position at or after `from` where the marker starts.
fn find_marker(key: &str, n: usize, from: usize) -> (r: usize)
    requires
        n == key@.len(),
        from <= n,
    ensures
        r == next_marker(key@, from as int),
        from <= r <= n,
{
    let mut i: usize = from;
    while n - i > 1
        invariant
            n == key@.len(),
            from <= i <= n,
            next_marker(key@, from as int) == next_marker(key@, i as int),
        decreases n - i,
    {
        if key.get_char(i) == '_' && key.get_char(i + 1) == 'b' {
            return i;
        }
        i = i + 1;
    }
    n
}

/// Splits a key into its base and its bit-index suffix.
fn split_key(key: &str) -> (r: (&str, Option<&str>))
    ensures
        r.0@ == key_base(key@),
        r.1 is Some <==> key_suffix(key@) is Some,
        r.1 is Some ==> r.1->0@ == key_suffix(key@)->0,
{
    let n = key.unicode_len();
    let i = find_marker(key, n, 0);
    let base = key.substring_char(0, i);
    if i == n {
        (base, None)
    } else {
        proof {
            lemma_next_marker_bounds(key@, 0);
        }
        let j = find_marker(key, n, i + 2);
        (base, Some(key.substring_char(i + 2, j)))
    }
}

/// A remapping table from variable names to values.
#[derive(Debug)]
pub struct Substitution {
    entries: Vec<(String, String)>,
}

impl Substitution {
    /// Each base name has at most one entry.
    pub closed spec fn wf(&self) -> bool {
        keys_unique(self.entries@)
    }

    /// The value of each stored base name.
    pub closed spec fn view(&self) -> Map<Seq<char>, Seq<char>> {
        Map::new(
            |k: Seq<char>| last_value(self.entries@, k) is Some,
            |k: Seq<char>| last_value(self.entries@, k)->0,
        )
    }

    /// An empty table.
    pub fn new() -> (r: Substitution)
        ensures
            r.wf(),
            r.view() == Map::<Seq<char>, Seq<char>>::empty(),
    {
        let r = Substitution { entries: Vec::new() };
        assert(r.view() =~= Map::<Seq<char>, Seq<char>>::empty());
        r
    }

    /// The value stored for a base name.
    fn find(&self, base: &str) -> (r: Option<&String>)
        ensures
            r is Some <==> self.view().contains_key(base@),
            r is Some ==> r->0@ == self.view()[base@],
    {
        let ghost k = base@;
        let mut i: usize = self.entries.len();
        assert(self.entries@.take(i as int) =~= self.entries@);
        while i > 0
            invariant
                i <= self.entries@.len(),
                k == base@,
                last_value(self.entries@, k) == last_value(self.entries@.take(i as int), k),
            decreases i,
        {
            assert(self.entries@.take(i as int).drop_last() =~= self.entries@.take(i - 1));
            let e = &self.entries[i - 1];
            assert(self.entries@.take(i as int).last() == self.entries@[i - 1]);
            let same = same_chars(e.0.as_str(), base);
            if same {
                return Some(&e.1);
            }
            i = i - 1;
        }
        assert(self.entries@.take(0) =~= Seq::<(String, String)>::empty());
        None
    }

    /// The position of the entry for a base name, if there is one.
    fn position(&self, base: &str) -> (r: Option<usize>)
        ensures
            r is Some ==> r->0 < self.entries@.len() && self.entries@[r->0 as int].0@ == base@,
            r is None ==> forall|j: int| 0 <= j < self.entries@.len() ==> (#[trigger] self.entries@[j]).0@ != base@,
    {
        let mut i: usize = 0;
        while i < self.entries.len()
            invariant
                i <= self.entries@.len(),
                forall|j: int| 0 <= j < i ==> (#[trigger] self.entries@[j]).0@ != base@,
            decreases self.entries@.len() - i,
        {
            if same_chars(self.entries[i].0.as_str(), base) {
                return Some(i);
            }
            i = i + 1;
        }
        None
    }

    /// Stores `element` under the base of `key`, replacing and handing back
    /// the value that was there.
    pub fn insert(&mut self, key: String, element: String) -> (r: Option<String>)
        requires
            old(self).wf(),
        ensures
            final(self).wf(),
            final(self).view() == old(self).view().insert(key_base(key@), element@),
            r is Some <==> old(self).view().contains_key(key_base(key@)),
            r is Some ==> r->0@ == old(self).view()[key_base(key@)],
    {
        let (p, _) = split_key(key.as_str());
        let ghost k0 = key_base(key@);
        let ghost v0 = element@;
        let ghost before = self.entries@;
        let pos = self.position(p);
        let base = String::from_str(p);
        let previous = match pos {
            Some(i) => {
                proof {
                    lemma_value_at(before, i as int, k0);
                }
                let old_value = self.entries[i].1.clone();
                self.entries.set(i, (base, element));
                Some(old_value)
            },
            None => {
                proof {
                    lemma_value_none(before, k0);
                }
                self.entries.push((base, element));
                None
            },
        };
        let ghost after = self.entries@;
        assert(keys_unique(after));
        assert forall|k: Seq<char>| last_value(after, k) == (if k == k0 {
            Some(v0)
        } else {
            last_value(before, k)
        }) by {
            if k == k0 {
                let j = if pos is Some { pos->0 as int } else { before.len() as int };
                lemma_value_at(after, j, k);
            } else if exists|j: int| 0 <= j < before.len() && (#[trigger] before[j]).0@ == k {
                let j = choose|j: int| 0 <= j < before.len() && (#[trigger] before[j]).0@ == k;
                lemma_value_at(before, j, k);
                assert(after[j] == before[j]);
                lemma_value_at(after, j, k);
            } else {
                lemma_value_none(before, k);
                assert forall|j: int| 0 <= j < after.len() implies (#[trigger] after[j]).0@ != k by {
                    if j < before.len() {
                        assert(before[j].0@ != k);
                    }
                }
                lemma_value_none(after, k);
            }
        }
        assert(self.view() =~= old(self).view().insert(k0, v0));
        previous
    }

    /// The value for `key`: the value of its base, with the key's bit-index
    /// suffix attached after `_b` when it has one.
    pub fn get(&self, key: &str) -> (r: Option<String>)
        ensures
            r is Some <==> self.view().contains_key(key_base(key@)),
            r is Some ==> r->0@ == with_suffix(self.view()[key_base(key@)], key@),
    {
        let (p, s) = split_key(key);
        match self.find(p) {
            Some(v) => {
                match s {
                    Some(suffix) => {
                        proof {
                            reveal_strlit("_b");
                        }
                        let out = v.clone().concat("_b").concat(suffix);
                        Some(out)
                    },
                    None => Some(v.clone()),
                }
            },
            None => None,
        }
    }

    /// Whether the base of `key` is stored.
    pub fn contains_key(&mut self, key: &str) -> (r: bool)
        ensures
            r == old(self).view().contains_key(key_base(key@)),
            *final(self) == *old(self),
    {
        let (p, _) = split_key(key);
        self.find(p).is_some()
    }
}

/// Whether two strings hold the same characters.
pub(crate) fn same_chars(a: &str, b: &str) -> (r: bool)
    ensures
        r == (a@ == b@),
{
    let n = a.unicode_len();
    if n != b.unicode_len() {
        return false;
    }
    let mut i: usize = 0;
    while i < n
        invariant
            n == a@.len(),
            n == b@.len(),
            i <= n,
            a@.subrange(0, i as int) == b@.subrange(0, i as int),
        decreases n - i,
    {
        if a.get_char(i) != b.get_char(i) {
            return false;
        }
        assert(a@.subrange(0, i + 1) =~= a@.subrange(0, i as int).push(a@[i as int]));
        assert(b@.subrange(0, i + 1) =~= b@.subrange(0, i as int).push(b@[i as int]));
        i = i + 1;
    }
    assert(a@ =~= a@.subrange(0, n as int));
    assert(b@ =~= b@.subrange(0, n as int));
    true
}

} // verus!
