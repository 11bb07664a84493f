//! The variable map: an insertion-ordered string-to-string mapping with
//! unique keys.  It carries the configuration variables through the
//! argument builder, so both the key order and the key uniqueness are
//! part of its contract.

use vstd::prelude::*;

verus! {

/// A value in the entry sequence: the key's characters and the value's
/// characters.
pub type VarEntry = (Seq<char>, Seq<char>);

/// True when `k` is one of the keys of `entries`.
pub open spec fn entries_contain_key(entries: Seq<VarEntry>, k: Seq<char>) -> bool {
    exists|i: int| 0 <= i < entries.len() && entries[i].0 == k
}

/// The value stored under `k`, walking the entries front to back.
pub open spec fn entries_lookup(entries: Seq<VarEntry>, k: Seq<char>) -> Option<Seq<char>>
    decreases entries.len(),
{
    if entries.len() == 0 {
        None
    } else if entries[0].0 == k {
        Some(entries[0].1)
    } else {
        entries_lookup(entries.skip(1), k)
    }
}

/// Insertion at the entry level: the first entry with key `k` is
/// overwritten in place; a fresh key is appended.
pub open spec fn spec_insert_entry(entries: Seq<VarEntry>, k: Seq<char>, v: Seq<char>)
    -> Seq<VarEntry>
    decreases entries.len(),
{
    if entries.len() == 0 {
        seq![(k, v)]
    } else if entries[0].0 == k {
        seq![(k, v)] + entries.skip(1)
    } else {
        seq![entries[0]] + spec_insert_entry(entries.skip(1), k, v)
    }
}

/// Keys are pairwise distinct.
pub open spec fn entries_unique(entries: Seq<VarEntry>) -> bool {
    forall|i: int, j: int|
        0 <= i < entries.len() && 0 <= j < entries.len() && i != j ==> entries[i].0 != entries[j].0
}

/// An insertion-ordered map from variable names to their values, with
/// unique keys.
pub struct Vars {
    pairs: Vec<(String, String)>,
}

impl Vars {
    /// The entries in insertion order, as character sequences.
    pub closed spec fn entries(&self) -> Seq<VarEntry> {
        self.pairs@.map_values(|p: (String, String)| (p.0@, p.1@))
    }

    /// Well-formed: no key occurs twice.
    pub open spec fn wf(&self) -> bool {
        entries_unique(self.entries())
    }

    /// True when the map holds `k`.
    pub open spec fn has(&self, k: Seq<char>) -> bool {
        entries_contain_key(self.entries(), k)
    }

    /// The value under `k`, if any.
    pub open spec fn value_of(&self, k: Seq<char>) -> Option<Seq<char>> {
        entries_lookup(self.entries(), k)
    }

    pub fn new() -> (r: Vars)
        ensures
            r.wf(),
            r.entries() == Seq::<VarEntry>::empty(),
    {
        let r = Vars { pairs: Vec::new() };
        proof {
            assert(r.entries() =~= Seq::<VarEntry>::empty());
        }
        r
    }

    pub fn len(&self) -> (r: usize)
        ensures
            r == self.entries().len(),
    {
        self.pairs.len()
    }

    /// The key and value at position `i`, in insertion order.
    pub fn pair_at(&self, i: usize) -> (r: &(String, String))
        requires
            i < self.entries().len(),
        ensures
            r.0@ == self.entries()[i as int].0,
            r.1@ == self.entries()[i as int].1,
    {
        &self.pairs[i]
    }

    /// The position of the first entry whose key is `key`.
    fn position_of(&self, key: &String) -> (r: Option<usize>)
        ensures
            match r {
                Some(i) => i < self.entries().len() && self.entries()[i as int].0 == key@
                    && forall|j: int| 0 <= j < i ==> self.entries()[j].0 != key@,
                None => !self.has(key@),
            },
    {
        let n = self.pairs.len();
        let mut i: usize = 0;
        while i < n
            invariant
                n == self.pairs.len(),
                i <= n,
                forall|j: int| 0 <= j < i ==> self.entries()[j].0 != key@,
            decreases n - i,
        {
            proof {
                assert(self.entries()[i as int] == (self.pairs@[i as int].0@,
                self.pairs@[i as int].1@));
            }
            if self.pairs[i].0.eq(key) {
                return Some(i);
            }
            i = i + 1;
        }
        None
    }

    pub fn contains_key(&self, key: &String) -> (r: bool)
        ensures
            r == self.has(key@),
    {
        self.position_of(key).is_some()
    }

    /// The value stored under `key`, cloned out of the map.
    pub fn get(&self, key: &String) -> (r: Option<String>)
        ensures
            match r {
                Some(v) => self.value_of(key@) == Some(v@),
                None => self.value_of(key@) is None,
            },
    {
        match self.position_of(key) {
            Some(i) => {
                proof {
                    lemma_lookup_at_index(self.entries(), key@, i as int);
                }
                Some(self.pairs[i].1.clone())
            },
            None => {
                proof {
                    lemma_lookup_some_iff_contains(self.entries(), key@);
                }
                None
            },
        }
    }

    /// Insert `key -> value`, overwriting in place when the key is
    /// already present and appending otherwise.
    pub fn insert(&mut self, key: String, value: String)
        requires
            old(self).wf(),
        ensures
            final(self).wf(),
            final(self).entries() == spec_insert_entry(old(self).entries(), key@, value@),
            final(self).value_of(key@) == Some::<Seq<char>>(value@),
            final(self).entries().len() == if old(self).has(key@) {
                old(self).entries().len() as int
            } else {
                old(self).entries().len() + 1 as int
            },
            forall|k: Seq<char>| k != key@ ==> final(self).value_of(k) == old(self).value_of(k),
            forall|k: Seq<char>| final(self).has(k) <==> (old(self).has(k) || k == key@),
    {
        let ghost pre = self.entries();
        match self.position_of(&key) {
            Some(i) => {
                let ghost gi = i as int;
                let ghost gkey = key@;
                self.pairs.set(i, (key, value));
                proof {
                    assert(self.entries() =~= pre.update(gi, (pre[gi].0, value@)));
                    lemma_spec_insert_at_first(pre, gkey, value@, gi);
                    lemma_unique_after_update(pre, gi, value@);
                    assert forall|k: Seq<char>| #![all_triggers] true implies {
                        &&& entries_lookup(pre.update(gi, (pre[gi].0, value@)), k) == (if k
                            == pre[gi].0 {
                            Some(value@)
                        } else {
                            entries_lookup(pre, k)
                        })
                        &&& (entries_contain_key(pre.update(gi, (pre[gi].0, value@)), k)
                            <==> entries_contain_key(pre, k))
                    } by {
                        lemma_lookup_after_update(pre, gi, value@, k);
                    }
                }
            },
            None => {
                self.pairs.push((key, value));
                proof {
                    assert(self.entries() =~= pre.push((key@, value@)));
                    lemma_spec_insert_absent(pre, key@, value@);
                    lemma_unique_after_push(pre, key@, value@);
                    assert forall|k: Seq<char>| #![all_triggers] true implies {
                        &&& entries_lookup(pre.push((key@, value@)), k) == (if k == key@ {
                            Some(value@)
                        } else {
                            entries_lookup(pre, k)
                        })
                        &&& (entries_contain_key(pre.push((key@, value@)), k)
                            <==> (entries_contain_key(pre, k) || k == key@))
                    } by {
                        lemma_lookup_after_push(pre, key@, value@, k);
                    }
                }
            },
        }
    }

    /// Replace the value at position `i`, keeping its key.
    pub fn set_value_at(&mut self, i: usize, value: String)
        requires
            i < old(self).entries().len(),
        ensures
            final(self).entries() == old(self).entries().update(
                i as int,
                (old(self).entries()[i as int].0, value@),
            ),
            old(self).wf() ==> final(self).wf(),
    {
        let ghost pre = self.entries();
        let key = self.pairs[i].0.clone();
        self.pairs.set(i, (key, value));
        proof {
            assert(self.entries() =~= pre.update(i as int, (pre[i as int].0, value@)));
            if entries_unique(pre) {
                lemma_unique_after_update(pre, i as int, value@);
            }
        }
    }

    /// Insert `key -> value` only when the key is absent; the first
    /// write wins.
    pub fn insert_if_absent(&mut self, key: String, value: String)
        requires
            old(self).wf(),
        ensures
            final(self).wf(),
            old(self).has(key@) ==> final(self).entries() == old(self).entries(),
            !old(self).has(key@) ==> final(self).entries() == old(self).entries().push(
                (key@, value@),
            ),
            forall|k: Seq<char>| final(self).has(k) <==> (old(self).has(k) || k == key@),
            final(self).has(key@),
    {
        let ghost pre = self.entries();
        if !self.contains_key(&key) {
            self.pairs.push((key, value));
            proof {
                assert(self.entries() =~= pre.push((key@, value@)));
                lemma_unique_after_push(pre, key@, value@);
                assert forall|k: Seq<char>| #![all_triggers] true implies {
                    entries_contain_key(pre.push((key@, value@)), k) <==> (entries_contain_key(
                        pre,
                        k,
                    ) || k == key@)
                } by {
                    lemma_lookup_after_push(pre, key@, value@, k);
                }
            }
        }
    }

    /// A copy with the same entries.
    pub fn duplicate(&self) -> (r: Vars)
        ensures
            r.entries() == self.entries(),
    {
        let n = self.pairs.len();
        let mut out: Vec<(String, String)> = Vec::new();
        let mut i: usize = 0;
        while i < n
            invariant
                n == self.pairs.len(),
                i <= n,
                out@.len() == i,
                forall|j: int|
                    0 <= j < i ==> out@[j].0@ == self.entries()[j].0 && out@[j].1@
                        == self.entries()[j].1,
            decreases n - i,
        {
            proof {
                assert(self.entries()[i as int] == (self.pairs@[i as int].0@,
                self.pairs@[i as int].1@));
            }
            let k = self.pairs[i].0.clone();
            let v = self.pairs[i].1.clone();
            out.push((k, v));
            i = i + 1;
        }
        let r = Vars { pairs: out };
        proof {
            assert(r.entries() =~= self.entries());
        }
        r
    }
}

/// `entries_lookup` returns `Some` exactly for the keys that occur.
pub proof fn lemma_lookup_some_iff_contains(entries: Seq<VarEntry>, k: Seq<char>)
    ensures
        entries_lookup(entries, k) is Some <==> entries_contain_key(entries, k),
    decreases entries.len(),
{
    if entries.len() > 0 {
        if entries[0].0 == k {
        } else {
            lemma_lookup_some_iff_contains(entries.skip(1), k);
            if entries_contain_key(entries, k) {
                let i = choose|i: int| 0 <= i < entries.len() && entries[i].0 == k;
                assert(entries.skip(1)[i - 1] == entries[i]);
            }
            if entries_contain_key(entries.skip(1), k) {
                let i = choose|i: int| 0 <= i < entries.skip(1).len() && entries.skip(1)[i].0 == k;
                assert(entries[i + 1] == entries.skip(1)[i]);
            }
        }
    }
}

/// The lookup result is the value at the first index whose key matches.
pub proof fn lemma_lookup_at_index(entries: Seq<VarEntry>, k: Seq<char>, i: int)
    requires
        0 <= i < entries.len(),
        entries[i].0 == k,
        forall|j: int| 0 <= j < i ==> entries[j].0 != k,
    ensures
        entries_lookup(entries, k) == Some(entries[i].1),
    decreases entries.len(),
{
    if i > 0 {
        assert(entries.skip(1)[i - 1] == entries[i]);
        assert forall|j: int| 0 <= j < i - 1 implies entries.skip(1)[j].0 != k by {
            assert(entries.skip(1)[j] == entries[j + 1]);
        }
        lemma_lookup_at_index(entries.skip(1), k, i - 1);
    }
}

/// Overwriting the first occurrence is what `spec_insert_entry` does
/// on a present key.
proof fn lemma_spec_insert_at_first(entries: Seq<VarEntry>, k: Seq<char>, v: Seq<char>, i: int)
    requires
        0 <= i < entries.len(),
        entries[i].0 == k,
        forall|j: int| 0 <= j < i ==> entries[j].0 != k,
    ensures
        spec_insert_entry(entries, k, v) == entries.update(i, (k, v)),
    decreases entries.len(),
{
    if i == 0 {
        assert(seq![(k, v)] + entries.skip(1) =~= entries.update(0, (k, v)));
    } else {
        assert(entries.skip(1)[i - 1] == entries[i]);
        assert forall|j: int| 0 <= j < i - 1 implies (#[trigger] entries.skip(1)[j]).0 != k by {
            assert(entries.skip(1)[j] == entries[j + 1]);
        }
        lemma_spec_insert_at_first(entries.skip(1), k, v, i - 1);
        assert(seq![entries[0]] + entries.skip(1).update(i - 1, (k, v)) =~= entries.update(
            i,
            (k, v),
        ));
    }
}

/// Appending is what `spec_insert_entry` does on an absent key.
proof fn lemma_spec_insert_absent(entries: Seq<VarEntry>, k: Seq<char>, v: Seq<char>)
    requires
        !entries_contain_key(entries, k),
    ensures
        spec_insert_entry(entries, k, v) == entries.push((k, v)),
    decreases entries.len(),
{
    if entries.len() == 0 {
        assert(seq![(k, v)] =~= entries.push((k, v)));
    } else {
        assert(entries_contain_key(entries, entries[0].0));
        assert(!entries_contain_key(entries.skip(1), k)) by {
            if entries_contain_key(entries.skip(1), k) {
                let i = choose|i: int| 0 <= i < entries.skip(1).len() && entries.skip(1)[i].0 == k;
                assert(entries[i + 1] == entries.skip(1)[i]);
            }
        }
        lemma_spec_insert_absent(entries.skip(1), k, v);
        assert(seq![entries[0]] + entries.skip(1).push((k, v)) =~= entries.push((k, v)));
    }
}

proof fn lemma_unique_after_update(entries: Seq<VarEntry>, i: int, v: Seq<char>)
    requires
        entries_unique(entries),
        0 <= i < entries.len(),
    ensures
        entries_unique(entries.update(i, (entries[i].0, v))),
{
    let upd = entries.update(i, (entries[i].0, v));
    assert forall|a: int, b: int|
        0 <= a < upd.len() && 0 <= b < upd.len() && a != b implies upd[a].0 != upd[b].0 by {
        assert(upd[a].0 == entries[a].0);
        assert(upd[b].0 == entries[b].0);
    }
}

proof fn lemma_unique_after_push(entries: Seq<VarEntry>, k: Seq<char>, v: Seq<char>)
    requires
        entries_unique(entries),
        !entries_contain_key(entries, k),
    ensures
        entries_unique(entries.push((k, v))),
{
    let p = entries.push((k, v));
    assert forall|a: int, b: int|
        0 <= a < p.len() && 0 <= b < p.len() && a != b implies p[a].0 != p[b].0 by {
        if a < entries.len() && b < entries.len() {
            assert(p[a] == entries[a]);
            assert(p[b] == entries[b]);
        } else if a < entries.len() {
            assert(p[b] == (k, v));
            assert(p[a] == entries[a]);
            assert(entries_contain_key(entries, entries[a].0));
        } else {
            assert(p[a] == (k, v));
            assert(p[b] == entries[b]);
            assert(entries_contain_key(entries, entries[b].0));
        }
    }
}

/// How one overwrite changes lookups: the updated key now maps to `v`,
/// every other key is untouched, and no key appears or disappears.
proof fn lemma_lookup_after_update(entries: Seq<VarEntry>, i: int, v: Seq<char>, k: Seq<char>)
    requires
        0 <= i < entries.len(),
        forall|j: int| 0 <= j < i ==> entries[j].0 != entries[i].0,
    ensures
        entries_lookup(entries.update(i, (entries[i].0, v)), k) == (if k == entries[i].0 {
            Some(v)
        } else {
            entries_lookup(entries, k)
        }),
        entries_contain_key(entries.update(i, (entries[i].0, v)), k) <==> entries_contain_key(
            entries,
            k,
        ),
    decreases entries.len(),
{
    let upd = entries.update(i, (entries[i].0, v));
    assert(upd.len() == entries.len());
    if i == 0 {
        assert(upd[0] == (entries[0].0, v));
        assert(upd.skip(1) =~= entries.skip(1));
    } else {
        assert(upd[0] == entries[0]);
        assert(upd.skip(1) =~= entries.skip(1).update(i - 1, (entries[i].0, v)));
        assert(entries.skip(1)[i - 1] == entries[i]);
        assert forall|j: int| 0 <= j < i - 1 implies #[trigger] entries.skip(1)[j].0
            != entries.skip(1)[i - 1].0 by {
            assert(entries.skip(1)[j] == entries[j + 1]);
        }
        lemma_lookup_after_update(entries.skip(1), i - 1, v, k);
    }
    if entries_contain_key(upd, k) {
        let j = choose|j: int| 0 <= j < upd.len() && upd[j].0 == k;
        assert(entries[j].0 == upd[j].0);
    }
    if entries_contain_key(entries, k) {
        let j = choose|j: int| 0 <= j < entries.len() && entries[j].0 == k;
        assert(upd[j].0 == entries[j].0);
    }
}

/// How one append changes lookups: a fresh key maps to `v`, every other
/// key is untouched.
proof fn lemma_lookup_after_push(entries: Seq<VarEntry>, k: Seq<char>, v: Seq<char>, kk: Seq<char>)
    requires
        !entries_contain_key(entries, k),
    ensures
        entries_lookup(entries.push((k, v)), kk) == (if kk == k {
            Some(v)
        } else {
            entries_lookup(entries, kk)
        }),
        entries_contain_key(entries.push((k, v)), kk) <==> (entries_contain_key(entries, kk) || kk
            == k),
    decreases entries.len(),
{
    let p = entries.push((k, v));
    if entries.len() == 0 {
        assert(p[0] == (k, v));
        assert(p.skip(1) =~= Seq::<VarEntry>::empty());
        if kk != k {
            assert(entries_lookup(p, kk) == entries_lookup(p.skip(1), kk));
        }
    } else {
        assert(entries_contain_key(entries, entries[0].0));
        assert(p[0] == entries[0]);
        assert(p.skip(1) =~= entries.skip(1).push((k, v)));
        assert(!entries_contain_key(entries.skip(1), k)) by {
            if entries_contain_key(entries.skip(1), k) {
                let i = choose|i: int| 0 <= i < entries.skip(1).len() && entries.skip(1)[i].0 == k;
                assert(entries[i + 1] == entries.skip(1)[i]);
            }
        }
        lemma_lookup_after_push(entries.skip(1), k, v, kk);
    }
    if entries_contain_key(p, kk) {
        let j = choose|j: int| 0 <= j < p.len() && p[j].0 == kk;
        if j < entries.len() {
            assert(entries[j].0 == kk);
        }
    }
    if entries_contain_key(entries, kk) {
        let j = choose|j: int| 0 <= j < entries.len() && entries[j].0 == kk;
        assert(p[j].0 == kk);
    }
    assert(p[entries.len() as int].0 == k);
}

} // verus!
