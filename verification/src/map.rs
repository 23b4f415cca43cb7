//! The `DynMap` struct: a string-keyed mapping of `Dynamic` values with a
//! typed fetch-and-cast accessor. Stored as a key/value vector whose keys
//! are pairwise distinct; viewed as a mathematical map.

use vstd::map::*;
use vstd::prelude::*;

use crate::cast::DynamicCast;
use crate::dynamic::{clone_entries, Dynamic, DynView};
use crate::error::{Error, MissingKeyError};

verus! {

/// A string-keyed mapping of `Dynamic` values. Keys are unique; insertion
/// order carries no meaning.
#[derive(PartialEq, Debug)]
pub struct DynMap {
    pub(crate) entries: Vec<(String, Dynamic)>,
}

/// The index of the first entry holding key `k`, or `-1` when no entry does.
pub open(crate) spec fn entry_index(s: Seq<(String, Dynamic)>, k: Seq<char>) -> int
    decreases s.len(),
{
    if s.len() == 0 {
        -1
    } else if s[0].0@ == k {
        0
    } else {
        let rest = entry_index(s.drop_first(), k);
        if rest == -1 {
            -1
        } else {
            rest + 1
        }
    }
}

/// `entry_index` points at an entry with key `k` and nothing before it
/// holds `k`; when any entry holds `k`, it is found.
proof fn lemma_entry_index_props(s: Seq<(String, Dynamic)>, k: Seq<char>)
    ensures
        entry_index(s, k) == -1 || 0 <= entry_index(s, k) < s.len(),
        entry_index(s, k) >= 0 ==> s[entry_index(s, k)].0@ == k,
        entry_index(s, k) >= 0 ==> forall|j: int|
            0 <= j < entry_index(s, k) ==> (#[trigger] s[j]).0@ != k,
        forall|j: int| 0 <= j < s.len() && (#[trigger] s[j]).0@ == k ==> entry_index(s, k) >= 0,
    decreases s.len(),
{
    if s.len() > 0 && s[0].0@ != k {
        let rest = s.drop_first();
        assert(forall|j: int| 0 <= j < rest.len() ==> #[trigger] rest[j] == s[j + 1]);
        lemma_entry_index_props(rest, k);
        let e = entry_index(s, k);
        if entry_index(rest, k) >= 0 {
            assert forall|j: int| 0 <= j < e implies (#[trigger] s[j]).0@ != k by {
                if j > 0 {
                    assert(rest[j - 1] == s[j]);
                }
            }
        }
        assert forall|j: int|
            0 <= j < s.len() && (#[trigger] s[j]).0@ == k implies entry_index(s, k) >= 0 by {
            if j > 0 {
                assert(rest[j - 1] == s[j]);
            }
        }
    }
}

/// When the first entry holding `k` stands at `i`, `entry_index` is `i`.
proof fn lemma_entry_index_is(s: Seq<(String, Dynamic)>, k: Seq<char>, i: int)
    requires
        0 <= i < s.len(),
        s[i].0@ == k,
        forall|j: int| 0 <= j < i ==> (#[trigger] s[j]).0@ != k,
    ensures
        entry_index(s, k) == i,
    decreases s.len(),
{
    if i > 0 {
        assert(forall|j: int|
            0 <= j < s.drop_first().len() ==> #[trigger] s.drop_first()[j] == s[j + 1]);
        lemma_entry_index_is(s.drop_first(), k, i - 1);
    }
}

/// When no entry holds `k`, `entry_index` is `-1`.
proof fn lemma_entry_index_none(s: Seq<(String, Dynamic)>, k: Seq<char>)
    requires
        forall|j: int| 0 <= j < s.len() ==> (#[trigger] s[j]).0@ != k,
    ensures
        entry_index(s, k) == -1,
{
    lemma_entry_index_props(s, k);
}

/// `entry_index` depends only on the keys of the entries.
proof fn lemma_entry_index_same_keys(
    s1: Seq<(String, Dynamic)>,
    s2: Seq<(String, Dynamic)>,
    k: Seq<char>,
)
    requires
        s1.len() == s2.len(),
        forall|j: int| 0 <= j < s1.len() ==> (#[trigger] s1[j]).0@ == s2[j].0@,
    ensures
        entry_index(s1, k) == entry_index(s2, k),
{
    lemma_entry_index_props(s1, k);
    lemma_entry_index_props(s2, k);
    let e1 = entry_index(s1, k);
    let e2 = entry_index(s2, k);
    if e1 >= 0 {
        assert(s2[e1].0@ == s1[e1].0@);
    }
    if e2 >= 0 {
        assert(s1[e2].0@ == s2[e2].0@);
    }
    if e1 >= 0 && e2 >= 0 {
        if e1 < e2 {
            assert(s2[e1].0@ != k);
            assert(false);
        }
        if e2 < e1 {
            assert(s1[e2].0@ != k);
            assert(false);
        }
    }
}

impl DynMap {
    /// Well-formedness: keys are pairwise distinct.
    pub open(crate) spec fn wf(self) -> bool {
        forall|i: int, j: int|
            0 <= i < j < self.entries@.len() ==> (#[trigger] self.entries@[i]).0@ != (
            #[trigger] self.entries@[j]).0@
    }
}

impl View for DynMap {
    type V = Map<Seq<char>, DynView>;

    closed spec fn view(&self) -> Map<Seq<char>, DynView> {
        Map::new(
            |k: Seq<char>| entry_index(self.entries@, k) >= 0,
            |k: Seq<char>| self.entries@[entry_index(self.entries@, k)].1@,
        )
    }
}

/// The map's view holds a key exactly when some entry does, and maps it to
/// the value of the first such entry.
proof fn lemma_view_facts(m: &DynMap, k: Seq<char>)
    ensures
        m@.contains_key(k) <==> entry_index(m.entries@, k) >= 0,
        m@.contains_key(k) ==> m@[k] == m.entries@[entry_index(m.entries@, k)].1@,
{
}

impl DynMap {
    /// Creates an empty map.
    pub fn new() -> (m: Self)
        ensures
            m@ == Map::<Seq<char>, DynView>::empty(),
            m.wf(),
    {
        let m = DynMap { entries: Vec::new() };
        proof {
            assert(m@ =~= Map::<Seq<char>, DynView>::empty());
        }
        m
    }

    /// The index of the first entry holding `key`, when there is one.
    fn find_index(&self, key: &String) -> (r: Option<usize>)
        ensures
            r matches Some(i) ==> 0 <= i < self.entries@.len()
                && self.entries@[i as int].0@ == key@
                && (forall|j: int| 0 <= j < i ==> (#[trigger] self.entries@[j]).0@ != key@)
                && entry_index(self.entries@, key@) == i,
            r is None ==> entry_index(self.entries@, key@) == -1,
    {
        let mut i: usize = 0;
        while i < self.entries.len()
            invariant
                i <= self.entries@.len(),
                forall|j: int| 0 <= j < i ==> (#[trigger] self.entries@[j]).0@ != key@,
            decreases self.entries@.len() - i,
        {
            if self.entries[i].0 == *key {
                proof {
                    lemma_entry_index_is(self.entries@, key@, i as int);
                }
                return Some(i);
            }
            i = i + 1;
        }
        proof {
            lemma_entry_index_none(self.entries@, key@);
        }
        None
    }

    /// Whether the map holds an entry for `key`.
    pub fn contains_key(&self, key: &str) -> (r: bool)
        ensures
            r == self@.contains_key(key@),
    {
        let k: String = key.to_owned();
        let r = self.find_index(&k);
        proof {
            lemma_view_facts(self, key@);
        }
        match r {
            Some(_) => true,
            None => false,
        }
    }

    /// Looks `key` up, returning a reference to the stored value when there
    /// is one.
    pub fn get(&self, key: &str) -> (r: Option<&Dynamic>)
        ensures
            r is Some <==> self@.contains_key(key@),
            r matches Some(d) ==> d@ == self@[key@],
    {
        let k: String = key.to_owned();
        proof {
            lemma_view_facts(self, key@);
        }
        match self.find_index(&k) {
            Some(i) => {
                let e: &(String, Dynamic) = &self.entries[i];
                Some(&e.1)
            },
            None => None,
        }
    }

    /// Inserts `value` under `key`, replacing and returning the previously
    /// stored value if the key was present.
    #[verifier::loop_isolation(false)]
    pub fn insert(&mut self, key: String, value: Dynamic) -> (old_v: Option<Dynamic>)
        requires
            old(self).wf(),
        ensures
            final(self).wf(),
            final(self)@ == old(self)@.insert(key@, value@),
            old_v is Some <==> old(self)@.contains_key(key@),
            old_v matches Some(d) ==> d@ == old(self)@[key@],
    {
        let ghost s0 = self.entries@;
        let ghost kv = key@;
        let ghost vv = value@;
        proof {
            lemma_view_facts(self, kv);
        }
        match self.find_index(&key) {
            Some(i) => {
                let old_pair = self.entries.remove(i);
                self.entries.insert(i, (key, value));
                proof {
                    let s1 = self.entries@;
                    assert forall|j: int| 0 <= j < s1.len() implies (#[trigger] s1[j]).0@ == s0[j].0@
                        && (j != i ==> s1[j] == s0[j]) by {
                        assert(s1 == s0.remove(i as int).insert(i as int, s1[i as int]));
                    }
                    assert(s1[i as int].0@ == kv && s1[i as int].1@ == vv);
                    self.lemma_insert_view(s0, i as int, kv, vv);
                    assert(old_pair == s0[i as int]);
                    assert(old(self)@[kv] == s0[i as int].1@);
                }
                Some(old_pair.1)
            },
            None => {
                self.entries.push((key, value));
                proof {
                    let s1 = self.entries@;
                    assert(s1 == s0.push(s1[s0.len() as int]));
                    assert(s1[s0.len() as int].0@ == kv && s1[s0.len() as int].1@ == vv);
                    assert forall|j: int| 0 <= j < s0.len() implies (#[trigger] s0[j]).0@ != kv by {
                        lemma_entry_index_props(s0, kv);
                    }
                    self.lemma_push_view(s0, kv, vv);
                }
                None
            },
        }
    }

    /// After replacing the entry at `i` (the first one holding `kv`) by one
    /// with the same key and value view `vv`, the map view is the old view
    /// with `kv` bound to `vv`, and well-formedness is kept.
    proof fn lemma_insert_view(&self, s0: Seq<(String, Dynamic)>, i: int, kv: Seq<char>, vv: DynView)
        requires
            s0.len() == self.entries@.len(),
            0 <= i < s0.len(),
            s0[i].0@ == kv,
            forall|j: int| 0 <= j < i ==> (#[trigger] s0[j]).0@ != kv,
            forall|i2: int, j2: int|
                0 <= i2 < j2 < s0.len() ==> (#[trigger] s0[i2]).0@ != (#[trigger] s0[j2]).0@,
            forall|j: int| 0 <= j < s0.len() ==> (#[trigger] self.entries@[j]).0@ == s0[j].0@,
            forall|j: int| 0 <= j < s0.len() && j != i ==> #[trigger] self.entries@[j] == s0[j],
            self.entries@[i].1@ == vv,
        ensures
            self.wf(),
            self@ == Map::new(
                |k: Seq<char>| entry_index(s0, k) >= 0,
                |k: Seq<char>| s0[entry_index(s0, k)].1@,
            ).insert(kv, vv),
    {
        let s1 = self.entries@;
        let m0 = Map::new(
            |k: Seq<char>| entry_index(s0, k) >= 0,
            |k: Seq<char>| s0[entry_index(s0, k)].1@,
        );
        let m1 = m0.insert(kv, vv);
        assert forall|kk: Seq<char>| true implies #[trigger] entry_index(s1, kk) == entry_index(
            s0,
            kk,
        ) by {
            lemma_entry_index_same_keys(s0, s1, kk);
        }
        lemma_entry_index_is(s0, kv, i);
        assert forall|a: int, b: int| 0 <= a < b < s1.len() implies (#[trigger] s1[a]).0@ != (
        #[trigger] s1[b]).0@ by {
            assert(s1[a].0@ == s0[a].0@ && s1[b].0@ == s0[b].0@);
        }
        assert_maps_equal!(self@, m1, kk => {
            lemma_entry_index_props(s0, kk);
            if kk == kv {
                assert(entry_index(s1, kk) == i);
                assert(self@[kk] == s1[i].1@);
            } else {
                let e0 = entry_index(s0, kk);
                if e0 >= 0 {
                    assert(e0 != i);
                    assert(s1[e0] == s0[e0]);
                    assert(self@[kk] == s1[e0].1@);
                    assert(m1[kk] == s0[e0].1@);
                }
            }
        });
    }

    /// After appending an entry with a fresh key `kv` and value view `vv`,
    /// the map view is the old view with `kv` bound to `vv`, and
    /// well-formedness is kept.
    proof fn lemma_push_view(&self, s0: Seq<(String, Dynamic)>, kv: Seq<char>, vv: DynView)
        requires
            self.entries@.len() == s0.len() + 1,
            forall|j: int| 0 <= j < s0.len() ==> #[trigger] self.entries@[j] == s0[j],
            forall|j: int| 0 <= j < s0.len() ==> (#[trigger] s0[j]).0@ != kv,
            forall|i2: int, j2: int|
                0 <= i2 < j2 < s0.len() ==> (#[trigger] s0[i2]).0@ != (#[trigger] s0[j2]).0@,
            self.entries@[s0.len() as int].0@ == kv,
            self.entries@[s0.len() as int].1@ == vv,
        ensures
            self.wf(),
            self@ == Map::new(
                |k: Seq<char>| entry_index(s0, k) >= 0,
                |k: Seq<char>| s0[entry_index(s0, k)].1@,
            ).insert(kv, vv),
    {
        let s1 = self.entries@;
        let n = s0.len() as int;
        let m0 = Map::new(
            |k: Seq<char>| entry_index(s0, k) >= 0,
            |k: Seq<char>| s0[entry_index(s0, k)].1@,
        );
        let m1 = m0.insert(kv, vv);
        assert forall|j: int| 0 <= j < n implies (#[trigger] s1[j]).0@ != kv by {
            assert(s1[j] == s0[j]);
        }
        lemma_entry_index_is(s1, kv, n);
        assert forall|a: int, b: int| 0 <= a < b < s1.len() implies (#[trigger] s1[a]).0@ != (
        #[trigger] s1[b]).0@ by {
            if b < n {
                assert(s1[a] == s0[a] && s1[b] == s0[b]);
            } else {
                assert(s1[a].0@ != kv);
            }
        }
        assert_maps_equal!(self@, m1, kk => {
            lemma_entry_index_props(s0, kk);
            if kk == kv {
                assert(entry_index(s1, kk) == n);
                assert(self@[kk] == s1[n].1@);
            } else {
                let e0 = entry_index(s0, kk);
                if e0 >= 0 {
                    assert forall|j: int| 0 <= j < e0 implies (#[trigger] s1[j]).0@ != kk by {
                        assert(s1[j] == s0[j]);
                    }
                    assert(s1[e0] == s0[e0]);
                    lemma_entry_index_is(s1, kk, e0);
                    assert(self@[kk] == s1[e0].1@);
                    assert(m1[kk] == s0[e0].1@);
                } else {
                    assert forall|j: int| 0 <= j < s1.len() implies (#[trigger] s1[j]).0@ != kk by {
                        if j < n {
                            assert(s1[j] == s0[j]);
                        }
                    }
                    lemma_entry_index_none(s1, kk);
                }
            }
        });
    }

    /// Removes the entry under `key`, returning its value if the key was
    /// present.
    #[verifier::loop_isolation(false)]
    pub fn remove(&mut self, key: &str) -> (old_v: Option<Dynamic>)
        requires
            old(self).wf(),
        ensures
            final(self).wf(),
            final(self)@ == old(self)@.remove(key@),
            old_v is Some <==> old(self)@.contains_key(key@),
            old_v matches Some(d) ==> d@ == old(self)@[key@],
    {
        let ghost s0 = self.entries@;
        let ghost kv = key@;
        let k: String = key.to_owned();
        proof {
            lemma_view_facts(self, kv);
        }
        match self.find_index(&k) {
            Some(i) => {
                let old_pair = self.entries.remove(i);
                proof {
                    self.lemma_remove_view(s0, i as int, kv);
                    assert(old_pair == s0[i as int]);
                    assert(old(self)@[kv] == s0[i as int].1@);
                }
                Some(old_pair.1)
            },
            None => {
                proof {
                    assert(!old(self)@.contains_key(kv));
                    assert(self@ =~= old(self)@.remove(kv));
                }
                None
            },
        }
    }

    /// After removing the entry at `i` (the only one holding `kv`), the map
    /// view is the old view without `kv`, and well-formedness is kept.
    proof fn lemma_remove_view(&self, s0: Seq<(String, Dynamic)>, i: int, kv: Seq<char>)
        requires
            s0.len() == self.entries@.len() + 1,
            0 <= i < s0.len(),
            s0[i].0@ == kv,
            forall|i2: int, j2: int|
                0 <= i2 < j2 < s0.len() ==> (#[trigger] s0[i2]).0@ != (#[trigger] s0[j2]).0@,
            self.entries@ == s0.remove(i),
        ensures
            self.wf(),
            self@ == Map::new(
                |k: Seq<char>| entry_index(s0, k) >= 0,
                |k: Seq<char>| s0[entry_index(s0, k)].1@,
            ).remove(kv),
    {
        let s1 = self.entries@;
        let m0 = Map::new(
            |k: Seq<char>| entry_index(s0, k) >= 0,
            |k: Seq<char>| s0[entry_index(s0, k)].1@,
        );
        assert forall|j: int| 0 <= j < s1.len() implies #[trigger] s1[j] == (if j < i {
            s0[j]
        } else {
            s0[j + 1]
        }) by {
        }
        let m1 = m0.remove(kv);
        assert forall|a: int, b: int| 0 <= a < b < s1.len() implies (#[trigger] s1[a]).0@ != (
        #[trigger] s1[b]).0@ by {
            let a0 = if a < i {
                a
            } else {
                a + 1
            };
            let b0 = if b < i {
                b
            } else {
                b + 1
            };
            assert(s1[a] == s0[a0] && s1[b] == s0[b0]);
        }
        assert_maps_equal!(self@, m1, kk => {
            lemma_entry_index_props(s0, kk);
            if kk == kv {
                assert forall|j: int| 0 <= j < s1.len() implies (#[trigger] s1[j]).0@ != kk by {
                    if j < i {
                        assert(s1[j] == s0[j]);
                    } else {
                        assert(s1[j] == s0[j + 1]);
                    }
                }
                lemma_entry_index_none(s1, kk);
            } else {
                let e0 = entry_index(s0, kk);
                if e0 == -1 {
                    assert forall|j: int| 0 <= j < s1.len() implies (#[trigger] s1[j]).0@ != kk by {
                        if j < i {
                            assert(s1[j] == s0[j]);
                        } else {
                            assert(s1[j] == s0[j + 1]);
                        }
                    }
                    lemma_entry_index_none(s1, kk);
                } else if e0 < i {
                    assert(s1[e0] == s0[e0]);
                    assert forall|j: int| 0 <= j < e0 implies (#[trigger] s1[j]).0@ != kk by {
                        assert(s1[j] == s0[j]);
                    }
                    lemma_entry_index_is(s1, kk, e0);
                    assert(self@[kk] == s1[e0].1@);
                    assert(m1[kk] == s0[e0].1@);
                } else {
                    assert(e0 != i);
                    assert(s1[e0 - 1] == s0[e0]);
                    assert forall|j: int| 0 <= j < e0 - 1 implies (#[trigger] s1[j]).0@ != kk by {
                        if j < i {
                            assert(s1[j] == s0[j]);
                        } else {
                            assert(s1[j] == s0[j + 1]);
                        }
                    }
                    lemma_entry_index_is(s1, kk, e0 - 1);
                    assert(self@[kk] == s1[e0 - 1].1@);
                    assert(m1[kk] == s0[e0].1@);
                }
            }
        });
    }

    /// The number of entries; with unique keys, the size of the map's
    /// domain.
    pub fn len(&self) -> (n: usize)
        requires
            self.wf(),
        ensures
            n == self@.dom().len(),
    {
        let n = self.entries.len();
        proof {
            let s = self.entries@;
            let keys = s.map_values(|e: (String, Dynamic)| e.0@);
            assert(keys.no_duplicates());
            keys.unique_seq_to_set();
            assert forall|kk: Seq<char>| #[trigger] self@.dom().contains(kk) implies keys.to_set()
                .contains(kk) by {
                lemma_entry_index_props(s, kk);
                let e0 = entry_index(s, kk);
                assert(keys[e0] == kk);
            }
            assert forall|kk: Seq<char>| #[trigger] keys.to_set().contains(kk) implies self@.dom()
                .contains(kk) by {
                let j = choose|j: int| 0 <= j < keys.len() && keys[j] == kk;
                assert(s[j].0@ == kk);
                lemma_entry_index_props(s, kk);
            }
            assert(self@.dom() =~= keys.to_set());
        }
        n
    }

    /// Whether the map holds no entry.
    pub fn is_empty(&self) -> (r: bool)
        ensures
            r <==> self@ == Map::<Seq<char>, DynView>::empty(),
    {
        let r = self.entries.is_empty();
        proof {
            if self.entries@.len() == 0 {
                assert(self@ =~= Map::<Seq<char>, DynView>::empty());
            } else {
                let k0 = self.entries@[0].0@;
                lemma_entry_index_is(self.entries@, k0, 0);
                lemma_view_facts(self, k0);
                assert(self@.contains_key(k0));
            }
        }
        r
    }

    /// The stored entries, for iteration: every pair is a binding of the
    /// map, and every key of the map appears exactly once.
    pub fn iter(&self) -> (r: &Vec<(String, Dynamic)>)
        requires
            self.wf(),
        ensures
            forall|j: int|
                0 <= j < r@.len() ==> self@.contains_key((#[trigger] r@[j]).0@) && self@[r@[j].0@]
                    == r@[j].1@,
            forall|j1: int, j2: int|
                0 <= j1 < j2 < r@.len() ==> (#[trigger] r@[j1]).0@ != (#[trigger] r@[j2]).0@,
            forall|kk: Seq<char>|
                #[trigger] self@.contains_key(kk) ==> exists|j: int|
                    0 <= j < r@.len() && (#[trigger] r@[j]).0@ == kk,
    {
        proof {
            let s = self.entries@;
            assert forall|j: int| 0 <= j < s.len() implies self@.contains_key((#[trigger] s[j]).0@)
                && self@[s[j].0@] == s[j].1@ by {
                lemma_entry_index_is(s, s[j].0@, j);
                lemma_view_facts(self, s[j].0@);
            }
            assert forall|kk: Seq<char>| #[trigger] self@.contains_key(kk) implies exists|j: int|
                0 <= j < s.len() && (#[trigger] s[j]).0@ == kk by {
                lemma_view_facts(self, kk);
                lemma_entry_index_props(s, kk);
                let e0 = entry_index(s, kk);
                assert(0 <= e0 < s.len() && s[e0].0@ == kk);
            }
        }
        &self.entries
    }

    /// Fetch-and-cast: looks `key` up and converts the stored value to the
    /// target native type. Fails with a missing-key error when the key is
    /// absent, and with the conversion's own type error when the stored
    /// value's tag does not fit the target type.
    pub fn try_get_casted<T: DynamicCast>(&self, key: &str) -> (r: Result<T, Error>)
        ensures
            !self@.contains_key(key@) ==> (r matches Err(e) && e matches Error::MissingKeyError(m)
                && m.payload_key@ == key@),
            self@.contains_key(key@) && T::can_cast(self@[key@]) ==> (r matches Ok(v) && v.recovers(
                self@[key@],
            )),
            self@.contains_key(key@) && !T::can_cast(self@[key@]) ==> r == Err::<T, Error>(
                Error::TypeError(T::cast_err(self@[key@])),
            ),
    {
        match self.get(key) {
            None => Err(Error::MissingKeyError(MissingKeyError { payload_key: key.to_owned() })),
            Some(stored) => {
                let av = stored.clone();
                match T::try_from_dynamic(av) {
                    Ok(v) => Ok(v),
                    Err(e) => Err(Error::TypeError(e)),
                }
            },
        }
    }
}

/// The map described by a sequence of key/value pairs inserted in order:
/// later pairs take precedence over earlier ones with the same key.
pub open spec fn entries_to_map(s: Seq<(String, Dynamic)>) -> Map<Seq<char>, DynView>
    decreases s.len(),
{
    if s.len() == 0 {
        Map::empty()
    } else {
        entries_to_map(s.drop_last()).insert(s.last().0@, s.last().1@)
    }
}

impl DynMap {
    /// Builds a map from a vector of key/value pairs, inserting them in
    /// order; a later pair with an already-seen key replaces the earlier
    /// binding.
    #[verifier::loop_isolation(false)]
    pub fn from_entries(entries: Vec<(String, Dynamic)>) -> (m: Self)
        ensures
            m.wf(),
            m@ == entries_to_map(entries@),
    {
        let ghost all = entries@;
        let mut rest = entries;
        let mut m = DynMap::new();
        proof {
            assert(all.subrange(0, 0) =~= Seq::<(String, Dynamic)>::empty());
        }
        while rest.len() > 0
            invariant
                rest@.len() <= all.len(),
                forall|j: int|
                    0 <= j < rest@.len() ==> #[trigger] rest@[j] == all[all.len() - rest@.len()
                        + j],
                m.wf(),
                m@ == entries_to_map(all.subrange(0, all.len() - rest@.len())),
            decreases rest@.len(),
        {
            let ghost done: int = all.len() - rest@.len();
            let pair = rest.remove(0);
            proof {
                assert(pair == all[done]);
                assert(all.subrange(0, done + 1).drop_last() =~= all.subrange(0, done));
                assert(all.subrange(0, done + 1).last() == pair);
            }
            m.insert(pair.0, pair.1);
        }
        proof {
            assert(all.subrange(0, all.len() as int) =~= all);
        }
        m
    }
}

impl Default for DynMap {
    /// A default-constructed map is empty.
    fn default() -> (m: Self)
        ensures
            m@ == Map::<Seq<char>, DynView>::empty(),
            m.wf(),
    {
        DynMap::new()
    }
}

impl Clone for DynMap {
    /// Deep copy: the clone has the same view; well-formedness is kept.
    fn clone(&self) -> (r: Self)
        ensures
            r@ == self@,
            self.wf() ==> r.wf(),
    {
        let r = DynMap { entries: clone_entries(&self.entries) };
        proof {
            assert forall|kk: Seq<char>| true implies #[trigger] entry_index(r.entries@, kk)
                == entry_index(self.entries@, kk) by {
                lemma_entry_index_same_keys(r.entries@, self.entries@, kk);
            }
            assert forall|kk: Seq<char>| r@.contains_key(kk) == self@.contains_key(kk) && (
            r@.contains_key(kk) ==> r@[kk] == self@[kk]) by {
                lemma_entry_index_props(self.entries@, kk);
            }
            assert(r@ =~= self@);
        }
        r
    }
}

} // verus!
