//! An insertion-ordered map: lookups go through a `hashbrown` hash table, iteration
//! follows the order in which keys were first inserted.

use vstd::prelude::*;

verus! {

/// A `hashbrown::HashMap` from a key to that key's position in an [`OrderedMap`].
#[verifier::external_body]
pub struct KeySlots {
    table: hashbrown::HashMap<u64, usize>,
}

/// What a [`KeySlots`] table holds.
pub uninterp spec fn slot_table(slots: KeySlots) -> Map<u64, usize>;

/// `hashbrown::HashMap::new`: an empty table.
#[verifier::external_body]
fn slots_new() -> (r: KeySlots)
    ensures
        slot_table(r).dom().is_empty(),
{
    KeySlots { table: hashbrown::HashMap::new() }
}

/// `hashbrown::HashMap::get`: the position stored for `key`, if any.
#[verifier::external_body]
fn slots_get(slots: &KeySlots, key: u64) -> (r: Option<usize>)
    ensures
        r == (if slot_table(*slots).contains_key(key) {
            Some(slot_table(*slots)[key])
        } else {
            None
        }),
{
    slots.table.get(&key).copied()
}

/// `hashbrown::HashMap::insert`: stores `pos` for `key`, handing back the position it
/// replaced. (An allocation that the machine cannot satisfy aborts; that is left unsaid,
/// as for `Vec::push`.)
#[verifier::external_body]
fn slots_insert(slots: &mut KeySlots, key: u64, pos: usize) -> (r: Option<usize>)
    ensures
        slot_table(*final(slots)) == slot_table(*old(slots)).insert(key, pos),
        r == (if slot_table(*old(slots)).contains_key(key) {
            Some(slot_table(*old(slots))[key])
        } else {
            None
        }),
{
    slots.table.insert(key, pos)
}

/// `hashbrown::HashMap::remove`: drops `key`, handing back its position if it was there.
#[verifier::external_body]
fn slots_remove(slots: &mut KeySlots, key: u64) -> (r: Option<usize>)
    ensures
        slot_table(*final(slots)) == slot_table(*old(slots)).remove(key),
        r == (if slot_table(*old(slots)).contains_key(key) {
            Some(slot_table(*old(slots))[key])
        } else {
            None
        }),
{
    slots.table.remove(&key)
}

/// Whether some entry of `s` has key `k`.
pub open spec fn has_key<K, V>(s: Seq<(K, V)>, k: K) -> bool {
    exists|i: int| 0 <= i < s.len() && #[trigger] s[i].0 == k
}

/// The position of an entry of `s` with key `k` (meaningful when [`has_key`] holds).
pub open spec fn key_position<K, V>(s: Seq<(K, V)>, k: K) -> int {
    choose|i: int| 0 <= i < s.len() && #[trigger] s[i].0 == k
}

/// No two entries of `s` share a key.
pub open spec fn distinct_keys<K, V>(s: Seq<(K, V)>) -> bool {
    forall|i: int, j: int| 0 <= i < j < s.len() ==> #[trigger] s[i].0 != #[trigger] s[j].0
}

/// The value stored under `k` in `s`.
pub open spec fn spec_get<K, V>(s: Seq<(K, V)>, k: K) -> Option<V> {
    if has_key(s, k) {
        Some(s[key_position(s, k)].1)
    } else {
        None
    }
}

/// `s` after inserting `(k, v)`: an existing key keeps its place and takes the new value,
/// a new key goes to the end.
pub open spec fn spec_insert<K, V>(s: Seq<(K, V)>, k: K, v: V) -> Seq<(K, V)> {
    if has_key(s, k) {
        s.update(key_position(s, k), (k, v))
    } else {
        s.push((k, v))
    }
}

/// `s` after removing the entry with key `k`, the others keeping their order.
pub open spec fn spec_remove<K, V>(s: Seq<(K, V)>, k: K) -> Seq<(K, V)> {
    if has_key(s, k) {
        s.remove(key_position(s, k))
    } else {
        s
    }
}

/// The keys of `s`, in order.
pub open spec fn spec_keys<K, V>(s: Seq<(K, V)>) -> Seq<K> {
    s.map_values(|e: (K, V)| e.0)
}

/// A map that preserves the order in which its keys were first inserted.
///
/// Entries live in a `Vec` in insertion order; a `hashbrown` table maps each key to its
/// position for constant-time lookups.
pub struct OrderedMap<V> {
    slots: KeySlots,
    entries: Vec<(u64, V)>,
}

impl<V> View for OrderedMap<V> {
    type V = Seq<(u64, V)>;

    closed spec fn view(&self) -> Seq<(u64, V)> {
        self.entries@
    }
}

impl<V> OrderedMap<V> {
    /// The table and the entry list agree: every entry's key maps to the entry's
    /// position, and every key in the table names the entry at its position.
    pub closed spec fn wf(&self) -> bool {
        &&& forall|i: int|
            0 <= i < self.entries@.len() ==> {
                &&& slot_table(self.slots).contains_key(#[trigger] self.entries@[i].0)
                &&& slot_table(self.slots)[self.entries@[i].0] == i
            }
        &&& forall|k: u64|
            #[trigger] slot_table(self.slots).contains_key(k) ==> {
                &&& slot_table(self.slots)[k] < self.entries@.len()
                &&& self.entries@[slot_table(self.slots)[k] as int].0 == k
            }
    }

    /// A well-formed map never holds two entries with the same key.
    pub proof fn keys_are_distinct(&self)
        requires
            self.wf(),
        ensures
            distinct_keys(self@),
    {
        assert forall|i: int, j: int| 0 <= i < j < self@.len() implies #[trigger] self@[i].0
            != #[trigger] self@[j].0 by {
            assert(slot_table(self.slots)[self.entries@[i].0] == i);
            assert(slot_table(self.slots)[self.entries@[j].0] == j);
        }
    }

    proof fn lemma_wf_lookup(&self, k: u64)
        requires
            self.wf(),
        ensures
            has_key(self@, k) <==> slot_table(self.slots).contains_key(k),
            has_key(self@, k) ==> key_position(self@, k) == slot_table(self.slots)[k],
    {
        if slot_table(self.slots).contains_key(k) {
            let p = slot_table(self.slots)[k] as int;
            assert(self@[p].0 == k);
        }
        if has_key(self@, k) {
            let p = key_position(self@, k);
            assert(self@[p].0 == k);
            assert(slot_table(self.slots)[self.entries@[p].0] == p);
        }
    }

    /// Creates an empty map.
    pub fn new() -> (r: Self)
        ensures
            r.wf(),
            r@ == Seq::<(u64, V)>::empty(),
    {
        OrderedMap { slots: slots_new(), entries: Vec::new() }
    }

    /// Inserts `value` under `key`. A key already present keeps its place in the order
    /// and gets the new value; the old value is returned. A new key goes last and
    /// `None` is returned.
    pub fn insert(&mut self, key: u64, value: V) -> (r: Option<V>)
        requires
            old(self).wf(),
        ensures
            final(self).wf(),
            final(self)@ == spec_insert(old(self)@, key, value),
            r == spec_get(old(self)@, key),
    {
        proof {
            self.lemma_wf_lookup(key);
        }
        match slots_get(&self.slots, key) {
            Some(i) => {
                let mut previous = value;
                std::mem::swap(&mut self.entries[i].1, &mut previous);
                proof {
                    assert(self.entries@ =~= spec_insert(old(self)@, key, value));
                }
                Some(previous)
            },
            None => {
                let n = self.entries.len();
                slots_insert(&mut self.slots, key, n);
                self.entries.push((key, value));
                proof {
                    assert forall|k: u64| #[trigger]
                        slot_table(self.slots).contains_key(k) implies {
                        &&& slot_table(self.slots)[k] < self.entries@.len()
                        &&& self.entries@[slot_table(self.slots)[k] as int].0 == k
                    } by {
                        if k != key {
                            assert(slot_table(old(self).slots).contains_key(k));
                        }
                    }
                }
                None
            },
        }
    }

    /// The value stored under `key`.
    pub fn get(&self, key: u64) -> (r: Option<&V>)
        requires
            self.wf(),
        ensures
            match r {
                Some(v) => spec_get(self@, key) == Some(*v),
                None => spec_get(self@, key) is None,
            },
    {
        proof {
            self.lemma_wf_lookup(key);
        }
        match slots_get(&self.slots, key) {
            Some(i) => Some(&self.entries[i].1),
            None => None,
        }
    }

    /// Removes `key`, returning its value if it was present. The remaining entries keep
    /// their order (linear time: later entries shift down one place).
    pub fn remove(&mut self, key: u64) -> (r: Option<V>)
        requires
            old(self).wf(),
        ensures
            final(self).wf(),
            final(self)@ == spec_remove(old(self)@, key),
            r == spec_get(old(self)@, key),
    {
        proof {
            self.lemma_wf_lookup(key);
            self.keys_are_distinct();
        }
        match slots_remove(&mut self.slots, key) {
            None => None,
            Some(i) => {
                let ghost before = self.entries@;
                let (_, value) = self.entries.remove(i);
                let n = self.entries.len();
                proof {
                    assert forall|k: u64| #[trigger]
                        slot_table(self.slots).contains_key(k) implies exists|p: int|
                        0 <= p < n && #[trigger] self.entries@[p].0 == k by {
                        assert(slot_table(old(self).slots).contains_key(k));
                        let q = slot_table(old(self).slots)[k] as int;
                        assert(before[q].0 == k);
                        if q < i {
                            assert(self.entries@[q].0 == k);
                        } else {
                            assert(q != i);
                            assert(self.entries@[q - 1].0 == k);
                        }
                    }
                }
                let mut j = i;
                while j < n
                    invariant
                        i <= j <= n,
                        n == self.entries@.len(),
                        before.len() == n + 1,
                        self.entries@ == before.remove(i as int),
                        distinct_keys(before),
                        0 <= i < before.len(),
                        before[i as int].0 == key,
                        !slot_table(self.slots).contains_key(key),
                        forall|p: int|
                            0 <= p < n ==> #[trigger] slot_table(self.slots).contains_key(
                                self.entries@[p].0,
                            ),
                        forall|p: int|
                            0 <= p < j ==> slot_table(self.slots)[#[trigger] self.entries@[p].0]
                                == p,
                        forall|p: int|
                            j <= p < n ==> slot_table(self.slots)[#[trigger] self.entries@[p].0]
                                == p + 1,
                        forall|k: u64| #[trigger]
                            slot_table(self.slots).contains_key(k) ==> exists|p: int|
                                0 <= p < n && #[trigger] self.entries@[p].0 == k,
                    decreases n - j,
                {
                    let k = self.entries[j].0;
                    let ghost slots_before = slot_table(self.slots);
                    slots_insert(&mut self.slots, k, j);
                    proof {
                        assert forall|p: int| 0 <= p < n && p != j implies #[trigger]
                            self.entries@[p].0 != k by {
                            let pp = if p < i { p } else { p + 1 };
                            let jj = if j < i { j as int } else { j + 1 };
                            assert(before[pp].0 == self.entries@[p].0);
                            assert(before[jj].0 == self.entries@[j as int].0);
                        }
                        assert forall|p: int| j + 1 <= p < n implies slot_table(
                            self.slots,
                        )[#[trigger] self.entries@[p].0] == p + 1 by {
                            assert(self.entries@[p].0 != k);
                            assert(slots_before[self.entries@[p].0] == p + 1);
                        }
                        assert forall|kk: u64| #[trigger]
                            slot_table(self.slots).contains_key(kk) implies exists|p: int|
                            0 <= p < n && #[trigger] self.entries@[p].0 == kk by {
                            if kk == k {
                                assert(self.entries@[j as int].0 == kk);
                            } else {
                                assert(slots_before.contains_key(kk));
                            }
                        }
                    }
                    j = j + 1;
                }
                proof {
                    assert forall|k: u64| #[trigger]
                        slot_table(self.slots).contains_key(k) implies {
                        &&& slot_table(self.slots)[k] < self.entries@.len()
                        &&& self.entries@[slot_table(self.slots)[k] as int].0 == k
                    } by {
                        let p = choose|p: int| 0 <= p < n && #[trigger] self.entries@[p].0 == k;
                        assert(slot_table(self.slots)[self.entries@[p].0] == p);
                    }
                }
                Some(value)
            },
        }
    }

    /// The number of entries.
    pub fn len(&self) -> (r: usize)
        ensures
            r == self@.len(),
    {
        self.entries.len()
    }

    /// Whether the map has no entries.
    pub fn is_empty(&self) -> (r: bool)
        ensures
            r == (self@.len() == 0),
    {
        self.entries.len() == 0
    }

    /// All entries, in insertion order.
    pub fn iter(&self) -> (r: &[(u64, V)])
        ensures
            r@ == self@,
    {
        self.entries.as_slice()
    }

    /// All keys, in insertion order.
    pub fn keys(&self) -> (r: Vec<u64>)
        ensures
            r@ == spec_keys(self@),
    {
        let mut out: Vec<u64> = Vec::new();
        let n = self.entries.len();
        for i in 0..n
            invariant
                n == self@.len(),
                out@ == spec_keys(self@).take(i as int),
        {
            out.push(self.entries[i].0);
            proof {
                assert(spec_keys(self@).take(i + 1) =~= spec_keys(self@).take(i as int).push(
                    self@[i as int].0,
                ));
            }
        }
        proof {
            assert(spec_keys(self@).take(n as int) =~= spec_keys(self@));
        }
        out
    }

    /// All values, in insertion order.
    pub fn values(&self) -> (r: Vec<&V>)
        ensures
            r@.len() == self@.len(),
            forall|i: int| 0 <= i < r@.len() ==> *r@[i] == self@[i].1,
    {
        let mut out: Vec<&V> = Vec::new();
        let n = self.entries.len();
        for i in 0..n
            invariant
                n == self@.len(),
                out@.len() == i,
                forall|p: int| 0 <= p < i ==> *out@[p] == self@[p].1,
        {
            out.push(&self.entries[i].1);
        }
        out
    }
}

impl<V> Default for OrderedMap<V> {
    fn default() -> (r: Self)
        ensures
            r.wf(),
            r@ == Seq::<(u64, V)>::empty(),
    {
        OrderedMap::new()
    }
}

/// In a sequence with distinct keys, the entry holding key `k` is the one [`key_position`] picks.
pub proof fn lemma_position<K, V>(s: Seq<(K, V)>, k: K, i: int)
    requires
        distinct_keys(s),
        0 <= i < s.len(),
        s[i].0 == k,
    ensures
        has_key(s, k),
        key_position(s, k) == i,
{
    let p = key_position(s, k);
    assert(s[p].0 == k);
}

/// A lookup of a key just inserted gives the value inserted with it.
pub proof fn law_get_after_insert<K, V>(s: Seq<(K, V)>, k: K, v: V)
    requires
        distinct_keys(s),
    ensures
        spec_get(spec_insert(s, k, v), k) == Some(v),
{
    let t = spec_insert(s, k, v);
    if has_key(s, k) {
        let p = key_position(s, k);
        assert(s[p].0 == k);
        assert forall|i: int, j: int| 0 <= i < j < t.len() implies #[trigger] t[i].0
            != #[trigger] t[j].0 by {
            assert(t[i].0 == s[i].0 && t[j].0 == s[j].0);
        }
        lemma_position(t, k, p);
    } else {
        assert forall|i: int, j: int| 0 <= i < j < t.len() implies #[trigger] t[i].0
            != #[trigger] t[j].0 by {
            if j == s.len() {
                assert(s[i].0 != k);
            }
        }
        lemma_position(t, k, s.len() as int);
    }
}

/// Inserting under one key leaves what every other key maps to unchanged.
pub proof fn law_insert_leaves_other_keys<K, V>(s: Seq<(K, V)>, k: K, v: V, other: K)
    requires
        distinct_keys(s),
        other != k,
    ensures
        spec_get(spec_insert(s, k, v), other) == spec_get(s, other),
{
    let t = spec_insert(s, k, v);
    law_insert_keeps_keys_distinct(s, k, v);
    if has_key(s, other) {
        let p = key_position(s, other);
        assert(s[p].0 == other);
        assert(t[p] == s[p]);
        lemma_position(t, other, p);
    } else if has_key(t, other) {
        let p = key_position(t, other);
        assert(t[p].0 == other);
        if p < s.len() {
            assert(s[p].0 == other);
        }
    }
}

/// Inserting keeps keys unique.
pub proof fn law_insert_keeps_keys_distinct<K, V>(s: Seq<(K, V)>, k: K, v: V)
    requires
        distinct_keys(s),
    ensures
        distinct_keys(spec_insert(s, k, v)),
{
    let t = spec_insert(s, k, v);
    if has_key(s, k) {
        let p = key_position(s, k);
        assert(s[p].0 == k);
        assert forall|i: int, j: int| 0 <= i < j < t.len() implies #[trigger] t[i].0
            != #[trigger] t[j].0 by {
            assert(t[i].0 == s[i].0 && t[j].0 == s[j].0);
        }
    } else {
        assert forall|i: int, j: int| 0 <= i < j < t.len() implies #[trigger] t[i].0
            != #[trigger] t[j].0 by {
            if j == s.len() {
                assert(s[i].0 != k);
            }
        }
    }
}

/// Insertion order is kept: re-inserting an existing key leaves the key order as it was,
/// a new key goes last.
pub proof fn law_insert_keeps_order<K, V>(s: Seq<(K, V)>, k: K, v: V)
    requires
        distinct_keys(s),
    ensures
        spec_keys(spec_insert(s, k, v)) == (if has_key(s, k) {
            spec_keys(s)
        } else {
            spec_keys(s).push(k)
        }),
{
    if has_key(s, k) {
        let p = key_position(s, k);
        assert(s[p].0 == k);
        assert(spec_keys(spec_insert(s, k, v)) =~= spec_keys(s));
    } else {
        assert(spec_keys(spec_insert(s, k, v)) =~= spec_keys(s).push(k));
    }
}

/// Removing keeps keys unique.
pub proof fn law_remove_keeps_keys_distinct<K, V>(s: Seq<(K, V)>, k: K)
    requires
        distinct_keys(s),
    ensures
        distinct_keys(spec_remove(s, k)),
{
    let t = spec_remove(s, k);
    if has_key(s, k) {
        let p = key_position(s, k);
        assert forall|i: int, j: int| 0 <= i < j < t.len() implies #[trigger] t[i].0
            != #[trigger] t[j].0 by {
            let ii = if i < p { i } else { i + 1 };
            let jj = if j < p { j } else { j + 1 };
            assert(t[i] == s[ii] && t[j] == s[jj]);
        }
    }
}

/// After a key is removed, a lookup of it finds nothing.
pub proof fn law_get_after_remove<K, V>(s: Seq<(K, V)>, k: K)
    requires
        distinct_keys(s),
    ensures
        spec_get(spec_remove(s, k), k) is None,
{
    let t = spec_remove(s, k);
    if has_key(s, k) {
        let p = key_position(s, k);
        assert(s[p].0 == k);
        if has_key(t, k) {
            let q = key_position(t, k);
            assert(t[q].0 == k);
            let qq = if q < p { q } else { q + 1 };
            assert(t[q] == s[qq]);
        }
    }
}

/// Removing one key leaves what every other key maps to unchanged.
pub proof fn law_remove_leaves_other_keys<K, V>(s: Seq<(K, V)>, k: K, other: K)
    requires
        distinct_keys(s),
        other != k,
    ensures
        spec_get(spec_remove(s, k), other) == spec_get(s, other),
{
    let t = spec_remove(s, k);
    law_remove_keeps_keys_distinct(s, k);
    if has_key(s, k) {
        let p = key_position(s, k);
        assert(s[p].0 == k);
        if has_key(s, other) {
            let q = key_position(s, other);
            assert(s[q].0 == other);
            let qq = if q < p { q } else { q - 1 };
            assert(t[qq] == s[q]);
            lemma_position(t, other, qq);
        } else if has_key(t, other) {
            let q = key_position(t, other);
            assert(t[q].0 == other);
            let qq = if q < p { q } else { q + 1 };
            assert(t[q] == s[qq]);
        }
    }
}

/// Removing keeps every other key in the order it was inserted.
pub proof fn law_remove_keeps_order<K, V>(s: Seq<(K, V)>, k: K)
    requires
        distinct_keys(s),
    ensures
        spec_keys(spec_remove(s, k)) == spec_keys(s).filter(|x: K| x != k),
    decreases s.len(),
{
    reveal_with_fuel(Seq::filter, 2);
    if s.len() == 0 {
        assert(spec_keys(s) =~= Seq::<K>::empty());
    } else {
        let init = s.drop_last();
        assert forall|i: int, j: int| 0 <= i < j < init.len() implies #[trigger] init[i].0
            != #[trigger] init[j].0 by {
            assert(init[i] == s[i] && init[j] == s[j]);
        }
        law_remove_keeps_order(init, k);
        assert(spec_keys(s).drop_last() =~= spec_keys(init));
        let last = s.last();
        if last.0 == k {
            lemma_position(s, k, s.len() - 1);
            assert(!has_key(init, k)) by {
                if has_key(init, k) {
                    let q = key_position(init, k);
                    assert(init[q] == s[q]);
                }
            }
            assert(spec_remove(s, k) =~= init);
            assert(spec_keys(init).filter(|x: K| x != k) =~= spec_keys(init)) by {
                lemma_filter_keeps_all(spec_keys(init), k);
            }
        } else {
            if has_key(s, k) {
                let p = key_position(s, k);
                assert(s[p].0 == k);
                assert(p < s.len() - 1);
                lemma_position(init, k, p);
                assert(spec_remove(s, k) =~= spec_remove(init, k).push(last));
            } else {
                assert(!has_key(init, k)) by {
                    if has_key(init, k) {
                        let q = key_position(init, k);
                        assert(init[q] == s[q]);
                    }
                }
                assert(spec_remove(s, k) =~= spec_remove(init, k).push(last));
            }
            assert(spec_keys(spec_remove(s, k)) =~= spec_keys(spec_remove(init, k)).push(last.0));
        }
    }
}

proof fn lemma_filter_keeps_all<K>(s: Seq<K>, k: K)
    requires
        forall|i: int| 0 <= i < s.len() ==> s[i] != k,
    ensures
        s.filter(|x: K| x != k) == s,
    decreases s.len(),
{
    reveal_with_fuel(Seq::filter, 2);
    if s.len() > 0 {
        lemma_filter_keeps_all(s.drop_last(), k);
        assert(s.drop_last().push(s.last()) =~= s);
    } else {
        assert(s.filter(|x: K| x != k) =~= s);
    }
}

/// Inserting a key that was absent and then removing it gives back the map it started from.
pub proof fn law_insert_then_remove_restores<K, V>(s: Seq<(K, V)>, k: K, v: V)
    requires
        distinct_keys(s),
        !has_key(s, k),
    ensures
        spec_remove(spec_insert(s, k, v), k) == s,
{
    let t = spec_insert(s, k, v);
    law_insert_keeps_keys_distinct(s, k, v);
    lemma_position(t, k, s.len() as int);
    assert(t.remove(s.len() as int) =~= s);
}

/// The length of a map is the number of distinct keys it holds.
pub proof fn law_len_counts_keys<K, V>(s: Seq<(K, V)>)
    requires
        distinct_keys(s),
    ensures
        spec_keys(s).to_set().len() == s.len(),
{
    let ks = spec_keys(s);
    assert(ks.no_duplicates()) by {
        assert forall|i: int, j: int|
            0 <= i < ks.len() && 0 <= j < ks.len() && i != j implies ks[i] != ks[j] by {
            if i < j {
                assert(s[i].0 != s[j].0);
            } else {
                assert(s[j].0 != s[i].0);
            }
        }
    }
    ks.unique_seq_to_set();
}

} // verus!
