//! A map kept as a vector of entries in ascending order of their keys.
//!
//! The order of the entries depends only on the keys that are present, never
//! on the order in which they were inserted, so walking the map is
//! deterministic.

use vstd::prelude::*;

verus! {

/// A key type with a total order given by an integer rank.
pub trait Ranked: Copy {
    /// The place of a key in the order of its type.
    spec fn rank(self) -> int;

    /// Distinct keys have distinct ranks.
    proof fn lemma_rank_determines(a: Self, b: Self)
        requires
            a.rank() == b.rank(),
        ensures
            a == b,
    ;

    /// Whether `self` comes strictly before `other`.
    fn precedes(&self, other: &Self) -> (r: bool)
        ensures
            r == (self.rank() < other.rank()),
    ;
}

/// The keys of `s` are in strictly ascending order.
pub open spec fn ascending<K: Ranked, V>(s: Seq<(K, V)>) -> bool {
    forall|i: int, j: int| 0 <= i < j < s.len() ==> (#[trigger] s[i]).0.rank() < (#[trigger] s[j]).0.rank()
}

/// Some entry of `s` has the key `k`.
pub open spec fn has_key<K, V>(s: Seq<(K, V)>, k: K) -> bool {
    exists|i: int| 0 <= i < s.len() && (#[trigger] s[i]).0 == k
}

/// The value of an entry of `s` with the key `k`.
pub open spec fn value_of<K, V>(s: Seq<(K, V)>, k: K) -> V {
    s[choose|i: int| 0 <= i < s.len() && (#[trigger] s[i]).0 == k].1
}

/// The mapping that the entries of `s` describe.
pub open spec fn as_map<K, V>(s: Seq<(K, V)>) -> Map<K, V> {
    Map::new(|k: K| has_key(s, k), |k: K| value_of(s, k))
}

/// In an ascending sequence every entry is found under its own key.
pub proof fn lemma_entry_found<K: Ranked, V>(s: Seq<(K, V)>, i: int)
    requires
        ascending(s),
        0 <= i < s.len(),
    ensures
        has_key(s, s[i].0),
        value_of(s, s[i].0) == s[i].1,
        as_map(s).contains_key(s[i].0),
        as_map(s)[s[i].0] == s[i].1,
{
    let k = s[i].0;
    let j = choose|j: int| 0 <= j < s.len() && (#[trigger] s[j]).0 == k;
    if j < i {
        assert(s[j].0.rank() < s[i].0.rank());
    } else if i < j {
        assert(s[i].0.rank() < s[j].0.rank());
    }
}

/// Putting a new key at its place keeps the order and adds the key to the mapping.
pub proof fn lemma_insert_entry<K: Ranked, V>(s: Seq<(K, V)>, pos: int, k: K, v: V)
    requires
        ascending(s),
        0 <= pos <= s.len(),
        forall|i: int| 0 <= i < pos ==> (#[trigger] s[i]).0.rank() < k.rank(),
        forall|i: int| pos <= i < s.len() ==> k.rank() < (#[trigger] s[i]).0.rank(),
    ensures
        ascending(s.insert(pos, (k, v))),
        as_map(s.insert(pos, (k, v))) == as_map(s).insert(k, v),
{
    let t = s.insert(pos, (k, v));
    assert forall|i: int, j: int| 0 <= i < j < t.len() implies (#[trigger] t[i]).0.rank() < (
    #[trigger] t[j]).0.rank() by {
        if i < pos && j > pos {
            assert(t[i] == s[i] && t[j] == s[j - 1]);
        } else if i < pos && j < pos {
            assert(t[i] == s[i] && t[j] == s[j]);
        } else if i > pos {
            assert(t[i] == s[i - 1] && t[j] == s[j - 1]);
        } else if i == pos {
            assert(t[j] == s[j - 1]);
        } else {
            assert(t[i] == s[i]);
        }
    }
    assert forall|q: K| as_map(t).contains_key(q) == as_map(s).insert(k, v).contains_key(q) by {
        if has_key(t, q) {
            let i = choose|i: int| 0 <= i < t.len() && (#[trigger] t[i]).0 == q;
            if i < pos {
                assert(s[i].0 == q);
            } else if i > pos {
                assert(s[i - 1].0 == q);
            }
        }
        if q == k {
            assert(t[pos].0 == q);
        } else if has_key(s, q) {
            let i = choose|i: int| 0 <= i < s.len() && (#[trigger] s[i]).0 == q;
            if i < pos {
                assert(t[i].0 == q);
            } else {
                assert(t[i + 1].0 == q);
            }
        }
    }
    assert forall|q: K| as_map(t).contains_key(q) implies as_map(t)[q] == as_map(s).insert(k, v)[q] by {
        let i = choose|i: int| 0 <= i < t.len() && (#[trigger] t[i]).0 == q;
        lemma_entry_found(t, i);
        if i < pos {
            assert(t[i] == s[i]);
            lemma_entry_found(s, i);
        } else if i > pos {
            assert(t[i] == s[i - 1]);
            lemma_entry_found(s, i - 1);
        }
    }
    assert(as_map(t) =~= as_map(s).insert(k, v));
}

/// Taking an entry out keeps the order and removes its key from the mapping.
pub proof fn lemma_remove_entry<K: Ranked, V>(s: Seq<(K, V)>, pos: int)
    requires
        ascending(s),
        0 <= pos < s.len(),
    ensures
        ascending(s.remove(pos)),
        as_map(s.remove(pos)) == as_map(s).remove(s[pos].0),
{
    let t = s.remove(pos);
    let k = s[pos].0;
    assert forall|i: int, j: int| 0 <= i < j < t.len() implies (#[trigger] t[i]).0.rank() < (
    #[trigger] t[j]).0.rank() by {
        let si = if i < pos { i } else { i + 1 };
        let sj = if j < pos { j } else { j + 1 };
        assert(t[i] == s[si] && t[j] == s[sj]);
    }
    assert forall|q: K| as_map(t).contains_key(q) == as_map(s).remove(k).contains_key(q) by {
        if has_key(t, q) {
            let i = choose|i: int| 0 <= i < t.len() && (#[trigger] t[i]).0 == q;
            let si = if i < pos { i } else { i + 1 };
            assert(s[si].0 == q);
            if q == k {
                if si < pos {
                    assert(s[si].0.rank() < s[pos].0.rank());
                } else {
                    assert(s[pos].0.rank() < s[si].0.rank());
                }
            }
        }
        if q != k && has_key(s, q) {
            let i = choose|i: int| 0 <= i < s.len() && (#[trigger] s[i]).0 == q;
            let ti = if i < pos { i } else { i - 1 };
            assert(t[ti].0 == q);
        }
    }
    assert forall|q: K| as_map(t).contains_key(q) implies as_map(t)[q] == as_map(s).remove(k)[q] by {
        let i = choose|i: int| 0 <= i < t.len() && (#[trigger] t[i]).0 == q;
        lemma_entry_found(t, i);
        let si = if i < pos { i } else { i + 1 };
        assert(t[i] == s[si]);
        lemma_entry_found(s, si);
    }
    assert(as_map(t) =~= as_map(s).remove(k));
}

/// Two ascending sequences that describe the same mapping are the same sequence.
pub proof fn lemma_ascending_unique<K: Ranked, V>(a: Seq<(K, V)>, b: Seq<(K, V)>)
    requires
        ascending(a),
        ascending(b),
        as_map(a) == as_map(b),
    ensures
        a == b,
    decreases a.len(),
{
    if a.len() == 0 {
        if b.len() > 0 {
            lemma_entry_found(b, 0);
            assert(as_map(a).contains_key(b[0].0));
        }
        assert(a =~= b);
    } else {
        lemma_entry_found(a, 0);
        assert(as_map(b).contains_key(a[0].0));
        let j = choose|j: int| 0 <= j < b.len() && (#[trigger] b[j]).0 == a[0].0;
        lemma_entry_found(b, 0);
        assert(as_map(a).contains_key(b[0].0));
        let i = choose|i: int| 0 <= i < a.len() && (#[trigger] a[i]).0 == b[0].0;
        if j > 0 {
            assert(b[0].0.rank() < b[j].0.rank());
            if i > 0 {
                assert(a[0].0.rank() < a[i].0.rank());
            }
        }
        assert(j == 0);
        lemma_entry_found(b, j);
        assert(a[0] == b[0]);
        lemma_remove_entry(a, 0);
        lemma_remove_entry(b, 0);
        lemma_ascending_unique(a.remove(0), b.remove(0));
        assert(a =~= seq![a[0]] + a.remove(0));
        assert(b =~= seq![b[0]] + b.remove(0));
    }
}

/// The number of entries of `s` whose key comes before `k`: the place where
/// an entry for `k` stands in an ascending sequence.
pub open spec fn place<K: Ranked, V>(s: Seq<(K, V)>, k: K) -> int
    decreases s.len(),
{
    if s.len() == 0 {
        0
    } else if s.last().0.rank() < k.rank() {
        s.len() as int
    } else {
        place(s.drop_last(), k)
    }
}

/// The ascending sequence with `k` mapped to `v` and the other keys as in `s`.
pub open spec fn put<K: Ranked, V>(s: Seq<(K, V)>, k: K, v: V) -> Seq<(K, V)> {
    let p = place(s, k);
    if p < s.len() && s[p].0 == k {
        s.update(p, (k, v))
    } else {
        s.insert(p, (k, v))
    }
}

/// The ascending sequence without an entry for `k` and the other keys as in `s`.
pub open spec fn without<K: Ranked, V>(s: Seq<(K, V)>, k: K) -> Seq<(K, V)> {
    let p = place(s, k);
    if p < s.len() && s[p].0 == k {
        s.remove(p)
    } else {
        s
    }
}

/// In an ascending sequence, `place` is the one index that parts the keys
/// before `k` from the keys at or after it.
pub proof fn lemma_place<K: Ranked, V>(s: Seq<(K, V)>, k: K)
    requires
        ascending(s),
    ensures
        0 <= place(s, k) <= s.len(),
        forall|i: int| 0 <= i < place(s, k) ==> (#[trigger] s[i]).0.rank() < k.rank(),
        forall|i: int| place(s, k) <= i < s.len() ==> k.rank() <= (#[trigger] s[i]).0.rank(),
        has_key(s, k) <==> place(s, k) < s.len() && s[place(s, k)].0 == k,
    decreases s.len(),
{
    if s.len() > 0 {
        let t = s.drop_last();
        assert forall|i: int, j: int| 0 <= i < j < t.len() implies (#[trigger] t[i]).0.rank() < (
        #[trigger] t[j]).0.rank() by {
            assert(t[i] == s[i] && t[j] == s[j]);
        }
        lemma_place(t, k);
        if s.last().0.rank() < k.rank() {
            assert forall|i: int| 0 <= i < s.len() implies (#[trigger] s[i]).0.rank() < k.rank() by {
                if i < s.len() - 1 {
                    assert(s[i].0.rank() < s[s.len() - 1].0.rank());
                }
            }
        } else {
            assert forall|i: int| 0 <= i < place(s, k) implies (#[trigger] s[i]).0.rank() < k.rank() by {
                assert(t[i] == s[i]);
            }
            assert forall|i: int| place(s, k) <= i < s.len() implies k.rank() <= (#[trigger] s[i]).0.rank() by {
                if i < s.len() - 1 {
                    assert(t[i] == s[i]);
                }
            }
        }
    }
    let p = place(s, k);
    if has_key(s, k) {
        let i = choose|i: int| 0 <= i < s.len() && (#[trigger] s[i]).0 == k;
        if i < p {
            assert(s[i].0.rank() < k.rank());
        } else if i > p {
            assert(s[p].0.rank() < s[i].0.rank());
        }
    }
    if p < s.len() && s[p].0 == k {
        assert(has_key(s, k));
    }
}

/// An index that parts the keys before `k` from the keys at or after it is `place`.
pub proof fn lemma_place_unique<K: Ranked, V>(s: Seq<(K, V)>, k: K, p: int)
    requires
        ascending(s),
        0 <= p <= s.len(),
        forall|i: int| 0 <= i < p ==> (#[trigger] s[i]).0.rank() < k.rank(),
        forall|i: int| p <= i < s.len() ==> k.rank() <= (#[trigger] s[i]).0.rank(),
    ensures
        p == place(s, k),
{
    lemma_place(s, k);
    let q = place(s, k);
    if p < q {
        assert(s[p].0.rank() < k.rank());
    } else if q < p {
        assert(s[q].0.rank() < k.rank());
    }
}

/// `put` keeps the order and maps `k` to `v`.
pub proof fn lemma_put<K: Ranked, V>(s: Seq<(K, V)>, k: K, v: V)
    requires
        ascending(s),
    ensures
        ascending(put(s, k, v)),
        as_map(put(s, k, v)) == as_map(s).insert(k, v),
{
    lemma_place(s, k);
    let p = place(s, k);
    if p < s.len() && s[p].0 == k {
        lemma_remove_entry(s, p);
        let t = s.remove(p);
        assert forall|i: int| p <= i < t.len() implies k.rank() < (#[trigger] t[i]).0.rank() by {
            assert(t[i] == s[i + 1]);
            assert(s[p].0.rank() < s[i + 1].0.rank());
        }
        assert forall|i: int| 0 <= i < p implies (#[trigger] t[i]).0.rank() < k.rank() by {
            assert(t[i] == s[i]);
        }
        lemma_insert_entry(t, p, k, v);
        assert(t.insert(p, (k, v)) =~= s.update(p, (k, v)));
        assert(as_map(s).remove(k).insert(k, v) =~= as_map(s).insert(k, v));
    } else {
        assert forall|i: int| p <= i < s.len() implies k.rank() < (#[trigger] s[i]).0.rank() by {
            if s[i].0.rank() == k.rank() {
                K::lemma_rank_determines(s[i].0, k);
                assert(has_key(s, k));
            }
        }
        lemma_insert_entry(s, p, k, v);
    }
}

/// `without` keeps the order and removes `k` from the mapping.
pub proof fn lemma_without<K: Ranked, V>(s: Seq<(K, V)>, k: K)
    requires
        ascending(s),
    ensures
        ascending(without(s, k)),
        as_map(without(s, k)) == as_map(s).remove(k),
{
    lemma_place(s, k);
    let p = place(s, k);
    if p < s.len() && s[p].0 == k {
        lemma_remove_entry(s, p);
    } else {
        assert(as_map(s).remove(k) =~= as_map(s));
    }
}

/// Putting a key back after taking it out is the same as putting it.
pub proof fn lemma_put_without<K: Ranked, V>(s: Seq<(K, V)>, k: K, v: V)
    requires
        ascending(s),
    ensures
        put(without(s, k), k, v) == put(s, k, v),
{
    lemma_without(s, k);
    lemma_put(without(s, k), k, v);
    lemma_put(s, k, v);
    assert(as_map(s).remove(k).insert(k, v) =~= as_map(s).insert(k, v));
    lemma_ascending_unique(put(without(s, k), k, v), put(s, k, v));
}

/// The entries of `s` with each value replaced by what it holds.
pub open spec fn views<K, V: View>(s: Seq<(K, V)>) -> Seq<(K, V::V)> {
    Seq::new(s.len(), |i: int| (s[i].0, s[i].1@))
}

/// Replacing the values by what they hold moves no key.
pub proof fn lemma_views_place<K: Ranked, V: View>(s: Seq<(K, V)>, k: K)
    ensures
        place(views(s), k) == place(s, k),
        ascending(s) <==> ascending(views(s)),
        has_key(views(s), k) <==> has_key(s, k),
    decreases s.len(),
{
    let t = views(s);
    if s.len() > 0 {
        lemma_views_place(s.drop_last(), k);
        assert(views(s.drop_last()) =~= t.drop_last());
    }
    if ascending(s) {
        assert forall|i: int, j: int| 0 <= i < j < t.len() implies (#[trigger] t[i]).0.rank() < (
        #[trigger] t[j]).0.rank() by {
            assert(s[i].0.rank() < s[j].0.rank());
        }
    }
    if ascending(t) {
        assert forall|i: int, j: int| 0 <= i < j < s.len() implies (#[trigger] s[i]).0.rank() < (
        #[trigger] s[j]).0.rank() by {
            assert(t[i].0.rank() < t[j].0.rank());
        }
    }
    if has_key(s, k) {
        let i = choose|i: int| 0 <= i < s.len() && (#[trigger] s[i]).0 == k;
        assert(t[i].0 == k);
    }
    if has_key(t, k) {
        let i = choose|i: int| 0 <= i < t.len() && (#[trigger] t[i]).0 == k;
        assert(s[i].0 == k);
    }
}

/// `place` is an index into the sequence, or its length.
pub proof fn lemma_place_bounds<K: Ranked, V>(s: Seq<(K, V)>, k: K)
    ensures
        0 <= place(s, k) <= s.len(),
    decreases s.len(),
{
    if s.len() > 0 {
        lemma_place_bounds(s.drop_last(), k);
    }
}

/// `put` and `without` act on what the values hold as they act on the values.
pub proof fn lemma_views_put<K: Ranked, V: View>(s: Seq<(K, V)>, k: K, v: V)
    ensures
        views(put(s, k, v)) == put(views(s), k, v@),
        views(without(s, k)) == without(views(s), k),
{
    lemma_views_place(s, k);
    lemma_place_bounds(s, k);
    let p = place(s, k);
    if p < s.len() {
        assert(views(s)[p].0 == s[p].0);
    }
    assert(views(put(s, k, v)) =~= put(views(s), k, v@));
    assert(views(without(s, k)) =~= without(views(s), k));
}

/// In an ascending sequence, what the value under a key holds is the value
/// under that key among what the values hold.
pub proof fn lemma_views_value<K: Ranked, V: View>(s: Seq<(K, V)>, k: K)
    requires
        ascending(s),
        has_key(s, k),
    ensures
        has_key(views(s), k),
        value_of(views(s), k) == value_of(s, k)@,
{
    lemma_views_place(s, k);
    let i = choose|i: int| 0 <= i < s.len() && (#[trigger] s[i]).0 == k;
    lemma_entry_found(s, i);
    assert(views(s)[i].0 == k);
    lemma_entry_found(views(s), i);
}

/// Every entry of `put(s, k, v)` is the new entry or an entry of `s`.
pub proof fn lemma_put_entry<K: Ranked, V>(s: Seq<(K, V)>, k: K, v: V, i: int)
    requires
        0 <= i < put(s, k, v).len(),
    ensures
        put(s, k, v)[i] == (k, v) || exists|j: int| 0 <= j < s.len() && #[trigger] s[j] == put(s, k, v)[i],
{
    lemma_place_bounds(s, k);
    let p = place(s, k);
    let t = put(s, k, v);
    if p < s.len() && s[p].0 == k {
        if i != p {
            assert(s[i] == t[i]);
        }
    } else {
        if i < p {
            assert(s[i] == t[i]);
        } else if i > p {
            assert(s[i - 1] == t[i]);
        }
    }
}

/// After `put`, `k` has the value `v` and every other key is as it was.
pub proof fn lemma_put_lookup<K: Ranked, V>(s: Seq<(K, V)>, k: K, v: V)
    requires
        ascending(s),
    ensures
        forall|q: K| #[trigger] has_key(put(s, k, v), q) <==> q == k || has_key(s, q),
        value_of(put(s, k, v), k) == v,
        forall|q: K| q != k && has_key(s, q) ==> #[trigger] value_of(put(s, k, v), q) == value_of(s, q),
{
    lemma_put(s, k, v);
    let t = put(s, k, v);
    assert forall|q: K| #[trigger] has_key(t, q) <==> q == k || has_key(s, q) by {
        assert(as_map(t).contains_key(q) <==> has_key(t, q));
        assert(as_map(s).contains_key(q) <==> has_key(s, q));
    }
    assert(as_map(t).contains_key(k));
    assert(as_map(t)[k] == v);
    assert forall|q: K| q != k && has_key(s, q) implies #[trigger] value_of(t, q) == value_of(s, q) by {
        assert(as_map(s).contains_key(q));
        assert(as_map(t).contains_key(q));
        assert(as_map(t)[q] == as_map(s)[q]);
    }
}

/// A map from keys to values whose entries are held in ascending key order.
pub struct OrdMap<K: Ranked, V> {
    entries: Vec<(K, V)>,
}

impl<K: Ranked, V> View for OrdMap<K, V> {
    type V = Seq<(K, V)>;

    closed spec fn view(&self) -> Seq<(K, V)> {
        self.entries@
    }
}

impl<K: Ranked, V> OrdMap<K, V> {
    #[verifier::type_invariant]
    spec fn ordered(self) -> bool {
        ascending(self.entries@)
    }

    /// The mapping from keys to values that the entries describe.
    pub open spec fn map(&self) -> Map<K, V> {
        as_map(self@)
    }

    /// A map without entries.
    pub fn new() -> (m: Self)
        ensures
            m@ == Seq::<(K, V)>::empty(),
            ascending(m@),
    {
        OrdMap { entries: Vec::new() }
    }

    /// The number of entries.
    pub fn len(&self) -> (n: usize)
        ensures
            n == self@.len(),
    {
        self.entries.len()
    }

    /// The entry at place `i` in ascending key order.
    pub fn entry(&self, i: usize) -> (e: &(K, V))
        requires
            i < self@.len(),
        ensures
            *e == self@[i as int],
    {
        &self.entries[i]
    }

    /// The number of entries whose key comes before `key`, and whether the
    /// entry at that place has the key itself.
    fn position(&self, key: &K) -> (r: (usize, bool))
        ensures
            r.0 <= self@.len(),
            forall|i: int| 0 <= i < r.0 ==> (#[trigger] self@[i]).0.rank() < key.rank(),
            forall|i: int| r.0 <= i < self@.len() ==> key.rank() <= (#[trigger] self@[i]).0.rank(),
            r.1 == (r.0 < self@.len() && self@[r.0 as int].0 == *key),
            r.1 == has_key(self@, *key),
    {
        proof {
            use_type_invariant(self);
        }
        let mut lo: usize = 0;
        let mut hi: usize = self.entries.len();
        while lo < hi
            invariant
                lo <= hi <= self.entries@.len(),
                ascending(self.entries@),
                forall|i: int| 0 <= i < lo ==> (#[trigger] self.entries@[i]).0.rank() < key.rank(),
                forall|i: int| hi <= i < self.entries@.len() ==> key.rank() <= (
                #[trigger] self.entries@[i]).0.rank(),
            decreases hi - lo,
        {
            let mid: usize = lo + (hi - lo) / 2;
            if self.entries[mid].0.precedes(key) {
                assert forall|i: int| 0 <= i < mid + 1 implies (#[trigger] self.entries@[i]).0.rank()
                    < key.rank() by {
                    if i < mid {
                        assert(self.entries@[i].0.rank() < self.entries@[mid as int].0.rank());
                    }
                }
                lo = mid + 1;
            } else {
                assert forall|i: int| mid <= i < self.entries@.len() implies key.rank() <= (
                #[trigger] self.entries@[i]).0.rank() by {
                    if mid < i {
                        assert(self.entries@[mid as int].0.rank() < self.entries@[i].0.rank());
                    }
                }
                hi = mid;
            }
        }
        let found = lo < self.entries.len() && !key.precedes(&self.entries[lo].0);
        proof {
            if found {
                K::lemma_rank_determines(self.entries@[lo as int].0, *key);
            }
            if has_key(self@, *key) {
                let i = choose|i: int| 0 <= i < self@.len() && (#[trigger] self@[i]).0 == *key;
                if i < lo {
                    assert(self@[i].0.rank() < key.rank());
                } else if i > lo {
                    assert(self@[lo as int].0.rank() < self@[i].0.rank());
                }
            }
        }
        (lo, found)
    }

    /// Whether `key` has an entry.
    pub fn contains_key(&self, key: &K) -> (found: bool)
        ensures
            found == self.map().contains_key(*key),
    {
        self.position(key).1
    }

    /// The value under `key`, if it has an entry.
    pub fn get(&self, key: &K) -> (value: Option<&V>)
        ensures
            match value {
                Some(v) => self.map().contains_key(*key) && *v == self.map()[*key],
                None => !self.map().contains_key(*key),
            },
    {
        let (pos, found) = self.position(key);
        if found {
            proof {
                use_type_invariant(self);
                lemma_entry_found(self@, pos as int);
            }
            Some(&self.entries[pos].1)
        } else {
            None
        }
    }

    /// Maps `key` to `value` and returns the value that `key` had before, if
    /// it had one.
    pub fn insert(&mut self, key: K, value: V) -> (previous: Option<V>)
        ensures
            final(self)@ == put(old(self)@, key, value),
            final(self).map() == old(self).map().insert(key, value),
            ascending(final(self)@),
            match previous {
                Some(v) => old(self).map().contains_key(key) && v == old(self).map()[key],
                None => !old(self).map().contains_key(key),
            },
    {
        let (pos, found) = self.position(&key);
        proof {
            use_type_invariant(&*self);
            lemma_place_unique(self@, key, pos as int);
            lemma_put(self@, key, value);
        }
        let mut entries: Vec<(K, V)> = Vec::new();
        core::mem::swap(&mut self.entries, &mut entries);
        let previous = if found {
            proof {
                lemma_entry_found(entries@, pos as int);
            }
            let ghost before = entries@;
            let entry = entries.remove(pos);
            entries.insert(pos, (key, value));
            assert(entries@ =~= before.update(pos as int, (key, value)));
            Some(entry.1)
        } else {
            entries.insert(pos, (key, value));
            None
        };
        core::mem::swap(&mut self.entries, &mut entries);
        previous
    }

    /// Takes out the entry under `key`, if there is one, and returns its value.
    pub fn remove(&mut self, key: &K) -> (value: Option<V>)
        ensures
            final(self)@ == without(old(self)@, *key),
            final(self).map() == old(self).map().remove(*key),
            ascending(final(self)@),
            match value {
                Some(v) => old(self).map().contains_key(*key) && v == old(self).map()[*key],
                None => !old(self).map().contains_key(*key),
            },
    {
        let (pos, found) = self.position(key);
        proof {
            use_type_invariant(&*self);
            lemma_place_unique(self@, *key, pos as int);
            lemma_without(self@, *key);
        }
        if found {
            proof {
                lemma_entry_found(self@, pos as int);
            }
            let mut entries: Vec<(K, V)> = Vec::new();
            core::mem::swap(&mut self.entries, &mut entries);
            let entry = entries.remove(pos);
            core::mem::swap(&mut self.entries, &mut entries);
            Some(entry.1)
        } else {
            None
        }
    }
}

impl<K: Ranked, V: Clone> Clone for OrdMap<K, V> {
    /// A map with the same keys in the same order, each with a clone of its value.
    fn clone(&self) -> (copy: Self)
        ensures
            copy@.len() == self@.len(),
            forall|i: int|
                0 <= i < self@.len() ==> (#[trigger] copy@[i]).0 == self@[i].0 && cloned::<V>(
                    self@[i].1,
                    copy@[i].1,
                ),
    {
        proof {
            use_type_invariant(self);
        }
        let mut entries: Vec<(K, V)> = Vec::new();
        let n = self.entries.len();
        let mut i: usize = 0;
        while i < n
            invariant
                n == self.entries@.len(),
                i <= n,
                entries@.len() == i,
                forall|j: int|
                    0 <= j < i ==> (#[trigger] entries@[j]).0 == self.entries@[j].0 && cloned::<V>(
                        self.entries@[j].1,
                        entries@[j].1,
                    ),
            decreases n - i,
        {
            let entry = &self.entries[i];
            entries.push((entry.0, entry.1.clone()));
            i += 1;
        }
        assert forall|a: int, b: int| 0 <= a < b < entries@.len() implies (#[trigger] entries@[a]).0.rank()
            < (#[trigger] entries@[b]).0.rank() by {
            assert(self.entries@[a].0.rank() < self.entries@[b].0.rank());
        }
        OrdMap { entries }
    }
}

} // verus!
