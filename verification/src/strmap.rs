//! An ordered map from strings to values, kept sorted by key so that
//! iteration follows the same order as a `BTreeMap<String, _>`.

use vstd::prelude::*;

use crate::text::{
    lemma_seq_lt_asymmetric, lemma_seq_lt_irreflexive, lemma_seq_lt_total,
    lemma_seq_lt_transitive, seq_lt, str_eq, str_lt,
};

verus! {

/// Some entry of `s` has key `k`.
pub open spec fn has_key<W>(s: Seq<(Seq<char>, W)>, k: Seq<char>) -> bool {
    exists|i: int| 0 <= i < s.len() && (#[trigger] s[i]).0 == k
}

/// Some position of `s` whose key is `k`, when there is one.
pub open spec fn key_index<W>(s: Seq<(Seq<char>, W)>, k: Seq<char>) -> int {
    choose|i: int| 0 <= i < s.len() && (#[trigger] s[i]).0 == k
}

/// The map that a sequence of (key, value) entries denotes.
pub open spec fn pairs_to_map<W>(s: Seq<(Seq<char>, W)>) -> Map<Seq<char>, W> {
    Map::new(|k: Seq<char>| has_key(s, k), |k: Seq<char>| s[key_index(s, k)].1)
}

/// Keys strictly increase along the sequence.
pub open spec fn keys_sorted<W>(s: Seq<(Seq<char>, W)>) -> bool {
    forall|i: int, j: int| 0 <= i < j < s.len() ==> seq_lt((#[trigger] s[i]).0, (#[trigger] s[j]).0)
}

/// In a sorted entry sequence, the entry at `i` is the one the map reports for its key.
pub proof fn lemma_sorted_lookup<W>(s: Seq<(Seq<char>, W)>, i: int)
    requires
        keys_sorted(s),
        0 <= i < s.len(),
    ensures
        pairs_to_map(s).contains_key(s[i].0),
        pairs_to_map(s)[s[i].0] == s[i].1,
{
    let k = s[i].0;
    assert(has_key(s, k));
    let j = key_index(s, k);
    if j < i {
        assert(seq_lt(s[j].0, s[i].0));
        lemma_seq_lt_irreflexive(k);
    } else if i < j {
        assert(seq_lt(s[i].0, s[j].0));
        lemma_seq_lt_irreflexive(k);
    }
    assert(j == i);
}

/// In a sorted entry sequence, distinct positions hold distinct keys.
pub proof fn lemma_sorted_distinct<W>(s: Seq<(Seq<char>, W)>, i: int, j: int)
    requires
        keys_sorted(s),
        0 <= i < s.len(),
        0 <= j < s.len(),
        i != j,
    ensures
        s[i].0 != s[j].0,
{
    if i < j {
        assert(seq_lt(s[i].0, s[j].0));
        lemma_seq_lt_irreflexive(s[i].0);
    } else {
        assert(seq_lt(s[j].0, s[i].0));
        lemma_seq_lt_irreflexive(s[i].0);
    }
}

/// Two sorted entry sequences that denote the same map are equal.
pub proof fn lemma_sorted_unique<W>(s: Seq<(Seq<char>, W)>, t: Seq<(Seq<char>, W)>)
    requires
        keys_sorted(s),
        keys_sorted(t),
        pairs_to_map(s) == pairs_to_map(t),
    ensures
        s == t,
    decreases s.len() + t.len(),
{
    if s.len() == 0 {
        if t.len() > 0 {
            lemma_sorted_lookup(t, 0);
            assert(pairs_to_map(t).contains_key(t[0].0));
        }
        assert(s =~= t);
    } else if t.len() == 0 {
        lemma_sorted_lookup(s, 0);
        assert(pairs_to_map(s).contains_key(s[0].0));
    } else {
        // The first keys agree: each is the least key of the same set.
        lemma_sorted_lookup(s, 0);
        lemma_sorted_lookup(t, 0);
        let ks = s[0].0;
        let kt = t[0].0;
        assert(pairs_to_map(t).contains_key(ks));
        assert(pairs_to_map(s).contains_key(kt));
        let i = choose|i: int| 0 <= i < t.len() && (#[trigger] t[i]).0 == ks;
        let j = choose|j: int| 0 <= j < s.len() && (#[trigger] s[j]).0 == kt;
        if ks != kt {
            if i > 0 {
                assert(seq_lt(t[0].0, t[i].0));
            }
            if j > 0 {
                assert(seq_lt(s[0].0, s[j].0));
            }
            lemma_seq_lt_irreflexive(ks);
            lemma_seq_lt_irreflexive(kt);
            lemma_seq_lt_asymmetric(kt, ks);
        }
        assert(ks == kt);
        let s1 = s.drop_first();
        let t1 = t.drop_first();
        assert(keys_sorted(s1)) by {
            assert forall|a: int, b: int| 0 <= a < b < s1.len() implies seq_lt(
                (#[trigger] s1[a]).0,
                (#[trigger] s1[b]).0,
            ) by {
                assert(s1[a] == s[a + 1] && s1[b] == s[b + 1]);
            }
        }
        assert(keys_sorted(t1)) by {
            assert forall|a: int, b: int| 0 <= a < b < t1.len() implies seq_lt(
                (#[trigger] t1[a]).0,
                (#[trigger] t1[b]).0,
            ) by {
                assert(t1[a] == t[a + 1] && t1[b] == t[b + 1]);
            }
        }
        assert(pairs_to_map(s1) =~= pairs_to_map(t1)) by {
            assert forall|k: Seq<char>| has_key(s1, k) <==> has_key(t1, k) by {
                if has_key(s1, k) {
                    let a = choose|a: int| 0 <= a < s1.len() && (#[trigger] s1[a]).0 == k;
                    assert(s[a + 1].0 == k);
                    lemma_sorted_lookup(s, a + 1);
                    let b = choose|b: int| 0 <= b < t.len() && (#[trigger] t[b]).0 == k;
                    lemma_sorted_distinct(s, 0, a + 1);
                    assert(b != 0);
                    assert(t1[b - 1].0 == k);
                }
                if has_key(t1, k) {
                    let a = choose|a: int| 0 <= a < t1.len() && (#[trigger] t1[a]).0 == k;
                    assert(t[a + 1].0 == k);
                    lemma_sorted_lookup(t, a + 1);
                    let b = choose|b: int| 0 <= b < s.len() && (#[trigger] s[b]).0 == k;
                    lemma_sorted_distinct(t, 0, a + 1);
                    assert(b != 0);
                    assert(s1[b - 1].0 == k);
                }
            }
            assert forall|k: Seq<char>| #[trigger] has_key(s1, k) implies pairs_to_map(s1)[k]
                == pairs_to_map(t1)[k] by {
                let a = choose|a: int| 0 <= a < s1.len() && (#[trigger] s1[a]).0 == k;
                let b = choose|b: int| 0 <= b < t1.len() && (#[trigger] t1[b]).0 == k;
                lemma_sorted_lookup(s1, a);
                lemma_sorted_lookup(t1, b);
                lemma_sorted_lookup(s, a + 1);
                lemma_sorted_lookup(t, b + 1);
            }
        }
        lemma_sorted_unique(s1, t1);
        assert(s[0].1 == t[0].1);
        assert(s =~= seq![s[0]] + s1);
        assert(t =~= seq![t[0]] + t1);
    }
}

/// Appending an entry with a new, greatest key adds that key to the map.
pub proof fn lemma_pairs_to_map_push<W>(s: Seq<(Seq<char>, W)>, p: (Seq<char>, W))
    requires
        keys_sorted(s.push(p)),
    ensures
        keys_sorted(s),
        !pairs_to_map(s).contains_key(p.0),
        pairs_to_map(s.push(p)) == pairs_to_map(s).insert(p.0, p.1),
{
    let t = s.push(p);
    if has_key(s, p.0) {
        let i = choose|i: int| 0 <= i < s.len() && (#[trigger] s[i]).0 == p.0;
        lemma_sorted_distinct(t, i, s.len() as int);
    }
    assert(keys_sorted(s)) by {
        assert forall|a: int, b: int| 0 <= a < b < s.len() implies seq_lt(
            (#[trigger] s[a]).0,
            (#[trigger] s[b]).0,
        ) by {
            assert(s[a] == t[a] && s[b] == t[b]);
        }
    }
    lemma_sorted_lookup(t, s.len() as int);
    assert forall|k: Seq<char>| #[trigger] pairs_to_map(t).contains_key(k) == pairs_to_map(
        s,
    ).insert(p.0, p.1).contains_key(k) by {
        if has_key(s, k) {
            let i = choose|i: int| 0 <= i < s.len() && (#[trigger] s[i]).0 == k;
            assert(t[i].0 == k);
        }
        if has_key(t, k) && k != p.0 {
            let i = choose|i: int| 0 <= i < t.len() && (#[trigger] t[i]).0 == k;
            assert(s[i].0 == k);
        }
    }
    assert forall|k: Seq<char>| #[trigger] pairs_to_map(t).contains_key(k) implies pairs_to_map(
        t,
    )[k] == pairs_to_map(s).insert(p.0, p.1)[k] by {
        if k != p.0 {
            let i = choose|i: int| 0 <= i < s.len() && (#[trigger] s[i]).0 == k;
            lemma_sorted_lookup(t, i);
            lemma_sorted_lookup(s, i);
            assert(t[i] == s[i]);
        }
    }
    assert(pairs_to_map(t) =~= pairs_to_map(s).insert(p.0, p.1));
}

/// Replacing the value at one position of a sorted entry sequence sets that
/// key in the map.
pub proof fn lemma_update_map<W>(before: Seq<(Seq<char>, W)>, after: Seq<(Seq<char>, W)>, i: int, g: W)
    requires
        0 <= i < before.len(),
        keys_sorted(before),
        after == before.update(i, (before[i].0, g)),
    ensures
        keys_sorted(after),
        pairs_to_map(after) == pairs_to_map(before).insert(before[i].0, g),
{
    let k = before[i].0;
    assert(keys_sorted(after)) by {
        assert forall|a: int, b: int| 0 <= a < b < after.len() implies seq_lt(
            (#[trigger] after[a]).0,
            (#[trigger] after[b]).0,
        ) by {
            assert(after[a].0 == before[a].0);
            assert(after[b].0 == before[b].0);
        }
    }
    lemma_sorted_lookup(after, i);
    assert forall|q: Seq<char>| #[trigger] pairs_to_map(after).contains_key(q) == pairs_to_map(
        before,
    ).insert(k, g).contains_key(q) by {
        if pairs_to_map(before).contains_key(q) {
            let j = choose|j: int| 0 <= j < before.len() && (#[trigger] before[j]).0 == q;
            assert(after[j].0 == q);
        }
        if pairs_to_map(after).contains_key(q) {
            let j = choose|j: int| 0 <= j < after.len() && (#[trigger] after[j]).0 == q;
            assert(before[j].0 == q);
        }
    }
    assert forall|q: Seq<char>| #[trigger] pairs_to_map(after).contains_key(q) implies pairs_to_map(
        after,
    )[q] == pairs_to_map(before).insert(k, g)[q] by {
        if q != k {
            let j = choose|j: int| 0 <= j < after.len() && (#[trigger] after[j]).0 == q;
            lemma_sorted_lookup(after, j);
            lemma_sorted_lookup(before, j);
            assert(after[j] == before[j]);
        }
    }
    assert(pairs_to_map(after) =~= pairs_to_map(before).insert(k, g));
}

/// The sorted entry sequence of the map of `s` with `k` set to `v`.
pub open spec fn sorted_insert<W>(s: Seq<(Seq<char>, W)>, k: Seq<char>, v: W) -> Seq<(Seq<char>, W)> {
    choose|t: Seq<(Seq<char>, W)>| keys_sorted(t) && pairs_to_map(t) == pairs_to_map(s).insert(k, v)
}

/// A sorted sequence denoting the updated map is the one `sorted_insert` names.
pub proof fn lemma_sorted_insert_is<W>(s: Seq<(Seq<char>, W)>, k: Seq<char>, v: W, t: Seq<(Seq<char>, W)>)
    requires
        keys_sorted(t),
        pairs_to_map(t) == pairs_to_map(s).insert(k, v),
    ensures
        sorted_insert(s, k, v) == t,
{
    let c = sorted_insert(s, k, v);
    assert(keys_sorted(c) && pairs_to_map(c) == pairs_to_map(s).insert(k, v));
    lemma_sorted_unique(c, t);
}

/// The sorted entry sequence of the map `mp`.
pub open spec fn sorted_of<W>(mp: Map<Seq<char>, W>) -> Seq<(Seq<char>, W)> {
    choose|t: Seq<(Seq<char>, W)>| keys_sorted(t) && pairs_to_map(t) == mp
}

/// A sorted sequence denoting `mp` is the one `sorted_of` names.
pub proof fn lemma_sorted_of_is<W>(mp: Map<Seq<char>, W>, t: Seq<(Seq<char>, W)>)
    requires
        keys_sorted(t),
        pairs_to_map(t) == mp,
    ensures
        sorted_of(mp) == t,
{
    let c = sorted_of(mp);
    assert(keys_sorted(c) && pairs_to_map(c) == mp);
    lemma_sorted_unique(c, t);
}

/// Values that can be copied with a proof that the copy has the same contents.
pub trait Duplicate: DeepView + Sized {
    fn duplicate(&self) -> (r: Self)
        ensures
            r.deep_view() == self.deep_view(),
    ;
}

impl Duplicate for String {
    fn duplicate(&self) -> (r: Self) {
        self.clone()
    }
}

impl<T: Duplicate> Duplicate for Option<T> {
    fn duplicate(&self) -> (r: Self) {
        match self {
            Some(t) => Some(t.duplicate()),
            None => None,
        }
    }
}

impl<T: Duplicate> Duplicate for Vec<T> {
    fn duplicate(&self) -> (r: Self) {
        let mut r: Vec<T> = Vec::new();
        let n = self.len();
        let mut i: usize = 0;
        while i < n
            invariant
                n == self@.len(),
                i <= n,
                r@.len() == i,
                forall|j: int| 0 <= j < i ==> (#[trigger] r@[j]).deep_view() == self@[j].deep_view(),
            decreases n - i,
        {
            r.push(self[i].duplicate());
            i = i + 1;
        }
        assert(r.deep_view() =~= self.deep_view());
        r
    }
}

/// A string-keyed map whose entries are kept in increasing key order.
#[derive(Debug)]
pub struct StrMap<V: DeepView> {
    entries: Vec<(String, V)>,
}

impl<V: DeepView> DeepView for StrMap<V> {
    type V = Seq<(Seq<char>, V::V)>;

    /// The entries, in increasing key order.
    open spec fn deep_view(&self) -> Seq<(Seq<char>, V::V)> {
        self.pairs()
    }
}

impl<V: Duplicate> Duplicate for StrMap<V> {
    fn duplicate(&self) -> (r: Self) {
        proof {
            use_type_invariant(self);
        }
        let n = self.entries.len();
        let mut out: Vec<(String, V)> = Vec::new();
        let mut i: usize = 0;
        while i < n
            invariant
                n == self.entries@.len(),
                i <= n,
                out@.len() == i,
                forall|j: int| 0 <= j < i ==> (#[trigger] out@[j]).deep_view() == self.entries@[j].deep_view(),
            decreases n - i,
        {
            let k = self.entries[i].0.clone();
            let v = self.entries[i].1.duplicate();
            out.push((k, v));
            i = i + 1;
        }
        assert(out.deep_view() =~= self.entries.deep_view());
        StrMap { entries: out }
    }
}

impl<V: DeepView> StrMap<V> {
    /// Keys strictly increase along the entries.
    #[verifier::type_invariant]
    pub open spec fn sorted(self) -> bool {
        keys_sorted(self.pairs())
    }

    /// The entries, in increasing key order.
    pub closed spec fn pairs(&self) -> Seq<(Seq<char>, V::V)> {
        self.entries.deep_view()
    }

    /// The keys, in increasing order.
    pub open spec fn key_seq(&self) -> Seq<Seq<char>> {
        self.pairs().map_values(|p: (Seq<char>, V::V)| p.0)
    }

    /// The map the entries denote.
    pub open spec fn map(&self) -> Map<Seq<char>, V::V> {
        pairs_to_map(self.pairs())
    }

    pub fn new() -> (r: Self)
        ensures
            r.pairs() == Seq::<(Seq<char>, V::V)>::empty(),
    {
        let r = StrMap { entries: Vec::new() };
        assert(r.pairs() =~= Seq::<(Seq<char>, V::V)>::empty());
        r
    }

    pub fn len(&self) -> (n: usize)
        ensures
            n == self.pairs().len(),
    {
        self.entries.len()
    }

    pub fn key_at(&self, i: usize) -> (k: &String)
        requires
            i < self.pairs().len(),
        ensures
            k@ == self.pairs()[i as int].0,
    {
        &self.entries[i].0
    }

    pub fn value_at(&self, i: usize) -> (v: &V)
        requires
            i < self.pairs().len(),
        ensures
            v.deep_view() == self.pairs()[i as int].1,
    {
        &self.entries[i].1
    }

    /// Replace the value at position `i`, returning the previous one.
    pub fn replace_at(&mut self, i: usize, v: V) -> (prev: V)
        requires
            i < old(self).pairs().len(),
        ensures
            prev.deep_view() == old(self).pairs()[i as int].1,
            final(self).pairs() == old(self).pairs().update(
                i as int,
                (old(self).pairs()[i as int].0, v.deep_view()),
            ),
            final(self).map() == old(self).map().insert(old(self).pairs()[i as int].0, v.deep_view()),
    {
        proof {
            use_type_invariant(&*self);
        }
        let ghost old_pairs = self.pairs();
        let mut entries: Vec<(String, V)> = Vec::new();
        std::mem::swap(&mut entries, &mut self.entries);
        let mut v = v;
        let ghost vv = v.deep_view();
        std::mem::swap(&mut entries[i].1, &mut v);
        proof {
            let s = entries.deep_view();
            assert(s =~= old_pairs.update(i as int, (old_pairs[i as int].0, vv)));
            assert(keys_sorted(s)) by {
                assert forall|a: int, b: int| 0 <= a < b < s.len() implies seq_lt(
                    (#[trigger] s[a]).0,
                    (#[trigger] s[b]).0,
                ) by {
                    assert(s[a].0 == old_pairs[a].0);
                    assert(s[b].0 == old_pairs[b].0);
                }
            }
        }
        proof {
            lemma_update_map(old_pairs, entries.deep_view(), i as int, vv);
        }
        self.entries = entries;
        v
    }

    /// Position of key `k`, if present.
    pub fn find(&self, k: &str) -> (r: Option<usize>)
        ensures
            match r {
                Some(i) => i < self.pairs().len() && self.pairs()[i as int].0 == k@
                    && self.map().contains_key(k@) && self.map()[k@] == self.pairs()[i as int].1,
                None => !self.map().contains_key(k@),
            },
    {
        proof {
            use_type_invariant(self);
        }
        let n = self.entries.len();
        let mut i: usize = 0;
        while i < n
            invariant
                keys_sorted(self.pairs()),
                n == self.pairs().len(),
                i <= n,
                forall|j: int| 0 <= j < i ==> (#[trigger] self.pairs()[j]).0 != k@,
            decreases n - i,
        {
            if str_eq(self.entries[i].0.as_str(), k) {
                proof {
                    lemma_sorted_lookup(self.pairs(), i as int);
                }
                return Some(i);
            }
            i = i + 1;
        }
        proof {
            if has_key(self.pairs(), k@) {
                let j = choose|j: int| 0 <= j < self.pairs().len() && (#[trigger] self.pairs()[j]).0 == k@;
                assert(self.pairs()[j].0 != k@);
            }
        }
        None
    }

    pub fn contains_key(&self, k: &str) -> (r: bool)
        ensures
            r == self.map().contains_key(k@),
    {
        self.find(k).is_some()
    }

    pub fn get(&self, k: &str) -> (r: Option<&V>)
        ensures
            match r {
                Some(v) => self.map().contains_key(k@) && v.deep_view() == self.map()[k@],
                None => !self.map().contains_key(k@),
            },
    {
        match self.find(k) {
            Some(i) => Some(&self.entries[i].1),
            None => None,
        }
    }

    /// Insert or overwrite `k`; returns the value it held before.
    pub fn insert(&mut self, k: String, v: V) -> (prev: Option<V>)
        ensures
            final(self).map() == old(self).map().insert(k@, v.deep_view()),
            match prev {
                Some(p) => old(self).map().contains_key(k@) && p.deep_view() == old(self).map()[k@],
                None => !old(self).map().contains_key(k@),
            },
    {
        proof {
            use_type_invariant(&*self);
        }
        let n = self.entries.len();
        let mut i: usize = 0;
        while i < n && str_lt(self.entries[i].0.as_str(), k.as_str())
            invariant
                keys_sorted(self.pairs()),
                n == self.pairs().len(),
                i <= n,
                forall|j: int| 0 <= j < i ==> seq_lt((#[trigger] self.pairs()[j]).0, k@),
            decreases n - i,
        {
            i = i + 1;
        }
        let ghost old_pairs = self.pairs();
        let ghost kv = k@;
        let ghost vv = v.deep_view();
        if i < n && str_eq(self.entries[i].0.as_str(), k.as_str()) {
            proof {
                lemma_sorted_lookup(old_pairs, i as int);
            }
            let prev = self.replace_at(i, v);
            proof {
                use_type_invariant(&*self);
                let s = self.pairs();
                assert(self.map() =~= pairs_to_map(old_pairs).insert(kv, vv)) by {
                    assert forall|q: Seq<char>| #[trigger] has_key(s, q) <==> (has_key(old_pairs, q) || q == kv) by {
                        if has_key(old_pairs, q) {
                            let a = choose|a: int| 0 <= a < old_pairs.len() && (#[trigger] old_pairs[a]).0 == q;
                            assert(s[a].0 == q);
                        }
                        if has_key(s, q) {
                            let a = choose|a: int| 0 <= a < s.len() && (#[trigger] s[a]).0 == q;
                            assert(old_pairs[a].0 == q);
                        }
                        if q == kv {
                            assert(s[i as int].0 == q);
                        }
                    }
                    assert forall|q: Seq<char>| #[trigger] has_key(s, q) implies pairs_to_map(s)[q]
                        == pairs_to_map(old_pairs).insert(kv, vv)[q] by {
                        let a = choose|a: int| 0 <= a < s.len() && (#[trigger] s[a]).0 == q;
                        lemma_sorted_lookup(s, a);
                        lemma_sorted_lookup(old_pairs, a);
                    }
                }
            }
            Some(prev)
        } else {
            proof {
                if i < n {
                    assert(self.pairs()[i as int].0 != kv);
                    lemma_seq_lt_total(kv, self.pairs()[i as int].0);
                }
            }
            let mut entries: Vec<(String, V)> = Vec::new();
            std::mem::swap(&mut entries, &mut self.entries);
            entries.insert(i, (k, v));
            proof {
                let s = entries.deep_view();
                assert(s =~= old_pairs.insert(i as int, (kv, vv)));
                assert(keys_sorted(s)) by {
                    assert forall|a: int, b: int| 0 <= a < b < s.len() implies seq_lt(
                        (#[trigger] s[a]).0,
                        (#[trigger] s[b]).0,
                    ) by {
                        if b < i {
                        } else if b == i {
                        } else if a < i {
                            assert(s[b] == old_pairs[b - 1]);
                            assert(seq_lt(old_pairs[i as int].0, old_pairs[b - 1].0) || b - 1 == i);
                            lemma_seq_lt_transitive(s[a].0, kv, old_pairs[i as int].0);
                            if b - 1 != i {
                                lemma_seq_lt_transitive(s[a].0, old_pairs[i as int].0, old_pairs[b - 1].0);
                            }
                        } else if a == i {
                            assert(s[b] == old_pairs[b - 1]);
                            if b - 1 != i {
                                assert(seq_lt(old_pairs[i as int].0, old_pairs[b - 1].0));
                                lemma_seq_lt_transitive(kv, old_pairs[i as int].0, old_pairs[b - 1].0);
                            }
                        } else {
                            assert(s[a] == old_pairs[a - 1]);
                            assert(s[b] == old_pairs[b - 1]);
                        }
                    }
                }
                assert(!has_key(old_pairs, kv)) by {
                    if has_key(old_pairs, kv) {
                        let a = choose|a: int| 0 <= a < old_pairs.len() && (#[trigger] old_pairs[a]).0 == kv;
                        if a < i {
                            lemma_seq_lt_irreflexive(kv);
                        } else {
                            if a > i {
                                assert(seq_lt(old_pairs[i as int].0, old_pairs[a].0));
                                lemma_seq_lt_asymmetric(kv, old_pairs[i as int].0);
                            }
                            lemma_seq_lt_irreflexive(kv);
                        }
                    }
                }
                assert(pairs_to_map(s) =~= pairs_to_map(old_pairs).insert(kv, vv)) by {
                    assert forall|q: Seq<char>| #[trigger] has_key(s, q) <==> (has_key(old_pairs, q) || q == kv) by {
                        if has_key(old_pairs, q) {
                            let a = choose|a: int| 0 <= a < old_pairs.len() && (#[trigger] old_pairs[a]).0 == q;
                            if a < i {
                                assert(s[a].0 == q);
                            } else {
                                assert(s[a + 1].0 == q);
                            }
                        }
                        if has_key(s, q) {
                            let a = choose|a: int| 0 <= a < s.len() && (#[trigger] s[a]).0 == q;
                            if a < i {
                                assert(old_pairs[a].0 == q);
                            } else if a > i {
                                assert(old_pairs[a - 1].0 == q);
                            }
                        }
                        if q == kv {
                            assert(s[i as int].0 == q);
                        }
                    }
                    assert forall|q: Seq<char>| #[trigger] has_key(s, q) implies pairs_to_map(s)[q]
                        == pairs_to_map(old_pairs).insert(kv, vv)[q] by {
                        let a = choose|a: int| 0 <= a < s.len() && (#[trigger] s[a]).0 == q;
                        lemma_sorted_lookup(s, a);
                        if a < i {
                            lemma_sorted_lookup(old_pairs, a);
                        } else if a > i {
                            lemma_sorted_lookup(old_pairs, a - 1);
                        }
                    }
                }
            }
            self.entries = entries;
            None
        }
    }

    /// Remove `k`; returns the value it held.
    pub fn remove(&mut self, k: &str) -> (prev: Option<V>)
        ensures
            final(self).map() == old(self).map().remove(k@),
            match prev {
                Some(p) => old(self).map().contains_key(k@) && p.deep_view() == old(self).map()[k@],
                None => !old(self).map().contains_key(k@),
            },
    {
        proof {
            use_type_invariant(&*self);
        }
        match self.find(k) {
            None => {
                assert(self.map() =~= old(self).map().remove(k@));
                None
            },
            Some(i) => {
                let ghost old_pairs = self.pairs();
                let mut entries: Vec<(String, V)> = Vec::new();
                std::mem::swap(&mut entries, &mut self.entries);
                let (_, v) = entries.remove(i);
                proof {
                    let s = entries.deep_view();
                    assert(s =~= old_pairs.remove(i as int));
                    assert(keys_sorted(s)) by {
                        assert forall|a: int, b: int| 0 <= a < b < s.len() implies seq_lt(
                            (#[trigger] s[a]).0,
                            (#[trigger] s[b]).0,
                        ) by {
                            if a < i && b >= i {
                                assert(s[b] == old_pairs[b + 1]);
                            } else if a >= i {
                                assert(s[a] == old_pairs[a + 1]);
                                assert(s[b] == old_pairs[b + 1]);
                            }
                        }
                    }
                    assert(pairs_to_map(s) =~= pairs_to_map(old_pairs).remove(k@)) by {
                        assert forall|q: Seq<char>| #[trigger] has_key(s, q) <==> (has_key(old_pairs, q) && q != k@) by {
                            if has_key(old_pairs, q) && q != k@ {
                                let a = choose|a: int| 0 <= a < old_pairs.len() && (#[trigger] old_pairs[a]).0 == q;
                                if a < i {
                                    assert(s[a].0 == q);
                                } else {
                                    assert(a != i);
                                    assert(s[a - 1].0 == q);
                                }
                            }
                            if has_key(s, q) {
                                let a = choose|a: int| 0 <= a < s.len() && (#[trigger] s[a]).0 == q;
                                if a < i {
                                    assert(old_pairs[a].0 == q);
                                    lemma_sorted_distinct(old_pairs, a, i as int);
                                } else {
                                    assert(old_pairs[a + 1].0 == q);
                                    lemma_sorted_distinct(old_pairs, a + 1, i as int);
                                }
                            }
                        }
                        assert forall|q: Seq<char>| #[trigger] has_key(s, q) implies pairs_to_map(s)[q]
                            == pairs_to_map(old_pairs)[q] by {
                            let a = choose|a: int| 0 <= a < s.len() && (#[trigger] s[a]).0 == q;
                            lemma_sorted_lookup(s, a);
                            if a < i {
                                lemma_sorted_lookup(old_pairs, a);
                            } else {
                                lemma_sorted_lookup(old_pairs, a + 1);
                            }
                        }
                    }
                }
                self.entries = entries;
                Some(v)
            },
        }
    }

    /// Remove every entry.
    pub fn clear(&mut self)
        ensures
            final(self).pairs() == Seq::<(Seq<char>, V::V)>::empty(),
    {
        let mut entries: Vec<(String, V)> = Vec::new();
        std::mem::swap(&mut entries, &mut self.entries);
        assert(self.pairs() =~= Seq::<(Seq<char>, V::V)>::empty());
    }

    /// The keys, in increasing order.
    pub fn keys(&self) -> (r: Vec<String>)
        ensures
            r.deep_view() == self.key_seq(),
    {
        let mut r: Vec<String> = Vec::new();
        let n = self.entries.len();
        let mut i: usize = 0;
        while i < n
            invariant
                n == self.pairs().len(),
                i <= n,
                r@.len() == i,
                r.deep_view() == self.key_seq().subrange(0, i as int),
            decreases n - i,
        {
            let k = self.entries[i].0.clone();
            assert(k@ == self.pairs()[i as int].0);
            assert(self.key_seq()[i as int] == k@);
            let ghost before = r.deep_view();
            let ghost before_v = r@;
            r.push(k);
            assert(r@ == before_v.push(k));
            assert forall|j: int| 0 <= j < i implies #[trigger] r.deep_view()[j] == before[j] by {
                assert(r@[j] == before_v[j]);
            }
            assert(r.deep_view() =~= self.key_seq().subrange(0, i + 1));
            i = i + 1;
        }
        assert(self.key_seq().subrange(0, n as int) =~= self.key_seq());
        r
    }
}

} // verus!
