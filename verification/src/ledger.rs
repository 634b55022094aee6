use vstd::prelude::*;
use crate::decimal::{Dec, Decimal};

verus! {

/// What a ledger can be keyed by: a value with a mathematical identity that
/// can be compared and copied at run time.
pub trait Key: View + Sized {
    fn same(&self, other: &Self) -> (r: bool)
        ensures
            r == (self@ == other@),
    ;

    fn duplicate(&self) -> (r: Self)
        ensures
            r@ == self@,
    ;
}

/// No key stands twice in `s`.
pub open spec fn distinct_keys<KV, V>(s: Seq<(KV, V)>) -> bool {
    forall|i: int, j: int| 0 <= i < j < s.len() ==> s[i].0 != s[j].0
}

pub open spec fn has_key<KV, V>(s: Seq<(KV, V)>, k: KV) -> bool {
    exists|i: int| 0 <= i < s.len() && s[i].0 == k
}

/// Where `k` stands in `s`, if it does.
pub open spec fn index_of<KV, V>(s: Seq<(KV, V)>, k: KV) -> int {
    choose|i: int| 0 <= i < s.len() && s[i].0 == k
}

pub open spec fn lookup<KV, V>(s: Seq<(KV, V)>, k: KV) -> Option<V> {
    if has_key(s, k) {
        Some(s[index_of(s, k)].1)
    } else {
        None
    }
}

/// The amount booked under `k`, zero where there is no entry.
pub open spec fn amount<KV>(s: Seq<(KV, Dec)>, k: KV) -> Dec {
    match lookup(s, k) {
        Some(v) => v,
        None => Dec::zero(),
    }
}

/// `s` with `v` booked under `k`: in place where `k` has an entry, at the end otherwise.
pub open spec fn upsert<KV, V>(s: Seq<(KV, V)>, k: KV, v: V) -> Seq<(KV, V)> {
    if has_key(s, k) {
        s.update(index_of(s, k), (k, v))
    } else {
        s.push((k, v))
    }
}

/// `s` without the entry of `k`.
pub open spec fn without<KV, V>(s: Seq<(KV, V)>, k: KV) -> Seq<(KV, V)> {
    if has_key(s, k) {
        s.remove(index_of(s, k))
    } else {
        s
    }
}

/// In a sequence of distinct keys, a key is found at one index only.
pub proof fn lemma_index_of<KV, V>(s: Seq<(KV, V)>, k: KV, i: int)
    requires
        distinct_keys(s),
        0 <= i < s.len(),
        s[i].0 == k,
    ensures
        has_key(s, k),
        index_of(s, k) == i,
{
    let j = index_of(s, k);
    assert(0 <= j < s.len() && s[j].0 == k);
    if j < i {
        assert(s[j].0 != s[i].0);
    } else if i < j {
        assert(s[i].0 != s[j].0);
    }
}

/// Booking under a key keeps the keys distinct, and changes the amount under that key only.
pub proof fn lemma_upsert<KV, V>(s: Seq<(KV, V)>, k: KV, v: V)
    requires
        distinct_keys(s),
    ensures
        distinct_keys(upsert(s, k, v)),
        lookup(upsert(s, k, v), k) == Some(v),
        forall|other: KV| other != k ==> lookup(upsert(s, k, v), other) == lookup(s, other),
        forall|other: KV| has_key(upsert(s, k, v), other) <==> (other == k || has_key(s, other)),
{
    let t = upsert(s, k, v);
    if has_key(s, k) {
        let i = index_of(s, k);
        assert(t.len() == s.len());
        assert(forall|j: int| 0 <= j < s.len() ==> t[j].0 == s[j].0);
        assert(distinct_keys(t));
        lemma_index_of(t, k, i);
        assert forall|other: KV| has_key(t, other) <==> (other == k || has_key(s, other)) by {
            if has_key(t, other) {
                let j = index_of(t, other);
                assert(s[j].0 == other);
            }
            if has_key(s, other) {
                let j = index_of(s, other);
                assert(t[j].0 == other);
            }
        }
        assert forall|other: KV| other != k implies lookup(t, other) == lookup(s, other) by {
            if has_key(s, other) {
                let j = index_of(s, other);
                assert(t[j].0 == other);
                lemma_index_of(t, other, j);
            }
        }
    } else {
        let n = s.len() as int;
        assert(t.len() == n + 1);
        assert(forall|j: int| 0 <= j < n ==> t[j] == s[j]);
        assert(t[n] == (k, v));
        assert(distinct_keys(t)) by {
            assert forall|a: int, b: int| 0 <= a < b < t.len() implies t[a].0 != t[b].0 by {
                if b == n {
                    if t[a].0 == k {
                        assert(s[a].0 == k);
                    }
                }
            }
        }
        lemma_index_of(t, k, n);
        assert forall|other: KV| has_key(t, other) <==> (other == k || has_key(s, other)) by {
            if has_key(t, other) {
                let j = index_of(t, other);
                if j < n {
                    assert(s[j].0 == other);
                }
            }
            if has_key(s, other) {
                let j = index_of(s, other);
                assert(t[j].0 == other);
            }
        }
        assert forall|other: KV| other != k implies lookup(t, other) == lookup(s, other) by {
            if has_key(s, other) {
                let j = index_of(s, other);
                assert(t[j].0 == other);
                lemma_index_of(t, other, j);
            }
        }
    }
}

/// Taking a key out keeps the keys distinct, removes that key and leaves the other entries.
pub proof fn lemma_without<KV, V>(s: Seq<(KV, V)>, k: KV)
    requires
        distinct_keys(s),
    ensures
        distinct_keys(without(s, k)),
        !has_key(without(s, k), k),
        forall|other: KV| other != k ==> lookup(without(s, k), other) == lookup(s, other),
        forall|other: KV| other != k ==> has_key(without(s, k), other) == has_key(s, other),
{
    let t = without(s, k);
    if has_key(s, k) {
        let i = index_of(s, k);
        assert(forall|j: int| 0 <= j < i ==> t[j] == s[j]);
        assert(forall|j: int| i <= j < t.len() ==> t[j] == s[j + 1]);
        assert(distinct_keys(t)) by {
            assert forall|a: int, b: int| 0 <= a < b < t.len() implies t[a].0 != t[b].0 by {
                let a2 = if a < i { a } else { a + 1 };
                let b2 = if b < i { b } else { b + 1 };
                assert(t[a] == s[a2] && t[b] == s[b2]);
            }
        }
        if has_key(t, k) {
            let j = index_of(t, k);
            let j2 = if j < i { j } else { j + 1 };
            assert(t[j] == s[j2]);
            lemma_index_of(s, k, j2);
        }
        assert forall|other: KV| other != k implies (has_key(t, other) == has_key(s, other)
            && lookup(t, other) == lookup(s, other)) by {
            if has_key(t, other) {
                let j = index_of(t, other);
                let j2 = if j < i { j } else { j + 1 };
                assert(t[j] == s[j2]);
                lemma_index_of(s, other, j2);
            }
            if has_key(s, other) {
                let j = index_of(s, other);
                let j2 = if j < i { j } else { j - 1 };
                assert(t[j2] == s[j]);
                lemma_index_of(t, other, j2);
            }
        }
    }
}

/// Amounts booked under keys, in the order in which the keys were first booked.
#[derive(Debug)]
pub struct Ledger<K: Key> {
    entries: Vec<(K, Decimal)>,
}

impl<K: Key> View for Ledger<K> {
    type V = Seq<(K::V, Dec)>;

    closed spec fn view(&self) -> Seq<(K::V, Dec)> {
        Seq::new(self.entries@.len(), |i: int| (self.entries@[i].0@, self.entries@[i].1@))
    }
}

impl<K: Key> Ledger<K> {
    #[verifier::type_invariant]
    spec fn inv(&self) -> bool {
        distinct_keys(self@)
    }

    pub fn new() -> (r: Ledger<K>)
        ensures
            r@ == Seq::<(K::V, Dec)>::empty(),
    {
        let r = Ledger { entries: Vec::new() };
        assert(r@ =~= Seq::<(K::V, Dec)>::empty());
        r
    }

    pub fn len(&self) -> (r: usize)
        ensures
            r == self@.len(),
            distinct_keys(self@),
    {
        proof {
            use_type_invariant(self);
        }
        self.entries.len()
    }

    pub fn key_at(&self, i: usize) -> (r: &K)
        requires
            i < self@.len(),
        ensures
            r@ == self@[i as int].0,
    {
        &self.entries[i].0
    }

    pub fn value_at(&self, i: usize) -> (r: Decimal)
        requires
            i < self@.len(),
        ensures
            r@ == self@[i as int].1,
    {
        self.entries[i].1
    }

    /// The index of the entry under `k`.
    pub fn position(&self, k: &K) -> (r: Option<usize>)
        ensures
            distinct_keys(self@),
            r.is_some() == has_key(self@, k@),
            r matches Some(i) ==> i == index_of(self@, k@) && i < self@.len(),
    {
        proof {
            use_type_invariant(self);
        }
        let mut i: usize = 0;
        while i < self.entries.len()
            invariant
                i <= self.entries@.len(),
                self@.len() == self.entries@.len(),
                distinct_keys(self@),
                forall|j: int| 0 <= j < i ==> self@[j].0 != k@,
            decreases self.entries@.len() - i,
        {
            if self.entries[i].0.same(k) {
                proof {
                    lemma_index_of(self@, k@, i as int);
                }
                return Some(i);
            }
            i = i + 1;
        }
        None
    }

    /// The amount booked under `k`, if there is an entry.
    pub fn get(&self, k: &K) -> (r: Option<Decimal>)
        ensures
            Decimal::model(r) == lookup(self@, k@),
    {
        match self.position(k) {
            Some(i) => Some(self.entries[i].1),
            None => None,
        }
    }

    /// The amount booked under `k`, zero where there is no entry.
    pub fn amount(&self, k: &K) -> (r: Decimal)
        ensures
            r@ == amount(self@, k@),
    {
        match self.get(k) {
            Some(v) => v,
            None => Decimal::zero(),
        }
    }

    /// Books `v` under `k`, in place of what was booked there.
    pub fn set(&mut self, k: K, v: Decimal)
        ensures
            final(self)@ == upsert(old(self)@, k@, v@),
    {
        proof {
            use_type_invariant(&*self);
            lemma_upsert(self@, k@, v@);
        }
        let found = self.position(&k);
        let mut entries: Vec<(K, Decimal)> = Vec::new();
        assert(Seq::new(entries@.len(), |i: int| (entries@[i].0@, entries@[i].1@)) =~= Seq::<
            (K::V, Dec),
        >::empty());
        std::mem::swap(&mut self.entries, &mut entries);
        match found {
            Some(i) => {
                entries.set(i, (k, v));
            },
            None => {
                entries.push((k, v));
            },
        }
        assert(Seq::new(entries@.len(), |i: int| (entries@[i].0@, entries@[i].1@)) =~= upsert(
            old(self)@,
            k@,
            v@,
        ));
        std::mem::swap(&mut self.entries, &mut entries);
    }

    /// Replaces the amount of the entry at `i`.
    pub fn set_value_at(&mut self, i: usize, v: Decimal)
        requires
            i < old(self)@.len(),
        ensures
            final(self)@ == old(self)@.update(i as int, (old(self)@[i as int].0, v@)),
    {
        proof {
            use_type_invariant(&*self);
        }
        let k = self.entries[i].0.duplicate();
        let mut entries: Vec<(K, Decimal)> = Vec::new();
        assert(Seq::new(entries@.len(), |i: int| (entries@[i].0@, entries@[i].1@)) =~= Seq::<
            (K::V, Dec),
        >::empty());
        std::mem::swap(&mut self.entries, &mut entries);
        entries.set(i, (k, v));
        let ghost t = Seq::new(entries@.len(), |i: int| (entries@[i].0@, entries@[i].1@));
        assert(t =~= old(self)@.update(i as int, (old(self)@[i as int].0, v@)));
        assert(distinct_keys(t)) by {
            assert(forall|j: int| 0 <= j < t.len() ==> t[j].0 == old(self)@[j].0);
        }
        std::mem::swap(&mut self.entries, &mut entries);
    }

    pub fn duplicate(&self) -> (r: Ledger<K>)
        ensures
            r@ == self@,
    {
        proof {
            use_type_invariant(self);
        }
        let mut entries: Vec<(K, Decimal)> = Vec::new();
        let mut i: usize = 0;
        while i < self.entries.len()
            invariant
                i <= self.entries@.len(),
                entries@.len() == i,
                forall|j: int| 0 <= j < i ==> entries@[j].0@ == self.entries@[j].0@ && entries@[j].1 == self.entries@[j].1,
            decreases self.entries@.len() - i,
        {
            entries.push((self.entries[i].0.duplicate(), self.entries[i].1));
            i = i + 1;
        }
        assert(Seq::new(entries@.len(), |i: int| (entries@[i].0@, entries@[i].1@)) =~= self@);
        Ledger { entries }
    }
}

} // verus!
