//! String-keyed dictionaries kept as association lists.
//!
//! A [`StrDict`] stores its entries in insertion order, which makes every
//! walk over it deterministic, while its contracts speak of the unordered
//! `Map` it denotes.  Keys are unique; inserting an existing key replaces
//! the value in place.

use vstd::prelude::*;

verus! {

/// Keys at distinct positions differ.
pub open spec fn uniq_keys<V>(s: Seq<(Seq<char>, V)>) -> bool {
    forall|i: int, j: int| 0 <= i < j < s.len() ==> (#[trigger] s[i]).0 != (#[trigger] s[j]).0
}

/// Some position carries key `k`.
pub open spec fn has_key<V>(s: Seq<(Seq<char>, V)>, k: Seq<char>) -> bool {
    exists|i: int| 0 <= i < s.len() && (#[trigger] s[i]).0 == k
}

/// The finite map an association list denotes (the first entry of a key
/// wins, which is the only entry once keys are unique).
pub open spec fn map_of<V>(s: Seq<(Seq<char>, V)>) -> Map<Seq<char>, V>
    decreases s.len(),
{
    if s.len() == 0 {
        Map::empty()
    } else {
        map_of(s.drop_first()).insert(s[0].0, s[0].1)
    }
}

/// Replace the value under `k` in place, or append `(k, v)` when `k` is
/// absent.
pub open spec fn upsert<V>(s: Seq<(Seq<char>, V)>, k: Seq<char>, v: V) -> Seq<(Seq<char>, V)>
    decreases s.len(),
{
    if s.len() == 0 {
        seq![(k, v)]
    } else if s[0].0 == k {
        seq![(k, v)] + s.drop_first()
    } else {
        seq![s[0]] + upsert(s.drop_first(), k, v)
    }
}

pub proof fn lemma_map_of_dom<V>(s: Seq<(Seq<char>, V)>)
    ensures
        forall|k: Seq<char>| #[trigger] map_of(s).contains_key(k) <==> has_key(s, k),
    decreases s.len(),
{
    if s.len() > 0 {
        let df = s.drop_first();
        lemma_map_of_dom(df);
        assert(map_of(s) == map_of(df).insert(s[0].0, s[0].1));
        assert forall|k: Seq<char>| #[trigger] map_of(s).contains_key(k) implies has_key(s, k) by {
            if k == s[0].0 {
                assert(s[0].0 == k);
            } else {
                assert(map_of(df).contains_key(k));
                assert(has_key(df, k));
                let i = choose|i: int| 0 <= i < df.len() && (#[trigger] df[i]).0 == k;
                assert(s[i + 1] == df[i]);
                assert(s[i + 1].0 == k);
            }
        }
        assert forall|k: Seq<char>| has_key(s, k) implies #[trigger] map_of(s).contains_key(k) by {
            let i = choose|i: int| 0 <= i < s.len() && (#[trigger] s[i]).0 == k;
            if i > 0 {
                assert(df[i - 1] == s[i]);
                assert(df[i - 1].0 == k);
                assert(has_key(df, k));
                assert(map_of(df).contains_key(k));
            }
        }
    }
}

pub proof fn lemma_map_of_get<V>(s: Seq<(Seq<char>, V)>, i: int)
    requires
        uniq_keys(s),
        0 <= i < s.len(),
    ensures
        map_of(s).contains_key(s[i].0),
        map_of(s)[s[i].0] == s[i].1,
    decreases s.len(),
{
    lemma_map_of_dom(s);
    if i > 0 {
        assert(uniq_keys(s.drop_first())) by {
            assert forall|a: int, b: int|
                0 <= a < b < s.drop_first().len() implies (#[trigger] s.drop_first()[a]).0 != (
            #[trigger] s.drop_first()[b]).0 by {
                assert(s[a + 1].0 != s[b + 1].0);
            }
        }
        lemma_map_of_get(s.drop_first(), i - 1);
        assert(s[0].0 != s[i].0);
    }
}

pub proof fn lemma_uniq_drop_first<V>(s: Seq<(Seq<char>, V)>)
    requires
        uniq_keys(s),
        s.len() > 0,
    ensures
        uniq_keys(s.drop_first()),
{
    assert forall|a: int, b: int|
        0 <= a < b < s.drop_first().len() implies (#[trigger] s.drop_first()[a]).0 != (
    #[trigger] s.drop_first()[b]).0 by {
        assert(s[a + 1].0 != s[b + 1].0);
    }
}

/// When `k` is absent, `upsert` is a plain append.
pub proof fn lemma_upsert_absent<V>(s: Seq<(Seq<char>, V)>, k: Seq<char>, v: V)
    requires
        !has_key(s, k),
    ensures
        upsert(s, k, v) =~= s.push((k, v)),
    decreases s.len(),
{
    if s.len() > 0 {
        assert(s[0].0 != k);
        assert(!has_key(s.drop_first(), k)) by {
            if has_key(s.drop_first(), k) {
                let i = choose|i: int|
                    0 <= i < s.drop_first().len() && (#[trigger] s.drop_first()[i]).0 == k;
                assert(s[i + 1].0 == k);
            }
        }
        lemma_upsert_absent(s.drop_first(), k, v);
    }
}

/// When `k` sits (uniquely) at position `i`, `upsert` is an in-place update.
pub proof fn lemma_upsert_present<V>(s: Seq<(Seq<char>, V)>, k: Seq<char>, v: V, i: int)
    requires
        uniq_keys(s),
        0 <= i < s.len(),
        s[i].0 == k,
    ensures
        upsert(s, k, v) =~= s.update(i, (k, v)),
    decreases s.len(),
{
    if i == 0 {
        assert(upsert(s, k, v) =~= s.update(0, (k, v)));
    } else {
        assert(s[0].0 != k);
        lemma_uniq_drop_first(s);
        assert(s.drop_first()[i - 1].0 == k);
        lemma_upsert_present(s.drop_first(), k, v, i - 1);
        assert(upsert(s, k, v) =~= s.update(i, (k, v)));
    }
}

/// `upsert` denotes `Map::insert` and preserves key uniqueness; keys keep
/// their order, with a missing key appended at the end.
pub proof fn lemma_upsert<V>(s: Seq<(Seq<char>, V)>, k: Seq<char>, v: V)
    requires
        uniq_keys(s),
    ensures
        uniq_keys(upsert(s, k, v)),
        map_of(upsert(s, k, v)) == map_of(s).insert(k, v),
        forall|k2: Seq<char>| #[trigger] has_key(upsert(s, k, v), k2) <==> (has_key(s, k2) || k2 == k),
    decreases s.len(),
{
    lemma_map_of_dom(s);
    lemma_map_of_dom(upsert(s, k, v));
    if !has_key(s, k) {
        lemma_upsert_absent(s, k, v);
        let t = s.push((k, v));
        assert(uniq_keys(t)) by {
            assert forall|a: int, b: int|
                0 <= a < b < t.len() implies (#[trigger] t[a]).0 != (#[trigger] t[b]).0 by {
                if b == t.len() - 1 {
                    assert(s[a].0 != k);
                } else {
                    assert(s[a].0 != s[b].0);
                }
            }
        }
        lemma_map_of_push(s, k, v);
    } else {
        let i = choose|i: int| 0 <= i < s.len() && (#[trigger] s[i]).0 == k;
        lemma_upsert_present(s, k, v, i);
        let t = s.update(i, (k, v));
        assert(uniq_keys(t)) by {
            assert forall|a: int, b: int|
                0 <= a < b < t.len() implies (#[trigger] t[a]).0 != (#[trigger] t[b]).0 by {
                assert(s[a].0 != s[b].0);
                assert(t[a].0 == if a == i { k } else { s[a].0 });
                assert(t[b].0 == if b == i { k } else { s[b].0 });
            }
        }
        lemma_map_of_update(s, i, k, v);
    }
    assert forall|k2: Seq<char>|
        #[trigger] has_key(upsert(s, k, v), k2) <==> (has_key(s, k2) || k2 == k) by {
        lemma_map_of_dom(upsert(s, k, v));
        assert(map_of(upsert(s, k, v)) == map_of(s).insert(k, v));
        assert(map_of(s).insert(k, v).contains_key(k2) <==> (map_of(s).contains_key(k2) || k2
            == k));
    }
}

proof fn lemma_map_of_push<V>(s: Seq<(Seq<char>, V)>, k: Seq<char>, v: V)
    requires
        !has_key(s, k),
    ensures
        map_of(s.push((k, v))) == map_of(s).insert(k, v),
    decreases s.len(),
{
    let t = s.push((k, v));
    if s.len() == 0 {
        assert(t[0] == (k, v));
        assert(t.drop_first() =~= Seq::<(Seq<char>, V)>::empty());
        assert(map_of(t) == map_of(t.drop_first()).insert(k, v));
        assert(map_of(t) =~= map_of(s).insert(k, v));
    } else {
        assert(s[0].0 != k);
        assert(!has_key(s.drop_first(), k)) by {
            if has_key(s.drop_first(), k) {
                let i = choose|i: int|
                    0 <= i < s.drop_first().len() && (#[trigger] s.drop_first()[i]).0 == k;
                assert(s[i + 1].0 == k);
            }
        }
        lemma_map_of_push(s.drop_first(), k, v);
        assert(t.drop_first() =~= s.drop_first().push((k, v)));
        assert(map_of(t) == map_of(s.drop_first()).insert(k, v).insert(s[0].0, s[0].1));
        lemma_map_of_dom(s.drop_first());
        assert(map_of(s.drop_first()).insert(k, v).insert(s[0].0, s[0].1) =~= map_of(
            s.drop_first(),
        ).insert(s[0].0, s[0].1).insert(k, v));
    }
}

proof fn lemma_map_of_update<V>(s: Seq<(Seq<char>, V)>, i: int, k: Seq<char>, v: V)
    requires
        uniq_keys(s),
        0 <= i < s.len(),
        s[i].0 == k,
    ensures
        map_of(s.update(i, (k, v))) == map_of(s).insert(k, v),
    decreases s.len(),
{
    let t = s.update(i, (k, v));
    if i == 0 {
        assert(t.drop_first() =~= s.drop_first());
        assert(map_of(t) == map_of(s.drop_first()).insert(k, v));
        assert(map_of(s).insert(k, v) =~= map_of(s.drop_first()).insert(s[0].0, s[0].1).insert(
            k,
            v,
        ));
        assert(map_of(s.drop_first()).insert(s[0].0, s[0].1).insert(k, v) =~= map_of(
            s.drop_first(),
        ).insert(k, v));
    } else {
        lemma_uniq_drop_first(s);
        assert(s.drop_first()[i - 1].0 == k);
        lemma_map_of_update(s.drop_first(), i - 1, k, v);
        assert(t.drop_first() =~= s.drop_first().update(i - 1, (k, v)));
        assert(map_of(t) == map_of(s.drop_first()).insert(k, v).insert(s[0].0, s[0].1));
        assert(s[0].0 != k);
        assert(map_of(s.drop_first()).insert(k, v).insert(s[0].0, s[0].1) =~= map_of(
            s.drop_first(),
        ).insert(s[0].0, s[0].1).insert(k, v));
    }
}

/// The association list left after upserting a sequence of pairs, in
/// order, into an empty dictionary.
pub open spec fn fold_pairs<V>(ps: Seq<(Seq<char>, V)>) -> Seq<(Seq<char>, V)>
    decreases ps.len(),
{
    if ps.len() == 0 {
        Seq::empty()
    } else {
        upsert(fold_pairs(ps.drop_last()), ps.last().0, ps.last().1)
    }
}

pub proof fn lemma_fold_pairs_push<V>(ps: Seq<(Seq<char>, V)>, p: (Seq<char>, V))
    ensures
        fold_pairs(ps.push(p)) == upsert(fold_pairs(ps), p.0, p.1),
{
    assert(ps.push(p).drop_last() =~= ps);
    assert(ps.push(p).last() == p);
}

/// An insertion-ordered dictionary from strings to strings.
pub struct StrDict {
    pub entries: Vec<(String, String)>,
}

impl StrDict {
    /// Entries in insertion order, as sequences of characters.
    pub open spec fn entries_view(&self) -> Seq<(Seq<char>, Seq<char>)> {
        Seq::new(self.entries@.len(), |i: int| (self.entries@[i].0@, self.entries@[i].1@))
    }

    /// The unordered content.
    pub open spec fn map_view(&self) -> Map<Seq<char>, Seq<char>> {
        map_of(self.entries_view())
    }

    /// Every key occurs once.
    pub open spec fn wf(&self) -> bool {
        uniq_keys(self.entries_view())
    }

    pub fn new() -> (r: StrDict)
        ensures
            r.entries_view() =~= Seq::<(Seq<char>, Seq<char>)>::empty(),
            r.wf(),
    {
        StrDict { entries: Vec::new() }
    }

    pub fn len(&self) -> (r: usize)
        ensures
            r == self.entries_view().len(),
    {
        self.entries.len()
    }

    /// The entry at position `i` in insertion order.
    pub fn entry_at(&self, i: usize) -> (r: (&String, &String))
        requires
            i < self.entries_view().len(),
        ensures
            r.0@ == self.entries_view()[i as int].0,
            r.1@ == self.entries_view()[i as int].1,
    {
        let p = &self.entries[i];
        (&p.0, &p.1)
    }

    /// Look the key up; `Some` exactly when the key is present, carrying
    /// the value the dictionary maps it to.
    pub fn get(&self, k: &String) -> (r: Option<&String>)
        requires
            self.wf(),
        ensures
            match r {
                Some(v) => self.map_view().contains_key(k@) && v@ == self.map_view()[k@],
                None => !self.map_view().contains_key(k@),
            },
    {
        proof {
            lemma_map_of_dom(self.entries_view());
        }
        let n = self.entries.len();
        let mut i: usize = 0;
        while i < n
            invariant
                self.wf(),
                n == self.entries_view().len(),
                i <= n,
                forall|j: int| 0 <= j < i ==> (#[trigger] self.entries_view()[j]).0 != k@,
            decreases n - i,
        {
            if self.entries[i].0 == *k {
                proof {
                    lemma_map_of_get(self.entries_view(), i as int);
                }
                return Some(&self.entries[i].1);
            }
            i = i + 1;
        }
        proof {
            assert(!has_key(self.entries_view(), k@));
        }
        None
    }

    /// True exactly when the key is present.
    pub fn contains_key(&self, k: &String) -> (r: bool)
        requires
            self.wf(),
        ensures
            r == self.map_view().contains_key(k@),
    {
        match self.get(k) {
            Some(_) => true,
            None => false,
        }
    }

    /// Bind `k` to `v`: replace in place when present, append when absent.
    pub fn insert(&mut self, k: String, v: String)
        requires
            old(self).wf(),
        ensures
            final(self).wf(),
            final(self).entries_view() == upsert(old(self).entries_view(), k@, v@),
            final(self).map_view() == old(self).map_view().insert(k@, v@),
    {
        let ghost s0 = self.entries_view();
        let ghost kv = k@;
        let ghost vv = v@;
        let n = self.entries.len();
        let mut i: usize = 0;
        while i < n
            invariant
                self.entries_view() == s0,
                s0 == old(self).entries_view(),
                kv == k@,
                vv == v@,
                uniq_keys(s0),
                n == s0.len(),
                i <= n,
                forall|j: int| 0 <= j < i ==> (#[trigger] s0[j]).0 != kv,
            decreases n - i,
        {
            if self.entries[i].0 == k {
                let ghost ii = i as int;
                let _ = self.entries.remove(i);
                self.entries.insert(i, (k, v));
                proof {
                    assert(self.entries_view() =~= s0.update(ii, (kv, vv)));
                    lemma_upsert_present(s0, kv, vv, ii);
                    lemma_upsert(s0, kv, vv);
                    assert(self.entries_view() == upsert(s0, kv, vv));
                }
                return ;
            }
            i = i + 1;
        }
        self.entries.push((k, v));
        proof {
            assert(!has_key(s0, kv));
            lemma_upsert_absent(s0, kv, vv);
            lemma_upsert(s0, kv, vv);
            assert(self.entries_view() =~= s0.push((kv, vv)));
            assert(self.entries_view() == upsert(s0, kv, vv));
        }
    }

    /// One-directional containment: every entry of `self` appears in
    /// `other` with the same value.
    pub fn submap_check(&self, other: &StrDict) -> (r: bool)
        requires
            self.wf(),
            other.wf(),
        ensures
            r == self.map_view().submap_of(other.map_view()),
    {
        proof {
            lemma_map_of_dom(self.entries_view());
            lemma_map_of_dom(other.entries_view());
        }
        let n = self.entries.len();
        let mut i: usize = 0;
        while i < n
            invariant
                self.wf(),
                other.wf(),
                n == self.entries_view().len(),
                i <= n,
                forall|j: int|
                    0 <= j < i ==> other.map_view().contains_key(
                        (#[trigger] self.entries_view()[j]).0,
                    ) && other.map_view()[self.entries_view()[j].0] == self.entries_view()[j].1,
            decreases n - i,
        {
            proof {
                lemma_map_of_get(self.entries_view(), i as int);
            }
            let (key, val) = self.entry_at(i);
            match other.get(key) {
                Some(ov) => {
                    if !(*ov == *val) {
                        assert(self.map_view()[key@] != other.map_view()[key@]);
                        return false;
                    }
                },
                None => {
                    return false;
                },
            }
            i = i + 1;
        }
        proof {
            assert forall|k: Seq<char>| #[trigger] self.map_view().contains_key(k) implies other
                .map_view().contains_key(k) && other.map_view()[k] == self.map_view()[k] by {
                let j = choose|j: int|
                    0 <= j < self.entries_view().len() && (#[trigger] self.entries_view()[j]).0
                        == k;
                lemma_map_of_get(self.entries_view(), j);
            }
        }
        true
    }

    /// Content equality: both dictionaries denote the same map, whatever
    /// their insertion orders.
    pub fn map_eq(&self, other: &StrDict) -> (r: bool)
        requires
            self.wf(),
            other.wf(),
        ensures
            r == (self.map_view() == other.map_view()),
    {
        let a = self.submap_check(other);
        let b = other.submap_check(self);
        proof {
            if a && b {
                assert(self.map_view().dom() =~= other.map_view().dom());
                assert(self.map_view() =~= other.map_view());
            }
        }
        a && b
    }
}

impl Clone for StrDict {
    fn clone(&self) -> (r: Self)
        ensures
            r.entries_view() == self.entries_view(),
    {
        let n = self.entries.len();
        let mut entries: Vec<(String, String)> = Vec::new();
        let mut i: usize = 0;
        while i < n
            invariant
                n == self.entries_view().len(),
                i <= n,
                entries@.len() == i,
                forall|j: int|
                    0 <= j < i ==> ((#[trigger] entries@[j]).0@, entries@[j].1@)
                        == self.entries_view()[j],
            decreases n - i,
        {
            let p = &self.entries[i];
            entries.push((p.0.clone(), p.1.clone()));
            i = i + 1;
        }
        let r = StrDict { entries };
        proof {
            assert(r.entries_view() =~= self.entries_view());
        }
        r
    }
}

} // verus!
