//! Ordered attribute maps: the `name -> value` descriptions carried by
//! connector instances and stored on components.
//!
//! A map is a sequence of key/value pairs with pairwise-distinct keys, kept in
//! insertion order.  An entry whose value is the empty string carries no
//! matching weight: the partial-match test below only constrains the keys of
//! the candidate whose values are non-empty.

use vstd::prelude::*;

verus! {

/// The mathematical form of an attribute map: key/value pairs in order.
pub type AttrsView = Seq<(Seq<char>, Seq<char>)>;

/// Index of the first pair whose key is `k`, or -1 if no pair has that key.
pub open spec fn key_index(m: AttrsView, k: Seq<char>) -> int
    decreases m.len(),
{
    if m.len() == 0 {
        -1
    } else if m[0].0 == k {
        0
    } else {
        let r = key_index(m.drop_first(), k);
        if r < 0 {
            -1
        } else {
            r + 1
        }
    }
}

/// The value stored under `k`, if any.
pub open spec fn attrs_lookup(m: AttrsView, k: Seq<char>) -> Option<Seq<char>> {
    let i = key_index(m, k);
    if i < 0 {
        None
    } else {
        Some(m[i].1)
    }
}

/// Keys are pairwise distinct.
pub open spec fn attrs_wf(m: AttrsView) -> bool {
    forall|i: int, j: int| 0 <= i < j < m.len() ==> m[i].0 != m[j].0
}

/// `key_index` is in range, hits `k`, and is the first such index.
pub proof fn lemma_key_index(m: AttrsView, k: Seq<char>)
    ensures
        -1 <= key_index(m, k) < m.len(),
        key_index(m, k) >= 0 ==> m[key_index(m, k)].0 == k,
        key_index(m, k) < 0 ==> forall|j: int| 0 <= j < m.len() ==> m[j].0 != k,
        forall|j: int| 0 <= j < key_index(m, k) ==> m[j].0 != k,
    decreases m.len(),
{
    if m.len() > 0 && m[0].0 != k {
        lemma_key_index(m.drop_first(), k);
        assert forall|j: int| 0 <= j < m.len() && m[j].0 == k implies key_index(m, k) >= 0 by {
            if j > 0 {
                assert(m.drop_first()[j - 1].0 == k);
            }
        }
        assert forall|j: int| 0 <= j < key_index(m, k) implies m[j].0 != k by {
            if j > 0 {
                assert(m.drop_first()[j - 1] == m[j]);
            }
        }
    }
}

/// If `i` is an index with key `k` and no earlier pair has key `k`, then
/// `key_index` is exactly `i`.
pub proof fn lemma_key_index_first(m: AttrsView, k: Seq<char>, i: int)
    requires
        0 <= i < m.len(),
        m[i].0 == k,
        forall|j: int| 0 <= j < i ==> m[j].0 != k,
    ensures
        key_index(m, k) == i,
    decreases m.len(),
{
    if m[0].0 != k {
        assert forall|j: int| 0 <= j < i - 1 implies m.drop_first()[j].0 != k by {
            assert(m.drop_first()[j] == m[j + 1]);
        }
        assert(m.drop_first()[i - 1] == m[i]);
        lemma_key_index_first(m.drop_first(), k, i - 1);
    }
}

/// `m` with the value under `k` replaced by `v`, or with `(k, v)` appended if
/// `k` is absent.
pub open spec fn attrs_upsert(m: AttrsView, k: Seq<char>, v: Seq<char>) -> AttrsView {
    let i = key_index(m, k);
    if i < 0 {
        m.push((k, v))
    } else {
        m.update(i, (k, v))
    }
}

/// Merge of `extra` into `base`, pair by pair in order; on a key collision the
/// entry from `extra` wins, keeping the key's original position.
pub open spec fn attrs_merge(base: AttrsView, extra: AttrsView) -> AttrsView
    decreases extra.len(),
{
    if extra.len() == 0 {
        base
    } else {
        attrs_merge(attrs_upsert(base, extra[0].0, extra[0].1), extra.drop_first())
    }
}

/// The partial-match test: every candidate entry with a non-empty value must
/// be present in `comp` with the same value.  Candidate keys that are absent
/// or carry an empty value impose no constraint.  The test is asymmetric.
pub open spec fn attrs_match(cand: AttrsView, comp: AttrsView) -> bool {
    forall|i: int|
        0 <= i < cand.len() && #[trigger] cand[i].1.len() > 0 ==> attrs_lookup(comp, cand[i].0)
            == Some(cand[i].1)
}

pub proof fn lemma_upsert_wf(m: AttrsView, k: Seq<char>, v: Seq<char>)
    requires
        attrs_wf(m),
    ensures
        attrs_wf(attrs_upsert(m, k, v)),
{
    lemma_key_index(m, k);
}

pub proof fn lemma_merge_wf(base: AttrsView, extra: AttrsView)
    requires
        attrs_wf(base),
    ensures
        attrs_wf(attrs_merge(base, extra)),
    decreases extra.len(),
{
    if extra.len() > 0 {
        lemma_upsert_wf(base, extra[0].0, extra[0].1);
        lemma_merge_wf(attrs_upsert(base, extra[0].0, extra[0].1), extra.drop_first());
    }
}

/// An ordered attribute map with pairwise-distinct keys.
pub struct AttrMap {
    pairs: Vec<(String, String)>,
}

pub open spec fn pairs_view(pairs: Seq<(String, String)>) -> AttrsView {
    pairs.map_values(|p: (String, String)| (p.0@, p.1@))
}

impl View for AttrMap {
    type V = AttrsView;

    closed spec fn view(&self) -> AttrsView {
        pairs_view(self.pairs@)
    }
}

impl AttrMap {
    /// Distinct keys; established by the constructors and kept by every method.
    pub open spec fn wf(&self) -> bool {
        attrs_wf(self@)
    }

    pub fn new() -> (r: AttrMap)
        ensures
            r@ == Seq::<(Seq<char>, Seq<char>)>::empty(),
            r.wf(),
    {
        let r = AttrMap { pairs: Vec::new() };
        proof {
            assert(r@ =~= Seq::<(Seq<char>, Seq<char>)>::empty());
        }
        r
    }

    pub fn len(&self) -> (n: usize)
        ensures
            n == self@.len(),
    {
        self.pairs.len()
    }

    pub fn key_at(&self, i: usize) -> (k: &String)
        requires
            i < self@.len(),
        ensures
            k@ == self@[i as int].0,
    {
        &self.pairs[i].0
    }

    pub fn value_at(&self, i: usize) -> (v: &String)
        requires
            i < self@.len(),
        ensures
            v@ == self@[i as int].1,
    {
        &self.pairs[i].1
    }

    /// Index of the first pair whose key equals `k`, if any.
    fn find_key(&self, k: &str) -> (r: Option<usize>)
        ensures
            match r {
                Some(i) => i == key_index(self@, k@),
                None => key_index(self@, k@) < 0,
            },
    {
        let n = self.pairs.len();
        let mut i: usize = 0;
        while i < n
            invariant
                i <= n,
                n == self@.len(),
                forall|j: int| 0 <= j < i ==> self@[j].0 != k@,
            decreases n - i,
        {
            if crate::strings::str_eq(self.pairs[i].0.as_str(), k) {
                proof {
                    lemma_key_index_first(self@, k@, i as int);
                }
                return Some(i);
            }
            i = i + 1;
        }
        proof {
            lemma_key_index(self@, k@);
        }
        None
    }

    /// The value stored under `k`, if any.
    pub fn get(&self, k: &str) -> (r: Option<String>)
        ensures
            match r {
                Some(v) => attrs_lookup(self@, k@) == Some(v@),
                None => attrs_lookup(self@, k@) is None,
            },
    {
        proof {
            lemma_key_index(self@, k@);
        }
        match self.find_key(k) {
            Some(i) => Some(self.pairs[i].1.clone()),
            None => None,
        }
    }

    /// Stores `v` under `k`: replaces the value of an existing entry in place,
    /// or appends a new entry.
    pub fn set(&mut self, k: String, v: String)
        ensures
            final(self)@ == attrs_upsert(old(self)@, k@, v@),
            old(self).wf() ==> final(self).wf(),
    {
        proof {
            lemma_key_index(self@, k@);
            if old(self).wf() {
                lemma_upsert_wf(old(self)@, k@, v@);
            }
        }
        match self.find_key(k.as_str()) {
            Some(i) => {
                self.pairs.set(i, (k, v));
                proof {
                    assert(self@ =~= attrs_upsert(old(self)@, k@, v@));
                }
            },
            None => {
                self.pairs.push((k, v));
                proof {
                    assert(self@ =~= attrs_upsert(old(self)@, k@, v@));
                }
            },
        }
    }

    /// Merges every entry of `extra` into `self`, in order; entries of `extra`
    /// win on key collisions.
    pub fn merge_from(&mut self, extra: &AttrMap)
        ensures
            final(self)@ == attrs_merge(old(self)@, extra@),
            old(self).wf() ==> final(self).wf(),
    {
        let ghost orig: AttrsView = self@;
        let ghost wf_orig: bool = self.wf();
        proof {
            assert(extra@.skip(0) =~= extra@);
        }
        let n = extra.pairs.len();
        let mut i: usize = 0;
        while i < n
            invariant
                i <= n,
                n == extra@.len(),
                attrs_merge(self@, extra@.skip(i as int)) == attrs_merge(orig, extra@),
                wf_orig ==> self.wf(),
            decreases n - i,
        {
            let ghost pre = self@;
            let k = extra.pairs[i].0.clone();
            let v = extra.pairs[i].1.clone();
            proof {
                assert(extra@[i as int] == (extra.pairs@[i as int].0@, extra.pairs@[i as int].1@));
                assert(extra@.skip(i as int)[0] == extra@[i as int]);
                assert(extra@.skip(i as int).drop_first() =~= extra@.skip(i as int + 1));
            }
            self.set(k, v);
            proof {
                assert(attrs_merge(pre, extra@.skip(i as int)) == attrs_merge(
                    attrs_upsert(pre, extra@[i as int].0, extra@[i as int].1),
                    extra@.skip(i as int + 1),
                ));
            }
            i = i + 1;
        }
        proof {
            assert(extra@.skip(n as int) =~= Seq::<(Seq<char>, Seq<char>)>::empty());
            if wf_orig {
                lemma_merge_wf(orig, extra@);
            }
        }
    }

    /// Decides the partial-match test of `attrs_match` with `self` as the
    /// candidate and `comp` as the stored component map.
    pub fn matches(&self, comp: &AttrMap) -> (r: bool)
        ensures
            r == attrs_match(self@, comp@),
    {
        let n = self.pairs.len();
        let mut i: usize = 0;
        while i < n
            invariant
                i <= n,
                n == self@.len(),
                forall|j: int|
                    0 <= j < i && #[trigger] self@[j].1.len() > 0 ==> attrs_lookup(comp@, self@[j].0)
                        == Some(self@[j].1),
            decreases n - i,
        {
            proof {
                assert(self@[i as int] == (self.pairs@[i as int].0@, self.pairs@[i as int].1@));
            }
            if !self.pairs[i].1.as_str().is_empty() {
                proof {
                    assert(self@[i as int].1.len() > 0);
                }
                match comp.get(self.pairs[i].0.as_str()) {
                    Some(v) => {
                        if !(v == self.pairs[i].1) {
                            proof {
                                assert(attrs_lookup(comp@, self@[i as int].0) == Some(v@));
                                assert(!attrs_match(self@, comp@));
                            }
                            return false;
                        }
                    },
                    None => {
                        proof {
                            assert(attrs_lookup(comp@, self@[i as int].0) is None);
                            assert(!attrs_match(self@, comp@));
                        }
                        return false;
                    },
                }
            }
            i = i + 1;
        }
        true
    }

    pub fn clone_map(&self) -> (r: AttrMap)
        ensures
            r@ == self@,
    {
        let mut pairs: Vec<(String, String)> = Vec::new();
        let n = self.pairs.len();
        let mut i: usize = 0;
        while i < n
            invariant
                i <= n,
                n == self@.len(),
                pairs@.len() == i,
                pairs_view(pairs@) =~= self@.take(i as int),
            decreases n - i,
        {
            let ghost pre: Seq<(String, String)> = pairs@;
            let k0 = self.pairs[i].0.clone();
            let v0 = self.pairs[i].1.clone();
            pairs.push((k0, v0));
            proof {
                assert(self@[i as int] == (self.pairs@[i as int].0@, self.pairs@[i as int].1@));
                assert forall|j: int| 0 <= j < pairs@.len() implies #[trigger] pairs_view(pairs@)[j]
                    == self@.take(i as int + 1)[j] by {
                    assert(pairs_view(pairs@)[j] == (pairs@[j].0@, pairs@[j].1@));
                    if j < i {
                        assert(pairs@[j] == pre[j]);
                        assert(pairs_view(pre)[j] == (pre[j].0@, pre[j].1@));
                    } else {
                        assert(pairs@[j].0 == k0);
                        assert(pairs@[j].1 == v0);
                    }
                }
                assert(pairs_view(pairs@) =~= self@.take(i as int + 1));
            }
            i = i + 1;
        }
        let r = AttrMap { pairs };
        proof {
            assert(r@ =~= self@);
        }
        r
    }
}

} // verus!
