//! An insertion-ordered mapping from byte-string keys to byte-string values.
//! Keys are unique; inserting a key that is already present replaces its
//! value in place, so the last insertion wins and iteration order is stable.

use vstd::prelude::*;
use vstd::pervasive::VecAdditionalExecFns;

verus! {

/// The entries as a sequence of (key, value) pairs, in iteration order.
pub type Entries = Seq<(Seq<u8>, Seq<u8>)>;

/// Keys are pairwise distinct.
pub open spec fn entries_wf(s: Entries) -> bool {
    forall|i: int, j: int| 0 <= i < j < s.len() ==> s[i].0 != s[j].0
}

/// Whether some entry carries the key `k`.
pub open spec fn has_key(s: Entries, k: Seq<u8>) -> bool {
    exists|i: int| 0 <= i < s.len() && s[i].0 == k
}

/// The value of the last entry carrying `k`, or `None`.
pub open spec fn entries_get(s: Entries, k: Seq<u8>) -> Option<Seq<u8>>
    decreases s.len(),
{
    if s.len() == 0 {
        None
    } else if s.last().0 == k {
        Some(s.last().1)
    } else {
        entries_get(s.drop_last(), k)
    }
}

/// The position of the entry carrying `k` (unique when `entries_wf` holds).
pub open spec fn key_index(s: Entries, k: Seq<u8>) -> int {
    choose|i: int| 0 <= i < s.len() && s[i].0 == k
}

/// `s` after binding `k` to `v`: the existing entry for `k` is replaced in
/// place; a new key goes to the end.
pub open spec fn entries_insert(s: Entries, k: Seq<u8>, v: Seq<u8>) -> Entries {
    if has_key(s, k) {
        s.update(key_index(s, k), (k, v))
    } else {
        s.push((k, v))
    }
}

/// `entries_get` finds no value exactly when no entry carries the key.
pub proof fn lemma_get_none(s: Entries, k: Seq<u8>)
    ensures
        entries_get(s, k) is None <==> !has_key(s, k),
    decreases s.len(),
{
    if s.len() > 0 {
        lemma_get_none(s.drop_last(), k);
        if s.last().0 != k {
            assert(has_key(s, k) ==> has_key(s.drop_last(), k)) by {
                if has_key(s, k) {
                    let i = choose|i: int| 0 <= i < s.len() && s[i].0 == k;
                    assert(i < s.len() - 1);
                    assert(s.drop_last()[i].0 == k);
                }
            }
        }
    }
}

/// Under unique keys, the entry at any position carrying `k` is what
/// `entries_get` returns.
pub proof fn lemma_get_at(s: Entries, k: Seq<u8>, i: int)
    requires
        entries_wf(s),
        0 <= i < s.len(),
        s[i].0 == k,
    ensures
        entries_get(s, k) == Some(s[i].1),
    decreases s.len(),
{
    if i == s.len() - 1 {
    } else {
        assert(s.last().0 != k);
        assert(s.drop_last()[i].0 == k);
        lemma_get_at(s.drop_last(), k, i);
    }
}

/// Inserting preserves key uniqueness.
pub proof fn lemma_insert_wf(s: Entries, k: Seq<u8>, v: Seq<u8>)
    requires
        entries_wf(s),
    ensures
        entries_wf(entries_insert(s, k, v)),
{
    if has_key(s, k) {
        let i = key_index(s, k);
        assert(0 <= i < s.len() && s[i].0 == k);
    } else {
        assert forall|i: int, j: int|
            0 <= i < j < s.push((k, v)).len() implies s.push((k, v))[i].0 != s.push((k, v))[j].0 by {
            if j < s.len() {
            } else {
                assert(s.push((k, v))[j].0 == k);
                assert(!has_key(s, k));
                assert(s.push((k, v))[i].0 == s[i].0);
            }
        }
    }
}

/// After an insert, the inserted key maps to the inserted value.
pub proof fn lemma_get_insert_same(s: Entries, k: Seq<u8>, v: Seq<u8>)
    requires
        entries_wf(s),
    ensures
        entries_get(entries_insert(s, k, v), k) == Some(v),
{
    lemma_insert_wf(s, k, v);
    let t = entries_insert(s, k, v);
    if has_key(s, k) {
        let i = key_index(s, k);
        assert(0 <= i < s.len() && s[i].0 == k);
        assert(t[i] == (k, v));
        lemma_get_at(t, k, i);
    } else {
        assert(t[s.len() as int] == (k, v));
        lemma_get_at(t, k, s.len() as int);
    }
}

/// After an insert, every other key maps to what it mapped to before.
pub proof fn lemma_get_insert_other(s: Entries, k: Seq<u8>, v: Seq<u8>, k2: Seq<u8>)
    requires
        entries_wf(s),
        k2 != k,
    ensures
        entries_get(entries_insert(s, k, v), k2) == entries_get(s, k2),
{
    lemma_insert_wf(s, k, v);
    let t = entries_insert(s, k, v);
    lemma_get_none(s, k2);
    lemma_get_none(t, k2);
    if has_key(s, k2) {
        let i = choose|i: int| 0 <= i < s.len() && s[i].0 == k2;
        assert(t[i].0 == k2 && t[i].1 == s[i].1) by {
            if has_key(s, k) {
                assert(s[key_index(s, k)].0 == k);
            }
        }
        lemma_get_at(s, k2, i);
        lemma_get_at(t, k2, i);
    } else {
        assert(!has_key(t, k2)) by {
            if has_key(t, k2) {
                let i = choose|i: int| 0 <= i < t.len() && t[i].0 == k2;
                if has_key(s, k) {
                    assert(0 <= key_index(s, k) < s.len());
                    assert(s[i].0 == k2);
                } else {
                    assert(i < s.len());
                }
            }
        }
    }
}

/// The entries that a vector of (key, value) byte vectors stands for, in
/// the vector's order and before any duplicate key is resolved.
pub open spec fn raw_view(items: Seq<(Vec<u8>, Vec<u8>)>) -> Entries {
    Seq::new(items.len(), |i: int| (items[i].0@, items[i].1@))
}

/// `s` after binding every pair of `ps` in order, so that on a repeated key
/// the later pair wins.
pub open spec fn entries_insert_all(s: Entries, ps: Entries) -> Entries
    decreases ps.len(),
{
    if ps.len() == 0 {
        s
    } else {
        entries_insert_all(entries_insert(s, ps[0].0, ps[0].1), ps.drop_first())
    }
}

/// An insertion-ordered byte-string map with unique keys; the last insertion
/// for a key wins.
pub struct Pairs {
    items: Vec<(Vec<u8>, Vec<u8>)>,
}

impl View for Pairs {
    type V = Entries;

    closed spec fn view(&self) -> Entries {
        raw_view(self.items@)
    }
}

/// Whether two byte vectors hold the same bytes.
pub fn bytes_eq(a: &Vec<u8>, b: &Vec<u8>) -> (r: bool)
    ensures
        r == (a@ == b@),
{
    let r = a == b;
    proof {
        if r {
            assert(a@ =~= b@);
        }
    }
    r
}

impl Pairs {
    /// Keys are pairwise distinct.
    pub open spec fn wf(&self) -> bool {
        entries_wf(self@)
    }

    /// The empty map.
    pub fn new() -> (r: Pairs)
        ensures
            r@ =~= Seq::<(Seq<u8>, Seq<u8>)>::empty(),
            r.wf(),
    {
        Pairs { items: Vec::new() }
    }

    /// How many entries the map holds.
    pub fn len(&self) -> (r: usize)
        ensures
            r == self@.len(),
    {
        self.items.len()
    }

    /// The key of the entry at position `i`.
    pub fn key_at(&self, i: usize) -> (r: &Vec<u8>)
        requires
            i < self@.len(),
        ensures
            r@ == self@[i as int].0,
    {
        &self.items[i].0
    }

    /// The value of the entry at position `i`.
    pub fn value_at(&self, i: usize) -> (r: &Vec<u8>)
        requires
            i < self@.len(),
        ensures
            r@ == self@[i as int].1,
    {
        &self.items[i].1
    }

    /// The value bound to `k`, or `None` when `k` is absent.
    pub fn get(&self, k: &Vec<u8>) -> (r: Option<&Vec<u8>>)
        requires
            self.wf(),
        ensures
            match r {
                Some(v) => entries_get(self@, k@) == Some(v@),
                None => entries_get(self@, k@) is None,
            },
    {
        let mut i: usize = 0;
        while i < self.items.len()
            invariant
                self.wf(),
                0 <= i <= self@.len(),
                self@.len() == self.items@.len(),
                forall|j: int| 0 <= j < i ==> self@[j].0 != k@,
            decreases self@.len() - i,
        {
            if bytes_eq(&self.items[i].0, k) {
                proof {
                    lemma_get_at(self@, k@, i as int);
                }
                return Some(&self.items[i].1);
            }
            assert(self@[i as int].0 == self.items@[i as int].0@);
            i = i + 1;
        }
        proof {
            lemma_get_none(self@, k@);
        }
        None
    }


    /// The map that binding every pair of `ps` in order produces: on a
    /// repeated key, the later pair wins.
    pub fn from_raw(ps: Vec<(Vec<u8>, Vec<u8>)>) -> (r: Pairs)
        ensures
            r.wf(),
            r@ == entries_insert_all(Seq::<(Seq<u8>, Seq<u8>)>::empty(), raw_view(ps@)),
    {
        let mut m = Pairs::new();
        let mut rest = ps;
        proof {
            assert(entries_insert_all(m@, raw_view(rest@)) == entries_insert_all(
                Seq::<(Seq<u8>, Seq<u8>)>::empty(),
                raw_view(ps@),
            ));
        }
        let ghost target = entries_insert_all(m@, raw_view(rest@));
        while rest.len() > 0
            invariant
                m.wf(),
                entries_insert_all(m@, raw_view(rest@)) == target,
            decreases rest@.len(),
        {
            let ghost m0 = m@;
            let ghost rest0 = raw_view(rest@);
            let (k, v) = rest.remove(0);
            proof {
                assert(raw_view(rest@) =~= rest0.drop_first());
                assert(rest0[0] == (k@, v@));
                lemma_insert_wf(m0, k@, v@);
            }
            m.insert(k, v);
            proof {
                assert(entries_insert_all(m@, raw_view(rest@)) == target);
            }
        }
        proof {
            assert(raw_view(rest@) =~= Seq::<(Seq<u8>, Seq<u8>)>::empty());
            assert(entries_insert_all(m@, raw_view(rest@)) == m@);
        }
        m
    }

    /// Bind `k` to `v`, replacing in place any entry `k` already has.
    pub fn insert(&mut self, k: Vec<u8>, v: Vec<u8>)
        requires
            old(self).wf(),
        ensures
            final(self).wf(),
            final(self)@ == entries_insert(old(self)@, k@, v@),
    {
        proof {
            lemma_insert_wf(old(self)@, k@, v@);
        }
        let ghost s0 = self@;
        let ghost gk = k@;
        let ghost gv = v@;
        let mut i: usize = 0;
        while i < self.items.len()
            invariant
                self@ == s0,
                s0 == old(self)@,
                gk == k@,
                gv == v@,
                entries_wf(s0),
                0 <= i <= self@.len(),
                self@.len() == self.items@.len(),
                forall|j: int| 0 <= j < i ==> self@[j].0 != k@,
            decreases self@.len() - i,
        {
            if bytes_eq(&self.items[i].0, &k) {
                proof {
                    assert(s0[i as int].0 == self.items@[i as int].0@);
                    assert(has_key(s0, k@)) by {
                        assert(0 <= (i as int) && (i as int) < s0.len() && s0[i as int].0 == k@);
                    }
                    assert(key_index(s0, k@) == i as int) by {
                        let ki = key_index(s0, k@);
                        assert(0 <= ki < s0.len() && s0[ki].0 == k@);
                        if ki != i as int {
                            assert(s0[i as int].0 == s0[ki].0);
                        }
                    }
                }
                self.items.set(i, (k, v));
                proof {
                    assert(self@ =~= entries_insert(s0, gk, gv));
                }
                return;
            }
            assert(self@[i as int].0 == self.items@[i as int].0@);
            i = i + 1;
        }
        proof {
            assert(!has_key(s0, k@));
        }
        self.items.push((k, v));
        proof {
            assert(self@ =~= entries_insert(s0, k@, v@));
        }
    }
}

} // verus!
