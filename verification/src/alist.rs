//! Association lists keyed by strings.
//!
//! Every mapping in this crate (volume caches, the system cache, the token
//! index) is an insertion-ordered list of key/value pairs whose keys are kept
//! unique by its users.  The view of a list is the sequence of pairs of views,
//! and the spec functions below give the usual map vocabulary over it.

use vstd::prelude::*;

verus! {

/// First index whose key equals `k`, or `-1` when no entry has that key.
pub open spec fn al_key_idx<T>(s: Seq<(Seq<char>, T)>, k: Seq<char>) -> int
    decreases s.len(),
{
    if s.len() == 0 {
        -1
    } else if s[0].0 == k {
        0
    } else if al_key_idx(s.drop_first(), k) < 0 {
        -1
    } else {
        al_key_idx(s.drop_first(), k) + 1
    }
}

pub open spec fn al_contains<T>(s: Seq<(Seq<char>, T)>, k: Seq<char>) -> bool {
    al_key_idx(s, k) >= 0
}

pub open spec fn al_lookup<T>(s: Seq<(Seq<char>, T)>, k: Seq<char>) -> T
    recommends
        al_contains(s, k),
{
    s[al_key_idx(s, k)].1
}

pub open spec fn al_keys_unique<T>(s: Seq<(Seq<char>, T)>) -> bool {
    forall|i: int, j: int| 0 <= i < j < s.len() ==> s[i].0 != s[j].0
}

/// `al_key_idx` finds exactly the first index bearing the key.
pub proof fn lemma_key_idx_first<T>(s: Seq<(Seq<char>, T)>, k: Seq<char>, i: int)
    requires
        0 <= i < s.len(),
        s[i].0 == k,
        forall|j: int| 0 <= j < i ==> s[j].0 != k,
    ensures
        al_key_idx(s, k) == i,
    decreases s.len(),
{
    if i > 0 {
        assert(forall|j: int| 0 <= j < i - 1 ==> s.drop_first()[j].0 != k);
        lemma_key_idx_first(s.drop_first(), k, i - 1);
    }
}

/// When no index bears the key, `al_key_idx` is `-1`.
pub proof fn lemma_key_idx_absent<T>(s: Seq<(Seq<char>, T)>, k: Seq<char>)
    requires
        forall|j: int| 0 <= j < s.len() ==> s[j].0 != k,
    ensures
        al_key_idx(s, k) == -1,
    decreases s.len(),
{
    if s.len() > 0 {
        lemma_key_idx_absent(s.drop_first(), k);
    }
}

/// A non-negative `al_key_idx` points at an entry bearing the key, and no
/// earlier entry bears it.
pub proof fn lemma_key_idx_bounds<T>(s: Seq<(Seq<char>, T)>, k: Seq<char>)
    ensures
        al_contains(s, k) ==> {
            &&& 0 <= al_key_idx(s, k) < s.len()
            &&& s[al_key_idx(s, k)].0 == k
            &&& forall|j: int| 0 <= j < al_key_idx(s, k) ==> s[j].0 != k
        },
        !al_contains(s, k) ==> forall|j: int| 0 <= j < s.len() ==> s[j].0 != k,
    decreases s.len(),
{
    if s.len() > 0 && s[0].0 != k {
        lemma_key_idx_bounds(s.drop_first(), k);
        assert(forall|j: int| 1 <= j < s.len() ==> s[j] == s.drop_first()[j - 1]);
    }
}

/// Two lists of equal length with pointwise equal keys agree on `al_key_idx`.
pub proof fn lemma_key_idx_same_keys<T, U>(
    s: Seq<(Seq<char>, T)>,
    t: Seq<(Seq<char>, U)>,
    k: Seq<char>,
)
    requires
        s.len() == t.len(),
        forall|j: int| 0 <= j < s.len() ==> s[j].0 == t[j].0,
    ensures
        al_key_idx(s, k) == al_key_idx(t, k),
{
    lemma_key_idx_bounds(s, k);
    lemma_key_idx_bounds(t, k);
    if al_contains(s, k) {
        lemma_key_idx_first(t, k, al_key_idx(s, k));
    } else {
        lemma_key_idx_absent(t, k);
    }
}

/// Replacing the value at one index moves no key, so `al_key_idx` is
/// untouched for every key.
pub proof fn lemma_key_idx_update<T>(s: Seq<(Seq<char>, T)>, i: int, v: T, k: Seq<char>)
    requires
        0 <= i < s.len(),
    ensures
        al_key_idx(s.update(i, (s[i].0, v)), k) == al_key_idx(s, k),
{
    lemma_key_idx_same_keys(s, s.update(i, (s[i].0, v)), k);
}

/// Effect of removing the entry at index `i` on lookups, when keys are
/// unique: the removed key is gone, every other key keeps its value.
pub proof fn lemma_key_idx_remove<T>(s: Seq<(Seq<char>, T)>, i: int, k: Seq<char>)
    requires
        al_keys_unique(s),
        0 <= i < s.len(),
    ensures
        k == s[i].0 ==> !al_contains(s.remove(i), k),
        k != s[i].0 ==> al_contains(s.remove(i), k) == al_contains(s, k),
        k != s[i].0 && al_contains(s, k) ==> al_lookup(s.remove(i), k) == al_lookup(s, k)
            && al_key_idx(s.remove(i), k) == (if al_key_idx(s, k) < i {
            al_key_idx(s, k)
        } else {
            al_key_idx(s, k) - 1
        }),
        al_keys_unique(s.remove(i)),
{
    let t = s.remove(i);
    lemma_key_idx_bounds(s, k);
    if k == s[i].0 {
        assert(forall|j: int| 0 <= j < t.len() ==> t[j].0 != k);
        lemma_key_idx_absent(t, k);
    } else {
        if al_contains(s, k) {
            let i0 = al_key_idx(s, k);
            if i0 < i {
                lemma_key_idx_first(t, k, i0);
            } else {
                assert(t[i0 - 1] == s[i0]);
                assert(forall|j: int| 0 <= j < i0 - 1 ==> t[j].0 != k);
                lemma_key_idx_first(t, k, i0 - 1);
            }
        } else {
            assert(forall|j: int| 0 <= j < t.len() ==> t[j].0 != k);
            lemma_key_idx_absent(t, k);
        }
    }
}

/// Effect of appending an entry on lookups: present keys keep their value,
/// the appended key becomes present.
pub proof fn lemma_key_idx_push<T>(s: Seq<(Seq<char>, T)>, e: (Seq<char>, T), k: Seq<char>)
    ensures
        al_contains(s, k) ==> al_key_idx(s.push(e), k) == al_key_idx(s, k) && al_lookup(
            s.push(e),
            k,
        ) == al_lookup(s, k),
        !al_contains(s, k) && e.0 == k ==> al_key_idx(s.push(e), k) == s.len() && al_lookup(
            s.push(e),
            k,
        ) == e.1,
        !al_contains(s, k) && e.0 != k ==> !al_contains(s.push(e), k),
{
    let t = s.push(e);
    lemma_key_idx_bounds(s, k);
    if al_contains(s, k) {
        lemma_key_idx_first(t, k, al_key_idx(s, k));
    } else if e.0 == k {
        assert(t[s.len() as int].0 == k);
        lemma_key_idx_first(t, k, s.len() as int);
    } else {
        assert(forall|j: int| 0 <= j < t.len() ==> t[j].0 != k);
        lemma_key_idx_absent(t, k);
    }
}

/// A list of entries with string keys, in insertion order.
pub struct AssocList<V> {
    entries: Vec<(String, V)>,
}

impl<V: DeepView> View for AssocList<V> {
    type V = Seq<(Seq<char>, V::V)>;

    closed spec fn view(&self) -> Seq<(Seq<char>, V::V)> {
        Seq::new(
            self.entries@.len(),
            |i: int| (self.entries@[i].0@, self.entries@[i].1.deep_view()),
        )
    }
}

impl<V: DeepView> DeepView for AssocList<V> {
    type V = Seq<(Seq<char>, V::V)>;

    open spec fn deep_view(&self) -> Seq<(Seq<char>, V::V)> {
        self.view()
    }
}

impl<V: DeepView> AssocList<V> {
    pub fn new() -> (r: Self)
        ensures
            r@ == Seq::<(Seq<char>, V::V)>::empty(),
    {
        let r = AssocList { entries: Vec::new() };
        proof {
            assert(r@ =~= Seq::<(Seq<char>, V::V)>::empty());
        }
        r
    }

    pub fn len(&self) -> (n: usize)
        ensures
            n == self@.len(),
    {
        self.entries.len()
    }

    pub fn key_at(&self, i: usize) -> (k: &String)
        requires
            i < self@.len(),
        ensures
            k@ == self@[i as int].0,
    {
        &self.entries[i].0
    }

    pub fn value_at(&self, i: usize) -> (v: &V)
        requires
            i < self@.len(),
        ensures
            v.deep_view() == self@[i as int].1,
    {
        &self.entries[i].1
    }

    /// Index of the first entry whose key is `k`, if any.
    pub fn index_of(&self, k: &str) -> (r: Option<usize>)
        ensures
            match r {
                Some(i) => i == al_key_idx(self@, k@) && i < self@.len() && self@[i as int].0
                    == k@,
                None => !al_contains(self@, k@),
            },
    {
        let n = self.entries.len();
        for i in 0..n
            invariant
                n == self@.len(),
                forall|j: int| 0 <= j < i ==> self@[j].0 != k@,
        {
            if crate::strutil::str_eq(self.entries[i].0.as_str(), k) {
                proof {
                    lemma_key_idx_first(self@, k@, i as int);
                }
                return Some(i);
            }
        }
        proof {
            lemma_key_idx_absent(self@, k@);
        }
        None
    }

    pub fn get(&self, k: &str) -> (r: Option<&V>)
        ensures
            match r {
                Some(v) => al_contains(self@, k@) && v.deep_view() == al_lookup(self@, k@),
                None => !al_contains(self@, k@),
            },
    {
        match self.index_of(k) {
            Some(i) => Some(&self.entries[i].1),
            None => None,
        }
    }

    pub fn contains_key(&self, k: &str) -> (r: bool)
        ensures
            r == al_contains(self@, k@),
    {
        self.index_of(k).is_some()
    }

    /// Whether no key occurs twice, by checking that every key's first
    /// occurrence is its own position.
    pub fn keys_unique(&self) -> (r: bool)
        ensures
            r == al_keys_unique(self@),
    {
        let n = self.entries.len();
        for i in 0..n
            invariant
                n == self@.len(),
                forall|j: int| 0 <= j < i ==> al_key_idx(self@, (#[trigger] self@[j]).0) == j,
        {
            match self.index_of(self.entries[i].0.as_str()) {
                Some(j) => {
                    if j != i {
                        proof {
                            lemma_key_idx_bounds(self@, self@[i as int].0);
                            assert(self@[j as int].0 == self@[i as int].0);
                            assert(j < i);
                            assert(!al_keys_unique(self@));
                        }
                        return false;
                    }
                },
                None => {
                    proof {
                        lemma_key_idx_bounds(self@, self@[i as int].0);
                        assert(false);
                    }
                },
            }
        }
        proof {
            assert forall|a: int, b: int| 0 <= a < b < self@.len() implies self@[a].0
                != self@[b].0 by {
                if self@[a].0 == self@[b].0 {
                    lemma_key_idx_bounds(self@, self@[b].0);
                    assert(al_key_idx(self@, self@[b].0) == b);
                    assert(self@[a].0 != self@[b].0);
                }
            }
        }
        true
    }

    /// Appends an entry at the end, without looking for the key.
    pub fn push(&mut self, k: String, v: V)
        ensures
            final(self)@ == old(self)@.push((k@, v.deep_view())),
    {
        let ghost gv = v.deep_view();
        self.entries.push((k, v));
        proof {
            assert(final(self)@ =~= old(self)@.push((k@, gv)));
        }
    }

    /// Replaces the value at index `i`, keeping the key.
    pub fn set_at(&mut self, i: usize, v: V)
        requires
            i < old(self)@.len(),
        ensures
            final(self)@ == old(self)@.update(i as int, (old(self)@[i as int].0, v.deep_view())),
    {
        let ghost gv = v.deep_view();
        let e = &mut self.entries[i];
        e.1 = v;
        proof {
            assert(final(self)@ =~= old(self)@.update(i as int, (old(self)@[i as int].0, gv)));
        }
    }

    /// Takes the entry at index `i` out of the list, to put it back with
    /// `insert_entry_at` after its value was reworked.
    pub fn remove_entry_at(&mut self, i: usize) -> (r: (String, V))
        requires
            i < old(self)@.len(),
        ensures
            final(self)@ == old(self)@.remove(i as int),
            r.0@ == old(self)@[i as int].0,
            r.1.deep_view() == old(self)@[i as int].1,
    {
        let r = self.entries.remove(i);
        proof {
            assert(final(self)@ =~= old(self)@.remove(i as int));
        }
        r
    }

    /// Puts an entry at index `i`, shifting the rest to the right.
    pub fn insert_entry_at(&mut self, i: usize, k: String, v: V)
        requires
            i <= old(self)@.len(),
        ensures
            final(self)@ == old(self)@.insert(i as int, (k@, v.deep_view())),
    {
        let ghost gk = k@;
        let ghost gv = v.deep_view();
        self.entries.insert(i, (k, v));
        proof {
            assert(final(self)@ =~= old(self)@.insert(i as int, (gk, gv)));
        }
    }

    /// Removes the entry at index `i`, preserving the order of the rest.
    pub fn remove_at(&mut self, i: usize)
        requires
            i < old(self)@.len(),
        ensures
            final(self)@ == old(self)@.remove(i as int),
    {
        self.entries.remove(i);
        proof {
            assert(final(self)@ =~= old(self)@.remove(i as int));
        }
    }
}

} // verus!
