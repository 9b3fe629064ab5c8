//! `StrMap`: a map from `String` keys kept in ascending key order, the
//! iteration order of the `BTreeMap<String, _>` it stands for.
use crate::text::{chars_of, compare_chars, seq_eq};
use crate::text;
use vstd::prelude::*;

verus! {

/// A string-keyed map. Entries are kept in strictly ascending key order
/// (`wf`), so walking `entries` visits keys as a `BTreeMap` would.
#[derive(Debug, Clone, PartialEq)]
pub struct StrMap<T> {
    pub entries: Vec<(String, T)>,
}

/// Keys strictly ascending.
pub open spec fn sorted_keys<T>(s: Seq<(String, T)>) -> bool {
    forall|i: int, j: int| 0 <= i < j < s.len() ==> text::seq_lt(#[trigger] s[i].0@, #[trigger] s[j].0@)
}

/// Index of the first entry with key `k`, or -1.
pub open spec fn key_index<T>(s: Seq<(String, T)>, k: Seq<char>) -> int {
    if exists|i: int| 0 <= i < s.len() && s[i].0@ == k && forall|j: int| 0 <= j < i ==> s[j].0@ != k {
        choose|i: int| 0 <= i < s.len() && s[i].0@ == k && forall|j: int| 0 <= j < i ==> s[j].0@ != k
    } else {
        -1
    }
}

/// The value stored under `k`, if any.
pub open spec fn lookup<T>(s: Seq<(String, T)>, k: Seq<char>) -> Option<T> {
    let i = key_index(s, k);
    if i >= 0 {
        Some(s[i].1)
    } else {
        None
    }
}

/// Whether some entry has key `k`.
pub open spec fn has_key<T>(s: Seq<(String, T)>, k: Seq<char>) -> bool {
    exists|i: int| 0 <= i < s.len() && s[i].0@ == k
}

/// The keys, in entry order.
pub open spec fn keys_of<T>(s: Seq<(String, T)>) -> Seq<Seq<char>> {
    s.map_values(|e: (String, T)| e.0@)
}

/// In a map with sorted keys, the entry at `i` is the one found for its key.
pub proof fn lemma_index_unique<T>(s: Seq<(String, T)>, i: int)
    requires
        sorted_keys(s),
        0 <= i < s.len(),
    ensures
        key_index(s, s[i].0@) == i,
        lookup(s, s[i].0@) == Some(s[i].1),
{
    assert forall|j: int| 0 <= j < i implies s[j].0@ != s[i].0@ by {
        text::lemma_seq_lt_irreflexive(s[i].0@);
    }
    let k = s[i].0@;
    let w = choose|w: int| 0 <= w < s.len() && s[w].0@ == k && forall|j: int| 0 <= j < w ==> s[j].0@ != k;
    if w != i {
        if w < i {
            text::lemma_seq_lt_irreflexive(k);
        } else {
            text::lemma_seq_lt_irreflexive(k);
        }
    }
}

/// A found key is the first entry with that key.
pub proof fn lemma_found<T>(s: Seq<(String, T)>, k: Seq<char>, i: int)
    requires
        0 <= i < s.len(),
        s[i].0@ == k,
        forall|j: int| 0 <= j < i ==> s[j].0@ != k,
    ensures
        key_index(s, k) == i,
        lookup(s, k) == Some(s[i].1),
{
    let w = choose|w: int| 0 <= w < s.len() && s[w].0@ == k && forall|j: int| 0 <= j < w ==> s[j].0@ != k;
    assert(w == i);
}

impl<T> StrMap<T> {
    /// Well-formedness: keys strictly ascending.
    pub open spec fn wf(&self) -> bool {
        sorted_keys(self.entries@)
    }

    /// The empty map.
    pub fn new() -> (m: Self)
        ensures
            m.entries@ == Seq::<(String, T)>::empty(),
            m.wf(),
    {
        StrMap { entries: Vec::new() }
    }

    /// Number of entries.
    pub fn len(&self) -> (n: usize)
        ensures
            n == self.entries@.len(),
    {
        self.entries.len()
    }

    /// Whether the map has no entry.
    pub fn is_empty(&self) -> (b: bool)
        ensures
            b == (self.entries@.len() == 0),
    {
        self.entries.len() == 0
    }

    /// Position of `key`, if present.
    pub fn index_of(&self, key: &str) -> (r: Option<usize>)
        ensures
            match r {
                Some(i) => i < self.entries@.len() && key_index(self.entries@, key@) == i as int,
                None => !has_key(self.entries@, key@) && key_index(self.entries@, key@) == -1,
            },
    {
        let kv = chars_of(key);
        let mut i: usize = 0;
        while i < self.entries.len()
            invariant
                kv@ == key@,
                i <= self.entries@.len(),
                forall|j: int| 0 <= j < i ==> self.entries@[j].0@ != key@,
            decreases self.entries.len() - i,
        {
            let ev = chars_of(self.entries[i].0.as_str());
            if seq_eq(&ev, &kv) {
                proof {
                    lemma_found(self.entries@, key@, i as int);
                }
                return Some(i);
            }
            i = i + 1;
        }
        None
    }

    /// The value stored under `key`.
    pub fn get(&self, key: &str) -> (r: Option<&T>)
        ensures
            match r {
                Some(v) => lookup(self.entries@, key@) == Some(*v),
                None => lookup(self.entries@, key@) == None::<T> && !has_key(self.entries@, key@),
            },
    {
        match self.index_of(key) {
            Some(i) => Some(&self.entries[i].1),
            None => None,
        }
    }

    /// Whether `key` has an entry.
    pub fn contains_key(&self, key: &str) -> (b: bool)
        ensures
            b == has_key(self.entries@, key@),
    {
        match self.index_of(key) {
            Some(i) => true,
            None => false,
        }
    }

    /// Inserts or replaces the value under `key`, keeping the keys sorted.
    pub fn insert(&mut self, key: String, value: T)
        requires
            old(self).wf(),
        ensures
            final(self).wf(),
            forall|k: Seq<char>|
                #![trigger lookup(final(self).entries@, k)]
                lookup(final(self).entries@, k) == if k == key@ {
                    Some(value)
                } else {
                    lookup(old(self).entries@, k)
                },
            forall|k: Seq<char>|
                #![trigger has_key(final(self).entries@, k)]
                has_key(final(self).entries@, k) == (k == key@ || has_key(old(self).entries@, k)),
            final(self).entries@.len() == old(self).entries@.len() + if has_key(
                old(self).entries@,
                key@,
            ) {
                0int
            } else {
                1int
            },
    {
        let ghost s0 = self.entries@;
        let ghost kk = key@;
        let kv = chars_of(key.as_str());
        let mut i: usize = 0;
        while i < self.entries.len()
            invariant
                kv@ == key@,
                kk == key@,
                self.entries@ == s0,
                s0 == old(self).entries@,
                sorted_keys(s0),
                i <= s0.len(),
                forall|j: int| 0 <= j < i ==> text::seq_lt(#[trigger] s0[j].0@, key@),
            decreases self.entries.len() - i,
        {
            let ev = chars_of(self.entries[i].0.as_str());
            let c = compare_chars(&ev, &kv);
            if c == 0 {
                self.entries.set(i, (key, value));
                proof {
                    lemma_replace_at(s0, self.entries@, i as int, kk, value);
                }
                return;
            } else if c > 0 {
                self.entries.insert(i, (key, value));
                proof {
                    lemma_insert_at(s0, self.entries@, i as int, kk, value);
                }
                return;
            }
            i = i + 1;
        }
        self.entries.push((key, value));
        proof {
            lemma_insert_at(s0, self.entries@, s0.len() as int, kk, value);
        }
    }
}

proof fn lemma_replace_at<T>(s0: Seq<(String, T)>, s1: Seq<(String, T)>, i: int, key: Seq<char>, value: T)
    requires
        sorted_keys(s0),
        0 <= i < s0.len(),
        s0[i].0@ == key,
        s1.len() == s0.len(),
        s1[i].0@ == key,
        s1[i].1 == value,
        forall|j: int| 0 <= j < s0.len() && j != i ==> s1[j] == s0[j],
    ensures
        sorted_keys(s1),
        forall|k: Seq<char>| #[trigger] lookup(s1, k) == if k == key {
            Some(value)
        } else {
            lookup(s0, k)
        },
        forall|k: Seq<char>| #[trigger] has_key(s1, k) == (k == key || has_key(s0, k)),
        has_key(s0, key),
{
    assert forall|a: int, b: int| 0 <= a < b < s1.len() implies text::seq_lt(
        #[trigger] s1[a].0@,
        #[trigger] s1[b].0@,
    ) by {
        assert(s1[a].0@ == s0[a].0@);
        assert(s1[b].0@ == s0[b].0@);
    }
    assert forall|k: Seq<char>| #[trigger] has_key(s1, k) == (k == key || has_key(s0, k)) by {
        if has_key(s0, k) {
            let w = choose|w: int| 0 <= w < s0.len() && s0[w].0@ == k;
            assert(s1[w].0@ == k);
        }
        if k == key {
            assert(s1[i].0@ == k);
        }
        if has_key(s1, k) {
            let w = choose|w: int| 0 <= w < s1.len() && s1[w].0@ == k;
            assert(s0[w].0@ == k);
        }
    }
    assert forall|k: Seq<char>| #[trigger] lookup(s1, k) == if k == key {
        Some(value)
    } else {
        lookup(s0, k)
    } by {
        lemma_index_unique(s1, i);
        if k != key {
            if has_key(s0, k) {
                let w = choose|w: int| 0 <= w < s0.len() && s0[w].0@ == k;
                lemma_index_unique(s0, w);
                lemma_index_unique(s1, w);
            } else {
                assert(!has_key(s1, k));
            }
        }
    }
    assert(s0[i].0@ == key);
}

proof fn lemma_insert_at<T>(s0: Seq<(String, T)>, s1: Seq<(String, T)>, i: int, key: Seq<char>, value: T)
    requires
        sorted_keys(s0),
        0 <= i <= s0.len(),
        forall|j: int| 0 <= j < i ==> text::seq_lt(#[trigger] s0[j].0@, key),
        i < s0.len() ==> text::seq_lt(key, s0[i].0@),
        s1.len() == s0.len() + 1,
        s1[i].0@ == key,
        s1[i].1 == value,
        forall|j: int| 0 <= j < i ==> s1[j] == s0[j],
        forall|j: int| i < j < s1.len() ==> s1[j] == s0[j - 1],
    ensures
        sorted_keys(s1),
        forall|k: Seq<char>| #[trigger] lookup(s1, k) == if k == key {
            Some(value)
        } else {
            lookup(s0, k)
        },
        forall|k: Seq<char>| #[trigger] has_key(s1, k) == (k == key || has_key(s0, k)),
        !has_key(s0, key),
{
    assert forall|a: int, b: int| 0 <= a < b < s1.len() implies text::seq_lt(
        #[trigger] s1[a].0@,
        #[trigger] s1[b].0@,
    ) by {
        if b < i {
            assert(s1[a] == s0[a]);
            assert(s1[b] == s0[b]);
        } else if b == i {
            assert(s1[a] == s0[a]);
        } else if a < i {
            assert(s1[a] == s0[a]);
            assert(s1[b] == s0[b - 1]);
            if b - 1 > i {
                text::lemma_seq_lt_transitive(key, s0[i].0@, s0[b - 1].0@);
            }
            text::lemma_seq_lt_transitive(s0[a].0@, key, s0[b - 1].0@);
        } else if a == i {
            assert(s1[b] == s0[b - 1]);
            if b - 1 > i {
                text::lemma_seq_lt_transitive(key, s0[i].0@, s0[b - 1].0@);
            }
        } else {
            assert(s1[a] == s0[a - 1]);
            assert(s1[b] == s0[b - 1]);
        }
    }
    assert forall|j: int| 0 <= j < s0.len() implies s0[j].0@ != key by {
        text::lemma_seq_lt_irreflexive(key);
        if j > i {
            text::lemma_seq_lt_transitive(key, s0[i].0@, s0[j].0@);
        }
    }
    assert forall|k: Seq<char>| #[trigger] has_key(s1, k) == (k == key || has_key(s0, k)) by {
        if has_key(s0, k) {
            let w = choose|w: int| 0 <= w < s0.len() && s0[w].0@ == k;
            if w < i {
                assert(s1[w] == s0[w]);
            } else {
                assert(s1[w + 1] == s0[w]);
            }
        }
        if k == key {
            assert(s1[i].0@ == k);
        }
        if has_key(s1, k) {
            let w = choose|w: int| 0 <= w < s1.len() && s1[w].0@ == k;
            if w < i {
                assert(s0[w] == s1[w]);
            } else if w > i {
                assert(s0[w - 1] == s1[w]);
            }
        }
    }
    assert forall|k: Seq<char>| #[trigger] lookup(s1, k) == if k == key {
        Some(value)
    } else {
        lookup(s0, k)
    } by {
        lemma_index_unique(s1, i);
        if k != key {
            if has_key(s0, k) {
                let w = choose|w: int| 0 <= w < s0.len() && s0[w].0@ == k;
                lemma_index_unique(s0, w);
                if w < i {
                    assert(s1[w] == s0[w]);
                    lemma_index_unique(s1, w);
                } else {
                    assert(s1[w + 1] == s0[w]);
                    lemma_index_unique(s1, w + 1);
                }
            } else {
                assert(!has_key(s1, k));
            }
        }
    }
}

impl StrMap<String> {
    /// An entry-for-entry copy of a map of strings.
    pub fn clone_strings(&self) -> (r: StrMap<String>)
        ensures
            r.entries@.len() == self.entries@.len(),
            forall|i: int|
                0 <= i < self.entries@.len() ==> #[trigger] r.entries@[i].0@ == self.entries@[i].0@
                    && r.entries@[i].1@ == self.entries@[i].1@,
    {
        let mut out: Vec<(String, String)> = Vec::new();
        let mut i: usize = 0;
        while i < self.entries.len()
            invariant
                i <= self.entries@.len(),
                out@.len() == i,
                forall|j: int|
                    0 <= j < i ==> #[trigger] out@[j].0@ == self.entries@[j].0@ && out@[j].1@
                        == self.entries@[j].1@,
            decreases self.entries.len() - i,
        {
            let k = self.entries[i].0.clone();
            let v = self.entries[i].1.clone();
            out.push((k, v));
            i = i + 1;
        }
        StrMap { entries: out }
    }
}

impl<T> StrMap<T> {
    /// Whether the keys are strictly ascending (`wf`).
    pub fn check_wf(&self) -> (r: bool)
        ensures
            r == self.wf(),
    {
        let mut i: usize = 1;
        if self.entries.len() == 0 {
            return true;
        }
        while i < self.entries.len()
            invariant
                1 <= i <= self.entries@.len(),
                sorted_keys(self.entries@.take(i as int)),
            decreases self.entries.len() - i,
        {
            let a = chars_of(self.entries[i - 1].0.as_str());
            let b = chars_of(self.entries[i].0.as_str());
            if compare_chars(&a, &b) >= 0 {
                proof {
                    assert(!text::seq_lt(self.entries@[i - 1].0@, self.entries@[i as int].0@));
                }
                return false;
            }
            proof {
                let s = self.entries@;
                let t = s.take(i + 1);
                assert forall|x: int, y: int| 0 <= x < y < t.len() implies text::seq_lt(
                    #[trigger] t[x].0@,
                    #[trigger] t[y].0@,
                ) by {
                    if y == i {
                        if x < i - 1 {
                            assert(s.take(i as int)[x] == s[x]);
                            assert(s.take(i as int)[i - 1] == s[i - 1]);
                            text::lemma_seq_lt_transitive(s[x].0@, s[i - 1].0@, s[i as int].0@);
                        }
                    } else {
                        assert(s.take(i as int)[x] == s[x]);
                        assert(s.take(i as int)[y] == s[y]);
                    }
                }
            }
            i = i + 1;
        }
        assert(self.entries@.take(self.entries@.len() as int) == self.entries@);
        true
    }
}

} // verus!
