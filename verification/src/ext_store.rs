//! The persistent key-value store handed to extensions.

use vstd::prelude::*;
use crate::text::str_eq;

verus! {

/// The map that a list of `(key, value)` pairs stands for.
pub open spec fn pairs_map(s: Seq<(Seq<char>, Seq<char>)>) -> Map<Seq<char>, Seq<char>> {
    Map::new(
        |k: Seq<char>| exists|i: int| 0 <= i < s.len() && s[i].0 == k,
        |k: Seq<char>| s[choose|i: int| 0 <= i < s.len() && s[i].0 == k].1,
    )
}

/// No key occurs twice.
pub open spec fn unique_keys(s: Seq<(Seq<char>, Seq<char>)>) -> bool {
    forall|i: int, j: int| 0 <= i < j < s.len() ==> #[trigger] s[i].0 != #[trigger] s[j].0
}

/// The views of stored pairs.
pub open spec fn entries_view(v: Seq<(String, String)>) -> Seq<(Seq<char>, Seq<char>)> {
    Seq::new(v.len(), |i: int| (v[i].0@, v[i].1@))
}

proof fn lemma_pairs_map_at(s: Seq<(Seq<char>, Seq<char>)>, i: int)
    requires
        unique_keys(s),
        0 <= i < s.len(),
    ensures
        pairs_map(s).contains_key(s[i].0),
        pairs_map(s)[s[i].0] == s[i].1,
{
    let k = s[i].0;
    assert(exists|j: int| 0 <= j < s.len() && s[j].0 == k);
    let j = choose|j: int| 0 <= j < s.len() && s[j].0 == k;
    if j != i {
        if j < i {
            assert(s[j].0 != s[i].0);
        } else {
            assert(s[i].0 != s[j].0);
        }
    }
}

proof fn lemma_pairs_map_update(s: Seq<(Seq<char>, Seq<char>)>, i: int, v: Seq<char>)
    requires
        unique_keys(s),
        0 <= i < s.len(),
    ensures
        unique_keys(s.update(i, (s[i].0, v))),
        pairs_map(s.update(i, (s[i].0, v))) == pairs_map(s).insert(s[i].0, v),
{
    let t = s.update(i, (s[i].0, v));
    assert forall|a: int, b: int| 0 <= a < b < t.len() implies #[trigger] t[a].0 != #[trigger] t[b].0 by {
        assert(s[a].0 != s[b].0);
    }
    let m = pairs_map(s).insert(s[i].0, v);
    assert forall|k: Seq<char>| #[trigger] pairs_map(t).contains_key(k) <==> m.contains_key(k) by {
        if pairs_map(t).contains_key(k) {
            let j = choose|j: int| 0 <= j < t.len() && t[j].0 == k;
            lemma_pairs_map_at(s, j);
        }
        if m.contains_key(k) {
            if k == s[i].0 {
                lemma_pairs_map_at(t, i);
            } else {
                let j = choose|j: int| 0 <= j < s.len() && s[j].0 == k;
                lemma_pairs_map_at(t, j);
            }
        }
    }
    assert forall|k: Seq<char>| #[trigger] pairs_map(t).contains_key(k) implies pairs_map(t)[k] == m[k] by {
        let j = choose|j: int| 0 <= j < t.len() && t[j].0 == k;
        lemma_pairs_map_at(t, j);
        lemma_pairs_map_at(s, j);
    }
    assert(pairs_map(t) =~= m);
}

proof fn lemma_pairs_map_push(s: Seq<(Seq<char>, Seq<char>)>, k: Seq<char>, v: Seq<char>)
    requires
        unique_keys(s),
        !pairs_map(s).contains_key(k),
    ensures
        unique_keys(s.push((k, v))),
        pairs_map(s.push((k, v))) == pairs_map(s).insert(k, v),
{
    let t = s.push((k, v));
    assert forall|a: int, b: int| 0 <= a < b < t.len() implies #[trigger] t[a].0 != #[trigger] t[b].0 by {
        if b < s.len() {
            assert(s[a].0 != s[b].0);
        } else {
            assert(s[a].0 == t[a].0);
        }
    }
    let m = pairs_map(s).insert(k, v);
    assert forall|x: Seq<char>| #[trigger] pairs_map(t).contains_key(x) <==> m.contains_key(x) by {
        if pairs_map(t).contains_key(x) && x != k {
            let j = choose|j: int| 0 <= j < t.len() && t[j].0 == x;
            lemma_pairs_map_at(s, j);
        }
        if m.contains_key(x) {
            if x == k {
                lemma_pairs_map_at(t, s.len() as int);
            } else {
                let j = choose|j: int| 0 <= j < s.len() && s[j].0 == x;
                lemma_pairs_map_at(t, j);
            }
        }
    }
    assert forall|x: Seq<char>| #[trigger] pairs_map(t).contains_key(x) implies pairs_map(t)[x] == m[x] by {
        let j = choose|j: int| 0 <= j < t.len() && t[j].0 == x;
        lemma_pairs_map_at(t, j);
        if j < s.len() {
            lemma_pairs_map_at(s, j);
        }
    }
    assert(pairs_map(t) =~= m);
}

proof fn lemma_pairs_map_remove(s: Seq<(Seq<char>, Seq<char>)>, i: int)
    requires
        unique_keys(s),
        0 <= i < s.len(),
    ensures
        unique_keys(s.remove(i)),
        pairs_map(s.remove(i)) == pairs_map(s).remove(s[i].0),
{
    let t = s.remove(i);
    assert forall|j: int| 0 <= j < t.len() implies #[trigger] t[j] == s[if j < i { j } else { j + 1 }] by {}
    assert forall|a: int, b: int| 0 <= a < b < t.len() implies #[trigger] t[a].0 != #[trigger] t[b].0 by {
        let a1 = if a < i { a } else { a + 1 };
        let b1 = if b < i { b } else { b + 1 };
        assert(t[a] == s[a1]);
        assert(t[b] == s[b1]);
        assert(s[a1].0 != s[b1].0);
    }
    let m = pairs_map(s).remove(s[i].0);
    assert forall|x: Seq<char>| #[trigger] pairs_map(t).contains_key(x) <==> m.contains_key(x) by {
        if pairs_map(t).contains_key(x) {
            let j = choose|j: int| 0 <= j < t.len() && t[j].0 == x;
            let j1 = if j < i { j } else { j + 1 };
            assert(t[j] == s[j1]);
            lemma_pairs_map_at(s, j1);
            if j1 < i {
                assert(s[j1].0 != s[i].0);
            } else {
                assert(s[i].0 != s[j1].0);
            }
        }
        if m.contains_key(x) {
            let j = choose|j: int| 0 <= j < s.len() && s[j].0 == x;
            assert(j != i);
            let j0 = if j < i { j } else { j - 1 };
            assert(t[j0] == s[j]);
            lemma_pairs_map_at(t, j0);
        }
    }
    assert forall|x: Seq<char>| #[trigger] pairs_map(t).contains_key(x) implies pairs_map(t)[x] == m[x] by {
        let j = choose|j: int| 0 <= j < t.len() && t[j].0 == x;
        let j1 = if j < i { j } else { j + 1 };
        assert(t[j] == s[j1]);
        lemma_pairs_map_at(t, j);
        lemma_pairs_map_at(s, j1);
    }
    assert(pairs_map(t) =~= m);
}

/// A key-value store of strings, in which each key has at most one value.
#[derive(Debug, Clone)]
pub struct ExtensionStore {
    data: Vec<(String, String)>,
}

impl View for ExtensionStore {
    type V = Map<Seq<char>, Seq<char>>;

    /// The keys and their values.
    closed spec fn view(&self) -> Map<Seq<char>, Seq<char>> {
        pairs_map(entries_view(self.data@))
    }
}

impl ExtensionStore {
    /// The store's invariant: no key is stored twice.
    pub closed spec fn wf(&self) -> bool {
        unique_keys(entries_view(self.data@))
    }

    /// An empty store.
    pub fn new() -> (s: Self)
        ensures
            s.wf(),
            s@ == Map::<Seq<char>, Seq<char>>::empty(),
    {
        let s = ExtensionStore { data: Vec::new() };
        assert(s@ =~= Map::<Seq<char>, Seq<char>>::empty());
        s
    }

    fn index_of(&self, key: &str) -> (r: Option<usize>)
        requires
            self.wf(),
        ensures
            match r {
                Some(i) => i < self.data@.len() && self.data@[i as int].0@ == key@,
                None => !self@.contains_key(key@),
            },
    {
        let mut i: usize = 0;
        while i < self.data.len()
            invariant
                i <= self.data@.len(),
                forall|j: int| 0 <= j < i ==> self.data@[j].0@ != key@,
            decreases self.data.len() - i,
        {
            if str_eq(self.data[i].0.as_str(), key) {
                return Some(i);
            }
            i = i + 1;
        }
        proof {
            let ev = entries_view(self.data@);
            assert forall|j: int| 0 <= j < ev.len() implies ev[j].0 != key@ by {
                assert(ev[j].0 == self.data@[j].0@);
            }
        }
        None
    }

    /// The value stored under `key`, if any.
    pub fn get(&self, key: &str) -> (r: Option<&str>)
        requires
            self.wf(),
        ensures
            match r {
                Some(v) => self@.contains_key(key@) && self@[key@] == v@,
                None => !self@.contains_key(key@),
            },
    {
        match self.index_of(key) {
            Some(i) => {
                proof {
                            let ev = entries_view(self.data@);
                    assert(ev[i as int].0 == key@);
                    lemma_pairs_map_at(ev, i as int);
                }
                Some(self.data[i].1.as_str())
            },
            None => None,
        }
    }

    /// Stores `value` under `key`, replacing what was stored there.
    pub fn set(&mut self, key: &str, value: &str)
        requires
            old(self).wf(),
        ensures
            final(self).wf(),
            final(self)@ == old(self)@.insert(key@, value@),
    {
        let ghost old_ev = entries_view(self.data@);
        match self.index_of(key) {
            Some(i) => {
                let k = self.data[i].0.clone();
                self.data.set(i, (k, value.to_owned()));
                proof {
                    assert(entries_view(self.data@) =~= old_ev.update(i as int, (old_ev[i as int].0, value@)));
                    lemma_pairs_map_update(old_ev, i as int, value@);
                }
            },
            None => {
                self.data.push((key.to_owned(), value.to_owned()));
                proof {
                    assert(entries_view(self.data@) =~= old_ev.push((key@, value@)));
                    lemma_pairs_map_push(old_ev, key@, value@);
                }
            },
        }
    }

    /// Removes what is stored under `key`, if anything.
    pub fn remove(&mut self, key: &str)
        requires
            old(self).wf(),
        ensures
            final(self).wf(),
            final(self)@ == old(self)@.remove(key@),
    {
        let ghost old_ev = entries_view(self.data@);
        match self.index_of(key) {
            Some(i) => {
                self.data.remove(i);
                proof {
                    assert(entries_view(self.data@) =~= old_ev.remove(i as int));
                    lemma_pairs_map_remove(old_ev, i as int);
                }
            },
            None => {
                assert(old_ev =~= entries_view(self.data@));
                assert(self@ =~= old(self)@.remove(key@));
            },
        }
    }

    /// The keys, in the order they were first stored.
    pub closed spec fn key_seq(&self) -> Seq<Seq<char>> {
        Seq::new(self.data@.len(), |i: int| self.data@[i].0@)
    }

    /// The order of the keys lists each key of the store once.
    pub proof fn lemma_key_seq(&self)
        requires
            self.wf(),
        ensures
            self.key_seq().to_set() == self@.dom(),
            self.key_seq().no_duplicates(),
    {
        let ks = self.key_seq();
        let ev = entries_view(self.data@);
        assert forall|k: Seq<char>| ks.to_set().contains(k) <==> self@.dom().contains(k) by {
            if ks.to_set().contains(k) {
                let i = choose|i: int| 0 <= i < ks.len() && ks[i] == k;
                assert(ev[i].0 == k);
            }
            if self@.dom().contains(k) {
                let i = choose|i: int| 0 <= i < ev.len() && ev[i].0 == k;
                assert(ks[i] == k);
            }
        }
        assert(ks.to_set() =~= self@.dom());
        assert forall|i: int, j: int| 0 <= i < ks.len() && 0 <= j < ks.len() && i != j implies ks[i] != ks[j] by {
            if i < j {
                assert(ev[i].0 != ev[j].0);
            } else {
                assert(ev[j].0 != ev[i].0);
            }
        }
    }

    /// The keys, in the order they were first stored.
    pub fn keys(&self) -> (r: Vec<String>)
        ensures
            crate::text::strs_view(r@) == self.key_seq(),
    {
        let mut r: Vec<String> = Vec::new();
        let mut i: usize = 0;
        while i < self.data.len()
            invariant
                i <= self.data@.len(),
                r@.len() == i,
                crate::text::strs_view(r@) == self.key_seq().take(i as int),
            decreases self.data.len() - i,
        {
            let ghost before = r@;
            let k = self.data[i].0.clone();
            r.push(k);
            assert(r@ == before.push(k));
            assert(k@ == self.key_seq()[i as int]);
            assert(crate::text::strs_view(r@) =~= crate::text::strs_view(before).push(k@));
            assert(self.key_seq().take(i + 1) =~= self.key_seq().take(i as int).push(k@));
            i = i + 1;
        }
        assert(self.key_seq().take(self.data@.len() as int) =~= self.key_seq());
        r
    }
}

} // verus!
