//! A small string-keyed table backed by a vector of pairs with unique
//! keys. Its view is the finite map from key characters to value views;
//! both the bucket table and the alert ledger are instances.

use vstd::prelude::*;

use crate::strutil::str_eq;

verus! {

/// The map denoted by an association list; on duplicate keys the later
/// entry wins, but well-formed tables have no duplicates.
pub open spec fn kv_map<V: View>(s: Seq<(String, V)>) -> Map<Seq<char>, V::V>
    decreases s.len(),
{
    if s.len() == 0 {
        Map::empty()
    } else {
        kv_map(s.drop_last()).insert(s.last().0@, s.last().1@)
    }
}

/// No two entries share a key.
pub open spec fn unique_keys<V>(s: Seq<(String, V)>) -> bool {
    forall|i: int, j: int| 0 <= i < j < s.len() ==> s[i].0@ != s[j].0@
}

/// Entries of `s` satisfying `p`, in order.
pub open spec fn keep_entries<V>(s: Seq<(String, V)>, p: spec_fn((String, V)) -> bool) -> Seq<
    (String, V),
>
    decreases s.len(),
{
    if s.len() == 0 {
        s
    } else {
        let rest = keep_entries(s.drop_last(), p);
        if p(s.last()) {
            rest.push(s.last())
        } else {
            rest
        }
    }
}

/// A key is in the map exactly when some entry carries it.
pub proof fn lemma_kv_map_contains<V: View>(s: Seq<(String, V)>, k: Seq<char>)
    ensures
        kv_map(s).contains_key(k) <==> exists|i: int| 0 <= i < s.len() && (#[trigger] s[i]).0@
            == k,
    decreases s.len(),
{
    if s.len() > 0 {
        lemma_kv_map_contains(s.drop_last(), k);
        if s.last().0@ == k {
            assert(s[s.len() - 1].0@ == k);
        } else if kv_map(s).contains_key(k) {
            let i = choose|i: int| 0 <= i < s.drop_last().len() && (#[trigger] s.drop_last()[i]).0@
                == k;
            assert(s[i].0@ == k);
        } else {
            assert forall|i: int| 0 <= i < s.len() implies (#[trigger] s[i]).0@ != k by {
                if i < s.len() - 1 {
                    assert(s.drop_last()[i].0@ != k);
                }
            }
        }
    }
}

/// Under unique keys, entry `i` gives the map's binding for its key.
pub proof fn lemma_kv_map_index<V: View>(s: Seq<(String, V)>, i: int)
    requires
        unique_keys(s),
        0 <= i < s.len(),
    ensures
        kv_map(s).contains_key(s[i].0@),
        kv_map(s)[s[i].0@] == s[i].1@,
    decreases s.len(),
{
    if i < s.len() - 1 {
        assert(unique_keys(s.drop_last()));
        lemma_kv_map_index(s.drop_last(), i);
        assert(s[i].0@ != s.last().0@);
    }
}

/// Replacing the value at entry `i` (keeping a key with the same
/// characters) updates exactly that binding.
pub proof fn lemma_kv_map_update<V: View>(s: Seq<(String, V)>, i: int, e: (String, V))
    requires
        unique_keys(s),
        0 <= i < s.len(),
        e.0@ == s[i].0@,
    ensures
        kv_map(s.update(i, e)) == kv_map(s).insert(s[i].0@, e.1@),
        unique_keys(s.update(i, e)),
    decreases s.len(),
{
    let t = s.update(i, e);
    if i == s.len() - 1 {
        assert(t.drop_last() =~= s.drop_last());
        assert(kv_map(t) == kv_map(s.drop_last()).insert(e.0@, e.1@));
        assert(kv_map(s.drop_last()).insert(s[i].0@, s[i].1@).insert(s[i].0@, e.1@) =~= kv_map(
            s.drop_last(),
        ).insert(s[i].0@, e.1@));
    } else {
        assert(unique_keys(s.drop_last()));
        lemma_kv_map_update(s.drop_last(), i, e);
        assert(t.drop_last() =~= s.drop_last().update(i, e));
        assert(t.last() == s.last());
        assert(s[i].0@ != s.last().0@);
        assert(kv_map(t) == kv_map(s.drop_last()).insert(s[i].0@, e.1@).insert(
            s.last().0@,
            s.last().1@,
        ));
        assert(kv_map(s.drop_last()).insert(s[i].0@, e.1@).insert(s.last().0@, s.last().1@)
            =~= kv_map(s.drop_last()).insert(s.last().0@, s.last().1@).insert(s[i].0@, e.1@));
    }
}

/// Filtering the entries filters the map: the kept bindings are exactly
/// those whose key and value view satisfy `q`.
pub proof fn lemma_kv_map_keep<V: View>(
    s: Seq<(String, V)>,
    p: spec_fn((String, V)) -> bool,
    q: spec_fn(Seq<char>, V::V) -> bool,
)
    requires
        unique_keys(s),
        forall|e: (String, V)| #[trigger] p(e) == q(e.0@, e.1@),
    ensures
        unique_keys(keep_entries(s, p)),
        kv_map(keep_entries(s, p)) == Map::<Seq<char>, V::V>::new(
            |k: Seq<char>| kv_map(s).contains_key(k) && q(k, kv_map(s)[k]),
            |k: Seq<char>| kv_map(s)[k],
        ),
        forall|i: int|
            0 <= i < keep_entries(s, p).len() ==> exists|j: int|
                0 <= j < s.len() && #[trigger] keep_entries(s, p)[i] == s[j],
    decreases s.len(),
{
    let t = keep_entries(s, p);
    let target = Map::<Seq<char>, V::V>::new(
        |k: Seq<char>| kv_map(s).contains_key(k) && q(k, kv_map(s)[k]),
        |k: Seq<char>| kv_map(s)[k],
    );
    if s.len() == 0 {
        assert(kv_map(t) =~= target);
    } else {
        let s0 = s.drop_last();
        let e = s.last();
        assert(unique_keys(s0));
        lemma_kv_map_keep(s0, p, q);
        let prev = kv_map(keep_entries(s0, p));
        lemma_kv_map_contains(s0, e.0@);
        assert(!kv_map(s0).contains_key(e.0@)) by {
            if kv_map(s0).contains_key(e.0@) {
                let i = choose|i: int| 0 <= i < s0.len() && (#[trigger] s0[i]).0@ == e.0@;
                assert(s[i].0@ == s[s.len() - 1].0@);
            }
        }
        assert(kv_map(s) == kv_map(s0).insert(e.0@, e.1@));
        assert forall|k: Seq<char>|
            kv_map(s0).contains_key(k) implies kv_map(s)[k] == kv_map(s0)[k]
            && kv_map(s).contains_key(k) by {}
        if p(e) {
            assert(t == keep_entries(s0, p).push(e));
            assert(t.drop_last() =~= keep_entries(s0, p));
            assert(kv_map(t) == prev.insert(e.0@, e.1@));
            assert(q(e.0@, e.1@));
            assert(kv_map(t) =~= target);
            assert forall|i: int| 0 <= i < t.len() implies exists|j: int|
                0 <= j < s.len() && #[trigger] t[i] == s[j] by {
                if i < t.len() - 1 {
                    let j = choose|j: int|
                        0 <= j < s0.len() && #[trigger] keep_entries(s0, p)[i] == s0[j];
                    assert(t[i] == s[j]);
                } else {
                    assert(t[i] == s[s.len() - 1]);
                }
            }
            assert(unique_keys(t)) by {
                assert forall|i: int, j: int| 0 <= i < j < t.len() implies t[i].0@ != t[j].0@ by {
                    if j < t.len() - 1 {
                    } else {
                        let jj = choose|jj: int|
                            0 <= jj < s0.len() && #[trigger] keep_entries(s0, p)[i] == s0[jj];
                        assert(t[i] == s0[jj]);
                        lemma_kv_map_index(s0, jj);
                        assert(kv_map(s0).contains_key(t[i].0@));
                    }
                }
            }
        } else {
            assert(t == keep_entries(s0, p));
            assert(!q(e.0@, e.1@));
            assert(kv_map(t) =~= target);
            assert forall|i: int| 0 <= i < t.len() implies exists|j: int|
                0 <= j < s.len() && #[trigger] t[i] == s[j] by {
                let j = choose|j: int|
                    0 <= j < s0.len() && #[trigger] keep_entries(s0, p)[i] == s0[j];
                assert(t[i] == s[j]);
            }
        }
    }
}

/// String-keyed table with unique keys.
pub struct KeyMap<V> {
    pub entries: Vec<(String, V)>,
}

impl<V: View> View for KeyMap<V> {
    type V = Map<Seq<char>, V::V>;

    open spec fn view(&self) -> Map<Seq<char>, V::V> {
        kv_map(self.entries@)
    }
}

impl<V: View> KeyMap<V> {
    pub open spec fn wf(&self) -> bool {
        unique_keys(self.entries@)
    }

    pub fn new() -> (r: KeyMap<V>)
        ensures
            r@ == Map::<Seq<char>, V::V>::empty(),
            r.wf(),
            r.entries@.len() == 0,
    {
        KeyMap { entries: Vec::new() }
    }

    /// Position of the entry carrying `key`, if any.
    fn index_of(&self, key: &str) -> (r: Option<usize>)
        ensures
            match r {
                Some(i) => i < self.entries@.len() && self.entries@[i as int].0@ == key@,
                None => forall|i: int|
                    0 <= i < self.entries@.len() ==> (#[trigger] self.entries@[i]).0@ != key@,
            },
    {
        for i in 0..self.entries.len()
            invariant
                forall|j: int| 0 <= j < i ==> (#[trigger] self.entries@[j]).0@ != key@,
        {
            if str_eq(self.entries[i].0.as_str(), key) {
                return Some(i);
            }
        }
        None
    }

    pub fn contains_key(&self, key: &str) -> (r: bool)
        requires
            self.wf(),
        ensures
            r == self@.contains_key(key@),
    {
        proof {
            lemma_kv_map_contains(self.entries@, key@);
        }
        match self.index_of(key) {
            Some(_) => true,
            None => false,
        }
    }

    pub fn get(&self, key: &str) -> (r: Option<&V>)
        requires
            self.wf(),
        ensures
            match r {
                Some(v) => self@.contains_key(key@) && v@ == self@[key@],
                None => !self@.contains_key(key@),
            },
    {
        proof {
            lemma_kv_map_contains(self.entries@, key@);
        }
        match self.index_of(key) {
            Some(i) => {
                proof {
                    lemma_kv_map_index(self.entries@, i as int);
                }
                Some(&self.entries[i].1)
            },
            None => None,
        }
    }

    /// Mutable access to the value stored under `key`.
    pub fn get_mut(&mut self, key: &str) -> (r: Option<&mut V>)
        requires
            old(self).wf(),
        ensures
            match r {
                Some(v) => {
                    &&& old(self)@.contains_key(key@)
                    &&& (*v)@ == old(self)@[key@]
                    &&& final(self)@ == old(self)@.insert(key@, (*final(v))@)
                    &&& final(self).wf()
                },
                None => {
                    &&& !old(self)@.contains_key(key@)
                    &&& *final(self) == *old(self)
                },
            },
    {
        proof {
            lemma_kv_map_contains(self.entries@, key@);
        }
        match self.index_of(key) {
            Some(i) => {
                proof {
                    let ghost entries0 = self.entries@;
                    lemma_kv_map_index(entries0, i as int);
                    assert forall|v2: V|
                        kv_map(#[trigger] entries0.update(i as int, (entries0[i as int].0, v2)))
                            == kv_map(entries0).insert(key@, v2@) && unique_keys(
                            entries0.update(i as int, (entries0[i as int].0, v2)),
                        ) by {
                        lemma_kv_map_update(entries0, i as int, (entries0[i as int].0, v2));
                    }
                }
                Some(&mut self.entries[i].1)
            },
            None => None,
        }
    }

    /// Insert `value` under `key`, replacing any previous binding.
    pub fn set(&mut self, key: &str, value: V)
        requires
            old(self).wf(),
        ensures
            final(self)@ == old(self)@.insert(key@, value@),
            final(self).wf(),
    {
        proof {
            lemma_kv_map_contains(self.entries@, key@);
        }
        match self.index_of(key) {
            Some(i) => {
                let ghost entries0 = self.entries@;
                let slot = &mut self.entries[i].1;
                *slot = value;
                proof {
                    lemma_kv_map_update(entries0, i as int, (entries0[i as int].0, value));
                    assert(self.entries@ =~= entries0.update(
                        i as int,
                        (entries0[i as int].0, value),
                    ));
                }
            },
            None => {
                let ghost entries0 = self.entries@;
                self.entries.push((key.to_owned(), value));
                proof {
                    assert(self.entries@.drop_last() =~= entries0);
                    assert(self.entries@.last().0@ == key@);
                    assert forall|a: int, b: int|
                        0 <= a < b < self.entries@.len() implies (#[trigger] self.entries@[a]).0@
                        != (#[trigger] self.entries@[b]).0@ by {
                        if b < self.entries@.len() - 1 {
                            assert(entries0[a].0@ != entries0[b].0@);
                        } else {
                            assert(self.entries@[a] == entries0[a]);
                        }
                    }
                }
            },
        }
    }
}

} // verus!
