use vstd::prelude::*;
use vstd::string::*;

verus! {

/// The map that the entries `s` describe, later entries winning.
pub open spec fn map_of<V>(s: Seq<(Seq<char>, V)>) -> Map<Seq<char>, V>
    decreases s.len(),
{
    if s.len() == 0 {
        Map::empty()
    } else {
        map_of(s.drop_last()).insert(s.last().0, s.last().1)
    }
}

/// No two entries of `s` have the same key.
pub open spec fn keys_unique<V>(s: Seq<(Seq<char>, V)>) -> bool {
    forall|i: int, j: int| 0 <= i < j < s.len() ==> #[trigger] s[i].0 != #[trigger] s[j].0
}

pub proof fn lemma_map_of<V>(s: Seq<(Seq<char>, V)>)
    requires
        keys_unique(s),
    ensures
        map_of(s).dom().finite(),
        map_of(s).dom().len() == s.len(),
        forall|i: int|
            0 <= i < s.len() ==> #[trigger] map_of(s).contains_key(s[i].0) && map_of(s)[s[i].0]
                == s[i].1,
        forall|k: Seq<char>|
            #[trigger] map_of(s).contains_key(k) ==> exists|i: int| 0 <= i < s.len() && s[i].0 == k,
    decreases s.len(),
{
    if s.len() > 0 {
        let t = s.drop_last();
        assert(keys_unique(t)) by {
            assert forall|i: int, j: int| 0 <= i < j < t.len() implies #[trigger] t[i].0
                != #[trigger] t[j].0 by {
                assert(t[i] == s[i] && t[j] == s[j]);
            }
        }
        lemma_map_of(t);
        let last = s.last();
        if map_of(t).contains_key(last.0) {
            let i = choose|i: int| 0 <= i < t.len() && t[i].0 == last.0;
            assert(s[i].0 == s[s.len() - 1].0);
        }
        assert forall|i: int| 0 <= i < s.len() implies #[trigger] map_of(s).contains_key(s[i].0)
            && map_of(s)[s[i].0] == s[i].1 by {
            if i < s.len() - 1 {
                assert(t[i] == s[i]);
                assert(s[i].0 != s[s.len() - 1].0);
            }
        }
        assert forall|k: Seq<char>| #[trigger] map_of(s).contains_key(k) implies exists|i: int|
            0 <= i < s.len() && s[i].0 == k by {
            if k != last.0 {
                let i = choose|i: int| 0 <= i < t.len() && t[i].0 == k;
                assert(s[i] == t[i]);
            } else {
                assert(s[s.len() - 1].0 == k);
            }
        }
    }
}

pub proof fn lemma_map_of_update<V>(s: Seq<(Seq<char>, V)>, i: int, v: V)
    requires
        keys_unique(s),
        0 <= i < s.len(),
    ensures
        map_of(s.update(i, (s[i].0, v))) == map_of(s).insert(s[i].0, v),
    decreases s.len(),
{
    let u = s.update(i, (s[i].0, v));
    let t = s.drop_last();
    if i == s.len() - 1 {
        assert(u.drop_last() =~= t);
        assert(map_of(s).insert(s[i].0, v) =~= map_of(t).insert(s[i].0, v));
    } else {
        assert(keys_unique(t)) by {
            assert forall|a: int, b: int| 0 <= a < b < t.len() implies #[trigger] t[a].0
                != #[trigger] t[b].0 by {
                assert(t[a] == s[a] && t[b] == s[b]);
            }
        }
        lemma_map_of_update(t, i, v);
        assert(u.drop_last() =~= t.update(i, (t[i].0, v)));
        assert(s[i].0 != s.last().0);
        assert(map_of(u) =~= map_of(s).insert(s[i].0, v));
    }
}

pub proof fn lemma_map_of_remove<V>(s: Seq<(Seq<char>, V)>, i: int)
    requires
        keys_unique(s),
        0 <= i < s.len(),
    ensures
        map_of(s.remove(i)) == map_of(s).remove(s[i].0),
    decreases s.len(),
{
    let r = s.remove(i);
    let t = s.drop_last();
    assert(keys_unique(t)) by {
        assert forall|a: int, b: int| 0 <= a < b < t.len() implies #[trigger] t[a].0
            != #[trigger] t[b].0 by {
            assert(t[a] == s[a] && t[b] == s[b]);
        }
    }
    lemma_map_of(t);
    if i == s.len() - 1 {
        assert(r =~= t);
        assert forall|k: Seq<char>| #[trigger] map_of(t).contains_key(k) implies k != s[i].0 by {
            let q = choose|q: int| 0 <= q < t.len() && t[q].0 == k;
            assert(s[q].0 == k);
        }
        assert(map_of(r) =~= map_of(s).remove(s[i].0));
    } else {
        lemma_map_of_remove(t, i);
        assert(r.drop_last() =~= t.remove(i));
        assert(r.last() == s.last());
        assert(s[i].0 != s.last().0);
        assert(map_of(r) =~= map_of(s).remove(s[i].0));
    }
}

/// A map keyed by text, holding its entries in the order of first insertion.
#[derive(Debug, Clone)]
pub struct StrMap<V> {
    entries: Vec<(String, V)>,
}

impl<V> View for StrMap<V> {
    type V = Map<Seq<char>, V>;

    closed spec fn view(&self) -> Map<Seq<char>, V> {
        map_of(self.items())
    }
}

impl<V> StrMap<V> {
    /// The entries, in the order in which they are held.
    pub closed spec fn items(self) -> Seq<(Seq<char>, V)> {
        self.entries@.map_values(|p: (String, V)| (p.0@, p.1))
    }

    /// No key is held twice.
    pub open spec fn wf(self) -> bool {
        keys_unique(self.items())
    }

    /// What the view is, in terms of the entries.
    pub proof fn lemma_view(self)
        requires
            self.wf(),
        ensures
            self@ == map_of(self.items()),
            self@.dom().finite(),
            self@.dom().len() == self.items().len(),
            forall|i: int|
                0 <= i < self.items().len() ==> #[trigger] self@.contains_key(self.items()[i].0)
                    && self@[self.items()[i].0] == self.items()[i].1,
            forall|k: Seq<char>|
                #[trigger] self@.contains_key(k) ==> exists|i: int|
                    0 <= i < self.items().len() && self.items()[i].0 == k,
    {
        let s = self.items();
        lemma_map_of(s);
        assert forall|i: int| 0 <= i < s.len() implies #[trigger] self@.contains_key(s[i].0)
            && self@[s[i].0] == s[i].1 by {
            assert(map_of(s).contains_key(s[i].0));
        }
    }

    pub fn new() -> (r: Self)
        ensures
            r.wf(),
            r.items().len() == 0,
            r@ == Map::<Seq<char>, V>::empty(),
    {
        let r = StrMap { entries: Vec::new() };
        assert(r.items() =~= Seq::empty());
        r
    }

    pub fn len(&self) -> (r: usize)
        ensures
            r == self.items().len(),
    {
        self.entries.len()
    }

    pub fn is_empty(&self) -> (r: bool)
        ensures
            r == (self.items().len() == 0),
    {
        self.entries.len() == 0
    }

    /// The key of the `i`-th entry.
    pub fn key_at(&self, i: usize) -> (r: &String)
        requires
            i < self.items().len(),
        ensures
            r@ == self.items()[i as int].0,
    {
        &self.entries[i].0
    }

    /// The value of the `i`-th entry.
    pub fn value_at(&self, i: usize) -> (r: &V)
        requires
            i < self.items().len(),
        ensures
            *r == self.items()[i as int].1,
    {
        &self.entries[i].1
    }

    /// Where `key` is held, if it is.
    pub fn position(&self, key: &str) -> (r: Option<usize>)
        ensures
            match r {
                Some(i) => i < self.items().len() && self.items()[i as int].0 == key@,
                None => forall|i: int| 0 <= i < self.items().len() ==> self.items()[i].0 != key@,
            },
    {
        let k = String::from_str(key);
        let mut i: usize = 0;
        while i < self.entries.len()
            invariant
                k@ == key@,
                i <= self.items().len(),
                self.items().len() == self.entries@.len(),
                forall|j: int| 0 <= j < i ==> self.items()[j].0 != key@,
            decreases self.entries@.len() - i,
        {
            if self.entries[i].0 == k {
                return Some(i);
            }
            i = i + 1;
        }
        None
    }

    /// The value held under `key`.
    pub fn get(&self, key: &str) -> (r: Option<&V>)
        requires
            self.wf(),
        ensures
            match r {
                Some(v) => self@.contains_key(key@) && *v == self@[key@],
                None => !self@.contains_key(key@),
            },
    {
        proof {
            self.lemma_view();
        }
        match self.position(key) {
            Some(i) => {
                assert(self.items()[i as int].1 == self.entries@[i as int].1);
                assert(self@.contains_key(self.items()[i as int].0));
                Some(&self.entries[i].1)
            },
            None => None,
        }
    }

    /// Takes out the value held under `key`, if any.
    pub fn remove(&mut self, key: &str) -> (r: Option<V>)
        requires
            old(self).wf(),
        ensures
            final(self).wf(),
            final(self)@ == old(self)@.remove(key@),
            match r {
                Some(v) => old(self)@.contains_key(key@) && v == old(self)@[key@],
                None => !old(self)@.contains_key(key@),
            },
    {
        let ghost s0 = self.items();
        proof {
            lemma_map_of(s0);
        }
        match self.position(key) {
            Some(i) => {
                let (_, v) = self.entries.remove(i);
                proof {
                    assert(self.items() =~= s0.remove(i as int));
                    lemma_map_of_remove(s0, i as int);
                    assert forall|a: int, b: int| 0 <= a < b < self.items().len() implies #[trigger] self.items()[a].0
                        != #[trigger] self.items()[b].0 by {
                        let a0 = if a < i { a } else { a + 1 };
                        let b0 = if b < i { b } else { b + 1 };
                        assert(self.items()[a] == s0[a0] && self.items()[b] == s0[b0]);
                    }
                    assert(map_of(s0).contains_key(s0[i as int].0));
                }
                Some(v)
            },
            None => {
                proof {
                    assert(!map_of(s0).contains_key(key@)) by {
                        if map_of(s0).contains_key(key@) {
                            let q = choose|q: int| 0 <= q < s0.len() && s0[q].0 == key@;
                        }
                    }
                    assert(map_of(s0).remove(key@) =~= map_of(s0));
                }
                None
            },
        }
    }

    /// Puts `value` in the `i`-th entry, under the same key, and hands back the value that
    /// was there.
    pub fn set_value_at(&mut self, i: usize, value: V) -> (r: V)
        requires
            old(self).wf(),
            i < old(self).items().len(),
        ensures
            final(self).wf(),
            final(self).items() == old(self).items().update(i as int, (old(self).items()[i as int].0, value)),
            r == old(self).items()[i as int].1,
    {
        let ghost s0 = self.items();
        let (k, v) = self.entries.remove(i);
        self.entries.insert(i, (k, value));
        proof {
            assert(self.items() =~= s0.update(i as int, (s0[i as int].0, value)));
            assert forall|a: int, b: int| 0 <= a < b < self.items().len() implies #[trigger] self.items()[a].0
                != #[trigger] self.items()[b].0 by {
                assert(self.items()[a].0 == s0[a].0 && self.items()[b].0 == s0[b].0);
            }
        }
        v
    }

    /// Holds `value` under `key`, in place of any value held there before.
    pub fn insert(&mut self, key: String, value: V)
        requires
            old(self).wf(),
        ensures
            final(self).wf(),
            final(self)@ == old(self)@.insert(key@, value),
    {
        let ghost s0 = self.items();
        proof {
            lemma_map_of(s0);
        }
        match self.position(key.as_str()) {
            Some(i) => {
                self.entries.set(i, (key, value));
                proof {
                    assert(self.items() =~= s0.update(i as int, (s0[i as int].0, value)));
                    lemma_map_of_update(s0, i as int, value);
                    assert forall|a: int, b: int| 0 <= a < b < self.items().len() implies #[trigger] self.items()[a].0
                        != #[trigger] self.items()[b].0 by {
                        assert(self.items()[a].0 == s0[a].0 && self.items()[b].0 == s0[b].0);
                    }
                }
            },
            None => {
                let ghost kv = key@;
                self.entries.push((key, value));
                proof {
                    assert(self.items() =~= s0.push((kv, value)));
                    assert(self.items().drop_last() =~= s0);
                    assert forall|a: int, b: int| 0 <= a < b < self.items().len() implies #[trigger] self.items()[a].0
                        != #[trigger] self.items()[b].0 by {
                        if b < s0.len() {
                            assert(self.items()[a].0 == s0[a].0 && self.items()[b].0 == s0[b].0);
                        } else {
                            assert(self.items()[a].0 == s0[a].0);
                        }
                    }
                }
            },
        }
    }
}

impl<V> Default for StrMap<V> {
    fn default() -> (r: Self)
        ensures
            r.wf(),
            r@ == Map::<Seq<char>, V>::empty(),
    {
        StrMap::new()
    }
}

} // verus!
