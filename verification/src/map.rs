use vstd::prelude::*;

verus! {

/// True when `a` and `b` hold the same bytes.
pub fn bytes_eq(a: &[u8], b: &[u8]) -> (r: bool)
    ensures
        r == (a@ == b@),
{
    if a.len() != b.len() {
        return false;
    }
    let mut i: usize = 0;
    while i < a.len()
        invariant
            i <= a.len(),
            a.len() == b.len(),
            forall|k: int| 0 <= k < i ==> a@[k] == b@[k],
        decreases a.len() - i,
    {
        if a[i] != b[i] {
            return false;
        }
        i += 1;
    }
    assert(a@ =~= b@);
    true
}

/// The map a list of entries stands for: a later entry for a key shadows an
/// earlier one.
pub open spec fn map_of<V>(e: Seq<(Vec<u8>, V)>) -> Map<Seq<u8>, V>
    decreases e.len(),
{
    if e.len() == 0 {
        Map::empty()
    } else {
        map_of(e.drop_last()).insert(e.last().0@, e.last().1)
    }
}

/// No key occurs twice.
pub open spec fn keys_unique<V>(e: Seq<(Vec<u8>, V)>) -> bool {
    forall|i: int, j: int| 0 <= i < j < e.len() ==> e[i].0@ != e[j].0@
}

/// A map keyed by byte strings, kept as a list of entries in insertion
/// order with no key twice.
#[derive(Debug)]
pub struct ByteMap<V> {
    entries: Vec<(Vec<u8>, V)>,
}

impl<V> View for ByteMap<V> {
    type V = Map<Seq<u8>, V>;

    closed spec fn view(&self) -> Map<Seq<u8>, V> {
        map_of(self.entries@)
    }
}

pub proof fn lemma_map_of_dom<V>(e: Seq<(Vec<u8>, V)>, k: Seq<u8>)
    ensures
        map_of(e).contains_key(k) <==> exists|i: int| 0 <= i < e.len() && e[i].0@ == k,
    decreases e.len(),
{
    if e.len() > 0 {
        lemma_map_of_dom(e.drop_last(), k);
        if map_of(e).contains_key(k) && e.last().0@ != k {
            let i = choose|i: int| 0 <= i < e.len() - 1 && e.drop_last()[i].0@ == k;
            assert(e[i].0@ == k);
        }
        if exists|i: int| 0 <= i < e.len() && e[i].0@ == k {
            let i = choose|i: int| 0 <= i < e.len() && e[i].0@ == k;
            if i < e.len() - 1 {
                assert(e.drop_last()[i].0@ == k);
            }
        }
    }
}

/// With unique keys, the entry at `i` is what the map holds for its key.
pub proof fn lemma_map_of_at<V>(e: Seq<(Vec<u8>, V)>, i: int)
    requires
        keys_unique(e),
        0 <= i < e.len(),
    ensures
        map_of(e).contains_key(e[i].0@),
        map_of(e)[e[i].0@] == e[i].1,
    decreases e.len(),
{
    if i < e.len() - 1 {
        lemma_map_of_at(e.drop_last(), i);
        assert(e.drop_last()[i] == e[i]);
    }
}

pub proof fn lemma_map_of_finite_len<V>(e: Seq<(Vec<u8>, V)>)
    requires
        keys_unique(e),
    ensures
        map_of(e).dom().finite(),
        map_of(e).dom().len() == e.len(),
    decreases e.len(),
{
    if e.len() > 0 {
        let d = e.drop_last();
        assert(keys_unique(d));
        lemma_map_of_finite_len(d);
        lemma_map_of_dom(d, e.last().0@);
        assert(!map_of(d).contains_key(e.last().0@));
    }
}

/// Replacing the value at `i` (same key) updates the map at that key.
proof fn lemma_map_of_update<V>(e: Seq<(Vec<u8>, V)>, i: int, kv: (Vec<u8>, V))
    requires
        keys_unique(e),
        0 <= i < e.len(),
        kv.0@ == e[i].0@,
    ensures
        map_of(e.update(i, kv)) == map_of(e).insert(e[i].0@, kv.1),
    decreases e.len(),
{
    let v = kv.1;
    let e2 = e.update(i, kv);
    if i == e.len() - 1 {
        assert(e2.drop_last() =~= e.drop_last());
        lemma_map_of_dom(e.drop_last(), e[i].0@);
        assert(map_of(e2) =~= map_of(e).insert(e[i].0@, v));
    } else {
        let d = e.drop_last();
        assert(keys_unique(d));
        lemma_map_of_update(d, i, kv);
        assert(e2.drop_last() =~= d.update(i, kv));
        assert(e.last().0@ != e[i].0@);
        assert(map_of(e2) =~= map_of(e).insert(e[i].0@, v));
    }
}

/// Removing the entry at `i` removes its key from the map.
proof fn lemma_map_of_remove<V>(e: Seq<(Vec<u8>, V)>, i: int)
    requires
        keys_unique(e),
        0 <= i < e.len(),
    ensures
        map_of(e.remove(i)) == map_of(e).remove(e[i].0@),
        keys_unique(e.remove(i)),
    decreases e.len(),
{
    let e2 = e.remove(i);
    if i == e.len() - 1 {
        assert(e2 =~= e.drop_last());
        lemma_map_of_dom(e.drop_last(), e[i].0@);
        assert(map_of(e2) =~= map_of(e).remove(e[i].0@));
    } else {
        let d = e.drop_last();
        assert(keys_unique(d));
        lemma_map_of_remove(d, i);
        assert(e2.drop_last() =~= d.remove(i));
        assert(e2.last() == e.last());
        assert(e.last().0@ != e[i].0@);
        assert(map_of(e2) =~= map_of(e).remove(e[i].0@));
    }
    assert forall|a: int, b: int| 0 <= a < b < e2.len() implies e2[a].0@ != e2[b].0@ by {
        if a < i {
            if b < i {
            } else {
                assert(e2[b] == e[b + 1]);
            }
        } else {
            assert(e2[a] == e[a + 1]);
            assert(e2[b] == e[b + 1]);
        }
    }
}

impl<V> ByteMap<V> {
    /// No key occurs twice among the entries.
    pub closed spec fn wf(&self) -> bool {
        keys_unique(self.entries@)
    }

    /// An empty map.
    pub fn new() -> (m: Self)
        ensures
            m.wf(),
            m@ == Map::<Seq<u8>, V>::empty(),
    {
        ByteMap { entries: Vec::new() }
    }

    /// Position of the entry for `key`, if any.
    fn find(&self, key: &[u8]) -> (r: Option<usize>)
        ensures
            match r {
                Some(i) => i < self.entries@.len() && self.entries@[i as int].0@ == key@
                    && forall|j: int| i < j < self.entries@.len() ==> self.entries@[j].0@ != key@,
                None => forall|j: int| 0 <= j < self.entries@.len() ==> self.entries@[j].0@ != key@,
            },
    {
        let mut i = self.entries.len();
        while i > 0
            invariant
                i <= self.entries@.len(),
                forall|j: int| i <= j < self.entries@.len() ==> self.entries@[j].0@ != key@,
            decreases i,
        {
            i -= 1;
            if bytes_eq(self.entries[i].0.as_slice(), key) {
                return Some(i);
            }
        }
        None
    }

    /// The value held for `key`.
    pub fn get(&self, key: &[u8]) -> (r: Option<&V>)
        ensures
            match r {
                Some(v) => self@.contains_key(key@) && *v == self@[key@],
                None => !self@.contains_key(key@),
            },
    {
        proof { lemma_map_of_dom(self.entries@, key@); }
        match self.find(key) {
            Some(i) => {
                proof { self.lemma_last_entry(i as int); }
                Some(&self.entries[i].1)
            },
            None => None,
        }
    }

    proof fn lemma_last_entry(&self, i: int)
        requires
            0 <= i < self.entries@.len(),
            forall|j: int| i < j < self.entries@.len() ==> self.entries@[j].0@ != self.entries@[i].0@,
        ensures
            self@.contains_key(self.entries@[i].0@),
            self@[self.entries@[i].0@] == self.entries@[i].1,
    {
        lemma_last_wins(self.entries@, i);
    }

    /// True when `key` has a value.
    pub fn contains_key(&self, key: &[u8]) -> (r: bool)
        ensures
            r == self@.contains_key(key@),
    {
        self.get(key).is_some()
    }

    /// Number of keys.
    pub fn len(&self) -> (r: usize)
        requires
            self.wf(),
        ensures
            self@.dom().finite(),
            r == self@.dom().len(),
    {
        proof { lemma_map_of_finite_len(self.entries@); }
        self.entries.len()
    }

    /// Set `key` to `value`, replacing what it held.
    pub fn insert(&mut self, key: Vec<u8>, value: V)
        requires
            old(self).wf(),
        ensures
            final(self).wf(),
            final(self)@ == old(self)@.insert(key@, value),
    {
        match self.find(key.as_slice()) {
            Some(i) => {
                let ghost e = self.entries@;
                let ghost kv = (key, value);
                proof { lemma_map_of_update(e, i as int, kv); }
                self.entries.set(i, (key, value));
                assert(self.entries@ =~= e.update(i as int, kv));
                assert(keys_unique(self.entries@)) by {
                    assert forall|a: int, b: int| 0 <= a < b < self.entries@.len()
                        implies self.entries@[a].0@ != self.entries@[b].0@ by {
                        assert(self.entries@[a].0@ == e[a].0@);
                        assert(self.entries@[b].0@ == e[b].0@);
                    }
                }
            },
            None => {
                let ghost e = self.entries@;
                let ghost k = key@;
                self.entries.push((key, value));
                assert(self.entries@.drop_last() =~= e);
                assert(keys_unique(self.entries@)) by {
                    assert forall|a: int, b: int| 0 <= a < b < self.entries@.len()
                        implies self.entries@[a].0@ != self.entries@[b].0@ by {
                        if b == e.len() {
                            assert(self.entries@[a] == e[a]);
                        } else {
                            assert(self.entries@[a] == e[a]);
                            assert(self.entries@[b] == e[b]);
                        }
                    }
                }
            },
        }
    }

    /// Take out the value for `key`, if any.
    pub fn remove(&mut self, key: &[u8]) -> (r: Option<V>)
        requires
            old(self).wf(),
        ensures
            final(self).wf(),
            final(self)@ == old(self)@.remove(key@),
            match r {
                Some(v) => old(self)@.contains_key(key@) && v == old(self)@[key@],
                None => !old(self)@.contains_key(key@),
            },
    {
        proof { lemma_map_of_dom(self.entries@, key@); }
        match self.find(key) {
            Some(i) => {
                proof {
                    self.lemma_last_entry(i as int);
                    lemma_map_of_remove(self.entries@, i as int);
                }
                let (_, v) = self.entries.remove(i);
                Some(v)
            },
            None => {
                assert(!self@.contains_key(key@));
                assert(self@.remove(key@) =~= self@);
                None
            },
        }
    }
}

impl<V> ByteMap<V> {
    /// Every key, in insertion order.
    pub fn keys(&self) -> (r: Vec<Vec<u8>>)
        requires
            self.wf(),
        ensures
            r@.len() == self@.dom().len(),
            forall|i: int| 0 <= i < r@.len() ==> self@.contains_key(#[trigger] r@[i]@),
            forall|k: Seq<u8>| self@.contains_key(k) ==> exists|i: int| 0 <= i < r@.len() && #[trigger] r@[i]@ == k,
            forall|i: int, j: int| 0 <= i < j < r@.len() ==> r@[i]@ != r@[j]@,
    {
        proof {
            lemma_map_of_finite_len(self.entries@);
        }
        let mut out: Vec<Vec<u8>> = Vec::new();
        let mut i: usize = 0;
        while i < self.entries.len()
            invariant
                i <= self.entries@.len(),
                keys_unique(self.entries@),
                out@.len() == i,
                forall|t: int| 0 <= t < i ==> #[trigger] out@[t]@ == self.entries@[t].0@,
            decreases self.entries@.len() - i,
        {
            let mut k: Vec<u8> = Vec::new();
            let src = self.entries[i].0.as_slice();
            let mut j: usize = 0;
            while j < src.len()
                invariant
                    j <= src@.len(),
                    k@ == src@.subrange(0, j as int),
                decreases src@.len() - j,
            {
                k.push(src[j]);
                j = j + 1;
                assert(k@ =~= src@.subrange(0, j as int));
            }
            assert(src@.subrange(0, src@.len() as int) =~= src@);
            out.push(k);
            i = i + 1;
        }
        proof {
            assert forall|t: int| 0 <= t < out@.len() implies self@.contains_key(#[trigger] out@[t]@) by {
                lemma_map_of_dom(self.entries@, out@[t]@);
            }
            assert forall|key: Seq<u8>| self@.contains_key(key) implies exists|t: int|
                0 <= t < out@.len() && #[trigger] out@[t]@ == key by {
                lemma_map_of_dom(self.entries@, key);
                let t = choose|t: int| 0 <= t < self.entries@.len() && self.entries@[t].0@ == key;
                assert(out@[t]@ == key);
            }
        }
        out
    }
}

/// The last entry for a key is what the map holds for it.
pub proof fn lemma_last_wins<V>(e: Seq<(Vec<u8>, V)>, i: int)
    requires
        0 <= i < e.len(),
        forall|j: int| i < j < e.len() ==> e[j].0@ != e[i].0@,
    ensures
        map_of(e).contains_key(e[i].0@),
        map_of(e)[e[i].0@] == e[i].1,
    decreases e.len(),
{
    if i < e.len() - 1 {
        let d = e.drop_last();
        assert forall|j: int| i < j < d.len() implies d[j].0@ != d[i].0@ by {
            assert(d[j] == e[j]);
        }
        lemma_last_wins(d, i);
        assert(d[i] == e[i]);
    }
}

} // verus!
