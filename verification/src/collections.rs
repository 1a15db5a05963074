//! Maps and sets keyed by text.
use vstd::prelude::*;
use vstd::string::*;
use crate::text::{lemma_texts_push, text_eq, texts};

verus! {

/// A map from texts to values. The keys keep the order in which they came.
pub struct TextMap<V> {
    keys: Vec<String>,
    vals: Vec<V>,
}

impl<V> TextMap<V> {
    /// The keys, oldest first.
    pub closed spec fn keys_seq(&self) -> Seq<Seq<char>> {
        texts(self.keys@)
    }

    /// What the map holds.
    pub closed spec fn view(&self) -> Map<Seq<char>, V> {
        Map::new(
            |k: Seq<char>| texts(self.keys@).contains(k),
            |k: Seq<char>| self.vals@[texts(self.keys@).index_of(k)],
        )
    }

    /// Each key has one value and occurs once.
    pub closed spec fn wf(&self) -> bool {
        &&& self.keys@.len() == self.vals@.len()
        &&& texts(self.keys@).no_duplicates()
    }

    proof fn lemma_at(&self, i: int)
        requires
            self.wf(),
            0 <= i < self.keys@.len(),
        ensures
            self@.contains_key(self.keys@[i]@),
            self@[self.keys@[i]@] == self.vals@[i],
    {
        let ks = texts(self.keys@);
        assert(ks[i] == self.keys@[i]@);
        assert(ks.contains(ks[i]));
        assert(ks[ks.index_of(ks[i])] == ks[i]);
    }

    /// The keys listed are the keys of the map, each once.
    pub proof fn lemma_keys(&self)
        requires
            self.wf(),
        ensures
            self.keys_seq().no_duplicates(),
            self.keys_seq().to_set() == self@.dom(),
            self@.dom().finite(),
            self@.dom().len() == self.keys_seq().len(),
    {
        assert(self.keys_seq().to_set() =~= self@.dom());
        self.keys_seq().unique_seq_to_set();
    }

    /// A map that holds nothing.
    pub fn new() -> (r: TextMap<V>)
        ensures
            r.wf(),
            r@ == Map::<Seq<char>, V>::empty(),
            r.keys_seq() == Seq::<Seq<char>>::empty(),
    {
        let r = TextMap { keys: Vec::new(), vals: Vec::new() };
        assert(r@ =~= Map::<Seq<char>, V>::empty());
        assert(r.keys_seq() =~= Seq::<Seq<char>>::empty());
        r
    }

    /// How many keys there are.
    pub fn len(&self) -> (r: usize)
        requires
            self.wf(),
        ensures
            r == self@.dom().len(),
            r == self.keys_seq().len(),
    {
        proof {
            self.lemma_keys();
        }
        self.keys.len()
    }

    fn position(&self, k: &str) -> (r: Option<usize>)
        requires
            self.wf(),
        ensures
            match r {
                Some(i) => i < self.keys@.len() && self.keys@[i as int]@ == k@,
                None => !texts(self.keys@).contains(k@),
            },
    {
        let mut i: usize = 0;
        while i < self.keys.len()
            invariant
                i <= self.keys@.len(),
                forall|j: int| 0 <= j < i ==> self.keys@[j]@ != k@,
            decreases self.keys@.len() - i,
        {
            if text_eq(self.keys[i].as_str(), k) {
                return Some(i);
            }
            i += 1;
        }
        None
    }

    /// Whether a key is there.
    pub fn contains(&self, k: &str) -> (r: bool)
        requires
            self.wf(),
        ensures
            r == self@.contains_key(k@),
    {
        match self.position(k) {
            Some(i) => {
                proof {
                    self.lemma_at(i as int);
                }
                true
            },
            None => false,
        }
    }

    /// The value of a key.
    pub fn get(&self, k: &str) -> (r: Option<&V>)
        requires
            self.wf(),
        ensures
            match r {
                Some(v) => self@.contains_key(k@) && *v == self@[k@],
                None => !self@.contains_key(k@),
            },
    {
        match self.position(k) {
            Some(i) => {
                proof {
                    self.lemma_at(i as int);
                }
                Some(&self.vals[i])
            },
            None => None,
        }
    }

    /// Takes a key and its value out.
    pub fn remove(&mut self, k: &str) -> (r: Option<V>)
        requires
            old(self).wf(),
        ensures
            final(self).wf(),
            final(self)@ == old(self)@.remove(k@),
            match r {
                Some(v) => old(self)@.contains_key(k@) && v == old(self)@[k@],
                None => !old(self)@.contains_key(k@),
            },
    {
        match self.position(k) {
            Some(i) => {
                let ghost was = *self;
                let ghost ks = texts(self.keys@);
                proof {
                    self.lemma_at(i as int);
                }
                let gone = self.keys.remove(i);
                let v = self.vals.remove(i);
                proof {
                    let ns = texts(self.keys@);
                    assert(ns =~= ks.remove(i as int));
                    assert(ks[i as int] == k@);
                    assert forall|a: int, b: int| 0 <= a < b < ns.len() implies ns[a] != ns[b] by {
                        let (x, y) = (
                            if a < i { a } else { a + 1 },
                            if b < i { b } else { b + 1 },
                        );
                        assert(ks[x] == ns[a] && ks[y] == ns[b]);
                    }
                    assert forall|q: Seq<char>| self@.contains_key(q) == was@.remove(k@).contains_key(
                        q,
                    ) by {
                        if ns.contains(q) {
                            let a = ns.index_of(q);
                            let x = if a < i { a } else { a + 1 };
                            assert(ks[x] == q);
                            assert(ks[x] != ks[i as int]);
                        }
                        if ks.contains(q) && q != k@ {
                            let x = ks.index_of(q);
                            let a = if x < i { x } else { x - 1 };
                            assert(ns[a] == q);
                        }
                    }
                    assert forall|q: Seq<char>| self@.contains_key(q) implies self@[q] == was@.remove(
                        k@,
                    )[q] by {
                        let a = ns.index_of(q);
                        let x = if a < i { a } else { a + 1 };
                        assert(ks[x] == q);
                        was.lemma_at(x);
                        self.lemma_at(a);
                    }
                    assert(self@ =~= was@.remove(k@));
                }
                Some(v)
            },
            None => {
                assert(self@.remove(k@) =~= self@);
                None
            },
        }
    }

    /// Gives a key a value.
    pub fn insert(&mut self, k: &str, v: V)
        requires
            old(self).wf(),
        ensures
            final(self).wf(),
            final(self)@ == old(self)@.insert(k@, v),
            final(self).keys_seq() == if old(self)@.contains_key(k@) {
                old(self).keys_seq()
            } else {
                old(self).keys_seq().push(k@)
            },
    {
        let ghost was = *self;
        let ghost ks = texts(self.keys@);
        match self.position(k) {
            Some(i) => {
                proof {
                    self.lemma_at(i as int);
                }
                self.vals.set(i, v);
                proof {
                    assert(ks[i as int] == k@);
                    assert forall|q: Seq<char>| self@.contains_key(q) implies self@[q] == was@.insert(
                        k@,
                        v,
                    )[q] by {
                        let a = ks.index_of(q);
                        was.lemma_at(a);
                        self.lemma_at(a);
                    }
                    assert(self@ =~= was@.insert(k@, v));
                }
            },
            None => {
                let t = k.to_string();
                proof {
                    lemma_texts_push(self.keys@, t);
                }
                self.keys.push(t);
                self.vals.push(v);
                proof {
                    let ns = texts(self.keys@);
                    assert(ns =~= ks.push(k@));
                    assert forall|a: int, b: int| 0 <= a < b < ns.len() implies ns[a] != ns[b] by {
                        assert(ns[a] == ks[a]);
                        if b < ks.len() {
                            assert(ns[b] == ks[b]);
                        } else {
                            assert(ks.contains(ks[a]));
                        }
                    }
                    assert forall|q: Seq<char>| self@.contains_key(q) == was@.insert(
                        k@,
                        v,
                    ).contains_key(q) by {
                        if ns.contains(q) && q != k@ {
                            let a = ns.index_of(q);
                            assert(ks[a] == q);
                        }
                        if ks.contains(q) {
                            let a = ks.index_of(q);
                            assert(ns[a] == q);
                        }
                        assert(ns[ks.len() as int] == k@);
                    }
                    assert forall|q: Seq<char>| self@.contains_key(q) implies self@[q] == was@.insert(
                        k@,
                        v,
                    )[q] by {
                        let a = ns.index_of(q);
                        self.lemma_at(a);
                        if a < ks.len() {
                            assert(ks[a] == q);
                            assert(ks.contains(q));
                            was.lemma_at(a);
                        }
                    }
                    assert(self@ =~= was@.insert(k@, v));
                }
            },
        }
    }

    /// Takes everything out.
    pub fn clear(&mut self)
        ensures
            final(self).wf(),
            final(self)@ == Map::<Seq<char>, V>::empty(),
            final(self).keys_seq() == Seq::<Seq<char>>::empty(),
    {
        *self = TextMap::new();
    }

    /// The keys, oldest first.
    pub fn keys(&self) -> (r: Vec<String>)
        ensures
            texts(r@) == self.keys_seq(),
    {
        let mut r: Vec<String> = Vec::new();
        let mut i: usize = 0;
        assert(texts(r@) =~= self.keys_seq().take(0));
        while i < self.keys.len()
            invariant
                i <= self.keys@.len(),
                texts(r@) == self.keys_seq().take(i as int),
            decreases self.keys@.len() - i,
        {
            let t = self.keys[i].clone();
            proof {
                lemma_texts_push(r@, t);
                assert(self.keys_seq().take(i + 1) =~= self.keys_seq().take(i as int).push(
                    self.keys@[i as int]@,
                ));
            }
            r.push(t);
            i += 1;
        }
        assert(self.keys_seq().take(self.keys@.len() as int) =~= self.keys_seq());
        r
    }
}

/// A set of texts.
pub struct TextSet {
    items: TextMap<()>,
}

impl TextSet {
    /// What the set holds.
    pub closed spec fn view(&self) -> Set<Seq<char>> {
        self.items@.dom()
    }

    pub closed spec fn wf(&self) -> bool {
        self.items.wf()
    }

    /// A set holds finitely many texts.
    pub proof fn lemma_finite(&self)
        requires
            self.wf(),
        ensures
            self@.finite(),
    {
        self.items.lemma_keys();
    }

    /// The empty set.
    pub fn new() -> (r: TextSet)
        ensures
            r.wf(),
            r@ == Set::<Seq<char>>::empty(),
    {
        let r = TextSet { items: TextMap::new() };
        assert(r@ =~= Set::<Seq<char>>::empty());
        r
    }

    /// How many texts there are.
    pub fn len(&self) -> (r: usize)
        requires
            self.wf(),
        ensures
            r == self@.len(),
    {
        self.items.len()
    }

    /// Whether a text is in the set.
    pub fn contains(&self, k: &str) -> (r: bool)
        requires
            self.wf(),
        ensures
            r == self@.contains(k@),
    {
        self.items.contains(k)
    }

    /// Puts a text in.
    pub fn insert(&mut self, k: &str)
        requires
            old(self).wf(),
        ensures
            final(self).wf(),
            final(self)@ == old(self)@.insert(k@),
    {
        self.items.insert(k, ());
        assert(self@ =~= old(self)@.insert(k@));
    }

    /// Takes a text out, and says whether it was there.
    pub fn remove(&mut self, k: &str) -> (r: bool)
        requires
            old(self).wf(),
        ensures
            final(self).wf(),
            final(self)@ == old(self)@.remove(k@),
            r == old(self)@.contains(k@),
    {
        let r = self.items.remove(k).is_some();
        assert(self@ =~= old(self)@.remove(k@));
        r
    }

    /// Puts a text in where it is missing and takes it out where it is there.
    pub fn toggle(&mut self, k: &str)
        requires
            old(self).wf(),
        ensures
            final(self).wf(),
            final(self)@ == toggled(old(self)@, k@),
    {
        if !self.remove(k) {
            self.insert(k);
            assert(self@ =~= old(self)@.insert(k@));
        }
    }
}

/// A set with one member put in or taken out.
pub open spec fn toggled(s: Set<Seq<char>>, k: Seq<char>) -> Set<Seq<char>> {
    if s.contains(k) {
        s.remove(k)
    } else {
        s.insert(k)
    }
}

/// Toggling twice changes nothing.
pub proof fn toggling_twice_changes_nothing(s: Set<Seq<char>>, k: Seq<char>)
    ensures
        toggled(toggled(s, k), k) == s,
{
    assert(toggled(toggled(s, k), k) =~= s);
}

/// Toggling a text changes whether it is there, and nothing about any other.
pub proof fn toggling_changes_one(s: Set<Seq<char>>, k: Seq<char>, other: Seq<char>)
    ensures
        toggled(s, k).contains(k) <==> !s.contains(k),
        other != k ==> (toggled(s, k).contains(other) <==> s.contains(other)),
{
}

} // verus!
