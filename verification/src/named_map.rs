//! A map keyed by names (strings), kept as a list of entries without
//! repeated names. It stands where the configuration keeps a
//! `HashMap<String, _>`: the contents are a `Map` from names to values, and
//! the entries also have an order (the order in which names first arrived).
use vstd::prelude::*;

verus! {

pub struct NamedMap<V> {
    entries: Vec<(String, V)>,
}

/// Names of a list of entries, in order.
pub open spec fn entry_names<V>(e: Seq<(String, V)>) -> Seq<Seq<char>> {
    e.map_values(|p: (String, V)| p.0@)
}

impl<V> NamedMap<V> {
    /// The names, in entry order.
    pub closed spec fn names(&self) -> Seq<Seq<char>> {
        entry_names(self.entries@)
    }

    pub closed spec fn entry_seq(&self) -> Seq<(String, V)> {
        self.entries@
    }

    /// No name occurs twice.
    pub closed spec fn wf(&self) -> bool {
        self.names().no_duplicates()
    }

    #[verifier::type_invariant]
    closed spec fn names_distinct(&self) -> bool {
        self.wf()
    }

    /// Every value of this type satisfies `wf`.
    pub fn assert_wf(&self)
        ensures
            self.wf(),
    {
        proof {
            use_type_invariant(self);
        }
    }

    /// Contents as a map from names to values.
    pub closed spec fn contents(&self) -> Map<Seq<char>, V> {
        Map::new(
            |k: Seq<char>| self.names().contains(k),
            |k: Seq<char>| self.entries@[self.names().index_of(k)].1,
        )
    }

    /// The names are distinct and are exactly the keys of the contents.
    pub proof fn lemma_names(&self)
        requires
            self.wf(),
        ensures
            self.names().no_duplicates(),
            self.names().to_set() == self.contents().dom(),
            forall|i: int|
                0 <= i < self.names().len() ==> #[trigger] self.contents()[self.names()[i]]
                    == self.entry_seq()[i].1,
            forall|k: Seq<char>|
                #[trigger] self.contents().contains_key(k) <==> self.names().contains(k),
            self.names().len() == self.entry_seq().len(),
    {
        let n = self.names();
        assert forall|i: int| 0 <= i < n.len() implies #[trigger] self.contents()[n[i]]
            == self.entries@[i].1 by {
            assert(n.contains(n[i]));
            let j = n.index_of(n[i]);
            assert(n[j] == n[i]);
        }
        assert(n.to_set() =~= self.contents().dom());
    }

    pub fn new() -> (m: Self)
        ensures
            m.contents() == Map::<Seq<char>, V>::empty(),
            m.names() == Seq::<Seq<char>>::empty(),
    {
        let m = NamedMap { entries: Vec::new() };
        assert(m.names() =~= Seq::<Seq<char>>::empty());
        assert(m.contents() =~= Map::<Seq<char>, V>::empty());
        m
    }

    pub fn len(&self) -> (n: usize)
        ensures
            n == self.names().len(),
            n == self.contents().len(),
    {
        proof {
            use_type_invariant(&*self);
            self.lemma_names();
            self.names().unique_seq_to_set();
        }
        self.entries.len()
    }

    /// Position of a name among the entries.
    fn position(&self, k: &str) -> (r: Option<usize>)
        ensures
            match r {
                Some(i) => i < self.names().len() && self.names()[i as int] == k@,
                None => !self.names().contains(k@),
            },
    {
        let mut i: usize = 0;
        while i < self.entries.len()
            invariant
                i <= self.entries@.len(),
                forall|j: int| 0 <= j < i ==> self.names()[j] != k@,
            decreases self.entries@.len() - i,
        {
            if crate::text::str_eq(self.entries[i].0.as_str(), k) {
                return Some(i);
            }
            i = i + 1;
        }
        None
    }

    pub fn contains_key(&self, k: &str) -> (b: bool)
        ensures
            b == self.contents().contains_key(k@),
    {
        proof {
            use_type_invariant(&*self);
            self.lemma_names();
        }
        self.position(k).is_some()
    }

    pub fn get(&self, k: &str) -> (r: Option<&V>)
        ensures
            match r {
                Some(v) => self.contents().contains_key(k@) && *v == self.contents()[k@],
                None => !self.contents().contains_key(k@),
            },
    {
        proof {
            use_type_invariant(&*self);
            self.lemma_names();
        }
        match self.position(k) {
            Some(i) => Some(&self.entries[i].1),
            None => None,
        }
    }

    /// Inserts or replaces; a new name goes after the existing ones.
    pub fn insert(&mut self, k: String, v: V) -> (old_v: Option<V>)
        ensures
            final(self).contents() == old(self).contents().insert(k@, v),
            old(self).contents().contains_key(k@) ==> final(self).names() == old(self).names(),
            !old(self).contents().contains_key(k@) ==> final(self).names() == old(self).names().push(
                k@,
            ),
            match old_v {
                Some(w) => old(self).contents().contains_key(k@) && w == old(self).contents()[k@],
                None => !old(self).contents().contains_key(k@),
            },
    {
        proof {
            use_type_invariant(&*self);
            self.lemma_names();
        }
        let ghost old_names = self.names();
        let ghost old_contents = self.contents();
        let ghost kk = k@;
        match self.position(k.as_str()) {
            Some(i) => {
                let mut entries: Vec<(String, V)> = Vec::new();
                std::mem::swap(&mut entries, &mut self.entries);
                let ghost e0 = entries@;
                let (name, old_value) = entries.remove(i);
                entries.insert(i, (name, v));
                assert(entries@ =~= e0.update(i as int, (e0[i as int].0, v)));
                assert(entry_names(entries@) =~= old_names);
                self.entries = entries;
                proof {
                    self.lemma_names();
                    assert forall|key: Seq<char>| #[trigger]
                        self.contents().contains_key(key) implies self.contents()[key]
                        == old_contents.insert(kk, v)[key] by {
                        let j = old_names.index_of(key);
                        assert(old_names[j] == key);
                    }
                    assert(self.contents() =~= old_contents.insert(kk, v));
                }
                Some(old_value)
            },
            None => {
                let mut entries: Vec<(String, V)> = Vec::new();
                std::mem::swap(&mut entries, &mut self.entries);
                entries.push((k, v));
                assert(entry_names(entries@) =~= old_names.push(kk));
                proof {
                    lemma_push_distinct(old_names, kk);
                }
                self.entries = entries;
                proof {
                    self.lemma_names();
                    assert forall|key: Seq<char>| #[trigger]
                        self.contents().contains_key(key) implies self.contents()[key]
                        == old_contents.insert(kk, v)[key] by {
                        if key == kk {
                            assert(self.names()[old_names.len() as int] == kk);
                        } else {
                            let j = old_names.index_of(key);
                            assert(old_names[j] == key);
                            assert(self.names()[j] == key);
                        }
                    }
                    assert forall|key: Seq<char>|
                        #[trigger] self.contents().contains_key(key) == old_contents.insert(
                            kk,
                            v,
                        ).contains_key(key) by {
                        if old_names.contains(key) {
                            let j = old_names.index_of(key);
                            assert(self.names()[j] == key);
                        }
                        if key == kk {
                            assert(self.names()[old_names.len() as int] == kk);
                        }
                    }
                    assert(self.contents() =~= old_contents.insert(kk, v));
                }
                None
            },
        }
    }

    /// Removes a name; the other entries keep their order.
    pub fn remove(&mut self, k: &str) -> (old_v: Option<V>)
        ensures
            final(self).contents() == old(self).contents().remove(k@),
            old(self).contents().contains_key(k@) ==> final(self).names() == old(self).names().remove(
                old(self).names().index_of(k@),
            ),
            !old(self).contents().contains_key(k@) ==> final(self).names() == old(self).names(),
            match old_v {
                Some(w) => old(self).contents().contains_key(k@) && w == old(self).contents()[k@],
                None => !old(self).contents().contains_key(k@),
            },
    {
        proof {
            use_type_invariant(&*self);
            self.lemma_names();
        }
        let ghost old_names = self.names();
        let ghost old_contents = self.contents();
        let ghost kk = k@;
        match self.position(k) {
            Some(i) => {
                let mut entries: Vec<(String, V)> = Vec::new();
                std::mem::swap(&mut entries, &mut self.entries);
                let (_name, old_value) = entries.remove(i);
                assert(entry_names(entries@) =~= old_names.remove(i as int));
                proof {
                    lemma_remove_distinct(old_names, i as int);
                    assert(old_names.index_of(kk) == i as int) by {
                        let j = old_names.index_of(kk);
                        assert(old_names[j] == kk);
                    }
                }
                self.entries = entries;
                proof {
                    self.lemma_names();
                    assert forall|key: Seq<char>| #[trigger]
                        self.contents().contains_key(key) implies self.contents()[key]
                        == old_contents.remove(kk)[key] by {
                        let j = self.names().index_of(key);
                        assert(self.names()[j] == key);
                        if j < i {
                            assert(old_names[j] == key);
                        } else {
                            assert(old_names[j + 1] == key);
                        }
                    }
                    assert forall|key: Seq<char>|
                        #[trigger] self.contents().contains_key(key) == old_contents.remove(
                            kk,
                        ).contains_key(key) by {
                        if self.names().contains(key) {
                            let j = self.names().index_of(key);
                            assert(self.names()[j] == key);
                            if j < i {
                                assert(old_names[j] == key);
                            } else {
                                assert(old_names[j + 1] == key);
                            }
                        }
                        if old_names.contains(key) && key != kk {
                            let j = old_names.index_of(key);
                            if j < i {
                                assert(self.names()[j] == key);
                            } else {
                                assert(j != i);
                                assert(self.names()[j - 1] == key);
                            }
                        }
                    }
                    assert(self.contents() =~= old_contents.remove(kk));
                }
                Some(old_value)
            },
            None => {
                proof {
                    assert(old_contents =~= old_contents.remove(kk));
                }
                None
            },
        }
    }

    /// The names, in entry order.
    pub fn name_list(&self) -> (r: Vec<String>)
        ensures
            r@.map_values(|s: String| s@) == self.names(),
    {
        let mut r: Vec<String> = Vec::new();
        let mut i: usize = 0;
        while i < self.entries.len()
            invariant
                i <= self.entries@.len(),
                r@.len() == i,
                forall|j: int| 0 <= j < i ==> #[trigger] r@[j]@ == self.names()[j],
            decreases self.entries@.len() - i,
        {
            let c = self.entries[i].0.clone();
            assert(self.names()[i as int] == self.entries@[i as int].0@);
            r.push(c);
            i = i + 1;
        }
        assert(r@.map_values(|s: String| s@) =~= self.names());
        r
    }

    /// The entries (name and value), in entry order.
    pub fn into_entries(self) -> (r: Vec<(String, V)>)
        ensures
            r@ == self.entry_seq(),
            entry_names(r@) == self.names(),
    {
        self.entries
    }

    /// Name and value at a position.
    pub fn entry_at(&self, i: usize) -> (r: (&String, &V))
        requires
            i < self.names().len(),
        ensures
            r.0@ == self.names()[i as int],
            self.contents().contains_key(r.0@),
            *r.1 == self.contents()[r.0@],
    {
        proof {
            use_type_invariant(&*self);
            self.lemma_names();
        }
        assert(self.names()[i as int] == self.entries@[i as int].0@);
        assert(self.names().contains(self.names()[i as int]));
        (&self.entries[i].0, &self.entries[i].1)
    }
}

/// Appending an absent element keeps a sequence duplicate-free.
pub proof fn lemma_push_distinct<A>(s: Seq<A>, x: A)
    requires
        s.no_duplicates(),
        !s.contains(x),
    ensures
        s.push(x).no_duplicates(),
{
    let t = s.push(x);
    assert forall|i: int, j: int| 0 <= i < t.len() && 0 <= j < t.len() && i != j implies t[i]
        != t[j] by {
        if i == s.len() {
            assert(s[j] == t[j]);
        } else if j == s.len() {
            assert(s[i] == t[i]);
        }
    }
}

/// Removing an element keeps a sequence duplicate-free.
pub proof fn lemma_remove_distinct<A>(s: Seq<A>, i: int)
    requires
        s.no_duplicates(),
        0 <= i < s.len(),
    ensures
        s.remove(i).no_duplicates(),
{
    let t = s.remove(i);
    assert forall|a: int, b: int| 0 <= a < t.len() && 0 <= b < t.len() && a != b implies t[a]
        != t[b] by {
        let a1 = if a < i { a } else { a + 1 };
        let b1 = if b < i { b } else { b + 1 };
        assert(t[a] == s[a1]);
        assert(t[b] == s[b1]);
    }
}

} // verus!
