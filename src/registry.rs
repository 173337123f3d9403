//! A registry of sessions keyed by identifier: registration fails on an
//! identifier that is present, so no two sessions ever share one.
use vstd::prelude::*;

verus! {

/// Why a registry operation was refused.
#[derive(Clone, Copy, PartialEq, Eq, Debug)]
pub enum RegistryError {
    /// The identifier is already registered.
    AlreadyExists,
    /// No session has the identifier.
    NotFound,
}

/// Sessions of type `V` by identifier, in order of registration.
pub struct SessionRegistry<V> {
    entries: Vec<(String, V)>,
}

/// The index in `s` of the entry whose identifier is `k`.
pub open spec fn index_of<V>(s: Seq<(String, V)>, k: Seq<char>) -> int {
    choose|i: int| 0 <= i < s.len() && s[i].0@ == k
}

pub open spec fn has_key<V>(s: Seq<(String, V)>, k: Seq<char>) -> bool {
    exists|i: int| 0 <= i < s.len() && s[i].0@ == k
}

/// The entries as a map from identifier to session.
pub open spec fn entries_map<V>(s: Seq<(String, V)>) -> Map<Seq<char>, V> {
    Map::new(|k: Seq<char>| has_key(s, k), |k: Seq<char>| s[index_of(s, k)].1)
}

pub open spec fn unique_keys<V>(s: Seq<(String, V)>) -> bool {
    forall|i: int, j: int|
        0 <= i < s.len() && 0 <= j < s.len() && i != j ==> s[i].0@ != s[j].0@
}

proof fn lemma_lookup<V>(s: Seq<(String, V)>, i: int)
    requires
        unique_keys(s),
        0 <= i < s.len(),
    ensures
        entries_map(s).contains_key(s[i].0@),
        entries_map(s)[s[i].0@] == s[i].1,
{
    assert(has_key(s, s[i].0@));
    let j = index_of(s, s[i].0@);
    assert(i == j);
}


proof fn lemma_update<V>(s: Seq<(String, V)>, i: int, v: V)
    requires
        unique_keys(s),
        0 <= i < s.len(),
    ensures
        unique_keys(s.update(i, (s[i].0, v))),
        entries_map(s.update(i, (s[i].0, v))) == entries_map(s).insert(s[i].0@, v),
{
    let t = s.update(i, (s[i].0, v));
    let k = s[i].0@;
    assert(unique_keys(t));
    assert forall|k2: Seq<char>| #[trigger] entries_map(t).contains_key(k2)
        == entries_map(s).insert(k, v).contains_key(k2) by {
        if has_key(t, k2) {
            let j = index_of(t, k2);
            assert(s[j].0@ == k2);
        }
        if has_key(s, k2) {
            let j = index_of(s, k2);
            assert(t[j].0@ == k2);
        }
        if k2 == k {
            assert(t[i].0@ == k);
        }
    };
    assert forall|k2: Seq<char>| #[trigger] entries_map(t).contains_key(k2) implies entries_map(t)[k2]
        == entries_map(s).insert(k, v)[k2] by {
        let j = index_of(t, k2);
        lemma_lookup(t, j);
        lemma_lookup(s, j);
    };
    assert(entries_map(t) =~= entries_map(s).insert(k, v));
}

/// What registering `session` under `id` does to the registry `m`: the
/// registry after, and the outcome.
pub open spec fn register_spec<V>(m: Map<Seq<char>, V>, id: Seq<char>, session: V) -> (
    Map<Seq<char>, V>,
    Result<(), RegistryError>,
) {
    if m.contains_key(id) {
        (m, Err(RegistryError::AlreadyExists))
    } else {
        (m.insert(id, session), Ok(()))
    }
}

/// Registering two sessions under one identifier: the first registration
/// succeeds, the second fails with `AlreadyExists` and changes nothing, so the
/// first session stays registered as it was.
pub proof fn lemma_second_registration_refused<V>(
    m: Map<Seq<char>, V>,
    id: Seq<char>,
    first: V,
    second: V,
)
    requires
        !m.contains_key(id),
    ensures
        register_spec(m, id, first).1 is Ok,
        register_spec(register_spec(m, id, first).0, id, second).1 == Err::<(), RegistryError>(
            RegistryError::AlreadyExists,
        ),
        register_spec(register_spec(m, id, first).0, id, second).0 == register_spec(
            m,
            id,
            first,
        ).0,
        register_spec(register_spec(m, id, first).0, id, second).0[id] == first,
{
}

impl<V> View for SessionRegistry<V> {
    type V = Map<Seq<char>, V>;

    closed spec fn view(&self) -> Map<Seq<char>, V> {
        entries_map(self.entries@)
    }
}

impl<V> SessionRegistry<V> {
    /// No two entries share an identifier.
    pub closed spec fn wf(&self) -> bool {
        unique_keys(self.entries@)
    }

    pub fn new() -> (r: Self)
        ensures
            r.wf(),
            r@ == Map::<Seq<char>, V>::empty(),
    {
        let r = SessionRegistry { entries: Vec::new() };
        assert(r@ =~= Map::<Seq<char>, V>::empty());
        r
    }

    fn find(&self, id: &String) -> (r: Option<usize>)
        requires
            self.wf(),
        ensures
            r matches Some(i) ==> i < self.entries@.len() && self.entries@[i as int].0@ == id@,
            r is None ==> !has_key(self.entries@, id@),
    {
        let mut i: usize = 0;
        while i < self.entries.len()
            invariant
                i <= self.entries@.len(),
                forall|j: int| 0 <= j < i ==> self.entries@[j].0@ != id@,
            decreases self.entries@.len() - i,
        {
            if self.entries[i].0 == *id {
                return Some(i);
            }
            i = i + 1;
        }
        None
    }

    /// Whether a session has the identifier.
    pub fn contains(&self, id: &String) -> (r: bool)
        requires
            self.wf(),
        ensures
            r == self@.contains_key(id@),
    {
        self.find(id).is_some()
    }

    /// The number of sessions.
    pub fn len(&self) -> (r: usize)
        requires
            self.wf(),
        ensures
            r == self@.len(),
    {
        proof {
            self.lemma_dom_is_keys();
        }
        self.entries.len()
    }

    proof fn lemma_dom_is_keys(&self)
        requires
            self.wf(),
        ensures
            self@.dom() == self.entries@.map_values(|e: (String, V)| e.0@).to_set(),
            self.entries@.map_values(|e: (String, V)| e.0@).no_duplicates(),
            self@.dom().finite(),
            self@.len() == self.entries@.len(),
    {
        let keys = self.entries@.map_values(|e: (String, V)| e.0@);
        assert forall|k: Seq<char>| self@.dom().contains(k) <==> keys.to_set().contains(k) by {
            if self@.dom().contains(k) {
                let i = index_of(self.entries@, k);
                assert(keys[i] == k);
            }
            if keys.to_set().contains(k) {
                let i = choose|i: int| 0 <= i < keys.len() && keys[i] == k;
                assert(self.entries@[i].0@ == k);
            }
        };
        assert(self@.dom() =~= keys.to_set());
        keys.unique_seq_to_set();
    }

    /// Registers `session` under `id`. Fails with `AlreadyExists`, and
    /// leaves the registry as it was, where the identifier is present.
    pub fn register(&mut self, id: String, session: V) -> (r: Result<(), RegistryError>)
        requires
            old(self).wf(),
        ensures
            final(self).wf(),
            (final(self)@, r) == register_spec(old(self)@, id@, session),
    {
        match self.find(&id) {
            Some(i) => {
                proof {
                    lemma_lookup(self.entries@, i as int);
                }
                Err(RegistryError::AlreadyExists)
            },
            None => {
                let ghost old_entries = self.entries@;
                let ghost k = id@;
                self.entries.push((id, session));
                let ghost s = self.entries@;
                assert(s.len() == old_entries.len() + 1);
                assert forall|i: int| 0 <= i < old_entries.len() implies s[i] == old_entries[i] by {};
                assert(unique_keys(s));
                assert forall|k2: Seq<char>| #[trigger] entries_map(s).contains_key(k2)
                    == entries_map(old_entries).insert(k, session).contains_key(k2) by {
                    if k2 != k && has_key(s, k2) {
                        let i = index_of(s, k2);
                        assert(i < old_entries.len());
                        assert(has_key(old_entries, k2));
                    }
                    if k2 == k {
                        assert(s[s.len() - 1].0@ == k);
                        assert(has_key(s, k2));
                    }
                    if has_key(old_entries, k2) {
                        let i = index_of(old_entries, k2);
                        assert(s[i].0@ == k2);
                    }
                };
                assert forall|k2: Seq<char>| #[trigger] entries_map(s).contains_key(k2) implies
                    entries_map(s)[k2] == entries_map(old_entries).insert(k, session)[k2] by {
                    if k2 == k {
                        lemma_lookup(s, s.len() - 1);
                    } else {
                        let i = index_of(old_entries, k2);
                        assert(has_key(old_entries, k2));
                        lemma_lookup(old_entries, i);
                        lemma_lookup(s, i);
                    }
                };
                assert(entries_map(s) =~= entries_map(old_entries).insert(k, session));
                Ok(())
            },
        }
    }

    /// The session registered under `id`, if any.
    pub fn get(&self, id: &String) -> (r: Option<&V>)
        requires
            self.wf(),
        ensures
            r matches Some(v) ==> self@.contains_key(id@) && *v == self@[id@],
            r is None ==> !self@.contains_key(id@),
    {
        match self.find(id) {
            Some(i) => {
                proof {
                    lemma_lookup(self.entries@, i as int);
                }
                Some(&self.entries[i].1)
            },
            None => None,
        }
    }

    /// Exclusive access to the session registered under `id`, if any: what
    /// is written through it is what the registry holds under `id` after.
    pub fn get_mut(&mut self, id: &String) -> (r: Option<&mut V>)
        requires
            old(self).wf(),
        ensures
            r is None ==> !old(self)@.contains_key(id@) && final(self)@ == old(self)@
                && final(self).wf(),
            r matches Some(v) ==> old(self)@.contains_key(id@) && *v == old(self)@[id@]
                && final(self).wf() && final(self)@ == old(self)@.insert(id@, *final(v)),
    {
        match self.find(id) {
            Some(i) => {
                proof {
                    lemma_lookup(self.entries@, i as int);
                }
                let entry = &mut self.entries[i];
                proof {
                    lemma_update(old(self).entries@, i as int, final(entry).1);
                }
                Some(&mut entry.1)
            },
            None => None,
        }
    }

    /// Removes the session registered under `id` and hands it back; `None`,
    /// with the registry unchanged, where there is none.
    pub fn remove(&mut self, id: &String) -> (r: Option<V>)
        requires
            old(self).wf(),
        ensures
            final(self).wf(),
            final(self)@ == old(self)@.remove(id@),
            old(self)@.contains_key(id@) ==> r == Some(old(self)@[id@]),
            !old(self)@.contains_key(id@) ==> r is None,
    {
        match self.find(id) {
            Some(i) => {
                let ghost old_entries = self.entries@;
                let ghost k = id@;
                proof {
                    lemma_lookup(old_entries, i as int);
                }
                let (_, v) = self.entries.remove(i);
                let ghost s = self.entries@;
                assert(s =~= old_entries.remove(i as int));
                assert(unique_keys(s));
                assert forall|k2: Seq<char>| #[trigger] entries_map(s).contains_key(k2)
                    == entries_map(old_entries).remove(k).contains_key(k2) by {
                    if has_key(s, k2) {
                        let j = index_of(s, k2);
                        if j < i {
                            assert(old_entries[j].0@ == k2);
                        } else {
                            assert(old_entries[j + 1].0@ == k2);
                        }
                        assert(has_key(old_entries, k2));
                    }
                    if k2 != k && has_key(old_entries, k2) {
                        let j = index_of(old_entries, k2);
                        assert(j != i);
                        if j < i {
                            assert(s[j].0@ == k2);
                        } else {
                            assert(s[j - 1].0@ == k2);
                        }
                    }
                };
                assert forall|k2: Seq<char>| #[trigger] entries_map(s).contains_key(k2) implies
                    entries_map(s)[k2] == entries_map(old_entries).remove(k)[k2] by {
                    let j = index_of(s, k2);
                    lemma_lookup(s, j);
                    if j < i {
                        lemma_lookup(old_entries, j);
                    } else {
                        lemma_lookup(old_entries, j + 1);
                    }
                };
                assert(entries_map(s) =~= entries_map(old_entries).remove(k));
                Some(v)
            },
            None => {
                assert(self@ =~= self@.remove(id@));
                None
            },
        }
    }

    /// The identifiers of all sessions, each once, in order of registration.
    pub fn ids(&self) -> (r: Vec<String>)
        requires
            self.wf(),
        ensures
            r.deep_view().to_set() == self@.dom(),
            r.deep_view().no_duplicates(),
    {
        proof {
            self.lemma_dom_is_keys();
        }
        let mut out: Vec<String> = Vec::new();
        let mut i: usize = 0;
        while i < self.entries.len()
            invariant
                i <= self.entries@.len(),
                out.deep_view() == self.entries@.map_values(|e: (String, V)| e.0@).subrange(
                    0,
                    i as int,
                ),
            decreases self.entries@.len() - i,
        {
            let id = self.entries[i].0.clone();
            let ghost before = out.deep_view();
            assert(id.deep_view() == self.entries@[i as int].0@);
            out.push(id);
            assert(out.deep_view() =~= before.push(self.entries@[i as int].0@));
            assert(out.deep_view() =~= self.entries@.map_values(|e: (String, V)| e.0@).subrange(
                0,
                i + 1,
            ));
            i = i + 1;
        }
        assert(self.entries@.map_values(|e: (String, V)| e.0@).subrange(0, i as int)
            =~= self.entries@.map_values(|e: (String, V)| e.0@));
        out
    }
}

} // verus!
