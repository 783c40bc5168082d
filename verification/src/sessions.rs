//! The server's running container sessions, keyed by session id, held in a
//! concurrent map.
use vstd::prelude::*;
use dashmap::DashMap;

verus! {

/// The concurrent map of the `dashmap` crate, opaque to verification.
#[verifier::external_type_specification]
#[verifier::external_body]
#[verifier::reject_recursive_types(K)]
#[verifier::reject_recursive_types(V)]
#[verifier::reject_recursive_types(S)]
pub struct ExDashMap<K, V, S>(DashMap<K, V, S>);

/// A running container session.
#[derive(Debug, Clone)]
pub struct Session {
    pub container_id: String,
    /// The platform the container runs.
    pub platform: String,
}

/// The value of a session: its container id and platform.
pub open spec fn session_view(s: Session) -> (Seq<char>, Seq<char>) {
    (s.container_id@, s.platform@)
}

/// What a session map holds: each key's characters mapped to its session's
/// value.
pub uninterp spec fn session_entries(m: DashMap<String, Session>) -> Map<Seq<char>, (Seq<char>, Seq<char>)>;

/// `DashMap::new`: an empty map.
#[verifier::external_body]
fn map_new() -> (r: DashMap<String, Session>)
    ensures
        session_entries(r).dom() == Set::<Seq<char>>::empty(),
{
    DashMap::new()
}

/// `DashMap::insert`: afterwards `k` maps to `v`, the other keys keep their
/// values, and the value `k` had before is handed back.
#[verifier::external_body]
fn map_insert(m: &mut DashMap<String, Session>, k: String, v: Session) -> (r: Option<Session>)
    ensures
        session_entries(*final(m)) == session_entries(*old(m)).insert(k@, session_view(v)),
        match r {
            Some(o) => session_entries(*old(m)).contains_key(k@) && session_entries(*old(m))[k@]
                == session_view(o),
            None => !session_entries(*old(m)).contains_key(k@),
        },
{
    m.insert(k, v)
}

/// `DashMap::get`, the entry cloned out: the value of `k`, if it has one.
#[verifier::external_body]
fn map_get(m: &DashMap<String, Session>, k: &str) -> (r: Option<Session>)
    ensures
        match r {
            Some(s) => session_entries(*m).contains_key(k@) && session_entries(*m)[k@] == session_view(s),
            None => !session_entries(*m).contains_key(k@),
        },
{
    m.get(k).map(|s| s.clone())
}

/// `DashMap::remove`: `k` no longer has a value, the other keys keep
/// theirs, and the value `k` had is handed back.
#[verifier::external_body]
fn map_remove(m: &mut DashMap<String, Session>, k: &str) -> (r: Option<Session>)
    ensures
        session_entries(*final(m)) == session_entries(*old(m)).remove(k@),
        match r {
            Some(s) => session_entries(*old(m)).contains_key(k@) && session_entries(*old(m))[k@]
                == session_view(s),
            None => !session_entries(*old(m)).contains_key(k@),
        },
{
    m.remove(k).map(|(_, v)| v)
}

/// The sessions by id.
pub struct SessionStore {
    map: DashMap<String, Session>,
}

impl View for SessionStore {
    type V = Map<Seq<char>, (Seq<char>, Seq<char>)>;

    closed spec fn view(&self) -> Self::V {
        session_entries(self.map)
    }
}

impl Default for SessionStore {
    fn default() -> (r: Self)
        ensures
            r@ == Map::<Seq<char>, (Seq<char>, Seq<char>)>::empty(),
    {
        let map = map_new();
        assert(session_entries(map) =~= Map::<Seq<char>, (Seq<char>, Seq<char>)>::empty());
        SessionStore { map }
    }
}

impl SessionStore {
    /// An empty store.
    pub fn new() -> (r: Self)
        ensures
            r@ == Map::<Seq<char>, (Seq<char>, Seq<char>)>::empty(),
    {
        let map = map_new();
        assert(session_entries(map) =~= Map::<Seq<char>, (Seq<char>, Seq<char>)>::empty());
        SessionStore { map }
    }

    /// Records `session` under `id`, replacing any session with that id.
    pub fn insert(&mut self, id: String, session: Session)
        ensures
            final(self)@ == old(self)@.insert(id@, session_view(session)),
    {
        let _ = map_insert(&mut self.map, id, session);
    }

    /// The session recorded under `id`.
    pub fn get(&self, id: &str) -> (r: Option<Session>)
        ensures
            match r {
                Some(s) => self@.contains_key(id@) && self@[id@] == session_view(s),
                None => !self@.contains_key(id@),
            },
    {
        map_get(&self.map, id)
    }

    /// Takes the session recorded under `id` out of the store.
    pub fn remove(&mut self, id: &str) -> (r: Option<Session>)
        ensures
            final(self)@ == old(self)@.remove(id@),
            match r {
                Some(s) => old(self)@.contains_key(id@) && old(self)@[id@] == session_view(s),
                None => !old(self)@.contains_key(id@),
            },
    {
        map_remove(&mut self.map, id)
    }
}

/// What the store gives back of what was put in: after `insert(id, s)`,
/// `get(id)` finds `s` and other ids are untouched; after `remove(id)`,
/// `get(id)` finds nothing.
pub proof fn lemma_store_roundtrip(
    store: Map<Seq<char>, (Seq<char>, Seq<char>)>,
    id: Seq<char>,
    other: Seq<char>,
    s: (Seq<char>, Seq<char>),
)
    ensures
        store.insert(id, s).contains_key(id) && store.insert(id, s)[id] == s,
        other != id ==> (store.insert(id, s).contains_key(other) == store.contains_key(other)
            && store.insert(id, s)[other] == store[other]),
        !store.insert(id, s).remove(id).contains_key(id),
        other != id ==> store.remove(id).contains_key(other) == store.contains_key(other),
{
}

} // verus!
