//! The server's state: the tables, and who is connected.
use crate::server::db::{Database, DatabaseView};
use dashmap::DashMap;
use std::collections::hash_map::RandomState;
use vstd::prelude::*;
use vstd::string::*;

verus! {

/// `dashmap::DashMap`, a concurrent hash map.
#[verifier::external_type_specification]
#[verifier::external_body]
#[verifier::reject_recursive_types(K)]
#[verifier::reject_recursive_types(V)]
#[verifier::reject_recursive_types(S)]
pub struct ExDashMap<K, V, S>(dashmap::DashMap<K, V, S>);

/// The sessions that a map of online users holds, by username.
pub uninterp spec fn online_sessions(map: DashMap<String, u64, RandomState>) -> Map<Seq<char>, u64>;

/// Calls `DashMap::new`. Believed: the map is empty.
#[verifier::external_body]
fn online_new() -> (res: DashMap<String, u64, RandomState>)
    ensures
        (online_sessions(res) == Map::<Seq<char>, u64>::empty()),
{
    DashMap::new()
}

/// Calls `DashMap::insert`. Believed: the map holds the session under the
/// username, in place of what it held there, and is otherwise unchanged.
#[verifier::external_body]
fn online_insert(map: &mut DashMap<String, u64, RandomState>, username: String, session: u64)
    ensures
        online_sessions(*final(map)) == online_sessions(*old(map)).insert(username@, session),
{
    map.insert(username, session);
}

/// Calls `DashMap::get`. Believed: it gives the session that the map holds
/// under the username, if any.
#[verifier::external_body]
fn online_get(map: &DashMap<String, u64, RandomState>, username: &str) -> (res: Option<u64>)
    ensures
        res == (if online_sessions(*map).contains_key(username@) {
            Some(online_sessions(*map)[username@])
        } else {
            None
        }),
{
    map.get(username).map(|session| *session.value())
}

/// Calls `DashMap::remove`. Believed: what the map holds under the username
/// is gone, and nothing else.
#[verifier::external_body]
fn online_remove(map: &mut DashMap<String, u64, RandomState>, username: &str)
    ensures
        online_sessions(*final(map)) == online_sessions(*old(map)).remove(username@),
{
    map.remove(username);
}

/// The sessions of the users who are online, one for each.
pub struct Online {
    sessions: DashMap<String, u64, RandomState>,
}

impl View for Online {
    type V = Map<Seq<char>, u64>;

    closed spec fn view(&self) -> Map<Seq<char>, u64> {
        online_sessions(self.sessions)
    }
}

impl Online {
    /// Nobody is online.
    pub fn new() -> (res: Self)
        ensures
            res@ == Map::<Seq<char>, u64>::empty(),
    {
        Online { sessions: online_new() }
    }

    /// The session of `username`, if they are online.
    pub fn session_of(&self, username: &str) -> (res: Option<u64>)
        ensures
            res == (if self@.contains_key(username@) {
                Some(self@[username@])
            } else {
                None
            }),
    {
        online_get(&self.sessions, username)
    }

    /// Enters `session` for `username`, unless they have one already. Returns
    /// whether it was entered.
    pub fn claim(&mut self, username: &str, session: u64) -> (res: bool)
        ensures
            res == !old(self)@.contains_key(username@),
            final(self)@ == (if old(self)@.contains_key(username@) {
                old(self)@
            } else {
                old(self)@.insert(username@, session)
            }),
    {
        match online_get(&self.sessions, username) {
            Some(_) => false,
            None => {
                online_insert(&mut self.sessions, username.to_owned(), session);
                true
            },
        }
    }

    /// Takes `username` off the list of those online.
    pub fn release(&mut self, username: &str)
        ensures
            final(self)@ == old(self)@.remove(username@),
    {
        online_remove(&mut self.sessions, username);
    }
}

/// The tables, and the session of each user who is online.
pub struct AppStateView {
    pub db: DatabaseView,
    pub online: Map<Seq<char>, u64>,
}

/// The server's state.
pub struct AppState {
    pub db: Database,
    /// Active websocket connections keyed by username.
    pub online: Online,
}

impl View for AppState {
    type V = AppStateView;

    open spec fn view(&self) -> AppStateView {
        AppStateView { db: self.db@, online: self.online@ }
    }
}

impl AppState {
    /// The tables obey their keys.
    pub open spec fn wf(&self) -> bool {
        self@.db.keyed()
    }

    /// The state of a server that has just started: nobody is online.
    pub fn new(db: Database) -> (res: Self)
        ensures
            res@ == (AppStateView { db: db@, online: Map::empty() }),
    {
        AppState { db, online: Online::new() }
    }
}

} // verus!
