//! The server's tables: user accounts, and who may chat with whom.
use crate::table::{
    distinct_keys, lemma_filter_next, lemma_lookup_at, lemma_lookup_filter, lemma_lookup_push,
    lemma_lookup_same_keys, lookup, Row,
};
use crate::text::{lemma_text_order, text_eq, text_less, text_lt};
use vstd::prelude::*;
use vstd::string::*;

verus! {

/// An account.
#[derive(Debug, PartialEq, Eq)]
pub struct User {
    pub username: String,
    pub password_hash: String,
    pub last_seen: i64,
}

/// What a [`User`] row says.
pub struct UserView {
    pub username: Seq<char>,
    pub password_hash: Seq<char>,
    pub last_seen: i64,
}

impl View for User {
    type V = UserView;

    open spec fn view(&self) -> UserView {
        UserView {
            username: self.username@,
            password_hash: self.password_hash@,
            last_seen: self.last_seen,
        }
    }
}

impl DeepView for User {
    type V = UserView;

    open spec fn deep_view(&self) -> UserView {
        self@
    }
}

impl Row for UserView {
    type Key = Seq<char>;

    open spec fn key(self) -> Seq<char> {
        self.username
    }
}

impl User {
    fn copy(&self) -> (res: User)
        ensures
            res@ == self@,
    {
        User {
            username: self.username.clone(),
            password_hash: self.password_hash.clone(),
            last_seen: self.last_seen,
        }
    }
}

/// The chat of an (unordered) pair of users.
///
/// `initiator` is the user that sent the first message. As long as the chat is
/// not `established`, only the initiator knows that it exists, and the other
/// side must pull history first; after that both sides may freely chat.
#[derive(Debug, PartialEq, Eq)]
pub struct Relationship {
    pub user_a: String,
    pub user_b: String,
    pub initiator: String,
    pub established: bool,
}

/// What a [`Relationship`] row says.
pub struct RelationshipView {
    pub user_a: Seq<char>,
    pub user_b: Seq<char>,
    pub initiator: Seq<char>,
    pub established: bool,
}

impl View for Relationship {
    type V = RelationshipView;

    open spec fn view(&self) -> RelationshipView {
        RelationshipView {
            user_a: self.user_a@,
            user_b: self.user_b@,
            initiator: self.initiator@,
            established: self.established,
        }
    }
}

impl DeepView for Relationship {
    type V = RelationshipView;

    open spec fn deep_view(&self) -> RelationshipView {
        self@
    }
}

impl Row for RelationshipView {
    type Key = (Seq<char>, Seq<char>);

    open spec fn key(self) -> (Seq<char>, Seq<char>) {
        (self.user_a, self.user_b)
    }
}

impl RelationshipView {
    /// Whether `username` is one of the two.
    pub open spec fn involves(self, username: Seq<char>) -> bool {
        self.user_a == username || self.user_b == username
    }

    /// The one of the two that is not `username`.
    pub open spec fn other(self, username: Seq<char>) -> Seq<char> {
        if self.user_a == username {
            self.user_b
        } else {
            self.user_a
        }
    }

    /// The row is under the key of its pair, and one of the two is the initiator.
    pub open spec fn canonical(self) -> bool {
        &&& ordered(self.user_a, self.user_b) == (self.user_a, self.user_b)
        &&& self.involves(self.initiator)
    }
}

impl Relationship {
    fn copy(&self) -> (res: Relationship)
        ensures
            res@ == self@,
    {
        Relationship {
            user_a: self.user_a.clone(),
            user_b: self.user_b.clone(),
            initiator: self.initiator.clone(),
            established: self.established,
        }
    }

    fn involves(&self, username: &str) -> (res: bool)
        ensures
            res == self@.involves(username@),
    {
        text_eq(self.user_a.as_str(), username) || text_eq(self.user_b.as_str(), username)
    }
}

/// The pair of `a` and `b` in the order in which it is stored.
pub open spec fn ordered(a: Seq<char>, b: Seq<char>) -> (Seq<char>, Seq<char>) {
    if text_less(a, b) {
        (a, b)
    } else {
        (b, a)
    }
}

/// Puts a pair of users in the order in which it is stored.
pub fn order<'a>(a: &'a str, b: &'a str) -> (res: (&'a str, &'a str))
    ensures
        (res.0@, res.1@) == ordered(a@, b@),
{
    if text_lt(a, b) {
        (a, b)
    } else {
        (b, a)
    }
}

/// A pair is stored in one order, whichever way it is written.
pub proof fn law_order_symmetric(a: Seq<char>, b: Seq<char>)
    ensures
        ordered(a, b) == ordered(b, a),
        ordered(a, b) == (a, b) || ordered(a, b) == (b, a),
{
    lemma_text_order(a, b);
    lemma_text_order(b, a);
}

/// The contents of the tables, rows in the order of their insertion.
pub struct DatabaseView {
    pub users: Seq<UserView>,
    pub relationships: Seq<RelationshipView>,
}

impl DatabaseView {
    /// Usernames, and pairs of users, are primary keys.
    pub open spec fn keyed(self) -> bool {
        &&& distinct_keys(self.users)
        &&& distinct_keys(self.relationships)
    }

    /// Every chat is stored under its ordered pair, with an initiator of the two.
    pub open spec fn canonical(self) -> bool {
        forall|i: int|
            0 <= i < self.relationships.len() ==> (#[trigger] self.relationships[i]).canonical()
    }

    /// The account of `username`.
    pub open spec fn user(self, username: Seq<char>) -> Option<UserView> {
        lookup(self.users, username)
    }

    /// The chat of `u1` and `u2`.
    pub open spec fn relationship(self, u1: Seq<char>, u2: Seq<char>) -> Option<RelationshipView> {
        lookup(self.relationships, ordered(u1, u2))
    }

    /// The chat of `u1` and `u2` is established.
    pub open spec fn chatting(self, u1: Seq<char>, u2: Seq<char>) -> bool {
        self.relationship(u1, u2) matches Some(r) && r.established
    }

    /// A new account is added, unless the name is taken.
    pub open spec fn user_created(self, username: Seq<char>, password_hash: Seq<char>) -> Self {
        if self.user(username) is Some {
            self
        } else {
            DatabaseView {
                users: self.users.push(UserView { username, password_hash, last_seen: 0 }),
                ..self
            }
        }
    }

    /// `username` was last seen at `ts`.
    pub open spec fn user_seen(self, username: Seq<char>, ts: i64) -> Self {
        DatabaseView {
            users: self.users.map_values(
                |u: UserView|
                    if u.username == username {
                        UserView { last_seen: ts, ..u }
                    } else {
                        u
                    },
            ),
            ..self
        }
    }

    /// The account of `username` and every chat of theirs are gone.
    pub open spec fn user_deleted(self, username: Seq<char>) -> Self {
        DatabaseView {
            users: self.users.filter(|u: UserView| u.username != username),
            relationships: self.relationships.filter(
                |r: RelationshipView| !r.involves(username),
            ),
        }
    }

    /// A chat is recorded with `initiator` as the first sender, unless the pair has one.
    pub open spec fn chat_initiated(self, initiator: Seq<char>, other: Seq<char>) -> Self {
        if self.relationship(initiator, other) is Some {
            self
        } else {
            let (user_a, user_b) = ordered(initiator, other);
            DatabaseView {
                relationships: self.relationships.push(
                    RelationshipView { user_a, user_b, initiator, established: false },
                ),
                ..self
            }
        }
    }

    /// The chat of `u1` and `u2`, if there is one, is established.
    pub open spec fn chat_established(self, u1: Seq<char>, u2: Seq<char>) -> Self {
        DatabaseView {
            relationships: self.relationships.map_values(
                |r: RelationshipView|
                    if r.key() == ordered(u1, u2) {
                        RelationshipView { established: true, ..r }
                    } else {
                        r
                    },
            ),
            ..self
        }
    }

    /// The established chats of `username`.
    pub open spec fn peer_chats(self, username: Seq<char>) -> Seq<RelationshipView> {
        self.relationships.filter(|r: RelationshipView| r.involves(username) && r.established)
    }

    /// The established chat partners of `username`.
    pub open spec fn peers(self, username: Seq<char>) -> Seq<Seq<char>> {
        self.peer_chats(username).map_values(|r: RelationshipView| r.other(username))
    }

    /// The chats that others have initiated with `username` and that are not established.
    pub open spec fn pending_chats(self, username: Seq<char>) -> Seq<RelationshipView> {
        self.relationships.filter(
            |r: RelationshipView|
                !r.established && r.initiator != username && r.involves(username),
        )
    }

    /// Who has initiated a chat with `username` that is not established.
    pub open spec fn pending(self, username: Seq<char>) -> Seq<Seq<char>> {
        self.pending_chats(username).map_values(|r: RelationshipView| r.initiator)
    }
}

/// The server's tables.
#[derive(Debug, PartialEq, Eq)]
pub struct Database {
    users: Vec<User>,
    relationships: Vec<Relationship>,
}

impl View for Database {
    type V = DatabaseView;

    closed spec fn view(&self) -> DatabaseView {
        DatabaseView {
            users: self.users.deep_view(),
            relationships: self.relationships.deep_view(),
        }
    }
}

impl Database {
    /// The tables obey their keys.
    pub open spec fn wf(&self) -> bool {
        self@.keyed()
    }

    /// Takes up the rows of an existing database. Rows that break a primary
    /// key are no database.
    pub fn open(users: Vec<User>, relationships: Vec<Relationship>) -> (res: Option<Self>)
        ensures
            res is Some <==> distinct_keys(users.deep_view()) && distinct_keys(
                relationships.deep_view(),
            ),
            res matches Some(db) ==> db.wf() && db@ == (DatabaseView {
                users: users.deep_view(),
                relationships: relationships.deep_view(),
            }),
    {
        let ghost us = users.deep_view();
        let ghost rs = relationships.deep_view();
        let mut i: usize = 0;
        while i < users.len()
            invariant
                i <= users@.len(),
                us == users.deep_view(),
                forall|p: int, q: int|
                    0 <= p < q < i ==> (#[trigger] us[p]).key() != (#[trigger] us[q]).key(),
            decreases users@.len() - i,
        {
            let mut j: usize = 0;
            while j < i
                invariant
                    j <= i < users@.len(),
                    us == users.deep_view(),
                    forall|p: int| 0 <= p < j ==> (#[trigger] us[p]).key() != us[i as int].key(),
                decreases i - j,
            {
                if text_eq(users[j].username.as_str(), users[i].username.as_str()) {
                    assert(us[j as int].key() == us[i as int].key());
                    return None;
                }
                assert(us[j as int].key() != us[i as int].key());
                j += 1;
            }
            i += 1;
        }
        i = 0;
        while i < relationships.len()
            invariant
                i <= relationships@.len(),
                rs == relationships.deep_view(),
                forall|p: int, q: int|
                    0 <= p < q < i ==> (#[trigger] rs[p]).key() != (#[trigger] rs[q]).key(),
            decreases relationships@.len() - i,
        {
            let mut j: usize = 0;
            while j < i
                invariant
                    j <= i < relationships@.len(),
                    rs == relationships.deep_view(),
                    forall|p: int| 0 <= p < j ==> (#[trigger] rs[p]).key() != rs[i as int].key(),
                decreases i - j,
            {
                if text_eq(relationships[j].user_a.as_str(), relationships[i].user_a.as_str())
                    && text_eq(relationships[j].user_b.as_str(), relationships[i].user_b.as_str()) {
                    assert(rs[j as int].key() == rs[i as int].key());
                    return None;
                }
                assert(rs[j as int].key() != rs[i as int].key());
                j += 1;
            }
            i += 1;
        }
        Some(Database { users, relationships })
    }

    /// The row of `username` in the accounts.
    fn find_user(&self, username: &str) -> (res: Option<usize>)
        requires
            self.wf(),
        ensures
            (match res {
                Some(i) => i < self.users@.len() && self@.user(username@) == Some(
                    self.users@[i as int]@,
                ) && self.users@[i as int]@.username == username@,
                None => self@.user(username@) is None,
            }),
    {
        let mut i: usize = 0;
        while i < self.users.len()
            invariant
                i <= self.users@.len(),
                self.wf(),
                forall|j: int| 0 <= j < i ==> (#[trigger] self@.users[j]).key() != username@,
            decreases self.users@.len() - i,
        {
            if text_eq(self.users[i].username.as_str(), username) {
                proof {
                    lemma_lookup_at(self@.users, i as int);
                }
                return Some(i);
            }
            i += 1;
        }
        None
    }

    /// The row of the pair `u1`, `u2` in the chats.
    fn find_relationship(&self, u1: &str, u2: &str) -> (res: Option<usize>)
        requires
            self.wf(),
        ensures
            (match res {
                Some(i) => i < self.relationships@.len() && self@.relationship(u1@, u2@) == Some(
                    self.relationships@[i as int]@,
                ) && self.relationships@[i as int]@.key() == ordered(u1@, u2@),
                None => self@.relationship(u1@, u2@) is None,
            }),
    {
        let (a, b) = order(u1, u2);
        let mut i: usize = 0;
        while i < self.relationships.len()
            invariant
                i <= self.relationships@.len(),
                self.wf(),
                (a@, b@) == ordered(u1@, u2@),
                forall|j: int|
                    0 <= j < i ==> (#[trigger] self@.relationships[j]).key() != ordered(u1@, u2@),
            decreases self.relationships@.len() - i,
        {
            if text_eq(self.relationships[i].user_a.as_str(), a) && text_eq(
                self.relationships[i].user_b.as_str(),
                b,
            ) {
                proof {
                    lemma_lookup_at(self@.relationships, i as int);
                }
                return Some(i);
            }
            i += 1;
        }
        None
    }

    /// The password hash and the time of the last visit of `username`.
    pub fn get_user(&self, username: &str) -> (res: Option<(String, i64)>)
        requires
            self.wf(),
        ensures
            (match res {
                Some((password_hash, last_seen)) => self@.user(username@) == Some(
                    UserView { username: username@, password_hash: password_hash@, last_seen },
                ),
                None => self@.user(username@) is None,
            }),
    {
        match self.find_user(username) {
            Some(i) => Some((self.users[i].password_hash.clone(), self.users[i].last_seen)),
            None => None,
        }
    }

    /// Returns true if the account was created, false if it already existed.
    pub fn create_user(&mut self, username: &str, password_hash: &str) -> (res: bool)
        requires
            old(self).wf(),
        ensures
            final(self).wf(),
            res == (old(self)@.user(username@) is None),
            final(self)@ == old(self)@.user_created(username@, password_hash@),
    {
        match self.find_user(username) {
            Some(_) => false,
            None => {
                let ghost before = self@;
                let user = User {
                    username: username.to_owned(),
                    password_hash: password_hash.to_owned(),
                    last_seen: 0,
                };
                self.users.push(user);
                proof {
                    assert(self@.users =~= before.users.push(user@));
                    assert(self@.relationships =~= before.relationships);
                    lemma_lookup_push(before.users, user@);
                }
                true
            },
        }
    }

    /// Records that `username` was last seen at `ts`.
    pub fn update_last_seen(&mut self, username: &str, ts: i64)
        requires
            old(self).wf(),
        ensures
            final(self).wf(),
            final(self)@ == old(self)@.user_seen(username@, ts),
    {
        let ghost before = self@;
        match self.find_user(username) {
            Some(i) => {
                let mut user = self.users[i].copy();
                user.last_seen = ts;
                self.users.set(i, user);
                proof {
                    assert forall|j: int| 0 <= j < before.users.len() && j != i implies (
                    #[trigger] before.users[j]).username != username@ by {
                        if j < i {
                            assert(before.users[j].key() != before.users[i as int].key());
                        } else {
                            assert(before.users[i as int].key() != before.users[j].key());
                        }
                    }
                }
            },
            None => {
                proof {
                    assert forall|j: int| 0 <= j < before.users.len() implies (
                    #[trigger] before.users[j]).username != username@ by {
                        assert(before.users[j].key() == before.users[j].username);
                    }
                }
            },
        }
        proof {
            assert(self@.users =~= before.user_seen(username@, ts).users);
            assert(self@.relationships =~= before.relationships);
            lemma_lookup_same_keys(before.users, self@.users);
        }
    }

    /// Deletes the account of `username` and every chat of theirs.
    pub fn delete_user(&mut self, username: &str)
        requires
            old(self).wf(),
        ensures
            final(self).wf(),
            final(self)@ == old(self)@.user_deleted(username@),
    {
        let ghost before = self@;
        let ghost keep_user = |u: UserView| u.username != username@;
        let ghost keep_chat = |r: RelationshipView| !r.involves(username@);
        let mut users: Vec<User> = Vec::new();
        let mut i: usize = 0;
        while i < self.users.len()
            invariant
                i <= self.users@.len(),
                self@ == before,
                keep_user == (|u: UserView| u.username != username@),
                users.deep_view() == before.users.take(i as int).filter(keep_user),
            decreases self.users@.len() - i,
        {
            proof {
                lemma_filter_next(before.users, keep_user, i as int);
            }
            if !text_eq(self.users[i].username.as_str(), username) {
                let ghost kept = users.deep_view();
                let user = self.users[i].copy();
                users.push(user);
                assert(users.deep_view() =~= kept.push(user@));
            }
            i += 1;
        }
        assert(before.users.take(i as int) =~= before.users);
        let mut relationships: Vec<Relationship> = Vec::new();
        i = 0;
        while i < self.relationships.len()
            invariant
                i <= self.relationships@.len(),
                self@ == before,
                keep_chat == (|r: RelationshipView| !r.involves(username@)),
                relationships.deep_view() == before.relationships.take(i as int).filter(keep_chat),
            decreases self.relationships@.len() - i,
        {
            proof {
                lemma_filter_next(before.relationships, keep_chat, i as int);
            }
            if !self.relationships[i].involves(username) {
                let ghost kept = relationships.deep_view();
                let relationship = self.relationships[i].copy();
                relationships.push(relationship);
                assert(relationships.deep_view() =~= kept.push(relationship@));
            }
            i += 1;
        }
        assert(before.relationships.take(i as int) =~= before.relationships);
        self.users = users;
        self.relationships = relationships;
        proof {
            lemma_lookup_filter(before.users, keep_user);
            lemma_lookup_filter(before.relationships, keep_chat);
        }
    }

    /// Ensure a relationship row exists with `initiator` as the first-message
    /// sender. Does nothing if a row already exists.
    pub fn ensure_relationship_initiated(&mut self, initiator: &str, other: &str)
        requires
            old(self).wf(),
        ensures
            final(self).wf(),
            final(self)@ == old(self)@.chat_initiated(initiator@, other@),
    {
        let ghost before = self@;
        match self.find_relationship(initiator, other) {
            Some(_) => {},
            None => {
                let (a, b) = order(initiator, other);
                let row = Relationship {
                    user_a: a.to_owned(),
                    user_b: b.to_owned(),
                    initiator: initiator.to_owned(),
                    established: false,
                };
                self.relationships.push(row);
                proof {
                    assert(self@.relationships =~= before.relationships.push(row@));
                    assert(self@.users =~= before.users);
                    lemma_lookup_push(before.relationships, row@);
                }
            },
        }
    }

    /// Returns `(initiator, established)` for the pair, if it exists.
    pub fn get_relationship(&self, u1: &str, u2: &str) -> (res: Option<(String, bool)>)
        requires
            self.wf(),
        ensures
            (match res {
                Some((initiator, established)) => self@.relationship(u1@, u2@) == Some(
                    RelationshipView {
                        user_a: ordered(u1@, u2@).0,
                        user_b: ordered(u1@, u2@).1,
                        initiator: initiator@,
                        established,
                    },
                ),
                None => self@.relationship(u1@, u2@) is None,
            }),
    {
        match self.find_relationship(u1, u2) {
            Some(i) => Some(
                (self.relationships[i].initiator.clone(), self.relationships[i].established),
            ),
            None => None,
        }
    }

    /// Marks the chat of the pair as established.
    pub fn establish_relationship(&mut self, u1: &str, u2: &str)
        requires
            old(self).wf(),
        ensures
            final(self).wf(),
            final(self)@ == old(self)@.chat_established(u1@, u2@),
    {
        let ghost before = self@;
        match self.find_relationship(u1, u2) {
            Some(i) => {
                let mut row = self.relationships[i].copy();
                row.established = true;
                self.relationships.set(i, row);
                proof {
                    assert forall|j: int| 0 <= j < before.relationships.len() && j != i implies (
                    #[trigger] before.relationships[j]).key() != ordered(u1@, u2@) by {
                        if j < i {
                            assert(before.relationships[j].key()
                                != before.relationships[i as int].key());
                        } else {
                            assert(before.relationships[i as int].key()
                                != before.relationships[j].key());
                        }
                    }
                }
            },
            None => {
                proof {
                    assert forall|j: int| 0 <= j < before.relationships.len() implies (
                    #[trigger] before.relationships[j]).key() != ordered(u1@, u2@) by {}
                }
            },
        }
        proof {
            assert(self@.relationships =~= before.chat_established(u1@, u2@).relationships);
            assert(self@.users =~= before.users);
            lemma_lookup_same_keys(before.relationships, self@.relationships);
        }
    }

    /// The chats of `username`, as they are to be kept on disk.
    pub fn relationships_of(&self, username: &str) -> (res: Vec<Relationship>)
        ensures
            res.deep_view() == self@.relationships.filter(
                |r: RelationshipView| r.involves(username@),
            ),
    {
        let ghost rows = self@.relationships;
        let ghost keep = |r: RelationshipView| r.involves(username@);
        let mut res: Vec<Relationship> = Vec::new();
        let mut i: usize = 0;
        assert(res.deep_view() =~= rows.take(0).filter(keep)) by {
            reveal(Seq::filter);
        }
        while i < self.relationships.len()
            invariant
                i <= self.relationships@.len(),
                rows == self@.relationships,
                keep == (|r: RelationshipView| r.involves(username@)),
                res.deep_view() == rows.take(i as int).filter(keep),
            decreases self.relationships@.len() - i,
        {
            proof {
                assert(rows[i as int] == self.relationships@[i as int]@);
                lemma_filter_next(rows, keep, i as int);
            }
            if self.relationships[i].involves(username) {
                let ghost found = res.deep_view();
                let row = self.relationships[i].copy();
                res.push(row);
                assert(res.deep_view() =~= found.push(row@));
            }
            i += 1;
        }
        assert(rows.take(i as int) =~= rows);
        res
    }

    /// Established chat partners of `username`.
    pub fn list_peers(&self, username: &str) -> (res: Vec<String>)
        ensures
            res.deep_view() == self@.peers(username@),
    {
        let ghost rows = self@.relationships;
        let ghost keep = |r: RelationshipView| r.involves(username@) && r.established;
        let ghost other = |r: RelationshipView| r.other(username@);
        let mut res: Vec<String> = Vec::new();
        let mut i: usize = 0;
        assert(res.deep_view() =~= rows.take(0).filter(keep).map_values(other)) by {
            reveal(Seq::filter);
        }
        while i < self.relationships.len()
            invariant
                i <= self.relationships@.len(),
                rows == self@.relationships,
                keep == (|r: RelationshipView| r.involves(username@) && r.established),
                other == (|r: RelationshipView| r.other(username@)),
                res.deep_view() == rows.take(i as int).filter(keep).map_values(other),
            decreases self.relationships@.len() - i,
        {
            let row = &self.relationships[i];
            proof {
                assert(rows[i as int] == row@);
                lemma_filter_next(rows, keep, i as int);
            }
            if row.established && row.involves(username) {
                let ghost found = res.deep_view();
                if text_eq(row.user_a.as_str(), username) {
                    res.push(row.user_b.clone());
                } else {
                    res.push(row.user_a.clone());
                }
                assert(res.deep_view() =~= found.push(row@.other(username@)));
                assert(rows.take(i + 1).filter(keep).map_values(other) =~= found.push(
                    row@.other(username@),
                ));
            }
            i += 1;
        }
        assert(rows.take(i as int) =~= rows);
        res
    }

    /// Users that initiated a chat with `username` but whose pending first
    /// message has not been consumed yet.
    pub fn list_pending_chats(&self, username: &str) -> (res: Vec<String>)
        ensures
            res.deep_view() == self@.pending(username@),
    {
        let ghost rows = self@.relationships;
        let ghost keep = |r: RelationshipView|
            !r.established && r.initiator != username@ && r.involves(username@);
        let ghost who = |r: RelationshipView| r.initiator;
        let mut res: Vec<String> = Vec::new();
        let mut i: usize = 0;
        assert(res.deep_view() =~= rows.take(0).filter(keep).map_values(who)) by {
            reveal(Seq::filter);
        }
        while i < self.relationships.len()
            invariant
                i <= self.relationships@.len(),
                rows == self@.relationships,
                keep == (|r: RelationshipView|
                    !r.established && r.initiator != username@ && r.involves(username@)),
                who == (|r: RelationshipView| r.initiator),
                res.deep_view() == rows.take(i as int).filter(keep).map_values(who),
            decreases self.relationships@.len() - i,
        {
            let row = &self.relationships[i];
            proof {
                assert(rows[i as int] == row@);
                lemma_filter_next(rows, keep, i as int);
            }
            if !row.established && !text_eq(row.initiator.as_str(), username) && row.involves(
                username,
            ) {
                let ghost found = res.deep_view();
                res.push(row.initiator.clone());
                assert(res.deep_view() =~= found.push(row@.initiator));
                assert(rows.take(i + 1).filter(keep).map_values(who) =~= found.push(
                    row@.initiator,
                ));
            }
            i += 1;
        }
        assert(rows.take(i as int) =~= rows);
        res
    }
}

} // verus!
