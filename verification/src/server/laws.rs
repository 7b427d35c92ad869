//! What holds of the server as a whole.
use crate::protocol::{ClientMsgView, ServerMsgView, StoredMsgView};
use crate::server::auth::{complete, registered, registration_reply, ReplyView, Status};
use crate::server::db::{law_order_symmetric, ordered, DatabaseView, RelationshipView, UserView};
use crate::server::state::AppStateView;
use crate::server::ws::{
    admission, admits, answer, client_step, close_step, complaint, delete_step, deliver_all,
    header_text, history_step, initiated_text, not_messaged_text, open_step, opening, performed,
    presence, pull_step, refusal, send_step, AdmissionView, OutgoingView, Step, StepView,
};
use crate::table::{
    lemma_filter_kept, lemma_lookup_at, lemma_lookup_filter, lemma_lookup_found, lemma_lookup_push,
    lemma_lookup_same_keys, lookup, Row,
};
use crate::text::{
    law_split_first, lemma_first_position, lemma_text_order, split_first, text_less,
};
use crate::util::password_hash;
use vstd::prelude::*;

verus! {

// ---- tables -----------------------------------------------------------

/// There is one chat per unordered pair.
pub proof fn law_relationship_symmetric(db: DatabaseView, u1: Seq<char>, u2: Seq<char>)
    ensures
        db.relationship(u1, u2) == db.relationship(u2, u1),
{
    law_order_symmetric(u1, u2);
}

/// Two pairs are stored under one key only if they are the same pair.
pub proof fn lemma_same_pair(a: Seq<char>, b: Seq<char>, c: Seq<char>, d: Seq<char>)
    requires
        ordered(a, b) == ordered(c, d),
    ensures
        (a == c && b == d) || (a == d && b == c),
{
    law_order_symmetric(a, b);
    law_order_symmetric(c, d);
}

/// Creating an account makes it known under the name, with the given hash and
/// never seen; an account that exists is not overwritten; no other changes.
pub proof fn law_user_created(
    db: DatabaseView,
    username: Seq<char>,
    hash: Seq<char>,
    other: Seq<char>,
)
    requires
        db.keyed(),
    ensures
        db.user_created(username, hash).keyed(),
        db.user(username) is None ==> db.user_created(username, hash).user(username) == Some(
            UserView { username, password_hash: hash, last_seen: 0 },
        ),
        db.user(username) is Some ==> db.user_created(username, hash) == db,
        other != username ==> db.user_created(username, hash).user(other) == db.user(other),
        db.user_created(username, hash).relationships == db.relationships,
{
    if db.user(username) is None {
        lemma_lookup_push(db.users, UserView { username, password_hash: hash, last_seen: 0 });
    }
}

/// Recording a visit changes the time of that account alone, and nothing else of it.
pub proof fn law_user_seen(db: DatabaseView, username: Seq<char>, ts: i64, other: Seq<char>)
    requires
        db.keyed(),
    ensures
        db.user_seen(username, ts).keyed(),
        db.user_seen(username, ts).user(username) == (match db.user(username) {
            Some(u) => Some(UserView { last_seen: ts, ..u }),
            None => None,
        }),
        other != username ==> db.user_seen(username, ts).user(other) == db.user(other),
        db.user_seen(username, ts).relationships == db.relationships,
{
    let after = db.user_seen(username, ts);
    lemma_lookup_same_keys(db.users, after.users);
    if db.user(username) is Some {
        let i = choose|i: int|
            0 <= i < db.users.len() && (#[trigger] db.users[i]).key() == username;
        lemma_lookup_at(db.users, i);
        assert(lookup(after.users, db.users[i].key()) == Some(after.users[i]));
    }
    if db.user(other) is Some {
        let i = choose|i: int| 0 <= i < db.users.len() && (#[trigger] db.users[i]).key() == other;
        lemma_lookup_at(db.users, i);
        assert(lookup(after.users, db.users[i].key()) == Some(after.users[i]));
    }
}

/// Deleting an account removes it and every chat of its user, and nothing else.
pub proof fn law_user_deleted(db: DatabaseView, username: Seq<char>, u1: Seq<char>, u2: Seq<char>)
    requires
        db.keyed(),
    ensures
        db.user_deleted(username).keyed(),
        db.user_deleted(username).user(u1) == (if u1 == username {
            None
        } else {
            db.user(u1)
        }),
        db.user_deleted(username).relationship(u1, u2) == (if u1 == username || u2 == username {
            None
        } else {
            db.relationship(u1, u2)
        }),
{
    let keep_user = |u: UserView| u.username != username;
    let keep_chat = |r: RelationshipView| !r.involves(username);
    lemma_lookup_filter(db.users, keep_user);
    lemma_lookup_filter(db.relationships, keep_chat);
    if db.user(u1) is Some {
        lemma_lookup_found(db.users, u1);
    }
    law_order_symmetric(u1, u2);
    if db.relationship(u1, u2) is Some {
        lemma_lookup_found(db.relationships, ordered(u1, u2));
    }
}

/// A first message records the chat with its sender as initiator, not
/// established; a chat that exists stays as it is, and so does every other.
pub proof fn law_chat_initiated(
    db: DatabaseView,
    initiator: Seq<char>,
    other: Seq<char>,
    u1: Seq<char>,
    u2: Seq<char>,
)
    requires
        db.keyed(),
    ensures
        db.chat_initiated(initiator, other).keyed(),
        db.relationship(initiator, other) is Some ==> db.chat_initiated(initiator, other) == db,
        db.relationship(initiator, other) is None ==> (db.chat_initiated(
            initiator,
            other,
        ).relationship(initiator, other) matches Some(r) && r.initiator == initiator
            && !r.established),
        ordered(u1, u2) != ordered(initiator, other) ==> db.chat_initiated(
            initiator,
            other,
        ).relationship(u1, u2) == db.relationship(u1, u2),
        db.chat_initiated(initiator, other).users == db.users,
{
    if db.relationship(initiator, other) is None {
        let (user_a, user_b) = ordered(initiator, other);
        lemma_lookup_push(
            db.relationships,
            RelationshipView { user_a, user_b, initiator, established: false },
        );
    }
}

/// Establishing a chat changes that chat alone, and keeps its initiator.
pub proof fn law_chat_established(
    db: DatabaseView,
    a: Seq<char>,
    b: Seq<char>,
    u1: Seq<char>,
    u2: Seq<char>,
)
    requires
        db.keyed(),
    ensures
        db.chat_established(a, b).keyed(),
        db.chat_established(a, b).relationship(a, b) == (match db.relationship(a, b) {
            Some(r) => Some(RelationshipView { established: true, ..r }),
            None => None,
        }),
        ordered(u1, u2) != ordered(a, b) ==> db.chat_established(a, b).relationship(u1, u2)
            == db.relationship(u1, u2),
        db.chat_established(a, b).users == db.users,
{
    let after = db.chat_established(a, b);
    lemma_lookup_same_keys(db.relationships, after.relationships);
    if db.relationship(a, b) is Some {
        let i = choose|i: int|
            0 <= i < db.relationships.len() && (#[trigger] db.relationships[i]).key() == ordered(
                a,
                b,
            );
        lemma_lookup_at(db.relationships, i);
        assert(lookup(after.relationships, db.relationships[i].key()) == Some(
            after.relationships[i],
        ));
    }
    if db.relationship(u1, u2) is Some {
        let i = choose|i: int|
            0 <= i < db.relationships.len() && (#[trigger] db.relationships[i]).key() == ordered(
                u1,
                u2,
            );
        lemma_lookup_at(db.relationships, i);
        assert(lookup(after.relationships, db.relationships[i].key()) == Some(
            after.relationships[i],
        ));
    }
}

/// Every chat stays under its ordered pair, with one of the two as initiator,
/// whatever is done to the tables.
pub proof fn law_canonical_kept(
    db: DatabaseView,
    a: Seq<char>,
    b: Seq<char>,
    hash: Seq<char>,
    ts: i64,
)
    requires
        db.canonical(),
    ensures
        db.user_created(a, hash).canonical(),
        db.user_seen(a, ts).canonical(),
        db.user_deleted(a).canonical(),
        db.chat_initiated(a, b).canonical(),
        db.chat_established(a, b).canonical(),
{
    assert(db.user_deleted(a).canonical()) by {
        let keep = |r: RelationshipView| !r.involves(a);
        assert forall|i: int| 0 <= i < db.relationships.filter(keep).len() implies (
        #[trigger] db.relationships.filter(keep)[i]).canonical() by {
            lemma_filter_kept(db.relationships, keep, i);
            let j = db.relationships.index_of(db.relationships.filter(keep)[i]);
            assert(db.relationships[j].canonical());
        }
    }
    assert(db.chat_initiated(a, b).canonical()) by {
        law_order_symmetric(a, b);
        let (x, y) = ordered(a, b);
        law_order_symmetric(x, y);
        let rows = db.chat_initiated(a, b).relationships;
        assert forall|i: int| 0 <= i < rows.len() implies (#[trigger] rows[i]).canonical() by {
            if i < db.relationships.len() {
                assert(rows[i] == db.relationships[i]);
            } else {
                lemma_text_order(a, b);
            }
        }
    }
    assert(db.chat_established(a, b).canonical()) by {
        let rows = db.chat_established(a, b).relationships;
        assert forall|i: int| 0 <= i < rows.len() implies (#[trigger] rows[i]).canonical() by {
            assert(db.relationships[i].canonical());
        }
    }
}

// ---- peers and pending chats ------------------------------------------

proof fn lemma_listed<T>(
    rows: Seq<RelationshipView>,
    keep: spec_fn(RelationshipView) -> bool,
    f: spec_fn(RelationshipView) -> T,
    x: T,
)
    ensures
        rows.filter(keep).map_values(f).contains(x) <==> exists|i: int|
            0 <= i < rows.len() && keep(#[trigger] rows[i]) && f(rows[i]) == x,
{
    let kept = rows.filter(keep);
    let list = kept.map_values(f);
    if list.contains(x) {
        let k = list.index_of(x);
        lemma_filter_kept(rows, keep, k);
        let i = rows.index_of(kept[k]);
        assert(keep(rows[i]) && f(rows[i]) == x);
    }
    if exists|i: int| 0 <= i < rows.len() && keep(#[trigger] rows[i]) && f(rows[i]) == x {
        let i = choose|i: int| 0 <= i < rows.len() && keep(#[trigger] rows[i]) && f(rows[i]) == x;
        rows.lemma_filter_contains(keep, i);
        let k = kept.index_of(rows[i]);
        assert(list[k] == x);
    }
}

proof fn lemma_row_of_pair(db: DatabaseView, i: int, u: Seq<char>)
    requires
        db.keyed(),
        db.canonical(),
        0 <= i < db.relationships.len(),
        db.relationships[i].involves(u),
    ensures
        db.relationship(u, db.relationships[i].other(u)) == Some(db.relationships[i]),
{
    let r = db.relationships[i];
    assert(r.canonical());
    law_order_symmetric(r.user_a, r.user_b);
    lemma_lookup_at(db.relationships, i);
}

proof fn lemma_pair_of_row(db: DatabaseView, u: Seq<char>, p: Seq<char>) -> (i: int)
    requires
        db.keyed(),
        db.relationship(u, p) is Some,
    ensures
        0 <= i < db.relationships.len(),
        db.relationships[i] == db.relationship(u, p)->0,
        db.relationships[i].involves(u),
        db.relationships[i].other(u) == p,
{
    let i = choose|i: int|
        0 <= i < db.relationships.len() && (#[trigger] db.relationships[i]).key() == ordered(u, p);
    lemma_lookup_at(db.relationships, i);
    law_order_symmetric(u, p);
    i
}

/// The peers of a user are those with whom they have an established chat.
pub proof fn law_peers(db: DatabaseView, u: Seq<char>, p: Seq<char>)
    requires
        db.keyed(),
        db.canonical(),
    ensures
        db.peers(u).contains(p) <==> db.chatting(u, p),
{
    let keep = |r: RelationshipView| r.involves(u) && r.established;
    let other = |r: RelationshipView| r.other(u);
    lemma_listed(db.relationships, keep, other, p);
    if db.peers(u).contains(p) {
        let i = choose|i: int|
            0 <= i < db.relationships.len() && keep(#[trigger] db.relationships[i]) && other(
                db.relationships[i],
            ) == p;
        lemma_row_of_pair(db, i, u);
    }
    if db.chatting(u, p) {
        let i = lemma_pair_of_row(db, u, p);
        assert(keep(db.relationships[i]) && other(db.relationships[i]) == p);
    }
}

/// The pending chats of a user are those that another has initiated with them
/// and that are not established.
pub proof fn law_pending(db: DatabaseView, u: Seq<char>, p: Seq<char>)
    requires
        db.keyed(),
        db.canonical(),
    ensures
        db.pending(u).contains(p) <==> p != u && (db.relationship(u, p) matches Some(r)
            && !r.established && r.initiator == p),
{
    let keep = |r: RelationshipView| !r.established && r.initiator != u && r.involves(u);
    let who = |r: RelationshipView| r.initiator;
    lemma_listed(db.relationships, keep, who, p);
    if db.pending(u).contains(p) {
        let i = choose|i: int|
            0 <= i < db.relationships.len() && keep(#[trigger] db.relationships[i]) && who(
                db.relationships[i],
            ) == p;
        assert(db.relationships[i].canonical());
        lemma_row_of_pair(db, i, u);
        assert(db.relationships[i].other(u) == p);
    }
    if p != u && (db.relationship(u, p) matches Some(r) && !r.established && r.initiator == p) {
        let i = lemma_pair_of_row(db, u, p);
        assert(keep(db.relationships[i]) && who(db.relationships[i]) == p);
    }
}

/// Being peers is mutual; a pending chat is not one of peers, and is not
/// pending for its initiator.
pub proof fn law_peers_and_pending(db: DatabaseView, u: Seq<char>, p: Seq<char>)
    requires
        db.keyed(),
        db.canonical(),
    ensures
        db.peers(u).contains(p) <==> db.peers(p).contains(u),
        !(db.peers(u).contains(p) && db.pending(u).contains(p)),
        !(db.pending(u).contains(p) && db.pending(p).contains(u)),
{
    law_peers(db, u, p);
    law_peers(db, p, u);
    law_pending(db, u, p);
    law_pending(db, p, u);
    law_order_symmetric(u, p);
}

/// Nobody is listed twice, neither among the peers nor among the pending chats.
pub proof fn law_listed_once(db: DatabaseView, u: Seq<char>)
    requires
        db.keyed(),
        db.canonical(),
    ensures
        db.peers(u).no_duplicates(),
        db.pending(u).no_duplicates(),
{
    let chats = db.peer_chats(u);
    let keep = |r: RelationshipView| r.involves(u) && r.established;
    lemma_lookup_filter(db.relationships, keep);
    assert forall|i: int, j: int| 0 <= i < j < chats.len() implies db.peers(u)[i] != db.peers(
        u,
    )[j] by {
        lemma_filter_kept(db.relationships, keep, i);
        lemma_filter_kept(db.relationships, keep, j);
        let x = db.relationships.index_of(chats[i]);
        let y = db.relationships.index_of(chats[j]);
        assert(db.relationships[x].canonical() && db.relationships[y].canonical());
        lemma_row_of_pair(db, x, u);
        lemma_row_of_pair(db, y, u);
        assert(chats[i].key() != chats[j].key());
    }
    let waiting = db.pending_chats(u);
    let pend = |r: RelationshipView| !r.established && r.initiator != u && r.involves(u);
    lemma_lookup_filter(db.relationships, pend);
    assert forall|i: int, j: int| 0 <= i < j < waiting.len() implies db.pending(u)[i]
        != db.pending(u)[j] by {
        lemma_filter_kept(db.relationships, pend, i);
        lemma_filter_kept(db.relationships, pend, j);
        let x = db.relationships.index_of(waiting[i]);
        let y = db.relationships.index_of(waiting[j]);
        assert(db.relationships[x].canonical() && db.relationships[y].canonical());
        lemma_row_of_pair(db, x, u);
        lemma_row_of_pair(db, y, u);
        assert(waiting[i].key() != waiting[j].key());
    }
}

// ---- accounts ---------------------------------------------------------

/// Whoever has registered is let in with the same credentials, never seen
/// before. A username that holds a colon is out: the header is split at the
/// first one.
pub proof fn law_registered_admitted(db: DatabaseView, username: Seq<char>, password: Seq<char>)
    requires
        db.keyed(),
        complete(username, password),
        db.user(username) is None,
        !username.contains(':'),
    ensures
        admission(
            registered(db, username, password, password_hash(password)),
            Some(username + seq![':'] + password),
        ) == Ok::<AdmissionView, ReplyView>(AdmissionView { username, last_seen: 0 }),
{
    lemma_header_split(username, password);
    law_user_created(db, username, password_hash(password), username);
}

proof fn lemma_header_split(username: Seq<char>, password: Seq<char>)
    requires
        !username.contains(':'),
    ensures
        split_first(username + seq![':'] + password, ':') == Some((username, password)),
{
    let header = username + seq![':'] + password;
    assert forall|j: int| 0 <= j < username.len() implies header[j] != ':' by {
        assert(header[j] == username[j]);
        assert(username.contains(username[j]));
    }
    assert(header[username.len() as int] == ':');
    lemma_first_position(header, ':', username.len() as int);
    assert(header.take(username.len() as int) =~= username);
    assert(header.skip(username.len() as int + 1) =~= password);
}

/// A wrong password and an unknown user are refused in the same words.
pub proof fn law_refused_alike(db: DatabaseView, username: Seq<char>, password: Seq<char>)
    requires
        !username.contains(':'),
        !admits(db, username, password_hash(password)),
    ensures
        admission(db, Some(username + seq![':'] + password)) == Err::<AdmissionView, ReplyView>(
            refusal("invalid credentials"@),
        ),
{
    lemma_header_split(username, password);
}

/// A name can be registered once: the second registration is answered with a
/// conflict, and the account stays as the first one made it.
pub proof fn law_registered_once(
    db: DatabaseView,
    username: Seq<char>,
    first: Seq<char>,
    second: Seq<char>,
)
    requires
        db.keyed(),
        complete(username, first),
        complete(username, second),
    ensures
        ({
            let after = registered(db, username, first, password_hash(first));
            &&& registration_reply(after, username, second) == (ReplyView::Failed {
                status: Status::Conflict,
                error: "conflict"@,
                message: "username already taken"@,
            })
            &&& registered(after, username, second, password_hash(second)) == after
        }),
{
    law_user_created(db, username, password_hash(first), username);
}

/// Deleting an account takes its password. With it, the user is gone with all
/// their chats, is offline, is let in no more, and may register anew; their
/// session is told to close.
pub proof fn law_account_deleted(
    s: AppStateView,
    me: Seq<char>,
    session: u64,
    password: Seq<char>,
    other: Seq<char>,
)
    requires
        s.db.keyed(),
        admits(s.db, me, password_hash(password)),
    ensures
        ({
            let step = delete_step(s, me, session, password_hash(password));
            &&& step.state.db.user(me) is None
            &&& step.state.db.relationship(me, other) is None
            &&& !step.state.online.contains_key(me)
            &&& step.outgoing.len() > 0 && step.outgoing.last() == (OutgoingView {
                session,
                msg: ServerMsgView::Close,
            })
            &&& !admits(step.state.db, me, password_hash(password))
            &&& complete(me, password) ==> registration_reply(step.state.db, me, password) == (
            ReplyView::Done { status: Status::Success, body: "ok"@ })
        }),
{
    law_user_deleted(s.db, me, me, other);
}

/// Without the right password nothing is deleted.
pub proof fn law_deletion_refused(
    s: AppStateView,
    me: Seq<char>,
    session: u64,
    password: Seq<char>,
)
    requires
        !admits(s.db, me, password_hash(password)),
    ensures
        delete_step(s, me, session, password_hash(password)).state == s,
        delete_step(s, me, session, password_hash(password)).outgoing == complaint(
            session,
            if s.db.user(me) is Some {
                "invalid password"@
            } else {
                "unknown user"@
            },
        ),
{
}

// ---- sessions ---------------------------------------------------------

/// A session that is opened holds the place of its user, and of nobody else;
/// closing it gives the place back, and records the visit.
pub proof fn law_session_opened_closed(
    s: AppStateView,
    username: Seq<char>,
    last_seen: i64,
    session: u64,
    peers: Seq<Seq<char>>,
    ts: i64,
)
    requires
        s.db.keyed(),
        !s.online.contains_key(username),
    ensures
        ({
            let opened = open_step(s, username, last_seen, session).state;
            let closed = close_step(opened, username, session, peers, ts).state;
            &&& opened.db == s.db
            &&& opened.online == s.online.insert(username, session)
            &&& closed.online == s.online
            &&& closed.db.user(username) == (match s.db.user(username) {
                Some(u) => Some(UserView { last_seen: ts, ..u }),
                None => None,
            })
        }),
{
    let opened = open_step(s, username, last_seen, session).state;
    assert(opened.online.remove(username) =~= s.online);
    law_user_seen(s.db, username, ts, username);
}

/// Ending a session never takes another user off the list of those online.
pub proof fn law_close_keeps_others(
    s: AppStateView,
    username: Seq<char>,
    session: u64,
    peers: Seq<Seq<char>>,
    ts: i64,
    other: Seq<char>,
)
    requires
        other != username,
        s.online.contains_key(other),
    ensures
        close_step(s, username, session, peers, ts).state.online.contains_key(other),
        close_step(s, username, session, peers, ts).state.online[other] == s.online[other],
{
}

/// Ending a session never erases another live session of the same user: it
/// keeps its place, the account stays as it is, and nobody is told.
pub proof fn law_close_keeps_live_session(
    s: AppStateView,
    username: Seq<char>,
    session: u64,
    peers: Seq<Seq<char>>,
    ts: i64,
)
    requires
        s.online.contains_key(username),
        s.online[username] != session,
    ensures
        close_step(s, username, session, peers, ts).state == s,
        close_step(s, username, session, peers, ts).state.online[username] == s.online[username],
        close_step(s, username, session, peers, ts).outgoing == Seq::<OutgoingView>::empty(),
{
}

/// The place that an account deletion has freed can be taken by a new session
/// of the same name; the end of the deleted session does not disturb it.
pub proof fn law_successor_survives(
    s: AppStateView,
    me: Seq<char>,
    first: u64,
    second: u64,
    password: Seq<char>,
    new_password: Seq<char>,
    peers: Seq<Seq<char>>,
    ts: i64,
)
    requires
        first != second,
        admits(s.db, me, password_hash(password)),
    ensures
        ({
            let deleted = delete_step(s, me, first, password_hash(password)).state;
            let again = AppStateView {
                db: registered(deleted.db, me, new_password, password_hash(new_password)),
                ..deleted
            };
            let live = open_step(again, me, 0, second).state;
            &&& !again.online.contains_key(me)
            &&& close_step(live, me, first, peers, ts).state == live
            &&& live.online[me] == second
        }),
{
}

/// What is sent to several users: the same message, to sessions of theirs.
proof fn lemma_deliver_all(
    online: Map<Seq<char>, u64>,
    users: Seq<Seq<char>>,
    msg: ServerMsgView,
    i: int,
) -> (u: Seq<char>)
    requires
        0 <= i < deliver_all(online, users, msg).len(),
    ensures
        users.contains(u),
        online.contains_key(u),
        deliver_all(online, users, msg)[i] == (OutgoingView { session: online[u], msg }),
    decreases users.len(),
{
    let front = deliver_all(online, users.drop_last(), msg);
    if i < front.len() {
        let u = lemma_deliver_all(online, users.drop_last(), msg, i);
        let j = users.drop_last().index_of(u);
        assert(users[j] == u);
        u
    } else {
        assert(users[users.len() - 1] == users.last());
        users.last()
    }
}

/// Whoever of several users is online gets the message.
proof fn lemma_delivered(
    online: Map<Seq<char>, u64>,
    users: Seq<Seq<char>>,
    msg: ServerMsgView,
    u: Seq<char>,
)
    requires
        users.contains(u),
        online.contains_key(u),
    ensures
        deliver_all(online, users, msg).contains(OutgoingView { session: online[u], msg }),
    decreases users.len(),
{
    let o = OutgoingView { session: online[u], msg };
    let front = deliver_all(online, users.drop_last(), msg);
    let all = deliver_all(online, users, msg);
    if users.last() == u {
        assert(all[front.len() as int] == o);
    } else {
        let j = users.index_of(u);
        assert(users.drop_last()[j] == u);
        lemma_delivered(online, users.drop_last(), msg, u);
        let k = front.index_of(o);
        assert(all[k] == o);
    }
}

/// When a user comes online, every peer of theirs who is online is told, and
/// of others only the new session itself is sent anything.
pub proof fn law_peers_told(
    s: AppStateView,
    username: Seq<char>,
    last_seen: i64,
    session: u64,
    peer: Seq<char>,
    i: int,
)
    requires
        s.db.keyed(),
        s.db.canonical(),
    ensures
        s.db.chatting(username, peer) && peer != username && s.online.contains_key(peer)
            ==> open_step(s, username, last_seen, session).outgoing.contains(
            OutgoingView { session: s.online[peer], msg: presence(username, true) },
        ),
        0 <= i < open_step(s, username, last_seen, session).outgoing.len() ==> ({
            let o = open_step(s, username, last_seen, session).outgoing[i];
            o.session == session || exists|p: Seq<char>|
                #![trigger s.db.chatting(username, p)]
                s.db.chatting(username, p) && s.online.contains_key(p) && o == (OutgoingView {
                    session: s.online[p],
                    msg: presence(username, true),
                })
        }),
{
    let step = open_step(s, username, last_seen, session);
    let online = step.state.online;
    let peers = s.db.peers(username);
    let told = deliver_all(online, peers, presence(username, true));
    let head = step.outgoing.len() - told.len();
    assert forall|k: int| 0 <= k < told.len() implies #[trigger] step.outgoing[head + k]
        == told[k] by {}
    if s.db.chatting(username, peer) && peer != username && s.online.contains_key(peer) {
        law_peers(s.db, username, peer);
        lemma_delivered(online, peers, presence(username, true), peer);
        let o = OutgoingView { session: s.online[peer], msg: presence(username, true) };
        let k = told.index_of(o);
        assert(step.outgoing[head + k] == o);
    }
    if 0 <= i < step.outgoing.len() {
        if i >= head {
            let k = i - head;
            assert(step.outgoing[head + k] == told[k]);
            let p = lemma_deliver_all(online, peers, presence(username, true), k);
            law_peers(s.db, username, p);
            if p != username {
                assert(s.db.chatting(username, p));
            }
        }
    }
}

// ---- chats ------------------------------------------------------------

/// Nothing of a chat reaches the other side before it is established: a chat
/// message is delivered only as one from its sender, to the session of the
/// user it is sent to, in an established chat.
pub proof fn law_no_delivery_before_established(
    s: AppStateView,
    me: Seq<char>,
    session: u64,
    cm: ClientMsgView,
    ts: i64,
    i: int,
)
    requires
        0 <= i < client_step(s, me, session, cm, ts).outgoing.len(),
        client_step(s, me, session, cm, ts).outgoing[i].msg is Message,
    ensures
        cm matches ClientMsgView::Send { to, payload } && s.db.chatting(me, to) && me != to
            && s.online.contains_key(to) && client_step(s, me, session, cm, ts).outgoing[i] == (
        OutgoingView {
            session: s.online[to],
            msg: ServerMsgView::Message { from: me, payload, ts },
        }),
{
    match cm {
        ClientMsgView::DeleteAccount { password } => {
            let all = deliver_all(s.online, s.db.peers(me), presence(me, false));
            if i < all.len() {
                lemma_deliver_all(s.online, s.db.peers(me), presence(me, false), i);
            }
        },
        _ => {},
    }
}

/// In an established chat a message reaches the other side if it is online.
pub proof fn law_delivered_when_established(
    s: AppStateView,
    me: Seq<char>,
    session: u64,
    to: Seq<char>,
    payload: Seq<char>,
    ts: i64,
)
    requires
        me != to,
        s.db.chatting(me, to),
    ensures
        send_step(s, me, session, to, payload, ts).state == s,
        send_step(s, me, session, to, payload, ts).outgoing == (if s.online.contains_key(to) {
            answer(s.online[to], ServerMsgView::Message { from: me, payload, ts })
        } else {
            seq![]
        }),
{
}

/// A chat keeps its initiator, and once established stays so, until one of
/// the two deletes their account.
pub proof fn law_chat_lasts(
    s: AppStateView,
    me: Seq<char>,
    session: u64,
    cm: ClientMsgView,
    ts: i64,
    u1: Seq<char>,
    u2: Seq<char>,
)
    requires
        s.db.keyed(),
        s.db.relationship(u1, u2) is Some,
        !(cm is DeleteAccount && (u1 == me || u2 == me)),
    ensures
        client_step(s, me, session, cm, ts).state.db.relationship(u1, u2) matches Some(r)
            && r.initiator == s.db.relationship(u1, u2)->0.initiator && (s.db.relationship(
            u1,
            u2,
        )->0.established ==> r.established),
{
    match cm {
        ClientMsgView::Send { to, payload } => {
            law_chat_initiated(s.db, me, to, u1, u2);
        },
        ClientMsgView::HistoryResponse { to, messages } => {
            law_chat_established(s.db, me, to, u1, u2);
        },
        ClientMsgView::DeleteAccount { password } => {
            law_user_deleted(s.db, me, u1, u2);
        },
        _ => {},
    }
}

/// Only the initiator establishes a chat, and only by handing history to the
/// other side.
pub proof fn law_established_by_initiator(
    s: AppStateView,
    me: Seq<char>,
    session: u64,
    cm: ClientMsgView,
    ts: i64,
    u1: Seq<char>,
    u2: Seq<char>,
)
    requires
        s.db.keyed(),
        !s.db.chatting(u1, u2),
        client_step(s, me, session, cm, ts).state.db.chatting(u1, u2),
    ensures
        cm matches ClientMsgView::HistoryResponse { to, messages } && ((u1 == me && u2 == to) || (
        u1 == to && u2 == me)) && (s.db.relationship(u1, u2) matches Some(r) && r.initiator == me),
{
    match cm {
        ClientMsgView::Send { to, payload } => {
            law_chat_initiated(s.db, me, to, u1, u2);
        },
        ClientMsgView::HistoryResponse { to, messages } => {
            law_chat_established(s.db, me, to, u1, u2);
            if ordered(u1, u2) == ordered(me, to) {
                lemma_same_pair(u1, u2, me, to);
            }
        },
        ClientMsgView::DeleteAccount { password } => {
            law_user_deleted(s.db, me, u1, u2);
        },
        _ => {},
    }
}

/// History can be pulled only from someone who has started the chat, or in an
/// established one; anyone else who asks is refused, and nobody hears of it.
pub proof fn law_pull_refused(
    s: AppStateView,
    me: Seq<char>,
    session: u64,
    from: Seq<char>,
    since: i64,
)
    requires
        !(s.db.relationship(me, from) matches Some(r) && (r.established || r.initiator == from)),
    ensures
        pull_step(s, me, session, from, since).state == s,
        pull_step(s, me, session, from, since).outgoing == complaint(
            session,
            not_messaged_text(from),
        ),
{
}

/// A message of one user touches no account but theirs, no chat of others, and
/// nobody else's place among those online.
pub proof fn law_others_untouched(
    s: AppStateView,
    me: Seq<char>,
    session: u64,
    cm: ClientMsgView,
    ts: i64,
    u1: Seq<char>,
    u2: Seq<char>,
)
    requires
        s.db.keyed(),
        u1 != me,
        u2 != me,
    ensures
        ({
            let after = client_step(s, me, session, cm, ts).state;
            &&& after.db.user(u1) == s.db.user(u1)
            &&& after.db.relationship(u1, u2) == s.db.relationship(u1, u2)
            &&& after.online.contains_key(u1) == s.online.contains_key(u1)
            &&& s.online.contains_key(u1) ==> after.online[u1] == s.online[u1]
        }),
{
    match cm {
        ClientMsgView::Send { to, payload } => {
            law_chat_initiated(s.db, me, to, u1, u2);
            if ordered(u1, u2) == ordered(me, to) {
                lemma_same_pair(u1, u2, me, to);
            }
        },
        ClientMsgView::HistoryResponse { to, messages } => {
            law_chat_established(s.db, me, to, u1, u2);
            if ordered(u1, u2) == ordered(me, to) {
                lemma_same_pair(u1, u2, me, to);
            }
        },
        ClientMsgView::DeleteAccount { password } => {
            law_user_deleted(s.db, me, u1, u2);
        },
        _ => {},
    }
}

/// Whatever a client sends, the answers go to its own session or to sessions
/// of users who are online.
pub proof fn law_routed(
    s: AppStateView,
    me: Seq<char>,
    session: u64,
    cm: ClientMsgView,
    ts: i64,
    i: int,
)
    requires
        0 <= i < client_step(s, me, session, cm, ts).outgoing.len(),
    ensures
        ({
            let o = client_step(s, me, session, cm, ts).outgoing[i];
            o.session == session || exists|u: Seq<char>| #[trigger]
                s.online.contains_key(u) && s.online[u] == o.session
        }),
{
    match cm {
        ClientMsgView::Send { to, payload } => {
        },
        ClientMsgView::PullHistory { from, since } => {
        },
        ClientMsgView::HistoryResponse { to, messages } => {
        },
        ClientMsgView::DeleteAccount { password } => {
            let all = deliver_all(s.online, s.db.peers(me), presence(me, false));
            if i < all.len() {
                lemma_deliver_all(s.online, s.db.peers(me), presence(me, false), i);
            }
        },
        _ => {},
    }
}

/// The tables stay keyed and canonical, whatever a client sends, however
/// sessions come and go, and whoever registers.
pub proof fn law_invariant_kept(
    s: AppStateView,
    me: Seq<char>,
    session: u64,
    cm: ClientMsgView,
    ts: i64,
    peers: Seq<Seq<char>>,
    password: Seq<char>,
    hash: Seq<char>,
)
    requires
        s.db.keyed(),
        s.db.canonical(),
    ensures
        client_step(s, me, session, cm, ts).state.db.keyed(),
        client_step(s, me, session, cm, ts).state.db.canonical(),
        open_step(s, me, ts, session).state.db.keyed(),
        open_step(s, me, ts, session).state.db.canonical(),
        close_step(s, me, session, peers, ts).state.db.keyed(),
        close_step(s, me, session, peers, ts).state.db.canonical(),
        registered(s.db, me, password, hash).keyed(),
        registered(s.db, me, password, hash).canonical(),
{
    law_canonical_kept(s.db, me, me, hash, ts);
    law_user_seen(s.db, me, ts, me);
    law_user_created(s.db, me, hash, me);
    match cm {
        ClientMsgView::Send { to, payload } => {
            law_chat_initiated(s.db, me, to, me, to);
            law_canonical_kept(s.db, me, to, hash, ts);
        },
        ClientMsgView::HistoryResponse { to, messages } => {
            law_chat_established(s.db, me, to, me, to);
            law_canonical_kept(s.db, me, to, hash, ts);
        },
        ClientMsgView::DeleteAccount { password } => {
            law_user_deleted(s.db, me, me, me);
        },
        _ => {},
    }
}

/// How a chat begins. The first message of `a` to `b` reaches nobody, and
/// makes the chat pending for `b` alone; until `b` has pulled, `a` is told so
/// and `b` is told to pull. A pull of `b` is passed on to `a`, if online, but
/// not one of `a` to `b`. The answer of `a` makes the two peers, tells both
/// who are online, and from then on either may write to the other.
pub proof fn law_handshake(
    s: AppStateView,
    a: Seq<char>,
    b: Seq<char>,
    session_a: u64,
    session_b: u64,
    payload: Seq<char>,
    ts: i64,
    since: i64,
    messages: Seq<StoredMsgView>,
)
    requires
        s.db.keyed(),
        s.db.canonical(),
        a != b,
        s.db.relationship(a, b) is None,
        s.online.contains_key(a),
        s.online[a] == session_a,
        s.online.contains_key(b),
        s.online[b] == session_b,
    ensures
        ({
            let first = send_step(s, a, session_a, b, payload, ts);
            let s1 = first.state;
            let pull = pull_step(s1, b, session_b, a, since);
            let reply = history_step(s1, a, b, messages);
            let s2 = reply.state;
            // the first message
            &&& first.outgoing == complaint(session_a, initiated_text(b))
            &&& s1.db.pending(b).contains(a)
            &&& !s1.db.pending(a).contains(b)
            &&& !s1.db.peers(a).contains(b)
            &&& !s1.db.peers(b).contains(a)
            // before the pull
            &&& send_step(s1, a, session_a, b, payload, ts).outgoing == complaint(
                session_a,
                b + " has not pulled your history yet"@,
            )
            &&& send_step(s1, b, session_b, a, payload, ts).outgoing == complaint(
                session_b,
                "pull history from "@ + a + " first"@,
            )
            &&& pull_step(s1, a, session_a, b, since).outgoing == complaint(
                session_a,
                not_messaged_text(b),
            )
            // the pull
            &&& pull.state == s1
            &&& pull.outgoing == answer(
                session_a,
                ServerMsgView::PullHistoryRequest { from: b, since },
            )
            // the answer
            &&& reply.outgoing == answer(session_b, presence(a, true)) + answer(
                session_a,
                presence(b, true),
            ) + answer(session_b, ServerMsgView::HistoryResponse { from: a, messages })
            &&& s2.db.peers(a).contains(b)
            &&& s2.db.peers(b).contains(a)
            &&& !s2.db.pending(b).contains(a)
            // and from then on
            &&& send_step(s2, a, session_a, b, payload, ts).outgoing == answer(
                session_b,
                ServerMsgView::Message { from: a, payload, ts },
            )
            &&& send_step(s2, b, session_b, a, payload, ts).outgoing == answer(
                session_a,
                ServerMsgView::Message { from: b, payload, ts },
            )
        }),
{
    let s1 = send_step(s, a, session_a, b, payload, ts).state;
    let s2 = history_step(s1, a, b, messages).state;
    law_order_symmetric(a, b);
    law_chat_initiated(s.db, a, b, a, b);
    law_canonical_kept(s.db, a, b, a, ts);
    law_pending(s1.db, b, a);
    law_pending(s1.db, a, b);
    law_peers(s1.db, a, b);
    law_peers(s1.db, b, a);
    law_chat_established(s1.db, a, b, a, b);
    law_canonical_kept(s1.db, a, b, a, ts);
    law_peers(s2.db, a, b);
    law_peers(s2.db, b, a);
    law_pending(s2.db, b, a);
}

// ---- rows -------------------------------------------------------------

/// The account of a name is the row with that name.
pub proof fn law_user_row(db: DatabaseView, username: Seq<char>, u: UserView)
    requires
        db.keyed(),
    ensures
        db.user(username) == Some(u) <==> db.users.contains(u) && u.username == username,
        db.user(username) is None <==> forall|i: int|
            0 <= i < db.users.len() ==> (#[trigger] db.users[i]).username != username,
{
    if db.user(username) is Some {
        lemma_lookup_found(db.users, username);
        let i = db.users.index_of(db.user(username)->0);
        assert(db.users[i].username == username);
    } else {
        assert forall|i: int| 0 <= i < db.users.len() implies (#[trigger] db.users[i]).username
            != username by {
            assert(db.users[i].key() == db.users[i].username);
        }
    }
    if db.users.contains(u) && u.username == username {
        let i = db.users.index_of(u);
        lemma_lookup_at(db.users, i);
    }
}

/// The chat of a pair is the row of those two, whichever way the pair is written.
pub proof fn law_relationship_row(
    db: DatabaseView,
    u1: Seq<char>,
    u2: Seq<char>,
    r: RelationshipView,
)
    requires
        db.keyed(),
        db.canonical(),
    ensures
        db.relationship(u1, u2) == Some(r) <==> db.relationships.contains(r) && ((r.user_a == u1
            && r.user_b == u2) || (r.user_a == u2 && r.user_b == u1)),
{
    law_order_symmetric(u1, u2);
    if db.relationship(u1, u2) is Some {
        lemma_lookup_found(db.relationships, ordered(u1, u2));
    }
    if db.relationships.contains(r) && ((r.user_a == u1 && r.user_b == u2) || (r.user_a == u2
        && r.user_b == u1)) {
        let i = db.relationships.index_of(r);
        assert(db.relationships[i].canonical());
        lemma_lookup_at(db.relationships, i);
    }
}

/// A pair is stored with the name that comes first in front.
pub proof fn law_ordered(a: Seq<char>, b: Seq<char>)
    requires
        text_less(a, b),
    ensures
        ordered(a, b) == (a, b),
        ordered(b, a) == (a, b),
{
    law_order_symmetric(a, b);
}

// ---- what is said to whom ---------------------------------------------

/// `msg` to each of `users` who is online, in turn.
pub open spec fn told(
    online: Map<Seq<char>, u64>,
    users: Seq<Seq<char>>,
    msg: ServerMsgView,
) -> Seq<OutgoingView> {
    users.filter(|u: Seq<char>| online.contains_key(u)).map_values(
        |u: Seq<char>| OutgoingView { session: online[u], msg },
    )
}

proof fn lemma_told(online: Map<Seq<char>, u64>, users: Seq<Seq<char>>, msg: ServerMsgView)
    ensures
        deliver_all(online, users, msg) == told(online, users, msg),
    decreases users.len(),
{
    reveal(Seq::filter);
    let f = |u: Seq<char>| OutgoingView { session: online[u], msg };
    let here = |u: Seq<char>| online.contains_key(u);
    if users.len() == 0 {
        assert(told(online, users, msg) =~= deliver_all(online, users, msg));
    } else {
        lemma_told(online, users.drop_last(), msg);
        if online.contains_key(users.last()) {
            assert(users.filter(here) =~= users.drop_last().filter(here).push(users.last()));
        } else {
            assert(users.filter(here) =~= users.drop_last().filter(here));
        }
        assert(told(online, users, msg) =~= deliver_all(online, users, msg));
    }
}

/// A step that was performed left the state, and gave the messages, that it
/// should; and it says that there is something to store exactly where the
/// tables have changed.
pub proof fn law_performed(
    before: AppStateView,
    expected: StepView,
    after: AppStateView,
    step: Step,
)
    requires
        performed(before, expected, after, step),
    ensures
        after == expected.state,
        step.outgoing.deep_view() == expected.outgoing,
        step.stored <==> before.db != after.db,
{
}

// ---- registering and logging in ---------------------------------------

/// Registering adds one row to the accounts: the name, the hash, and that the
/// user was never seen. It needs a name and a password, and a name that is in
/// no row.
pub proof fn law_registration(
    db: DatabaseView,
    username: Seq<char>,
    password: Seq<char>,
    hash: Seq<char>,
)
    ensures
        ({
            let after = registered(db, username, password, hash);
            let reply = registration_reply(db, username, password);
            let taken = exists|i: int|
                0 <= i < db.users.len() && (#[trigger] db.users[i]).username == username;
            &&& username.len() == 0 || password.len() == 0 ==> after == db && reply == (
            ReplyView::Failed {
                status: Status::BadRequest,
                error: "bad_request"@,
                message: "missing credentials"@,
            })
            &&& username.len() > 0 && password.len() > 0 && taken ==> after == db && reply == (
            ReplyView::Failed {
                status: Status::Conflict,
                error: "conflict"@,
                message: "username already taken"@,
            })
            &&& username.len() > 0 && password.len() > 0 && !taken ==> {
                &&& after.users == db.users.push(
                    UserView { username, password_hash: hash, last_seen: 0 },
                )
                &&& after.relationships == db.relationships
                &&& reply == (ReplyView::Done { status: Status::Success, body: "ok"@ })
            }
        }),
{
    if exists|i: int| 0 <= i < db.users.len() && (#[trigger] db.users[i]).username == username {
        let i = choose|i: int|
            0 <= i < db.users.len() && (#[trigger] db.users[i]).username == username;
        assert(db.users[i].key() == username);
        assert(db.user(username) is Some);
    } else {
        assert forall|i: int| 0 <= i < db.users.len() implies (#[trigger] db.users[i]).key()
            != username by {
            assert(db.users[i].username != username);
        }
        assert(db.user(username) is None);
    }
}

/// An account admits exactly those whose password has the hash of its row.
pub proof fn law_admits(db: DatabaseView, username: Seq<char>, hash: Seq<char>)
    requires
        db.keyed(),
    ensures
        admits(db, username, hash) <==> exists|i: int|
            0 <= i < db.users.len() && (#[trigger] db.users[i]).username == username
                && db.users[i].password_hash == hash,
{
    if admits(db, username, hash) {
        law_user_row(db, username, db.user(username)->0);
        let i = db.users.index_of(db.user(username)->0);
        assert(db.users[i].username == username && db.users[i].password_hash == hash);
    }
    if exists|i: int|
        0 <= i < db.users.len() && (#[trigger] db.users[i]).username == username
            && db.users[i].password_hash == hash {
        let i = choose|i: int|
            0 <= i < db.users.len() && (#[trigger] db.users[i]).username == username
                && db.users[i].password_hash == hash;
        law_user_row(db, username, db.users[i]);
    }
}

/// Whoever has an account is let in with its password, however often they have
/// been here, and with the time of their last visit. A username that holds a
/// colon is out: the header is split at the first one.
pub proof fn law_returning_user_admitted(db: DatabaseView, u: UserView, password: Seq<char>)
    requires
        db.keyed(),
        db.users.contains(u),
        u.password_hash == password_hash(password),
        !u.username.contains(':'),
    ensures
        admission(db, Some(u.username + seq![':'] + password)) == Ok::<AdmissionView, ReplyView>(
            AdmissionView { username: u.username, last_seen: u.last_seen },
        ),
{
    law_user_row(db, u.username, u);
    law_split_first(u.username + seq![':'] + password, ':', u.username, password);
}

/// Whoever is let in has an account under the name in front of the first colon
/// of the header, and has sent its password behind it.
pub proof fn law_admitted_has_account(db: DatabaseView, header: Seq<char>, a: AdmissionView)
    requires
        db.keyed(),
        admission(db, Some(header)) == Ok::<AdmissionView, ReplyView>(a),
    ensures
        !a.username.contains(':'),
        ({
            let password = header.skip(a.username.len() as int + 1);
            &&& header == a.username + seq![':'] + password
            &&& db.users.contains(
                UserView {
                    username: a.username,
                    password_hash: password_hash(password),
                    last_seen: a.last_seen,
                },
            )
        }),
{
    let (username, password) = split_first(header, ':')->0;
    law_split_first(header, ':', username, password);
    assert(header.skip(username.len() as int + 1) =~= password);
    law_user_row(db, username, db.user(username)->0);
}

/// A header says what its text holds, an empty one too.
pub proof fn law_header_text(auth: &str)
    ensures
        header_text(Some(auth)) == Some(auth@),
        header_text(None) is None,
{
}

/// Everyone else is turned away, and told why: no header, no colon in it, or
/// no account with that name and password.
pub proof fn law_turned_away(
    db: DatabaseView,
    header: Seq<char>,
    username: Seq<char>,
    password: Seq<char>,
)
    requires
        db.keyed(),
    ensures
        admission(db, None) == Err::<AdmissionView, ReplyView>(
            ReplyView::Failed {
                status: Status::Unauthorized,
                error: "unauthorized"@,
                message: "missing Authorization header"@,
            },
        ),
        !header.contains(':') ==> admission(db, Some(header)) == Err::<AdmissionView, ReplyView>(
            ReplyView::Failed {
                status: Status::Unauthorized,
                error: "unauthorized"@,
                message: "invalid Authorization header"@,
            },
        ),
        header == username + seq![':'] + password && !username.contains(':') && (forall|i: int|
            0 <= i < db.users.len() ==> (#[trigger] db.users[i]).username != username
                || db.users[i].password_hash != password_hash(password)) ==> admission(
            db,
            Some(header),
        ) == Err::<AdmissionView, ReplyView>(
            ReplyView::Failed {
                status: Status::Unauthorized,
                error: "unauthorized"@,
                message: "invalid credentials"@,
            },
        ),
{
    law_split_first(header, ':', username, password);
    law_admits(db, username, password_hash(password));
}

// ---- sessions, once more ----------------------------------------------

/// A user has a single session: it is opened exactly where there is none, and
/// while it lasts every other is refused.
pub proof fn law_single_session(
    s: AppStateView,
    username: Seq<char>,
    last_seen: i64,
    session: u64,
    last_seen2: i64,
    session2: u64,
)
    ensures
        s.online.contains_key(username) ==> opening(s, username, last_seen, session) == Err::<
            StepView,
            ServerMsgView,
        >(
            ServerMsgView::Error {
                msg: "another session is already connected for this user"@,
            },
        ),
        !s.online.contains_key(username) ==> {
            &&& opening(s, username, last_seen, session) matches Ok(step)
            &&& step.state.db == s.db
            &&& step.state.online == s.online.insert(username, session)
            &&& opening(step.state, username, last_seen2, session2) is Err
        },
{
}

/// A session begins with three messages to it: that the user is logged in and
/// when they were last seen, their peers, and their pending chats. Then every
/// peer who is online is told, and nobody else.
pub proof fn law_snapshot(s: AppStateView, username: Seq<char>, last_seen: i64, session: u64)
    requires
        s.db.keyed(),
        s.db.canonical(),
        !s.online.contains_key(username),
    ensures
        opening(s, username, last_seen, session) matches Ok(step) && step.outgoing.len() >= 3
            && step.outgoing[0] == (OutgoingView {
            session,
            msg: ServerMsgView::AuthOk { username, last_seen },
        }) && step.outgoing[1].session == session && (step.outgoing[1].msg matches
            ServerMsgView::Peers { peers } && peers.no_duplicates() && (forall|p: Seq<char>|
            #[trigger] peers.contains(p) <==> s.db.chatting(username, p)) && step.outgoing.skip(3)
            == told(
            s.online.insert(username, session),
            peers,
            ServerMsgView::PeerOnline { username },
        )) && step.outgoing[2].session == session && (step.outgoing[2].msg matches
            ServerMsgView::PendingChats { users } && users.no_duplicates() && (forall|p: Seq<char>|
            #[trigger] users.contains(p) <==> p != username && (s.db.relationship(username, p)
            matches Some(r) && !r.established && r.initiator == p))),
{
    let step = open_step(s, username, last_seen, session);
    let peers = s.db.peers(username);
    let users = s.db.pending(username);
    law_listed_once(s.db, username);
    assert forall|p: Seq<char>| #[trigger] peers.contains(p) <==> s.db.chatting(username, p) by {
        law_peers(s.db, username, p);
    }
    assert forall|p: Seq<char>| #[trigger] users.contains(p) <==> p != username && (
    s.db.relationship(username, p) matches Some(r) && !r.established && r.initiator == p) by {
        law_pending(s.db, username, p);
    }
    let msg = ServerMsgView::PeerOnline { username };
    lemma_told(step.state.online, peers, msg);
    assert(step.outgoing.skip(3) =~= deliver_all(step.state.online, peers, msg));
}

/// A session that ends and has, or had, the place of its user gives it back:
/// the visit is recorded, nothing else changes, and those of the given peers
/// who are online are told, and nobody else.
pub proof fn law_own_session_closed(
    s: AppStateView,
    username: Seq<char>,
    session: u64,
    peers: Seq<Seq<char>>,
    ts: i64,
    other: Seq<char>,
)
    requires
        s.db.keyed(),
        s.online.contains_key(username) ==> s.online[username] == session,
    ensures
        ({
            let step = close_step(s, username, session, peers, ts);
            &&& step.state.online == s.online.remove(username)
            &&& step.state.db.relationships == s.db.relationships
            &&& step.state.db.user(username) == (match s.db.user(username) {
                Some(u) => Some(UserView { last_seen: ts, ..u }),
                None => None,
            })
            &&& other != username ==> step.state.db.user(other) == s.db.user(other)
            &&& step.outgoing == told(
                s.online.remove(username),
                peers,
                ServerMsgView::PeerOffline { username },
            )
        }),
{
    law_user_seen(s.db, username, ts, username);
    law_user_seen(s.db, username, ts, other);
    lemma_told(s.online.remove(username), peers, ServerMsgView::PeerOffline { username });
}

// ---- every message of a client ----------------------------------------

/// Nobody can write to themselves: nothing changes, and they are told so.
pub proof fn law_send_to_self(
    s: AppStateView,
    me: Seq<char>,
    session: u64,
    payload: Seq<char>,
    ts: i64,
)
    ensures
        ({
            let step = client_step(s, me, session, ClientMsgView::Send { to: me, payload }, ts);
            &&& step.state == s
            &&& step.outgoing == seq![
                OutgoingView {
                    session,
                    msg: ServerMsgView::Error { msg: "cannot send to yourself"@ },
                },
            ]
        }),
{
}

/// The first message between two users is recorded, whoever of them is online:
/// the chats have one row more, of these two, not established, with the sender
/// as initiator. It is pending for the other side alone, who may pull. Nothing
/// is delivered; the sender is told what happens next.
pub proof fn law_first_message(
    s: AppStateView,
    me: Seq<char>,
    session: u64,
    to: Seq<char>,
    payload: Seq<char>,
    ts: i64,
)
    requires
        s.db.keyed(),
        s.db.canonical(),
        me != to,
        s.db.relationship(me, to) is None,
    ensures
        ({
            let step = client_step(s, me, session, ClientMsgView::Send { to, payload }, ts);
            let rows = step.state.db.relationships;
            &&& step.state.online == s.online
            &&& step.state.db.users == s.db.users
            &&& rows.len() == s.db.relationships.len() + 1
            &&& rows.drop_last() == s.db.relationships
            &&& rows.last().involves(me) && rows.last().other(me) == to
            &&& rows.last().initiator == me
            &&& !rows.last().established
            &&& step.state.db.relationship(me, to) == Some(rows.last())
            &&& step.state.db.relationship(to, me) == Some(rows.last())
            &&& step.state.db.pending(to).contains(me)
            &&& !step.state.db.pending(me).contains(to)
            &&& !step.state.db.peers(me).contains(to)
            &&& !step.state.db.peers(to).contains(me)
            &&& step.outgoing == seq![
                OutgoingView {
                    session,
                    msg: ServerMsgView::Error {
                        msg: "chat with "@ + to + " initiated; "@ + to
                            + " must pull history to open it"@,
                    },
                },
            ]
        }),
{
    let after = s.db.chat_initiated(me, to);
    law_order_symmetric(me, to);
    law_chat_initiated(s.db, me, to, me, to);
    law_canonical_kept(s.db, me, to, me, ts);
    let row = after.relationships.last();
    assert(after.relationships.drop_last() =~= s.db.relationships);
    assert(after.relationships[after.relationships.len() - 1] == row);
    law_relationship_row(after, me, to, row);
    law_pending(after, to, me);
    law_pending(after, me, to);
    law_peers(after, me, to);
    law_peers(after, to, me);
}

/// In a chat that exists, sending changes nothing. Where it is established,
/// the message goes to the other side as it is, if they are online, and to
/// nobody else. Where it is not, only the sender hears of it: the initiator
/// has to wait for the other side, and the other side has to pull first.
pub proof fn law_later_message(
    s: AppStateView,
    me: Seq<char>,
    session: u64,
    to: Seq<char>,
    payload: Seq<char>,
    ts: i64,
)
    requires
        me != to,
        s.db.relationship(me, to) is Some,
    ensures
        ({
            let r = s.db.relationship(me, to)->0;
            let step = client_step(s, me, session, ClientMsgView::Send { to, payload }, ts);
            &&& step.state == s
            &&& r.established && s.online.contains_key(to) ==> step.outgoing == seq![
                OutgoingView {
                    session: s.online[to],
                    msg: ServerMsgView::Message { from: me, payload, ts },
                },
            ]
            &&& r.established && !s.online.contains_key(to) ==> step.outgoing.len() == 0
            &&& !r.established && r.initiator == me ==> step.outgoing == seq![
                OutgoingView {
                    session,
                    msg: ServerMsgView::Error { msg: to + " has not pulled your history yet"@ },
                },
            ]
            &&& !r.established && r.initiator != me ==> step.outgoing == seq![
                OutgoingView {
                    session,
                    msg: ServerMsgView::Error { msg: "pull history from "@ + to + " first"@ },
                },
            ]
        }),
{
}

/// Pulling changes nothing. It is passed on to whoever is pulled from, with
/// the time from which on, where the chat is established or they have started
/// it, and they are online; otherwise only the one who pulls is told why not.
pub proof fn law_pull(
    s: AppStateView,
    me: Seq<char>,
    session: u64,
    from: Seq<char>,
    since: i64,
    ts: i64,
)
    ensures
        ({
            let step = client_step(
                s,
                me,
                session,
                ClientMsgView::PullHistory { from, since },
                ts,
            );
            let allowed = s.db.relationship(me, from) matches Some(r) && (r.established
                || r.initiator == from);
            &&& step.state == s
            &&& allowed && s.online.contains_key(from) ==> step.outgoing == seq![
                OutgoingView {
                    session: s.online[from],
                    msg: ServerMsgView::PullHistoryRequest { from: me, since },
                },
            ]
            &&& allowed && !s.online.contains_key(from) ==> step.outgoing == seq![
                OutgoingView {
                    session,
                    msg: ServerMsgView::Error {
                        msg: "peer "@ + from + " is offline, try again later"@,
                    },
                },
            ]
            &&& !allowed ==> step.outgoing == seq![
                OutgoingView {
                    session,
                    msg: ServerMsgView::Error { msg: from + " has not messaged you"@ },
                },
            ]
        }),
{
}

/// History that the initiator hands on in a chat that is not established
/// establishes it, whoever is online: the two are peers from then on, and the
/// chat is pending no more. Both are told that the other is there, and then
/// the history goes to the other side, as far as they are online.
pub proof fn law_history_establishes(
    s: AppStateView,
    me: Seq<char>,
    session: u64,
    to: Seq<char>,
    messages: Seq<StoredMsgView>,
    ts: i64,
    u1: Seq<char>,
    u2: Seq<char>,
)
    requires
        s.db.keyed(),
        s.db.canonical(),
        s.db.relationship(me, to) matches Some(r) && r.initiator == me && !r.established,
    ensures
        ({
            let step = client_step(
                s,
                me,
                session,
                ClientMsgView::HistoryResponse { to, messages },
                ts,
            );
            let db = step.state.db;
            &&& step.state.online == s.online
            &&& db.users == s.db.users
            &&& db.relationships.len() == s.db.relationships.len()
            &&& db.relationship(me, to) == Some(
                RelationshipView { established: true, ..s.db.relationship(me, to)->0 },
            )
            &&& db.relationship(to, me) == db.relationship(me, to)
            &&& ordered(u1, u2) != ordered(me, to) ==> db.relationship(u1, u2)
                == s.db.relationship(u1, u2)
            &&& db.peers(me).contains(to) && db.peers(to).contains(me)
            &&& !db.pending(to).contains(me)
            &&& step.outgoing == told(
                s.online,
                seq![to],
                ServerMsgView::PeerOnline { username: me },
            ) + told(s.online, seq![me], ServerMsgView::PeerOnline { username: to }) + told(
                s.online,
                seq![to],
                ServerMsgView::HistoryResponse { from: me, messages },
            )
        }),
{
    let after = s.db.chat_established(me, to);
    law_order_symmetric(me, to);
    law_chat_established(s.db, me, to, me, to);
    law_chat_established(s.db, me, to, u1, u2);
    law_canonical_kept(s.db, me, to, me, ts);
    law_peers(after, me, to);
    law_peers(after, to, me);
    law_pending(after, to, me);
    lemma_told_one(s.online, to, ServerMsgView::PeerOnline { username: me });
    lemma_told_one(s.online, me, ServerMsgView::PeerOnline { username: to });
    lemma_told_one(s.online, to, ServerMsgView::HistoryResponse { from: me, messages });
}

proof fn lemma_told_one(online: Map<Seq<char>, u64>, u: Seq<char>, msg: ServerMsgView)
    ensures
        told(online, seq![u], msg) == (if online.contains_key(u) {
            seq![OutgoingView { session: online[u], msg }]
        } else {
            seq![]
        }),
{
    reveal(Seq::filter);
    assert(seq![u].drop_last() =~= seq![]);
    let here = |u: Seq<char>| online.contains_key(u);
    assert(seq![u].last() == u);
    assert(seq![u].drop_last().filter(here) =~= seq![]);
    if online.contains_key(u) {
        assert(seq![u].filter(here) =~= seq![u]);
    } else {
        assert(seq![u].filter(here) =~= seq![]);
    }
    assert(told(online, seq![u], msg) =~= (if online.contains_key(u) {
        seq![OutgoingView { session: online[u], msg }]
    } else {
        seq![]
    }));
}

/// Any other history changes nothing, and goes to the other side as it is, if
/// they are online.
pub proof fn law_history_passed_on(
    s: AppStateView,
    me: Seq<char>,
    session: u64,
    to: Seq<char>,
    messages: Seq<StoredMsgView>,
    ts: i64,
)
    requires
        s.db.relationship(me, to) matches Some(r) ==> r.initiator != me || r.established,
    ensures
        ({
            let step = client_step(
                s,
                me,
                session,
                ClientMsgView::HistoryResponse { to, messages },
                ts,
            );
            &&& step.state == s
            &&& step.outgoing == (if s.online.contains_key(to) {
                seq![
                    OutgoingView {
                        session: s.online[to],
                        msg: ServerMsgView::HistoryResponse { from: me, messages },
                    },
                ]
            } else {
                seq![]
            })
        }),
{
}

/// Whoever asks for their pending chats is answered, and only they: the list
/// names each user once who has started a chat with them that is not
/// established.
pub proof fn law_pending_listed(s: AppStateView, me: Seq<char>, session: u64, ts: i64)
    requires
        s.db.keyed(),
        s.db.canonical(),
    ensures
        ({
            let step = client_step(s, me, session, ClientMsgView::ListPending, ts);
            &&& step.state == s
            &&& step.outgoing.len() == 1
            &&& step.outgoing[0].session == session
            &&& step.outgoing[0].msg matches ServerMsgView::PendingChats { users }
                && users.no_duplicates() && (forall|p: Seq<char>| #[trigger]
                users.contains(p) <==> p != me && (s.db.relationship(me, p) matches Some(r)
                    && !r.established && r.initiator == p))
        }),
{
    let users = s.db.pending(me);
    law_listed_once(s.db, me);
    assert forall|p: Seq<char>| #[trigger] users.contains(p) <==> p != me && (s.db.relationship(
        me,
        p,
    ) matches Some(r) && !r.established && r.initiator == p) by {
        law_pending(s.db, me, p);
    }
}

/// Deleting an account takes the password of its row. With it, the account and
/// the chats of its user are gone, whether or not they have been seen or have
/// chats, and nothing else is; the user is offline; those of their peers who
/// are online are told, and then the session is closed.
pub proof fn law_deletion(
    s: AppStateView,
    me: Seq<char>,
    session: u64,
    password: Seq<char>,
    ts: i64,
    u1: Seq<char>,
    u2: Seq<char>,
)
    requires
        s.db.keyed(),
        s.db.canonical(),
    ensures
        ({
            let step = client_step(
                s,
                me,
                session,
                ClientMsgView::DeleteAccount { password },
                ts,
            );
            let db = step.state.db;
            &&& s.db.user(me) is None ==> step.state == s && step.outgoing == seq![
                OutgoingView { session, msg: ServerMsgView::Error { msg: "unknown user"@ } },
            ]
            &&& s.db.user(me) matches Some(u) ==> {
                &&& u.password_hash != password_hash(password) ==> step.state == s
                    && step.outgoing == seq![
                    OutgoingView {
                        session,
                        msg: ServerMsgView::Error { msg: "invalid password"@ },
                    },
                ]
                &&& u.password_hash == password_hash(password) ==> {
                    &&& step.state.online == s.online.remove(me)
                    &&& db.user(u1) == (if u1 == me {
                        None
                    } else {
                        s.db.user(u1)
                    })
                    &&& db.relationship(u1, u2) == (if u1 == me || u2 == me {
                        None
                    } else {
                        s.db.relationship(u1, u2)
                    })
                    &&& step.outgoing.len() > 0
                    &&& step.outgoing.last() == (OutgoingView { session, msg: ServerMsgView::Close })
                    &&& exists|peers: Seq<Seq<char>>|
                        peers.no_duplicates() && (forall|p: Seq<char>| #[trigger]
                            peers.contains(p) <==> s.db.chatting(me, p))
                            && step.outgoing.drop_last() == #[trigger] told(
                            s.online,
                            peers,
                            ServerMsgView::PeerOffline { username: me },
                        )
                }
            }
        }),
{
    let step = client_step(s, me, session, ClientMsgView::DeleteAccount { password }, ts);
    let msg = ServerMsgView::PeerOffline { username: me };
    let peers = s.db.peers(me);
    law_user_deleted(s.db, me, u1, u2);
    law_listed_once(s.db, me);
    lemma_told(s.online, peers, msg);
    if s.db.user(me) is Some && s.db.user(me)->0.password_hash == password_hash(password) {
        assert forall|p: Seq<char>| #[trigger] peers.contains(p) <==> s.db.chatting(me, p) by {
            law_peers(s.db, me, p);
        }
        assert(step.outgoing.drop_last() =~= told(s.online, peers, msg));
    }
}

} // verus!
