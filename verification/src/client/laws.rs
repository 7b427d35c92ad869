//! What holds of the client as a whole.
use crate::client::commands::{
    disconnected, message_sent, outcome, sendable, sending, sending_password,
};
use crate::client::crypto::{decrypted, encryptable_len};
use crate::client::db::{
    at_time, handed_on, insert_by_ts, law_by_ts, law_by_ts_since, law_by_ts_stable, not_before,
    DatabaseView, EncryptionRowView, LocalMsgView, MessageRowView,
};
use crate::client::state::InnerView;
use crate::client::ws::{
    absorbed, fresh, lemma_absorbed_encryption, message_event, pulls, server_step, shows, taken_in,
    EffectView, StepView, UiEventView,
};
use crate::outside::{base64_text, gcm_sealed, sha256_digest};
use crate::protocol::{ClientMsg, ClientMsgView, ServerMsgView, StoredMsgView, UiMsgView};
use crate::table::{
    lemma_filter_next, lemma_lookup_at, lemma_lookup_push, lemma_lookup_same_keys, lookup, Row,
};
use vstd::prelude::*;
use vstd::utf8::*;

verus! {

// ---- the local tables -------------------------------------------------

/// A history from some time on is what the whole history holds from then on.
pub proof fn law_history_since(db: DatabaseView, peer: Seq<char>, since: i64)
    ensures
        db.history_since(peer, since) == db.history(peer).filter(not_before(since)),
{
    law_by_ts_since(db.chat(peer), since);
}

proof fn lemma_chat_inserted(
    db: DatabaseView,
    peer: Seq<char>,
    m: LocalMsgView,
    other: Seq<char>,
)
    ensures
        db.message_inserted(peer, m).chat(other) == (if other == peer {
            db.chat(other).push(m)
        } else {
            db.chat(other)
        }),
{
    let row = MessageRowView { peer, msg: m };
    let rows = db.messages.push(row);
    let of_other = |r: MessageRowView| r.peer == other;
    let msg = |r: MessageRowView| r.msg;
    lemma_filter_next(rows, of_other, db.messages.len() as int);
    assert(rows.take(db.messages.len() as int) =~= db.messages);
    assert(rows.take(db.messages.len() as int + 1) =~= rows);
    if other == peer {
        assert(rows.filter(of_other).map_values(msg) =~= db.chat(other).push(m));
    }
}

/// A message goes into the history of its chat, at its time, and into no other.
pub proof fn law_message_inserted(
    db: DatabaseView,
    peer: Seq<char>,
    m: LocalMsgView,
    other: Seq<char>,
)
    ensures
        db.message_inserted(peer, m).has_message(peer, m),
        db.message_inserted(peer, m).messages == db.messages.push(MessageRowView { peer, msg: m }),
        db.message_inserted(peer, m).history(peer) == insert_by_ts(db.history(peer), m),
        other != peer ==> db.message_inserted(peer, m).history(other) == db.history(other),
        db.message_inserted(peer, m).encryption == db.encryption,
{
    let after = db.message_inserted(peer, m);
    lemma_chat_inserted(db, peer, m, peer);
    lemma_chat_inserted(db, peer, m, other);
    assert(after.messages[db.messages.len() as int] == (MessageRowView { peer, msg: m }));
    assert(db.chat(peer).push(m).drop_last() =~= db.chat(peer));
}

/// Storing a message a second time changes nothing.
pub proof fn law_stored_once(db: DatabaseView, peer: Seq<char>, m: LocalMsgView)
    ensures
        db.message_stored(peer, m).has_message(peer, m),
        db.message_stored(peer, m).message_stored(peer, m) == db.message_stored(peer, m),
{
    law_message_inserted(db, peer, m, peer);
}

/// The history of a chat holds exactly the messages stored for it.
pub proof fn law_history_complete(db: DatabaseView, peer: Seq<char>, m: LocalMsgView)
    ensures
        db.history(peer).contains(m) <==> db.has_message(peer, m),
    decreases db.messages.len(),
{
    broadcast use vstd::seq_lib::group_to_multiset_ensures;

    lemma_chat_contains(db, peer, m);
    law_by_ts(db.chat(peer));
    assert(db.history(peer).contains(m) <==> db.history(peer).to_multiset().count(m) > 0);
    assert(db.chat(peer).contains(m) <==> db.chat(peer).to_multiset().count(m) > 0);
}

proof fn lemma_chat_contains(db: DatabaseView, peer: Seq<char>, m: LocalMsgView)
    ensures
        db.chat(peer).contains(m) <==> db.has_message(peer, m),
    decreases db.messages.len(),
{
    let row = MessageRowView { peer, msg: m };
    if db.messages.len() == 0 {
        reveal(Seq::filter);
        assert(db.chat(peer).len() == 0);
    } else {
        let front = DatabaseView { messages: db.messages.drop_last(), ..db };
        let last = db.messages.last();
        lemma_chat_contains(front, peer, m);
        lemma_chat_inserted(front, last.peer, last.msg, peer);
        assert(front.messages.push(last) =~= db.messages);
        assert(front.message_inserted(last.peer, last.msg) == db);
        lemma_push_contains(front.messages, last, row);
        lemma_push_contains(front.chat(peer), last.msg, m);
    }
}

proof fn lemma_push_contains<A>(s: Seq<A>, a: A, x: A)
    ensures
        s.push(a).contains(x) <==> s.contains(x) || x == a,
{
    let t = s.push(a);
    if s.contains(x) {
        let i = s.index_of(x);
        assert(t[i] == x);
    }
    if x == a {
        assert(t[s.len() as int] == x);
    }
    if t.contains(x) && x != a {
        let i = t.index_of(x);
        assert(s[i] == x);
    }
}

/// What is set for a chat is what it is encrypted with; other chats, and the
/// messages, are left as they are.
pub proof fn law_encryption_set(
    db: DatabaseView,
    peer: Seq<char>,
    method: Seq<char>,
    password: Option<Seq<char>>,
    other: Seq<char>,
)
    requires
        db.keyed(),
    ensures
        db.encryption_set(peer, method, password).keyed(),
        db.encryption_set(peer, method, password).encryption_of(peer) == (method, password),
        other != peer ==> db.encryption_set(peer, method, password).encryption_of(other)
            == db.encryption_of(other),
        db.encryption_set(peer, method, password).messages == db.messages,
{
    let row = EncryptionRowView { peer, method, password };
    let rows = db.encryption;
    let t = db.encryption_set(peer, method, password).encryption;
    if lookup(rows, peer) is Some {
        let i = choose|i: int| 0 <= i < rows.len() && (#[trigger] rows[i]).key() == peer;
        assert(rows[i].key() == peer);
        assert forall|j: int| 0 <= j < rows.len() implies (#[trigger] t[j]).key()
            == rows[j].key() by {}
        lemma_lookup_same_keys(rows, t);
        assert(lookup(t, rows[i].key()) == Some(t[i]));
        if other != peer && lookup(rows, other) is Some {
            let j = choose|j: int| 0 <= j < rows.len() && (#[trigger] rows[j]).key() == other;
            assert(lookup(t, rows[j].key()) == Some(t[j]));
            lemma_lookup_at(rows, j);
        }
    } else {
        lemma_lookup_push(rows, row);
    }
}

/// After a wipe no chat has a history or a password.
pub proof fn law_wiped(peer: Seq<char>)
    ensures
        DatabaseView::empty().keyed(),
        DatabaseView::empty().messages.len() == 0,
        DatabaseView::empty().encryption.len() == 0,
        DatabaseView::empty().history(peer) == Seq::<LocalMsgView>::empty(),
        DatabaseView::empty().encryption_of(peer) == ("none"@, None::<Seq<char>>),
{
    reveal(Seq::filter);
    let db = DatabaseView::empty();
    assert(db.chat(peer) =~= seq![]);
}

// ---- handing history on -----------------------------------------------

/// A message as the other side has it: what went out came in there.
pub open spec fn mirrored(m: LocalMsgView) -> LocalMsgView {
    LocalMsgView {
        direction: if m.direction == "out"@ {
            "in"@
        } else {
            "out"@
        },
        ..m
    }
}

/// A message that `me` hands on to `peer` is stored there mirrored.
pub proof fn law_mirrored(m: LocalMsgView, me: Seq<char>, peer: Seq<char>)
    requires
        me != peer,
    ensures
        taken_in(handed_on(m, peer, me), peer) == mirrored(m),
{
}

/// Mirroring a message twice gives it back.
pub proof fn law_mirrored_twice(m: LocalMsgView)
    requires
        m.direction == "in"@ || m.direction == "out"@,
    ensures
        mirrored(mirrored(m)) == m,
{
    reveal_strlit("in");
    reveal_strlit("out");
    assert("in"@.len() != "out"@.len());
}

/// Storing a history appends its new messages, and only those: each is in the
/// history, none was stored before, and none comes twice.
pub proof fn law_absorbed(
    db: DatabaseView,
    from: Seq<char>,
    me: Seq<char>,
    messages: Seq<StoredMsgView>,
)
    ensures
        absorbed(db, from, me, messages).messages == db.messages + fresh(
            db,
            from,
            me,
            messages,
        ).map_values(|m: LocalMsgView| MessageRowView { peer: from, msg: m }),
        absorbed(db, from, me, messages).encryption == db.encryption,
        fresh(db, from, me, messages).no_duplicates(),
        forall|m: LocalMsgView| #[trigger]
            fresh(db, from, me, messages).contains(m) ==> !db.has_message(from, m)
                && messages.map_values(|s: StoredMsgView| taken_in(s, me)).contains(m),
    decreases messages.len(),
{
    let new = fresh(db, from, me, messages);
    let row = |m: LocalMsgView| MessageRowView { peer: from, msg: m };
    let taken = |s: StoredMsgView| taken_in(s, me);
    lemma_absorbed_encryption(db, from, me, messages);
    if messages.len() == 0 {
        assert(db.messages + new.map_values(row) =~= db.messages);
    } else {
        let front = messages.drop_last();
        let last = taken_in(messages.last(), me);
        let before = absorbed(db, from, me, front);
        let old_new = fresh(db, from, me, front);
        law_absorbed(db, from, me, front);
        assert(messages.map_values(taken) =~= front.map_values(taken).push(last));
        if before.has_message(from, last) {
            assert forall|m: LocalMsgView| #[trigger] new.contains(m) implies !db.has_message(
                from,
                m,
            ) && messages.map_values(taken).contains(m) by {
                assert(old_new.contains(m));
                lemma_push_contains(front.map_values(taken), last, m);
            }
        } else {
            assert(new.map_values(row) =~= old_new.map_values(row).push(row(last)));
            assert(absorbed(db, from, me, messages).messages =~= db.messages + new.map_values(row));
            assert(!old_new.contains(last)) by {
                if old_new.contains(last) {
                    let i = old_new.index_of(last);
                    assert(old_new.map_values(row)[i] == row(last));
                    assert(before.messages[db.messages.len() + i] == row(last));
                }
            }
            assert(!db.has_message(from, last)) by {
                if db.has_message(from, last) {
                    let i = db.messages.index_of(row(last));
                    assert(before.messages[i] == row(last));
                }
            }
            assert forall|m: LocalMsgView| #[trigger] new.contains(m) implies !db.has_message(
                from,
                m,
            ) && messages.map_values(taken).contains(m) by {
                lemma_push_contains(old_new, last, m);
                lemma_push_contains(front.map_values(taken), last, m);
            }
        }
    }
}

/// Every message of a history is there once it has been stored.
pub proof fn law_absorbed_complete(
    db: DatabaseView,
    from: Seq<char>,
    me: Seq<char>,
    messages: Seq<StoredMsgView>,
    i: int,
)
    requires
        0 <= i < messages.len(),
    ensures
        absorbed(db, from, me, messages).has_message(from, taken_in(messages[i], me)),
    decreases messages.len(),
{
    let before = absorbed(db, from, me, messages.drop_last());
    let last = taken_in(messages.last(), me);
    if i == messages.len() - 1 {
        law_stored_once(before, from, last);
    } else {
        law_absorbed_complete(db, from, me, messages.drop_last(), i);
        let row = MessageRowView { peer: from, msg: taken_in(messages[i], me) };
        lemma_push_contains(
            before.messages,
            MessageRowView { peer: from, msg: last },
            row,
        );
    }
}

/// A history that holds nothing new changes nothing, and nothing of it is shown.
pub proof fn law_nothing_new(
    db: DatabaseView,
    from: Seq<char>,
    me: Seq<char>,
    messages: Seq<StoredMsgView>,
)
    requires
        forall|i: int|
            0 <= i < messages.len() ==> db.has_message(
                from,
                taken_in(#[trigger] messages[i], me),
            ),
    ensures
        absorbed(db, from, me, messages) == db,
        fresh(db, from, me, messages) == Seq::<LocalMsgView>::empty(),
    decreases messages.len(),
{
    if messages.len() > 0 {
        let front = messages.drop_last();
        assert forall|i: int| 0 <= i < front.len() implies db.has_message(
            from,
            taken_in(#[trigger] front[i], me),
        ) by {
            assert(front[i] == messages[i]);
        }
        law_nothing_new(db, from, me, front);
        assert(messages[messages.len() - 1] == messages.last());
    }
}

/// A history can be pulled again: the second time nothing is stored or shown.
pub proof fn law_absorbed_again(
    db: DatabaseView,
    from: Seq<char>,
    me: Seq<char>,
    messages: Seq<StoredMsgView>,
)
    ensures
        ({
            let after = absorbed(db, from, me, messages);
            &&& absorbed(after, from, me, messages) == after
            &&& fresh(after, from, me, messages) == Seq::<LocalMsgView>::empty()
        }),
{
    let after = absorbed(db, from, me, messages);
    assert forall|i: int| 0 <= i < messages.len() implies after.has_message(
        from,
        taken_in(#[trigger] messages[i], me),
    ) by {
        law_absorbed_complete(db, from, me, messages, i);
    }
    law_nothing_new(after, from, me, messages);
}

/// What `b` pulls from `a` brings over everything that `a` has of their chat
/// from `since` on.
pub proof fn law_pull_brings_over(
    a_db: DatabaseView,
    b_db: DatabaseView,
    a: Seq<char>,
    b: Seq<char>,
    since: i64,
    m: LocalMsgView,
)
    requires
        a != b,
        a_db.has_message(b, m),
        m.ts >= since,
    ensures
        absorbed(b_db, a, b, a_db.history_for_peer(b, a, since)).has_message(a, mirrored(m)),
{
    let history = a_db.history_since(b, since);
    let messages = a_db.history_for_peer(b, a, since);
    law_history_complete(a_db, b, m);
    law_history_since(a_db, b, since);
    lemma_filter_contains(a_db.history(b), not_before(since), m);
    let i = history.index_of(m);
    assert(messages[i] == handed_on(m, b, a));
    law_mirrored(m, a, b);
    law_absorbed_complete(b_db, a, b, messages, i);
}

proof fn lemma_filter_contains(
    s: Seq<LocalMsgView>,
    p: spec_fn(LocalMsgView) -> bool,
    m: LocalMsgView,
)
    requires
        s.contains(m),
        p(m),
    ensures
        s.filter(p).contains(m),
    decreases s.len(),
{
    reveal(Seq::filter);
    let front = s.drop_last();
    if s.last() == m {
        lemma_push_contains(front.filter(p), m, m);
    } else {
        let i = s.index_of(m);
        assert(front[i] == m);
        lemma_filter_contains(front, p, m);
        lemma_push_contains(front.filter(p), s.last(), m);
    }
}

// ---- messages ---------------------------------------------------------

/// An encrypted message is shown in the clear to a user who has set the
/// password it was encrypted with.
pub proof fn law_read_with_password(
    inner: InnerView,
    me: Seq<char>,
    from: Seq<char>,
    password: Seq<char>,
    payload: Seq<char>,
    text: Seq<char>,
    ts: i64,
)
    requires
        inner.encryption_of(from).1 == Some(password),
        decrypted(password, payload) == Some(text),
    ensures
        server_step(inner, me, ServerMsgView::Message { from, payload, ts }).effects == seq![
            EffectView::Emit {
                event: UiEventView::Message {
                    msg: UiMsgView { peer: from, direction: "in"@, ts, text },
                },
            },
        ],
{
}

/// Whatever becomes of a message that a logged-in user sends, it is in their
/// history.
pub proof fn law_sent_is_kept(inner: InnerView, to: Seq<char>, text: Seq<char>, ts: i64)
    requires
        inner.username is Some,
        inner.db is Some,
    ensures
        message_sent(inner, to, text, ts).db matches Some(db) && db.history(to).contains(
            LocalMsgView { direction: "out"@, ts, text },
        ) && db.messages == inner.db->0.messages.push(
            MessageRowView { peer: to, msg: LocalMsgView { direction: "out"@, ts, text } },
        ) && db.encryption == inner.db->0.encryption && message_sent(inner, to, text, ts) == (
        InnerView { db: Some(db), ..inner }),
{
    let m = LocalMsgView { direction: "out"@, ts, text };
    law_message_inserted(inner.db->0, to, m, to);
    law_history_complete(message_sent(inner, to, text, ts).db->0, to, m);
}

/// Where nobody is logged in, sending any text is refused, and nothing is kept.
pub proof fn law_logged_out_sends_nothing(
    inner: InnerView,
    to: Seq<char>,
    text: Seq<char>,
    ts: i64,
    nonce: Seq<u8>,
)
    requires
        inner.username is None,
    ensures
        sendable(inner, to, text),
        sending(inner, to, text, nonce) == Err::<ClientMsgView, Seq<char>>("not logged in"@),
        message_sent(inner, to, text, ts) == inner,
{
}

/// A chat that is not encrypted, or has no password, is sent in the clear.
pub proof fn law_sent_in_the_clear(
    inner: InnerView,
    to: Seq<char>,
    text: Seq<char>,
    nonce: Seq<u8>,
)
    requires
        inner.username is Some,
        inner.ws_tx is Some,
        inner.encryption_of(to).0 != "aes-gcm"@ || inner.encryption_of(to).1 is None,
    ensures
        sending_password(inner, to) is None,
        sending(inner, to, text, nonce) == Ok::<ClientMsgView, Seq<char>>(
            ClientMsgView::Send { to, payload: text },
        ),
{
}

// ---- the connection ---------------------------------------------------

/// On the list of peers, each of them is asked for what was missed, in turn.
pub proof fn law_pulls_from_each(inner: InnerView, peers: Seq<Seq<char>>)
    requires
        inner.ws_tx is Some,
    ensures
        pulls(inner, peers) == peers.map_values(
            |p: Seq<char>|
                EffectView::Send {
                    msg: ClientMsgView::PullHistory { from: p, since: inner.last_seen },
                },
        ),
    decreases peers.len(),
{
    let pull = |p: Seq<char>|
        EffectView::Send {
            msg: ClientMsgView::PullHistory { from: p, since: inner.last_seen },
        };
    if peers.len() == 0 {
        assert(peers.map_values(pull) =~= seq![]);
    } else {
        law_pulls_from_each(inner, peers.drop_last());
        assert(peers.map_values(pull) =~= peers.drop_last().map_values(pull).push(
            pull(peers.last()),
        ));
    }
}

/// Without a connection nothing is sent, whatever message is handled.
pub proof fn law_nothing_sent_offline(
    inner: InnerView,
    me: Seq<char>,
    sm: ServerMsgView,
    i: int,
)
    requires
        inner.ws_tx is None,
        0 <= i < server_step(inner, me, sm).effects.len(),
    ensures
        server_step(inner, me, sm).effects[i] is Emit,
{
    match sm {
        ServerMsgView::Peers { peers } => {
            lemma_no_pulls_offline(inner, peers);
        },
        _ => {},
    }
}

proof fn lemma_no_pulls_offline(inner: InnerView, peers: Seq<Seq<char>>)
    requires
        inner.ws_tx is None,
    ensures
        pulls(inner, peers).len() == 0,
    decreases peers.len(),
{
    if peers.len() > 0 {
        lemma_no_pulls_offline(inner, peers.drop_last());
    }
}

/// Once the server has closed the session, the user is logged out and the
/// connection is gone: sending is refused.
pub proof fn law_closed(
    inner: InnerView,
    me: Seq<char>,
    to: Seq<char>,
    text: Seq<char>,
    nonce: Seq<u8>,
)
    ensures
        ({
            let after = server_step(inner, me, ServerMsgView::Close).inner;
            &&& after.ws_tx is None
            &&& after.username is None
            &&& after.db == inner.db
            &&& after == (InnerView { ws_tx: None, username: None, ..inner })
            &&& server_step(inner, me, ServerMsgView::Close).effects == seq![
                EffectView::Emit { event: UiEventView::SessionClosed },
            ]
            &&& sending(after, to, text, nonce) == Err::<ClientMsgView, Seq<char>>(
                "not logged in"@,
            )
        }),
{
}

/// The events of at most one session are shown.
pub proof fn law_one_session_shown(inner: InnerView, first: u64, second: u64)
    requires
        shows(inner, first),
        shows(inner, second),
    ensures
        first == second,
{
}

/// Once the user has disconnected, no session's events are shown, and no late
/// message of the server changes that; and sending is refused.
pub proof fn law_disconnected(
    inner: InnerView,
    session: u64,
    me: Seq<char>,
    sm: ServerMsgView,
    to: Seq<char>,
    text: Seq<char>,
    nonce: Seq<u8>,
)
    ensures
        disconnected(inner) == (InnerView { ws_tx: None, current_session: 0, ..inner }),
        !shows(disconnected(inner), session),
        !shows(server_step(disconnected(inner), me, sm).inner, session),
        sending(disconnected(inner), to, text, nonce) is Err,
{
}

/// The messages of the server touch only the chat they are of.
pub proof fn law_other_chats_untouched(
    inner: InnerView,
    me: Seq<char>,
    sm: ServerMsgView,
    other: Seq<char>,
)
    requires
        inner.db is Some,
        sm matches ServerMsgView::Message { from, .. } ==> from != other,
        sm matches ServerMsgView::HistoryResponse { from, .. } ==> from != other,
    ensures
        server_step(inner, me, sm).inner.db matches Some(db) && db.history(other)
            == inner.db->0.history(other) && db.encryption == inner.db->0.encryption,
{
    match sm {
        ServerMsgView::Message { from, payload, ts } => {
            let m = LocalMsgView { direction: "in"@, ts, text: payload };
            law_message_inserted(inner.db->0, from, m, other);
        },
        ServerMsgView::HistoryResponse { from, messages } => {
            lemma_absorbed_others(inner.db->0, from, me, messages, other);
        },
        _ => {},
    }
}

proof fn lemma_absorbed_others(
    db: DatabaseView,
    from: Seq<char>,
    me: Seq<char>,
    messages: Seq<StoredMsgView>,
    other: Seq<char>,
)
    requires
        from != other,
    ensures
        absorbed(db, from, me, messages).history(other) == db.history(other),
        absorbed(db, from, me, messages).encryption == db.encryption,
    decreases messages.len(),
{
    if messages.len() > 0 {
        let front = messages.drop_last();
        lemma_absorbed_others(db, from, me, front, other);
        law_message_inserted(
            absorbed(db, from, me, front),
            from,
            taken_in(messages.last(), me),
            other,
        );
    }
}

// ---- rows -------------------------------------------------------------

/// How a chat is encrypted is what the row of the peer says; without a row, or
/// without tables, it is not.
pub proof fn law_encryption_row(inner: InnerView, peer: Seq<char>, row: EncryptionRowView)
    requires
        inner.keyed(),
    ensures
        inner.db is None ==> inner.encryption_of(peer) == ("none"@, None::<Seq<char>>),
        inner.db matches Some(db) ==> {
            &&& inner.encryption_of(peer) == db.encryption_of(peer)
            &&& db.encryption.contains(row) && row.peer == peer ==> db.encryption_of(peer) == (
                row.method,
                row.password,
            )
            &&& (forall|i: int|
                0 <= i < db.encryption.len() ==> (#[trigger] db.encryption[i]).peer != peer)
                ==> db.encryption_of(peer) == ("none"@, None::<Seq<char>>)
        },
{
    if inner.db is Some {
        let rows = inner.db->0.encryption;
        if rows.contains(row) && row.peer == peer {
            lemma_lookup_at(rows, rows.index_of(row));
        }
        if forall|i: int| 0 <= i < rows.len() ==> (#[trigger] rows[i]).peer != peer {
            assert forall|i: int| 0 <= i < rows.len() implies (#[trigger] rows[i]).key()
                != peer by {
                assert(rows[i].peer != peer);
            }
        }
    }
}

/// A message is stored as one row more, at the end, exactly where the same row
/// is not there yet: same peer, direction, time and text.
pub proof fn law_message_stored(db: DatabaseView, peer: Seq<char>, m: LocalMsgView)
    ensures
        db.has_message(peer, m) <==> db.messages.contains(MessageRowView { peer, msg: m }),
        db.messages.contains(MessageRowView { peer, msg: m }) ==> db.message_stored(peer, m) == db,
        !db.messages.contains(MessageRowView { peer, msg: m }) ==> {
            &&& db.message_stored(peer, m).messages == db.messages.push(
                MessageRowView { peer, msg: m },
            )
            &&& db.message_stored(peer, m).encryption == db.encryption
        },
{
}

/// A history holds each message as often as there are rows of it, and is in
/// the order of time; a history from a time on holds those that are not older.
pub proof fn law_history_rows(db: DatabaseView, peer: Seq<char>, since: i64, m: LocalMsgView)
    ensures
        db.history(peer).to_multiset().count(m) == db.messages.to_multiset().count(
            MessageRowView { peer, msg: m },
        ),
        db.history_since(peer, since).to_multiset().count(m) == (if m.ts >= since {
            db.messages.to_multiset().count(MessageRowView { peer, msg: m })
        } else {
            0
        }),
        forall|i: int, j: int|
            0 <= i < j < db.history(peer).len() ==> (#[trigger] db.history(peer)[i]).ts <= (
            #[trigger] db.history(peer)[j]).ts,
        forall|i: int, j: int|
            0 <= i < j < db.history_since(peer, since).len() ==> (#[trigger] db.history_since(
                peer,
                since,
            )[i]).ts <= (#[trigger] db.history_since(peer, since)[j]).ts,
{
    law_by_ts(db.chat(peer));
    law_by_ts(db.chat(peer).filter(not_before(since)));
    lemma_chat_counts(db, peer, m);
    lemma_filter_counts(db.chat(peer), since, m);
}

proof fn lemma_chat_counts(db: DatabaseView, peer: Seq<char>, m: LocalMsgView)
    ensures
        db.chat(peer).to_multiset().count(m) == db.messages.to_multiset().count(
            MessageRowView { peer, msg: m },
        ),
    decreases db.messages.len(),
{
    broadcast use vstd::seq_lib::group_to_multiset_ensures;

    if db.messages.len() == 0 {
        reveal(Seq::filter);
        assert(db.chat(peer) =~= seq![]);
    } else {
        let front = DatabaseView { messages: db.messages.drop_last(), ..db };
        let last = db.messages.last();
        lemma_chat_counts(front, peer, m);
        lemma_chat_inserted(front, last.peer, last.msg, peer);
        assert(front.messages.push(last) =~= db.messages);
        assert(front.message_inserted(last.peer, last.msg) == db);
    }
}

proof fn lemma_filter_counts(s: Seq<LocalMsgView>, since: i64, m: LocalMsgView)
    ensures
        s.filter(not_before(since)).to_multiset().count(m) == (if m.ts >= since {
            s.to_multiset().count(m)
        } else {
            0
        }),
    decreases s.len(),
{
    broadcast use vstd::seq_lib::group_to_multiset_ensures;

    reveal(Seq::filter);
    if s.len() > 0 {
        lemma_filter_counts(s.drop_last(), since, m);
        assert(s.drop_last().push(s.last()) =~= s);
    }
}

/// Of the messages of one time, a history gives those first that were stored
/// first.
pub proof fn law_history_stable(
    db: DatabaseView,
    peer: Seq<char>,
    m: LocalMsgView,
    t: i64,
)
    ensures
        db.message_inserted(peer, m).history(peer).filter(|x: LocalMsgView| x.ts == t) == (if m.ts
            == t {
            db.history(peer).filter(|x: LocalMsgView| x.ts == t).push(m)
        } else {
            db.history(peer).filter(|x: LocalMsgView| x.ts == t)
        }),
{
    reveal(Seq::filter);
    let p = |x: LocalMsgView| x.ts == t;
    lemma_chat_inserted(db, peer, m, peer);
    law_by_ts_stable(db.chat(peer), t);
    law_by_ts_stable(db.chat(peer).push(m), t);
    assert(p =~= at_time(t));
    assert(db.chat(peer).push(m).drop_last() =~= db.chat(peer));
}

// ---- every message of the server --------------------------------------

/// The effect shows the message `m` of the chat with `peer`: in the clear
/// where the chat has a password that decrypts it, else as encrypted.
pub open spec fn displays(
    effect: EffectView,
    peer: Seq<char>,
    password: Option<Seq<char>>,
    m: LocalMsgView,
) -> bool {
    effect matches EffectView::Emit { event: UiEventView::Message { msg } } && {
        &&& msg.peer == peer
        &&& msg.direction == m.direction
        &&& msg.ts == m.ts
        &&& password is Some && decrypted(password->0, m.text) is Some ==> decrypted(
            password->0,
            m.text,
        ) == Some(msg.text)
        &&& password is None || decrypted(password->0, m.text) is None ==> msg.text
            == "<encrypted: "@ + m.text + ">"@
    }
}

/// Logging in sets the time of the last visit, and is shown.
pub proof fn law_logged_in(inner: InnerView, me: Seq<char>, username: Seq<char>, last_seen: i64)
    ensures
        ({
            let step = server_step(inner, me, ServerMsgView::AuthOk { username, last_seen });
            &&& step.inner == InnerView { last_seen, ..inner }
            &&& step.effects == seq![
                EffectView::Emit { event: UiEventView::AuthOk { username, last_seen } },
            ]
        }),
{
}

/// Notices of the server change nothing, and are shown as they are.
pub proof fn law_notices_shown(
    inner: InnerView,
    me: Seq<char>,
    users: Seq<Seq<char>>,
    text: Seq<char>,
)
    ensures
        server_step(inner, me, ServerMsgView::PendingChats { users }) == (StepView {
            inner,
            effects: seq![EffectView::Emit { event: UiEventView::PendingChats { users } }],
        }),
        server_step(inner, me, ServerMsgView::PeerOffline { username: text }) == (StepView {
            inner,
            effects: seq![
                EffectView::Emit { event: UiEventView::PeerOffline { username: text } },
            ],
        }),
        server_step(inner, me, ServerMsgView::Error { msg: text }) == (StepView {
            inner,
            effects: seq![EffectView::Emit { event: UiEventView::Error { msg: text } }],
        }),
{
}

/// While there is a connection, every peer that is listed, or comes online, is
/// asked for what was missed since the last visit, in turn; without one, nobody
/// is. It is shown either way, and nothing else changes.
pub proof fn law_missed_history_asked_for(
    inner: InnerView,
    me: Seq<char>,
    peers: Seq<Seq<char>>,
    username: Seq<char>,
)
    ensures
        ({
            let listed = server_step(inner, me, ServerMsgView::Peers { peers });
            let arrived = server_step(inner, me, ServerMsgView::PeerOnline { username });
            let n = if inner.ws_tx is Some {
                peers.len()
            } else {
                0
            };
            &&& listed.inner == inner
            &&& listed.effects.len() == n + 1
            &&& forall|i: int|
                0 <= i < n ==> (#[trigger] listed.effects[i]) == (EffectView::Send {
                    msg: ClientMsgView::PullHistory { from: peers[i], since: inner.last_seen },
                })
            &&& listed.effects.last() == (EffectView::Emit { event: UiEventView::Peers { peers } })
            &&& arrived.inner == inner
            &&& inner.ws_tx is Some ==> arrived.effects == seq![
                EffectView::Send {
                    msg: ClientMsgView::PullHistory { from: username, since: inner.last_seen },
                },
                EffectView::Emit { event: UiEventView::PeerOnline { username } },
            ]
            &&& inner.ws_tx is None ==> arrived.effects == seq![
                EffectView::Emit { event: UiEventView::PeerOnline { username } },
            ]
        }),
{
    if inner.ws_tx is Some {
        law_pulls_from_each(inner, peers);
    } else {
        lemma_no_pulls_offline(inner, peers);
    }
    assert(server_step(inner, me, ServerMsgView::PeerOnline { username }).effects =~= (
    if inner.ws_tx is Some {
        seq![
            EffectView::Send {
                msg: ClientMsgView::PullHistory { from: username, since: inner.last_seen },
            },
            EffectView::Emit { event: UiEventView::PeerOnline { username } },
        ]
    } else {
        seq![EffectView::Emit { event: UiEventView::PeerOnline { username } }]
    }));
}

/// Every message that comes in is in the tables afterwards, with its time and
/// as it was sent, next to everything that was there; nothing else changes. It
/// is shown once, in the clear where the password of the chat decrypts it.
pub proof fn law_message_received(
    inner: InnerView,
    me: Seq<char>,
    from: Seq<char>,
    payload: Seq<char>,
    ts: i64,
)
    ensures
        ({
            let step = server_step(inner, me, ServerMsgView::Message { from, payload, ts });
            let m = LocalMsgView { direction: "in"@, ts, text: payload };
            let row = MessageRowView { peer: from, msg: m };
            &&& inner.db is None ==> step.inner == inner
            &&& inner.db matches Some(db) ==> {
                &&& step.inner.db matches Some(after)
                &&& step.inner == InnerView { db: Some(after), ..inner }
                &&& after.encryption == db.encryption
                &&& after.messages.contains(row)
                &&& after.history(from).contains(m)
                &&& forall|r: MessageRowView| #[trigger]
                    db.messages.contains(r) ==> after.messages.contains(r)
                &&& after.messages == db.messages || after.messages == db.messages.push(row)
                &&& db.messages.contains(row) ==> after.messages == db.messages
            }
            &&& step.effects.len() == 1
            &&& displays(step.effects[0], from, inner.encryption_of(from).1, m)
        }),
{
    let m = LocalMsgView { direction: "in"@, ts, text: payload };
    let row = MessageRowView { peer: from, msg: m };
    if inner.db is Some {
        let db = inner.db->0;
        let after = db.message_stored(from, m);
        law_stored_once(db, from, m);
        law_history_complete(after, from, m);
        assert forall|r: MessageRowView| #[trigger]
            db.messages.contains(r) implies after.messages.contains(r) by {
            lemma_push_contains(db.messages, row, r);
        }
    }
}

/// A pull of a peer is answered from the tables, and changes nothing: the
/// answer holds the messages of the chat with them from the given time on, each
/// as sent by whoever sent it. Without a connection there is no answer, and
/// without tables an empty one.
pub proof fn law_pull_answered(
    inner: InnerView,
    me: Seq<char>,
    from: Seq<char>,
    since: i64,
)
    ensures
        ({
            let step = server_step(inner, me, ServerMsgView::PullHistoryRequest { from, since });
            &&& step.inner == inner
            &&& inner.ws_tx is None ==> step.effects.len() == 0
            &&& inner.ws_tx is Some ==> {
                &&& step.effects.len() == 1
                &&& step.effects[0] matches EffectView::Send {
                    msg: ClientMsgView::HistoryResponse { to, messages },
                }
                &&& to == from
                &&& inner.db is None ==> messages.len() == 0
                &&& inner.db matches Some(db) ==> {
                    let history = db.history_since(from, since);
                    &&& messages.len() == history.len()
                    &&& forall|i: int|
                        0 <= i < messages.len() ==> {
                            &&& (#[trigger] messages[i]).ts == history[i].ts
                            &&& messages[i].payload == history[i].text
                            &&& history[i].direction == "out"@ ==> messages[i].from == me
                                && messages[i].to == from
                            &&& history[i].direction != "out"@ ==> messages[i].from == from
                                && messages[i].to == me
                        }
                }
            }
        }),
{
}

/// What of a history is new is shown: there is one event for each row that is
/// new, in the same order, in the clear where the password of the chat decrypts
/// it.
pub proof fn law_history_shown(
    inner: InnerView,
    me: Seq<char>,
    from: Seq<char>,
    messages: Seq<StoredMsgView>,
)
    requires
        inner.db is Some,
    ensures
        ({
            let step = server_step(inner, me, ServerMsgView::HistoryResponse { from, messages });
            let n = inner.db->0.messages.len();
            &&& step.inner.db is Some
            &&& step.inner.db->0.messages.len() == n + step.effects.len()
            &&& forall|k: int|
                0 <= k < step.effects.len() ==> displays(
                    #[trigger] step.effects[k],
                    from,
                    inner.encryption_of(from).1,
                    step.inner.db->0.messages[n + k].msg,
                )
        }),
{
    let step = server_step(inner, me, ServerMsgView::HistoryResponse { from, messages });
    let db = inner.db->0;
    let n = db.messages.len();
    let new = fresh(db, from, me, messages);
    law_absorbed(db, from, me, messages);
    assert forall|k: int| 0 <= k < step.effects.len() implies displays(
        #[trigger] step.effects[k],
        from,
        inner.encryption_of(from).1,
        step.inner.db->0.messages[n + k].msg,
    ) by {
        assert(step.inner.db->0.messages[n + k].msg == new[k]);
    }
}

/// A message of a history as `me` keeps it: what `me` sent went out, all else
/// came in.
pub open spec fn kept(m: StoredMsgView, me: Seq<char>, k: LocalMsgView) -> bool {
    &&& k.ts == m.ts
    &&& k.text == m.payload
    &&& m.from == me ==> k.direction == "out"@
    &&& m.from != me ==> k.direction == "in"@
}

/// A history that comes in is stored as far as it is new, and nothing else
/// changes. The rows that were there stay. After them come the new ones, none
/// of which was there or comes twice, each of them a message of the history;
/// and every message of the history is there in the end.
pub proof fn law_history_received(
    inner: InnerView,
    me: Seq<char>,
    from: Seq<char>,
    messages: Seq<StoredMsgView>,
)
    requires
        inner.db is Some,
    ensures
        ({
            let step = server_step(inner, me, ServerMsgView::HistoryResponse { from, messages });
            let db = inner.db->0;
            let after = step.inner.db->0;
            let n = db.messages.len();
            &&& step.inner == InnerView { db: Some(after), ..inner }
            &&& after.encryption == db.encryption
            &&& n <= after.messages.len()
            &&& after.messages.take(n as int) == db.messages
            &&& forall|k: int|
                n <= k < after.messages.len() ==> {
                    &&& (#[trigger] after.messages[k]).peer == from
                    &&& !db.messages.contains(after.messages[k])
                    &&& exists|i: int|
                        0 <= i < messages.len() && kept(
                            #[trigger] messages[i],
                            me,
                            after.messages[k].msg,
                        )
                }
            &&& forall|j: int, k: int|
                n <= j < k < after.messages.len() ==> (#[trigger] after.messages[j]) != (
                #[trigger] after.messages[k])
            &&& forall|i: int, m: LocalMsgView|
                0 <= i < messages.len() && #[trigger] kept(messages[i], me, m)
                    ==> after.messages.contains(MessageRowView { peer: from, msg: m })
        }),
{
    let db = inner.db->0;
    let n = db.messages.len();
    let new = fresh(db, from, me, messages);
    let after = absorbed(db, from, me, messages);
    let row = |m: LocalMsgView| MessageRowView { peer: from, msg: m };
    let taken = |s: StoredMsgView| taken_in(s, me);
    law_absorbed(db, from, me, messages);
    assert(after.messages.take(n as int) =~= db.messages);
    assert forall|k: int| n <= k < after.messages.len() implies {
        &&& (#[trigger] after.messages[k]).peer == from
        &&& !db.messages.contains(after.messages[k])
        &&& exists|i: int|
            0 <= i < messages.len() && kept(#[trigger] messages[i], me, after.messages[k].msg)
    } by {
        assert(after.messages[k] == row(new[k - n]));
        assert(new.contains(new[k - n]));
        let i = messages.map_values(taken).index_of(new[k - n]);
        assert(messages.map_values(taken)[i] == taken_in(messages[i], me));
        assert(kept(messages[i], me, after.messages[k].msg));
    }
    assert forall|j: int, k: int| n <= j < k < after.messages.len() implies (
    #[trigger] after.messages[j]) != (#[trigger] after.messages[k]) by {
        assert(after.messages[j] == row(new[j - n]));
        assert(after.messages[k] == row(new[k - n]));
        assert(new[j - n] != new[k - n]);
    }
    assert forall|i: int, m: LocalMsgView|
        0 <= i < messages.len() && #[trigger] kept(
            messages[i],
            me,
            m,
        ) implies after.messages.contains(MessageRowView { peer: from, msg: m }) by {
        law_absorbed_complete(db, from, me, messages, i);
        assert(m == taken_in(messages[i], me));
    }
}

/// A history is stored and shown in the order in which it comes: a first part
/// of it gives the first part of the rows, and of the events.
pub proof fn law_history_in_turn(
    inner: InnerView,
    me: Seq<char>,
    from: Seq<char>,
    messages: Seq<StoredMsgView>,
    k: int,
)
    requires
        inner.db is Some,
        0 <= k <= messages.len(),
    ensures
        ({
            let part = server_step(
                inner,
                me,
                ServerMsgView::HistoryResponse { from, messages: messages.take(k) },
            );
            let whole = server_step(inner, me, ServerMsgView::HistoryResponse { from, messages });
            &&& part.inner.db matches Some(a) && whole.inner.db matches Some(b)
                && a.messages.is_prefix_of(b.messages)
            &&& part.effects.is_prefix_of(whole.effects)
        }),
    decreases messages.len() - k,
{
    let db = inner.db->0;
    if k == messages.len() {
        assert(messages.take(k) =~= messages);
    } else {
        let next = messages.take(k + 1);
        assert(next.drop_last() =~= messages.take(k));
        law_history_in_turn(inner, me, from, messages, k + 1);
        let show = |m: LocalMsgView|
            message_event(from, inner.encryption_of(from).1, m);
        let a = fresh(db, from, me, messages.take(k));
        let b = fresh(db, from, me, next);
        assert(a.is_prefix_of(b));
        assert(a.map_values(show).is_prefix_of(b.map_values(show)));
        assert(absorbed(db, from, me, messages.take(k)).messages.is_prefix_of(
            absorbed(db, from, me, next).messages,
        ));
        let part = server_step(
            inner,
            me,
            ServerMsgView::HistoryResponse { from, messages: messages.take(k) },
        ).effects;
        let middle = server_step(
            inner,
            me,
            ServerMsgView::HistoryResponse { from, messages: next },
        ).effects;
        let whole = server_step(
            inner,
            me,
            ServerMsgView::HistoryResponse { from, messages },
        ).effects;
        assert(part =~= a.map_values(show));
        assert(middle =~= b.map_values(show));
        assert(part =~= whole.subrange(0, part.len() as int));
    }
}

/// Without tables a history is dropped.
pub proof fn law_history_dropped(
    inner: InnerView,
    me: Seq<char>,
    from: Seq<char>,
    messages: Seq<StoredMsgView>,
)
    requires
        inner.db is None,
    ensures
        ({
            let step = server_step(inner, me, ServerMsgView::HistoryResponse { from, messages });
            step.inner == inner && step.effects.len() == 0
        }),
{
}

// ---- sending ----------------------------------------------------------

/// Where a chat is set to AES-GCM and has a password, whichever, what is sent
/// is the frame of the nonce and of the ciphertext of the text under that
/// password, in base64. That it decrypts to the text is what sending promises.
pub proof fn law_sent_encrypted(
    inner: InnerView,
    to: Seq<char>,
    text: Seq<char>,
    nonce: Seq<u8>,
    pw: Seq<char>,
)
    requires
        inner.username is Some,
        inner.ws_tx is Some,
        inner.encryption_of(to) == ("aes-gcm"@, Some(pw)),
    ensures
        sending_password(inner, to) == Some(pw),
        sendable(inner, to, text) <==> encryptable_len(encode_utf8(text).len()),
        sending(inner, to, text, nonce) == Ok::<ClientMsgView, Seq<char>>(
            ClientMsgView::Send {
                to,
                payload: base64_text(
                    nonce + gcm_sealed(
                        sha256_digest(encode_utf8(pw)),
                        nonce,
                        encode_utf8(text),
                    ),
                ),
            },
        ),
{
}

/// Any other text can be sent, whatever its length. Without tables nothing is
/// kept. Without a connection a user who is logged in is told that there is
/// none.
pub proof fn law_sending_otherwise(
    inner: InnerView,
    to: Seq<char>,
    text: Seq<char>,
    nonce: Seq<u8>,
    ts: i64,
)
    ensures
        inner.encryption_of(to).0 != "aes-gcm"@ || inner.encryption_of(to).1 is None ==> sendable(
            inner,
            to,
            text,
        ),
        inner.db is None ==> message_sent(inner, to, text, ts) == inner,
        inner.username is Some && inner.ws_tx is None ==> sending(inner, to, text, nonce) == Err::<
            ClientMsgView,
            Seq<char>,
        >("not connected"@),
{
}

/// A command that talks to the server says what its message, or its error, says.
pub proof fn law_outcome(msg: ClientMsg, error: String)
    ensures
        outcome(Ok(msg)) == Ok::<ClientMsgView, Seq<char>>(msg@),
        outcome(Err(error)) == Err::<ClientMsgView, Seq<char>>(error@),
{
}

/// The events that are shown are those of the current session, if there is one.
pub proof fn law_shown(inner: InnerView, session: u64)
    ensures
        shows(inner, session) <==> session == inner.current_session && inner.current_session != 0,
{
}

} // verus!
