//! What the client does with the messages of the server.
use crate::client::crypto::{decrypt, decrypted};
use crate::client::db::{text_of, Database, DatabaseView, LocalMsgView};
use crate::client::state::{Inner, InnerView};
use crate::protocol::{
    ClientMsg, ClientMsgView, ServerMsg, ServerMsgView, StoredMsg, StoredMsgView, UiMsg, UiMsgView,
};
use crate::text::text_eq;
use vstd::prelude::*;
use vstd::string::*;

verus! {

/// An event for the user interface.
#[derive(Debug, PartialEq, Eq)]
pub enum UiEvent {
    AuthOk { username: String, last_seen: i64 },
    Peers { peers: Vec<String> },
    PendingChats { users: Vec<String> },
    PeerOnline { username: String },
    PeerOffline { username: String },
    Message { msg: UiMsg },
    Error { msg: String },
    SessionClosed,
}

/// What a [`UiEvent`] says.
pub enum UiEventView {
    AuthOk { username: Seq<char>, last_seen: i64 },
    Peers { peers: Seq<Seq<char>> },
    PendingChats { users: Seq<Seq<char>> },
    PeerOnline { username: Seq<char> },
    PeerOffline { username: Seq<char> },
    Message { msg: UiMsgView },
    Error { msg: Seq<char> },
    SessionClosed,
}

impl View for UiEvent {
    type V = UiEventView;

    open spec fn view(&self) -> UiEventView {
        match self {
            UiEvent::AuthOk { username, last_seen } => UiEventView::AuthOk {
                username: username@,
                last_seen: *last_seen,
            },
            UiEvent::Peers { peers } => UiEventView::Peers { peers: peers.deep_view() },
            UiEvent::PendingChats { users } => UiEventView::PendingChats {
                users: users.deep_view(),
            },
            UiEvent::PeerOnline { username } => UiEventView::PeerOnline { username: username@ },
            UiEvent::PeerOffline { username } => UiEventView::PeerOffline { username: username@ },
            UiEvent::Message { msg } => UiEventView::Message { msg: msg@ },
            UiEvent::Error { msg } => UiEventView::Error { msg: msg@ },
            UiEvent::SessionClosed => UiEventView::SessionClosed,
        }
    }
}

impl UiEvent {
    /// The name under which the user interface listens for the event.
    pub fn name(&self) -> (res: &'static str)
        ensures
            res@ == (match self@ {
                UiEventView::AuthOk { .. } => "auth-ok"@,
                UiEventView::Peers { .. } => "peers"@,
                UiEventView::PendingChats { .. } => "pending-chats"@,
                UiEventView::PeerOnline { .. } => "peer-online"@,
                UiEventView::PeerOffline { .. } => "peer-offline"@,
                UiEventView::Message { .. } => "message"@,
                UiEventView::Error { .. } => "error"@,
                UiEventView::SessionClosed => "session-closed"@,
            }),
    {
        match self {
            UiEvent::AuthOk { .. } => "auth-ok",
            UiEvent::Peers { .. } => "peers",
            UiEvent::PendingChats { .. } => "pending-chats",
            UiEvent::PeerOnline { .. } => "peer-online",
            UiEvent::PeerOffline { .. } => "peer-offline",
            UiEvent::Message { .. } => "message",
            UiEvent::Error { .. } => "error",
            UiEvent::SessionClosed => "session-closed",
        }
    }
}

/// Something to do: send a message to the server, or emit an event.
#[derive(Debug, PartialEq, Eq)]
pub enum Effect {
    Send { msg: ClientMsg },
    Emit { event: UiEvent },
}

/// What an [`Effect`] says.
pub enum EffectView {
    Send { msg: ClientMsgView },
    Emit { event: UiEventView },
}

impl View for Effect {
    type V = EffectView;

    open spec fn view(&self) -> EffectView {
        match self {
            Effect::Send { msg } => EffectView::Send { msg: msg@ },
            Effect::Emit { event } => EffectView::Emit { event: event@ },
        }
    }
}

impl DeepView for Effect {
    type V = EffectView;

    open spec fn deep_view(&self) -> EffectView {
        self@
    }
}

/// The state after a message of the server, and what there is to do.
pub struct StepView {
    pub inner: InnerView,
    pub effects: Seq<EffectView>,
}

/// One event.
pub open spec fn emit(event: UiEventView) -> Seq<EffectView> {
    seq![EffectView::Emit { event }]
}

/// One message to the server, if there is a connection.
pub open spec fn send_if_connected(inner: InnerView, msg: ClientMsgView) -> Seq<EffectView> {
    if inner.ws_tx is Some {
        seq![EffectView::Send { msg }]
    } else {
        seq![]
    }
}

/// A pull from each of `peers`, in turn.
pub open spec fn pulls(inner: InnerView, peers: Seq<Seq<char>>) -> Seq<EffectView>
    decreases peers.len(),
{
    if peers.len() == 0 {
        seq![]
    } else {
        pulls(inner, peers.drop_last()) + send_if_connected(
            inner,
            ClientMsgView::PullHistory { from: peers.last(), since: inner.last_seen },
        )
    }
}

/// What the user reads of a message: what it decrypts to, else that it is encrypted.
pub open spec fn readable(opened: Option<Seq<char>>, payload: Seq<char>) -> Seq<char> {
    match opened {
        Some(text) => text,
        None => "<encrypted: "@ + payload + ">"@,
    }
}

/// What `payload` decrypts to, if there is a password and it fits.
pub open spec fn opened_with(password: Option<Seq<char>>, payload: Seq<char>) -> Option<Seq<char>> {
    match password {
        Some(pw) => decrypted(pw, payload),
        None => None,
    }
}

/// The direction of a message of a history, seen by `me`.
pub open spec fn direction_of(m: StoredMsgView, me: Seq<char>) -> Seq<char> {
    if m.from == me {
        "out"@
    } else {
        "in"@
    }
}

/// A message of a history, as `me` stores it.
pub open spec fn taken_in(m: StoredMsgView, me: Seq<char>) -> LocalMsgView {
    LocalMsgView { direction: direction_of(m, me), ts: m.ts, text: m.payload }
}

/// The tables after a history from `from` was stored message by message.
pub open spec fn absorbed(
    db: DatabaseView,
    from: Seq<char>,
    me: Seq<char>,
    messages: Seq<StoredMsgView>,
) -> DatabaseView
    decreases messages.len(),
{
    if messages.len() == 0 {
        db
    } else {
        absorbed(db, from, me, messages.drop_last()).message_stored(
            from,
            taken_in(messages.last(), me),
        )
    }
}

/// Those messages of a history that were not stored yet when their turn came.
pub open spec fn fresh(
    db: DatabaseView,
    from: Seq<char>,
    me: Seq<char>,
    messages: Seq<StoredMsgView>,
) -> Seq<LocalMsgView>
    decreases messages.len(),
{
    if messages.len() == 0 {
        seq![]
    } else {
        let front = messages.drop_last();
        let m = taken_in(messages.last(), me);
        if absorbed(db, from, me, front).has_message(from, m) {
            fresh(db, from, me, front)
        } else {
            fresh(db, from, me, front).push(m)
        }
    }
}

/// The event of a stored message.
pub open spec fn message_event(
    peer: Seq<char>,
    password: Option<Seq<char>>,
    m: LocalMsgView,
) -> EffectView {
    EffectView::Emit {
        event: UiEventView::Message {
            msg: UiMsgView {
                peer,
                direction: m.direction,
                ts: m.ts,
                text: readable(opened_with(password, m.text), m.text),
            },
        },
    }
}

/// The client, logged in as `me`, receives `sm`.
pub open spec fn server_step(inner: InnerView, me: Seq<char>, sm: ServerMsgView) -> StepView {
    match sm {
        ServerMsgView::AuthOk { username, last_seen } => StepView {
            inner: InnerView { last_seen, ..inner },
            effects: emit(UiEventView::AuthOk { username, last_seen }),
        },
        // Pull from each, in case they sent something while we were offline.
        ServerMsgView::Peers { peers } => StepView {
            inner,
            effects: pulls(inner, peers) + emit(UiEventView::Peers { peers }),
        },
        ServerMsgView::PendingChats { users } => StepView {
            inner,
            effects: emit(UiEventView::PendingChats { users }),
        },
        // Pull the history we missed.
        ServerMsgView::PeerOnline { username } => StepView {
            inner,
            effects: send_if_connected(
                inner,
                ClientMsgView::PullHistory { from: username, since: inner.last_seen },
            ) + emit(UiEventView::PeerOnline { username }),
        },
        ServerMsgView::PeerOffline { username } => StepView {
            inner,
            effects: emit(UiEventView::PeerOffline { username }),
        },
        ServerMsgView::Message { from, payload, ts } => {
            let m = LocalMsgView { direction: "in"@, ts, text: payload };
            StepView {
                inner: match inner.db {
                    Some(db) => inner.with_db(db.message_stored(from, m)),
                    None => inner,
                },
                effects: seq![message_event(from, inner.encryption_of(from).1, m)],
            }
        },
        // Answer from the local tables.
        ServerMsgView::PullHistoryRequest { from, since } => StepView {
            inner,
            effects: send_if_connected(
                inner,
                ClientMsgView::HistoryResponse {
                    to: from,
                    messages: match inner.db {
                        Some(db) => db.history_for_peer(from, me, since),
                        None => seq![],
                    },
                },
            ),
        },
        // Store new rows, then emit them.
        ServerMsgView::HistoryResponse { from, messages } => match inner.db {
            Some(db) => StepView {
                inner: inner.with_db(absorbed(db, from, me, messages)),
                effects: fresh(db, from, me, messages).map_values(
                    |m: LocalMsgView| message_event(from, inner.encryption_of(from).1, m),
                ),
            },
            None => StepView { inner, effects: seq![] },
        },
        ServerMsgView::Error { msg } => StepView {
            inner,
            effects: emit(UiEventView::Error { msg }),
        },
        // We were deleted, or someone else took the single allowed session.
        ServerMsgView::Close => StepView {
            inner: InnerView { ws_tx: None, username: None, ..inner },
            effects: emit(UiEventView::SessionClosed),
        },
    }
}

/// Gives a message to send through the active websocket, if any.
pub fn send(inner: &Inner, msg: ClientMsg) -> (res: Option<ClientMsg>)
    ensures
        res == (if inner@.ws_tx is Some {
            Some(msg)
        } else {
            None
        }),
{
    match inner.ws_tx {
        Some(_) => Some(msg),
        None => None,
    }
}

/// When the server last saw the user.
pub fn last_seen(inner: &Inner) -> (res: i64)
    ensures
        res == inner@.last_seen,
{
    inner.last_seen
}

/// The events of `session` reach the user interface: it is the current one.
pub open spec fn shows(inner: InnerView, session: u64) -> bool {
    session != 0 && session == inner.current_session
}

/// Whether the events of `session` reach the user interface. A session that
/// another has followed, or that the user has ended, emits nothing any more.
pub fn shows_events(inner: &Inner, session: u64) -> (res: bool)
    ensures
        res == shows(inner@, session),
{
    session != 0 && session == inner.current_session
}

/// What the user reads of a message that has, or has not, been decrypted.
pub fn shown_text(opened: Option<String>, payload: &str) -> (res: String)
    ensures
        res@ == readable(text_of(opened), payload@),
{
    match opened {
        Some(text) => text,
        None => {
            let mut res = "<encrypted: ".to_owned();
            res.append(payload);
            res.append(">");
            res
        },
    }
}

/// What the user reads of a message, given the password of the chat.
pub fn read_message(password: &Option<String>, payload: &str) -> (res: String)
    ensures
        res@ == readable(opened_with(text_of(*password), payload@), payload@),
{
    let opened = match password {
        Some(pw) => decrypt(pw.as_str(), payload),
        None => None,
    };
    shown_text(opened, payload)
}

fn push_send(inner: &Inner, msg: ClientMsg, effects: &mut Vec<Effect>)
    ensures
        final(effects).deep_view() == old(effects).deep_view() + send_if_connected(inner@, msg@),
{
    match send(inner, msg) {
        Some(msg) => {
            effects.push(Effect::Send { msg });
        },
        None => {},
    }
    assert(effects.deep_view() =~= old(effects).deep_view() + send_if_connected(inner@, msg@));
}

fn push_emit(event: UiEvent, effects: &mut Vec<Effect>)
    ensures
        final(effects).deep_view() == old(effects).deep_view() + emit(event@),
{
    effects.push(Effect::Emit { event });
    assert(effects.deep_view() =~= old(effects).deep_view() + emit(event@));
}

fn push_message(
    peer: &str,
    password: &Option<String>,
    direction: &str,
    ts: i64,
    payload: &str,
    effects: &mut Vec<Effect>,
)
    ensures
        final(effects).deep_view() == old(effects).deep_view().push(
            message_event(
                peer@,
                text_of(*password),
                LocalMsgView { direction: direction@, ts, text: payload@ },
            ),
        ),
{
    let msg = UiMsg {
        peer: peer.to_owned(),
        direction: direction.to_owned(),
        ts,
        text: read_message(password, payload),
    };
    effects.push(Effect::Emit { event: UiEvent::Message { msg } });
    assert(effects.deep_view() =~= old(effects).deep_view().push(
        message_event(
            peer@,
            text_of(*password),
            LocalMsgView { direction: direction@, ts, text: payload@ },
        ),
    ));
}

fn push_pulls(inner: &Inner, peers: &Vec<String>, effects: &mut Vec<Effect>)
    ensures
        final(effects).deep_view() == old(effects).deep_view() + pulls(inner@, peers.deep_view()),
{
    let ghost names = peers.deep_view();
    let ghost start = effects.deep_view();
    let since = last_seen(inner);
    let mut i: usize = 0;
    assert(effects.deep_view() =~= start + pulls(inner@, names.take(0)));
    while i < peers.len()
        invariant
            i <= peers@.len(),
            names == peers.deep_view(),
            since == inner@.last_seen,
            effects.deep_view() == start + pulls(inner@, names.take(i as int)),
        decreases peers@.len() - i,
    {
        push_send(inner, ClientMsg::PullHistory { from: peers[i].clone(), since }, effects);
        i += 1;
        proof {
            assert(names.take(i as int).drop_last() =~= names.take(i - 1));
            assert(names.take(i as int).last() == peers@[i - 1]@);
            assert(effects.deep_view() =~= start + pulls(inner@, names.take(i as int)));
        }
    }
    assert(names.take(i as int) =~= names);
}

/// Stores a history, and gives the messages that were not stored yet, each as
/// its position in the history.
fn absorb(db: &mut Database, from: &str, me: &str, messages: &Vec<StoredMsg>) -> (res: Vec<usize>)
    ensures
        final(db)@ == absorbed(old(db)@, from@, me@, messages.deep_view()),
        res@.len() == fresh(old(db)@, from@, me@, messages.deep_view()).len(),
        forall|k: int|
            0 <= k < res@.len() ==> (#[trigger] res@[k]) < messages@.len() && fresh(
                old(db)@,
                from@,
                me@,
                messages.deep_view(),
            )[k] == taken_in(messages@[res@[k] as int]@, me@),
{
    let ghost before = db@;
    let ghost msgs = messages.deep_view();
    let mut res: Vec<usize> = Vec::new();
    let mut i: usize = 0;
    while i < messages.len()
        invariant
            i <= messages@.len(),
            msgs == messages.deep_view(),
            db@ == absorbed(before, from@, me@, msgs.take(i as int)),
            res@.len() == fresh(before, from@, me@, msgs.take(i as int)).len(),
            forall|k: int|
                0 <= k < res@.len() ==> (#[trigger] res@[k]) < messages@.len() && fresh(
                    before,
                    from@,
                    me@,
                    msgs.take(i as int),
                )[k] == taken_in(messages@[res@[k] as int]@, me@),
        decreases messages@.len() - i,
    {
        let m = &messages[i];
        let direction = if text_eq(m.from.as_str(), me) {
            "out"
        } else {
            "in"
        };
        proof {
            assert(msgs.take(i + 1).drop_last() =~= msgs.take(i as int));
            assert(msgs.take(i + 1).last() == m@);
        }
        let is_new = db.store_message(from, direction, m.ts, m.payload.as_str());
        if is_new {
            res.push(i);
        }
        i += 1;
    }
    assert(msgs.take(i as int) =~= msgs);
    res
}

/// Handles one message of the server; `me` is the user who is logged in.
pub fn handle_server(sm: ServerMsg, inner: &mut Inner, me: &str) -> (effects: Vec<Effect>)
    requires
        old(inner).wf(),
    ensures
        final(inner).wf(),
        server_step(old(inner)@, me@, sm@) == (StepView {
            inner: final(inner)@,
            effects: effects.deep_view(),
        }),
{
    let ghost before = inner@;
    let mut effects: Vec<Effect> = Vec::new();
    assert(effects.deep_view() =~= seq![]);
    match sm {
        ServerMsg::AuthOk { username, last_seen } => {
            inner.last_seen = last_seen;
            push_emit(UiEvent::AuthOk { username, last_seen }, &mut effects);
        },
        ServerMsg::Peers { peers } => {
            push_pulls(inner, &peers, &mut effects);
            push_emit(UiEvent::Peers { peers }, &mut effects);
        },
        ServerMsg::PendingChats { users } => {
            push_emit(UiEvent::PendingChats { users }, &mut effects);
        },
        ServerMsg::PeerOnline { username } => {
            let since = last_seen(inner);
            push_send(
                inner,
                ClientMsg::PullHistory { from: username.clone(), since },
                &mut effects,
            );
            push_emit(UiEvent::PeerOnline { username }, &mut effects);
        },
        ServerMsg::PeerOffline { username } => {
            push_emit(UiEvent::PeerOffline { username }, &mut effects);
        },
        ServerMsg::Message { from, payload, ts } => {
            let taken = inner.db.take();
            match taken {
                Some(mut db) => {
                    db.store_message(from.as_str(), "in", ts, payload.as_str());
                    inner.db = Some(db);
                },
                None => {},
            }
            let password = inner.encryption_of(from.as_str()).1;
            push_message(from.as_str(), &password, "in", ts, payload.as_str(), &mut effects);
        },
        ServerMsg::PullHistoryRequest { from, since } => {
            let messages = match &inner.db {
                Some(db) => db.history_for_peer(from.as_str(), me, since),
                None => {
                    let none: Vec<StoredMsg> = Vec::new();
                    assert(none.deep_view() =~= seq![]);
                    none
                },
            };
            push_send(inner, ClientMsg::HistoryResponse { to: from, messages }, &mut effects);
        },
        ServerMsg::HistoryResponse { from, messages } => {
            let taken = inner.db.take();
            match taken {
                Some(mut db) => {
                    let ghost tables = db@;
                    let ghost news = fresh(tables, from@, me@, messages.deep_view());
                    let new_ones = absorb(&mut db, from.as_str(), me, &messages);
                    inner.db = Some(db);
                    proof {
                        lemma_absorbed_encryption(tables, from@, me@, messages.deep_view());
                    }
                    let password = inner.encryption_of(from.as_str()).1;
                    let ghost show = |m: LocalMsgView|
                        message_event(from@, before.encryption_of(from@).1, m);
                    let mut i: usize = 0;
                    assert(effects.deep_view() =~= news.take(0).map_values(show));
                    while i < new_ones.len()
                        invariant
                            i <= new_ones@.len(),
                            new_ones@.len() == news.len(),
                            show == (|m: LocalMsgView|
                                message_event(from@, before.encryption_of(from@).1, m)),
                            text_of(password) == before.encryption_of(from@).1,
                            forall|k: int|
                                0 <= k < new_ones@.len() ==> (#[trigger] new_ones@[k])
                                    < messages@.len() && news[k] == taken_in(
                                    messages@[new_ones@[k] as int]@,
                                    me@,
                                ),
                            effects.deep_view() == news.take(i as int).map_values(show),
                        decreases new_ones@.len() - i,
                    {
                        let m = &messages[new_ones[i]];
                        let direction = if text_eq(m.from.as_str(), me) {
                            "out"
                        } else {
                            "in"
                        };
                        push_message(
                            from.as_str(),
                            &password,
                            direction,
                            m.ts,
                            m.payload.as_str(),
                            &mut effects,
                        );
                        i += 1;
                        proof {
                            assert(news.take(i as int) =~= news.take(i - 1).push(news[i - 1]));
                            assert(effects.deep_view() =~= news.take(i as int).map_values(show));
                        }
                    }
                    assert(news.take(i as int) =~= news);
                },
                None => {},
            }
        },
        ServerMsg::Error { msg } => {
            push_emit(UiEvent::Error { msg }, &mut effects);
        },
        ServerMsg::Close => {
            inner.ws_tx = None;
            inner.username = None;
            push_emit(UiEvent::SessionClosed, &mut effects);
        },
    }
    assert(effects.deep_view() =~= server_step(before, me@, sm@).effects);
    effects
}

/// Storing a history leaves the encryption settings alone.
pub proof fn lemma_absorbed_encryption(
    db: DatabaseView,
    from: Seq<char>,
    me: Seq<char>,
    messages: Seq<StoredMsgView>,
)
    ensures
        absorbed(db, from, me, messages).encryption == db.encryption,
    decreases messages.len(),
{
    if messages.len() > 0 {
        lemma_absorbed_encryption(db, from, me, messages.drop_last());
    }
}

} // verus!
