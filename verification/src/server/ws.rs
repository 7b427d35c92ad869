//! Websocket sessions: who is let in, and what the server answers.
//!
//! A session is known by a number, under which its outgoing messages are
//! queued.
use crate::protocol::{
    ClientMsg, ClientMsgView, ServerMsg, ServerMsgView, StoredMsg, StoredMsgView,
};
use crate::server::auth::{bad, Reply, ReplyView, Status};
use crate::server::db::{ordered, DatabaseView, UserView};
use crate::server::state::{AppState, AppStateView};
use crate::table::{lemma_lookup_filter, Row};
use crate::text::{split_at_first, split_first, text_eq};
use crate::util::{hash_password, password_hash};
use vstd::prelude::*;
use vstd::string::*;

verus! {

/// A message on its way to a session.
#[derive(Debug, PartialEq, Eq)]
pub struct Outgoing {
    pub session: u64,
    pub msg: ServerMsg,
}

/// What an [`Outgoing`] says.
pub struct OutgoingView {
    pub session: u64,
    pub msg: ServerMsgView,
}

impl View for Outgoing {
    type V = OutgoingView;

    open spec fn view(&self) -> OutgoingView {
        OutgoingView { session: self.session, msg: self.msg@ }
    }
}

impl DeepView for Outgoing {
    type V = OutgoingView;

    open spec fn deep_view(&self) -> OutgoingView {
        self@
    }
}

/// What handling a message comes to: the messages to send, and whether the
/// tables have changed.
#[derive(Debug, PartialEq, Eq)]
pub struct Step {
    pub outgoing: Vec<Outgoing>,
    pub stored: bool,
}

/// The state after a step, and the messages to send.
pub struct StepView {
    pub state: AppStateView,
    pub outgoing: Seq<OutgoingView>,
}

// ---- routing ----------------------------------------------------------

/// One message to one session.
pub open spec fn answer(session: u64, msg: ServerMsgView) -> Seq<OutgoingView> {
    seq![OutgoingView { session, msg }]
}

/// An error message to one session.
pub open spec fn complaint(session: u64, msg: Seq<char>) -> Seq<OutgoingView> {
    answer(session, ServerMsgView::Error { msg })
}

/// A message to a user: it reaches their session if they are online, else nobody.
pub open spec fn deliver(
    online: Map<Seq<char>, u64>,
    to: Seq<char>,
    msg: ServerMsgView,
) -> Seq<OutgoingView> {
    if online.contains_key(to) {
        answer(online[to], msg)
    } else {
        seq![]
    }
}

/// A message to each of several users, in turn.
pub open spec fn deliver_all(
    online: Map<Seq<char>, u64>,
    users: Seq<Seq<char>>,
    msg: ServerMsgView,
) -> Seq<OutgoingView>
    decreases users.len(),
{
    if users.len() == 0 {
        seq![]
    } else {
        deliver_all(online, users.drop_last(), msg) + deliver(online, users.last(), msg)
    }
}

fn complain(session: u64, msg: String) -> (res: Vec<Outgoing>)
    ensures
        res.deep_view() == complaint(session, msg@),
{
    let mut res: Vec<Outgoing> = Vec::new();
    res.push(Outgoing { session, msg: ServerMsg::Error { msg } });
    assert(res.deep_view() =~= complaint(session, msg@));
    res
}

fn send_to(state: &AppState, to: &str, msg: ServerMsg, out: &mut Vec<Outgoing>)
    ensures
        final(out).deep_view() == old(out).deep_view() + deliver(state@.online, to@, msg@),
{
    match state.online.session_of(to) {
        Some(session) => {
            out.push(Outgoing { session, msg });
        },
        None => {},
    }
    assert(out.deep_view() =~= old(out).deep_view() + deliver(state@.online, to@, msg@));
}

/// Tells `peers` that `username` has come online, or has gone.
fn notify(state: &AppState, peers: &Vec<String>, username: &str, online: bool, out: &mut Vec<
    Outgoing,
>)
    ensures
        final(out).deep_view() == old(out).deep_view() + deliver_all(
            state@.online,
            peers.deep_view(),
            presence(username@, online),
        ),
{
    let ghost msg = presence(username@, online);
    let ghost names = peers.deep_view();
    let ghost start = out.deep_view();
    let mut i: usize = 0;
    assert(out.deep_view() =~= start + deliver_all(state@.online, names.take(0), msg));
    while i < peers.len()
        invariant
            i <= peers@.len(),
            names == peers.deep_view(),
            msg == presence(username@, online),
            out.deep_view() == start + deliver_all(state@.online, names.take(i as int), msg),
        decreases peers@.len() - i,
    {
        let note = if online {
            ServerMsg::PeerOnline { username: username.to_owned() }
        } else {
            ServerMsg::PeerOffline { username: username.to_owned() }
        };
        send_to(state, peers[i].as_str(), note, out);
        i += 1;
        proof {
            assert(names.take(i as int).drop_last() =~= names.take(i - 1));
            assert(names.take(i as int).last() == peers@[i - 1]@);
            assert(out.deep_view() =~= start + deliver_all(
                state@.online,
                names.take(i as int),
                msg,
            ));
        }
    }
    assert(names.take(i as int) =~= names);
}

fn text3(a: &str, b: &str, c: &str) -> (res: String)
    ensures
        res@ == a@ + b@ + c@,
{
    let mut res = a.to_owned();
    res.append(b);
    res.append(c);
    res
}

// ---- admission --------------------------------------------------------

/// The refusal of a websocket.
pub open spec fn refusal(msg: Seq<char>) -> ReplyView {
    ReplyView::Failed { status: Status::Unauthorized, error: "unauthorized"@, message: msg }
}

/// Refuses a websocket.
pub fn reject(msg: &str) -> (res: Reply)
    ensures
        res@ == refusal(msg@),
{
    bad(Status::Unauthorized, "unauthorized", msg)
}

/// A user who has been let in, and when they were last seen.
#[derive(Debug, PartialEq, Eq)]
pub struct Admission {
    pub username: String,
    pub last_seen: i64,
}

/// What an [`Admission`] says.
pub struct AdmissionView {
    pub username: Seq<char>,
    pub last_seen: i64,
}

impl View for Admission {
    type V = AdmissionView;

    open spec fn view(&self) -> AdmissionView {
        AdmissionView { username: self.username@, last_seen: self.last_seen }
    }
}

/// Whether an account admits someone whose password has the given hash.
pub open spec fn admits(db: DatabaseView, username: Seq<char>, hash: Seq<char>) -> bool {
    db.user(username) matches Some(u) && u.password_hash == hash
}

/// The outcome of a request for a websocket with the given `Authorization` header.
pub open spec fn admission(db: DatabaseView, auth: Option<Seq<char>>) -> Result<
    AdmissionView,
    ReplyView,
> {
    match auth {
        None => Err(refusal("missing Authorization header"@)),
        Some(header) => match split_first(header, ':') {
            None => Err(refusal("invalid Authorization header"@)),
            Some((username, password)) => if admits(db, username, password_hash(password)) {
                Ok(AdmissionView { username, last_seen: db.user(username)->0.last_seen })
            } else {
                Err(refusal("invalid credentials"@))
            },
        },
    }
}

/// Checks the hash of a password against an account, and gives the time of
/// the last visit.
pub fn check_hash(state: &AppState, username: &str, hash: &str) -> (res: Option<i64>)
    requires
        state.wf(),
    ensures
        (match res {
            Some(last_seen) => admits(state@.db, username@, hash@) && state@.db.user(
                username@,
            )->0.last_seen == last_seen,
            None => !admits(state@.db, username@, hash@),
        }),
{
    match state.db.get_user(username) {
        Some((h, last_seen)) => if text_eq(h.as_str(), hash) {
            Some(last_seen)
        } else {
            None
        },
        None => None,
    }
}

/// Decides on a request for a websocket. The `Authorization` header holds
/// `username:password`.
pub fn ws_handler(auth: Option<&str>, state: &AppState) -> (res: Result<Admission, Reply>)
    requires
        state.wf(),
    ensures
        (match res {
            Ok(a) => admission(state@.db, header_text(auth)) == Ok::<AdmissionView, ReplyView>(a@),
            Err(r) => admission(state@.db, header_text(auth)) == Err::<AdmissionView, ReplyView>(
                r@,
            ),
        }),
{
    match auth {
        None => Err(reject("missing Authorization header")),
        Some(auth) => match split_at_first(auth, ':') {
            None => Err(reject("invalid Authorization header")),
            Some((username, password)) => {
                let hash = hash_password(password);
                match check_hash(state, username, hash.as_str()) {
                    Some(last_seen) => Ok(Admission { username: username.to_owned(), last_seen }),
                    None => Err(reject("invalid credentials")),
                }
            },
        },
    }
}

/// The text of a header, if there is one.
pub open spec fn header_text(auth: Option<&str>) -> Option<Seq<char>> {
    match auth {
        Some(text) => Some(text@),
        None => None,
    }
}

// ---- sessions ---------------------------------------------------------

/// The announcement that `username` has come online, or has gone.
pub open spec fn presence(username: Seq<char>, online: bool) -> ServerMsgView {
    if online {
        ServerMsgView::PeerOnline { username }
    } else {
        ServerMsgView::PeerOffline { username }
    }
}

/// An accepted session: the established peers at its start, and the first messages.
#[derive(Debug, PartialEq, Eq)]
pub struct Welcome {
    pub peers: Vec<String>,
    pub outgoing: Vec<Outgoing>,
}

/// What a second session for the same user is told.
pub open spec fn duplicate_session() -> ServerMsgView {
    ServerMsgView::Error { msg: "another session is already connected for this user"@ }
}

/// The state and the messages after `username`, last seen at `last_seen`,
/// opens `session`: the initial snapshot, then word to the peers.
pub open spec fn open_step(
    s: AppStateView,
    username: Seq<char>,
    last_seen: i64,
    session: u64,
) -> StepView {
    let state = AppStateView { online: s.online.insert(username, session), ..s };
    StepView {
        state,
        outgoing: answer(session, ServerMsgView::AuthOk { username, last_seen }) + answer(
            session,
            ServerMsgView::Peers { peers: s.db.peers(username) },
        ) + answer(session, ServerMsgView::PendingChats { users: s.db.pending(username) })
            + deliver_all(state.online, s.db.peers(username), presence(username, true)),
    }
}

/// What the wish to open a session comes to: a user who is online is told that
/// there is a session already; anyone else is let in.
pub open spec fn opening(
    s: AppStateView,
    username: Seq<char>,
    last_seen: i64,
    session: u64,
) -> Result<StepView, ServerMsgView> {
    if s.online.contains_key(username) {
        Err(duplicate_session())
    } else {
        Ok(open_step(s, username, last_seen, session))
    }
}

/// Opens a session. A user has a single session: while it lasts, a second one
/// is turned away, and nothing changes.
pub fn open_session(
    state: &mut AppState,
    username: &str,
    last_seen: i64,
    session: u64,
) -> (res: Result<Welcome, ServerMsg>)
    requires
        old(state).wf(),
    ensures
        final(state).wf(),
        res is Err <==> old(state)@.online.contains_key(username@),
        opening(old(state)@, username@, last_seen, session) == (match res {
            Ok(w) => Ok::<StepView, ServerMsgView>(
                StepView { state: final(state)@, outgoing: w.outgoing.deep_view() },
            ),
            Err(msg) => Err(msg@),
        }),
        (match res {
            Ok(w) => {
                &&& w.peers.deep_view() == old(state)@.db.peers(username@)
                &&& open_step(old(state)@, username@, last_seen, session) == StepView {
                    state: final(state)@,
                    outgoing: w.outgoing.deep_view(),
                }
            },
            Err(msg) => msg@ == duplicate_session() && final(state)@ == old(state)@,
        }),
{
    let ghost before = state@;
    if !state.online.claim(username, session) {
        return Err(
            ServerMsg::Error {
                msg: "another session is already connected for this user".to_owned(),
            },
        );
    }
    let mut outgoing: Vec<Outgoing> = Vec::new();
    outgoing.push(
        Outgoing {
            session,
            msg: ServerMsg::AuthOk { username: username.to_owned(), last_seen },
        },
    );
    let peers = state.db.list_peers(username);
    let pending = state.db.list_pending_chats(username);
    let shown = peers.clone();
    assert(shown.deep_view() =~= peers.deep_view());
    outgoing.push(Outgoing { session, msg: ServerMsg::Peers { peers: shown } });
    outgoing.push(Outgoing { session, msg: ServerMsg::PendingChats { users: pending } });
    assert(outgoing.deep_view() =~= answer(
        session,
        ServerMsgView::AuthOk { username: username@, last_seen },
    ) + answer(session, ServerMsgView::Peers { peers: before.db.peers(username@) }) + answer(
        session,
        ServerMsgView::PendingChats { users: before.db.pending(username@) },
    ));
    notify(state, &peers, username, true, &mut outgoing);
    Ok(Welcome { peers, outgoing })
}

/// The state and the messages after `session` of `username` has ended at `ts`;
/// `peers` are those of its start.
///
/// Where another session has the place of `username` by then, it is that one
/// which counts: nothing changes, and nobody is told.
pub open spec fn close_step(
    s: AppStateView,
    username: Seq<char>,
    session: u64,
    peers: Seq<Seq<char>>,
    ts: i64,
) -> StepView {
    if s.online.contains_key(username) && s.online[username] != session {
        unchanged(s, seq![])
    } else {
        let state = AppStateView {
            db: s.db.user_seen(username, ts),
            online: s.online.remove(username),
        };
        StepView { state, outgoing: deliver_all(state.online, peers, presence(username, false)) }
    }
}

/// Closes a session that was accepted. It gives back its own place only, never
/// that of another live session.
pub fn close_session(
    state: &mut AppState,
    username: &str,
    session: u64,
    peers: &Vec<String>,
    ts: i64,
) -> (outgoing: Vec<Outgoing>)
    requires
        old(state).wf(),
    ensures
        final(state).wf(),
        close_step(old(state)@, username@, session, peers.deep_view(), ts) == (StepView {
            state: final(state)@,
            outgoing: outgoing.deep_view(),
        }),
{
    let mut outgoing: Vec<Outgoing> = Vec::new();
    assert(outgoing.deep_view() =~= seq![]);
    match state.online.session_of(username) {
        Some(live) => if live != session {
            return outgoing;
        },
        None => {},
    }
    state.online.release(username);
    state.db.update_last_seen(username, ts);
    notify(state, peers, username, false, &mut outgoing);
    assert(outgoing.deep_view() =~= deliver_all(
        state@.online,
        peers.deep_view(),
        presence(username@, false),
    ));
    outgoing
}

/// How a queued message fared on its way out.
#[derive(Debug, Clone, Copy, PartialEq, Eq, Structural)]
pub enum Written {
    /// It could not be put into words.
    Unwritable,
    /// The socket did not take it.
    Lost,
    /// It went out.
    Out,
}

/// What the sender of a session does next.
#[derive(Debug, Clone, Copy, PartialEq, Eq, Structural)]
pub enum SenderAction {
    /// Go on with the next message.
    Next,
    /// Stop.
    Stop,
    /// Close the socket, then stop.
    CloseThenStop,
}

/// Decides how the sender goes on after `msg`: a message that cannot be
/// written is skipped, a broken socket ends the session, and so does
/// [`ServerMsg::Close`] once it is out.
pub fn after_message(msg: &ServerMsg, written: Written) -> (res: SenderAction)
    ensures
        res == (match written {
            Written::Unwritable => SenderAction::Next,
            Written::Lost => SenderAction::Stop,
            Written::Out => if msg@ == ServerMsgView::Close {
                SenderAction::CloseThenStop
            } else {
                SenderAction::Next
            },
        }),
{
    match written {
        Written::Unwritable => SenderAction::Next,
        Written::Lost => SenderAction::Stop,
        Written::Out => match msg {
            ServerMsg::Close => SenderAction::CloseThenStop,
            _ => SenderAction::Next,
        },
    }
}

/// A frame from a client.
#[derive(Debug, PartialEq, Eq)]
pub enum Frame {
    /// Text, with the message in it, if it holds one.
    Text { msg: Option<ClientMsg> },
    /// The client closes.
    Close,
    /// Anything else.
    Other,
}

/// What the receiver of a session does with a frame.
#[derive(Debug, PartialEq, Eq)]
pub enum ReceiverAction {
    /// Handle the message.
    Handle { msg: ClientMsg },
    /// Ignore the frame.
    Skip,
    /// Stop.
    Stop,
}

/// Decides what to do with a frame: text without a message in it, and every
/// frame that is neither text nor a close, is ignored.
pub fn on_frame(frame: Frame) -> (res: ReceiverAction)
    ensures
        res == (match frame {
            Frame::Text { msg: Some(msg) } => ReceiverAction::Handle { msg },
            Frame::Text { msg: None } => ReceiverAction::Skip,
            Frame::Close => ReceiverAction::Stop,
            Frame::Other => ReceiverAction::Skip,
        }),
{
    match frame {
        Frame::Text { msg } => match msg {
            Some(msg) => ReceiverAction::Handle { msg },
            None => ReceiverAction::Skip,
        },
        Frame::Close => ReceiverAction::Stop,
        Frame::Other => ReceiverAction::Skip,
    }
}

// ---- client messages --------------------------------------------------

/// Nothing in the state changes.
pub open spec fn unchanged(s: AppStateView, outgoing: Seq<OutgoingView>) -> StepView {
    StepView { state: s, outgoing }
}

/// What the sender of a first message is told.
pub open spec fn initiated_text(to: Seq<char>) -> Seq<char> {
    "chat with "@ + to + " initiated; "@ + to + " must pull history to open it"@
}

/// What someone is told who has not been messaged.
pub open spec fn not_messaged_text(from: Seq<char>) -> Seq<char> {
    from + " has not messaged you"@
}

/// `me` sends `payload` to `to` at `ts`.
///
/// The first message of a pair only records the chat; nothing is delivered
/// until the other side has pulled history.
pub open spec fn send_step(
    s: AppStateView,
    me: Seq<char>,
    session: u64,
    to: Seq<char>,
    payload: Seq<char>,
    ts: i64,
) -> StepView {
    if me == to {
        unchanged(s, complaint(session, "cannot send to yourself"@))
    } else {
        match s.db.relationship(me, to) {
            None => StepView {
                state: AppStateView { db: s.db.chat_initiated(me, to), ..s },
                outgoing: complaint(session, initiated_text(to)),
            },
            Some(r) => if r.established {
                unchanged(
                    s,
                    deliver(s.online, to, ServerMsgView::Message { from: me, payload, ts }),
                )
            } else if r.initiator == me {
                unchanged(s, complaint(session, to + " has not pulled your history yet"@))
            } else {
                unchanged(s, complaint(session, "pull history from "@ + to + " first"@))
            },
        }
    }
}

/// Whether `me` may pull history from `from`: the chat is established, or
/// `from` has initiated it.
pub open spec fn may_pull(db: DatabaseView, me: Seq<char>, from: Seq<char>) -> bool {
    db.relationship(me, from) matches Some(r) && (r.established || r.initiator == from)
}

/// `me` asks to pull history from `from`.
pub open spec fn pull_step(
    s: AppStateView,
    me: Seq<char>,
    session: u64,
    from: Seq<char>,
    since: i64,
) -> StepView {
    if !may_pull(s.db, me, from) {
        unchanged(s, complaint(session, not_messaged_text(from)))
    } else if s.online.contains_key(from) {
        unchanged(
            s,
            deliver(s.online, from, ServerMsgView::PullHistoryRequest { from: me, since }),
        )
    } else {
        unchanged(s, complaint(session, "peer "@ + from + " is offline, try again later"@))
    }
}

/// Whether history that `me` hands to `to` establishes their chat: `me` has
/// initiated it, and it is not established.
pub open spec fn opens_chat(db: DatabaseView, me: Seq<char>, to: Seq<char>) -> bool {
    db.relationship(me, to) matches Some(r) && r.initiator == me && !r.established
}

/// `me` hands `messages` of their history to `to`. This answers a pull of
/// `to`; whether there was one is not looked at.
pub open spec fn history_step(
    s: AppStateView,
    me: Seq<char>,
    to: Seq<char>,
    messages: Seq<StoredMsgView>,
) -> StepView {
    let history = deliver(s.online, to, ServerMsgView::HistoryResponse { from: me, messages });
    if opens_chat(s.db, me, to) {
        StepView {
            state: AppStateView { db: s.db.chat_established(me, to), ..s },
            outgoing: deliver(s.online, to, presence(me, true)) + deliver(
                s.online,
                me,
                presence(to, true),
            ) + history,
        }
    } else {
        unchanged(s, history)
    }
}

/// `me` asks to delete their account, with a password of the given hash.
pub open spec fn delete_step(
    s: AppStateView,
    me: Seq<char>,
    session: u64,
    hash: Seq<char>,
) -> StepView {
    match s.db.user(me) {
        None => unchanged(s, complaint(session, "unknown user"@)),
        Some(u) => if u.password_hash != hash {
            unchanged(s, complaint(session, "invalid password"@))
        } else {
            StepView {
                state: AppStateView {
                    db: s.db.user_deleted(me),
                    online: s.online.remove(me),
                },
                outgoing: deliver_all(s.online, s.db.peers(me), presence(me, false)) + answer(
                    session,
                    ServerMsgView::Close,
                ),
            }
        },
    }
}

/// `me` sends the message `cm` at `ts`.
pub open spec fn client_step(
    s: AppStateView,
    me: Seq<char>,
    session: u64,
    cm: ClientMsgView,
    ts: i64,
) -> StepView {
    match cm {
        ClientMsgView::Send { to, payload } => send_step(s, me, session, to, payload, ts),
        ClientMsgView::PullHistory { from, since } => pull_step(s, me, session, from, since),
        ClientMsgView::HistoryResponse { to, messages } => history_step(s, me, to, messages),
        ClientMsgView::ListPending => unchanged(
            s,
            answer(session, ServerMsgView::PendingChats { users: s.db.pending(me) }),
        ),
        ClientMsgView::DeleteAccount { password } => delete_step(
            s,
            me,
            session,
            password_hash(password),
        ),
    }
}

/// A step did what it should, and says truly whether the tables have changed.
pub open spec fn performed(
    before: AppStateView,
    expected: StepView,
    after: AppStateView,
    step: Step,
) -> bool {
    &&& expected == StepView { state: after, outgoing: step.outgoing.deep_view() }
    &&& step.stored == (before.db != after.db)
}

/// Handles one message of `me`, received in `session` at `ts`.
pub fn handle_client(
    cm: ClientMsg,
    me: &str,
    session: u64,
    ts: i64,
    state: &mut AppState,
) -> (res: Step)
    requires
        old(state).wf(),
    ensures
        final(state).wf(),
        performed(
            old(state)@,
            client_step(old(state)@, me@, session, cm@, ts),
            final(state)@,
            res,
        ),
{
    match cm {
        ClientMsg::Send { to, payload } => handle_send(
            me,
            to.as_str(),
            payload,
            session,
            ts,
            state,
        ),
        ClientMsg::PullHistory { from, since } => handle_pull_history(
            me,
            from.as_str(),
            since,
            session,
            state,
        ),
        ClientMsg::HistoryResponse { to, messages } => handle_history_response(
            me,
            to.as_str(),
            messages,
            state,
        ),
        ClientMsg::ListPending => {
            let users = state.db.list_pending_chats(me);
            let mut outgoing: Vec<Outgoing> = Vec::new();
            outgoing.push(Outgoing { session, msg: ServerMsg::PendingChats { users } });
            assert(outgoing.deep_view() =~= answer(
                session,
                ServerMsgView::PendingChats { users: state@.db.pending(me@) },
            ));
            Step { outgoing, stored: false }
        },
        ClientMsg::DeleteAccount { password } => handle_delete_account(
            me,
            password.as_str(),
            session,
            state,
        ),
    }
}

/// Handles a chat message.
pub fn handle_send(
    me: &str,
    to: &str,
    payload: String,
    session: u64,
    ts: i64,
    state: &mut AppState,
) -> (res: Step)
    requires
        old(state).wf(),
    ensures
        final(state).wf(),
        performed(
            old(state)@,
            send_step(old(state)@, me@, session, to@, payload@, ts),
            final(state)@,
            res,
        ),
{
    if text_eq(me, to) {
        return Step {
            outgoing: complain(session, "cannot send to yourself".to_owned()),
            stored: false,
        };
    }
    match state.db.get_relationship(me, to) {
        // No relationship yet: the first message is a pending initiation. It
        // is recorded, and nothing is delivered to `to`.
        None => {
            let ghost before = state@;
            state.db.ensure_relationship_initiated(me, to);
            let mut msg = text3("chat with ", to, " initiated; ");
            msg.append(to);
            msg.append(" must pull history to open it");
            proof {
                assert(state@.db.relationships.len() == before.db.relationships.len() + 1);
                assert(msg@ =~= initiated_text(to@));
            }
            Step { outgoing: complain(session, msg), stored: true }
        },
        Some((initiator, established)) => if established {
            let mut outgoing: Vec<Outgoing> = Vec::new();
            let msg = ServerMsg::Message { from: me.to_owned(), payload, ts };
            send_to(state, to, msg, &mut outgoing);
            assert(outgoing.deep_view() =~= deliver(state@.online, to@, msg@));
            Step { outgoing, stored: false }
        } else if text_eq(initiator.as_str(), me) {
            // We initiated, the other side has not pulled yet.
            let mut msg = to.to_owned();
            msg.append(" has not pulled your history yet");
            Step { outgoing: complain(session, msg), stored: false }
        } else {
            // We are on the receiving side of a pending initiation.
            Step {
                outgoing: complain(session, text3("pull history from ", to, " first")),
                stored: false,
            }
        },
    }
}

/// Handles the wish to pull history.
pub fn handle_pull_history(
    me: &str,
    from: &str,
    since: i64,
    session: u64,
    state: &mut AppState,
) -> (res: Step)
    requires
        old(state).wf(),
    ensures
        final(state).wf(),
        performed(
            old(state)@,
            pull_step(old(state)@, me@, session, from@, since),
            final(state)@,
            res,
        ),
{
    let allowed = match state.db.get_relationship(me, from) {
        // No pending message and no established chat.
        None => false,
        // Only the initiator can be pulled from until the chat is established.
        Some((initiator, established)) => established || text_eq(initiator.as_str(), from),
    };
    if !allowed {
        let mut msg = from.to_owned();
        msg.append(" has not messaged you");
        return Step { outgoing: complain(session, msg), stored: false };
    }
    match state.online.session_of(from) {
        Some(_) => {
            let mut outgoing: Vec<Outgoing> = Vec::new();
            let msg = ServerMsg::PullHistoryRequest { from: me.to_owned(), since };
            send_to(state, from, msg, &mut outgoing);
            assert(outgoing.deep_view() =~= deliver(state@.online, from@, msg@));
            Step { outgoing, stored: false }
        },
        None => Step {
            outgoing: complain(session, text3("peer ", from, " is offline, try again later")),
            stored: false,
        },
    }
}

/// Handles the answer to a history pull.
pub fn handle_history_response(
    me: &str,
    to: &str,
    messages: Vec<StoredMsg>,
    state: &mut AppState,
) -> (res: Step)
    requires
        old(state).wf(),
    ensures
        final(state).wf(),
        performed(
            old(state)@,
            history_step(old(state)@, me@, to@, messages.deep_view()),
            final(state)@,
            res,
        ),
{
    let ghost before = state@;
    let mut outgoing: Vec<Outgoing> = Vec::new();
    let opens = match state.db.get_relationship(me, to) {
        Some((initiator, established)) => text_eq(initiator.as_str(), me) && !established,
        None => false,
    };
    if opens {
        state.db.establish_relationship(me, to);
        // Both sides now know the other is a peer.
        send_to(state, to, ServerMsg::PeerOnline { username: me.to_owned() }, &mut outgoing);
        send_to(state, me, ServerMsg::PeerOnline { username: to.to_owned() }, &mut outgoing);
        proof {
            let rows = before.db.relationships;
            let i = choose|i: int|
                0 <= i < rows.len() && (#[trigger] rows[i]).key() == ordered(me@, to@);
            assert(!rows[i].established);
            assert(state@.db.relationships[i].established);
            assert(outgoing.deep_view() =~= deliver(before.online, to@, presence(me@, true))
                + deliver(before.online, me@, presence(to@, true)));
        }
    }
    send_to(
        state,
        to,
        ServerMsg::HistoryResponse { from: me.to_owned(), messages },
        &mut outgoing,
    );
    proof {
        if !opens {
            assert(outgoing.deep_view() =~= history_step(
                before,
                me@,
                to@,
                messages.deep_view(),
            ).outgoing);
        }
    }
    Step { outgoing, stored: opens }
}

/// Handles the wish to delete an account, with a password of the given hash.
pub fn delete_account_hashed(me: &str, hash: &str, session: u64, state: &mut AppState) -> (res:
    Step)
    requires
        old(state).wf(),
    ensures
        final(state).wf(),
        performed(
            old(state)@,
            delete_step(old(state)@, me@, session, hash@),
            final(state)@,
            res,
        ),
{
    match state.db.get_user(me) {
        None => Step { outgoing: complain(session, "unknown user".to_owned()), stored: false },
        Some((h, _)) => {
            if !text_eq(h.as_str(), hash) {
                return Step {
                    outgoing: complain(session, "invalid password".to_owned()),
                    stored: false,
                };
            }
            let ghost before = state@;
            let peers = state.db.list_peers(me);
            let mut outgoing: Vec<Outgoing> = Vec::new();
            notify(state, &peers, me, false, &mut outgoing);
            state.db.delete_user(me);
            state.online.release(me);
            let ghost so_far = outgoing.deep_view();
            outgoing.push(Outgoing { session, msg: ServerMsg::Close });
            proof {
                assert(so_far =~= deliver_all(
                    before.online,
                    before.db.peers(me@),
                    presence(me@, false),
                ));
                assert(outgoing.deep_view() =~= so_far + answer(session, ServerMsgView::Close));
                let keep = |u: UserView| u.username != me@;
                lemma_lookup_filter(before.db.users, keep);
                assert(state@.db.user(me@) is None);
            }
            Step { outgoing, stored: true }
        },
    }
}

/// Handles the wish to delete an account.
pub fn handle_delete_account(
    me: &str,
    password: &str,
    session: u64,
    state: &mut AppState,
) -> (res: Step)
    requires
        old(state).wf(),
    ensures
        final(state).wf(),
        performed(
            old(state)@,
            delete_step(old(state)@, me@, session, password_hash(password@)),
            final(state)@,
            res,
        ),
{
    let hash = hash_password(password);
    delete_account_hashed(me, hash.as_str(), session, state)
}

} // verus!
