//! The messages that clients, the server and the user interface exchange.
use vstd::prelude::*;
use vstd::string::*;

verus! {

/// A chat message as clients keep and hand on.
#[derive(Debug, Clone, PartialEq, Eq)]
pub struct StoredMsg {
    pub from: String,
    pub to: String,
    pub ts: i64,
    pub payload: String,
}

/// What a [`StoredMsg`] says.
pub struct StoredMsgView {
    pub from: Seq<char>,
    pub to: Seq<char>,
    pub ts: i64,
    pub payload: Seq<char>,
}

impl View for StoredMsg {
    type V = StoredMsgView;

    open spec fn view(&self) -> StoredMsgView {
        StoredMsgView { from: self.from@, to: self.to@, ts: self.ts, payload: self.payload@ }
    }
}

impl DeepView for StoredMsg {
    type V = StoredMsgView;

    open spec fn deep_view(&self) -> StoredMsgView {
        self@
    }
}

/// Messages a client sends to the server.
#[derive(Debug, Clone, PartialEq, Eq)]
pub enum ClientMsg {
    /// Send a chat message to another user.
    Send { to: String, payload: String },
    /// Ask the server to forward a history-pull request to `from`.
    /// Only allowed if `from` has already initiated a chat with us.
    PullHistory { from: String, since: i64 },
    /// Answer to a forwarded history-pull request (we are the initiator).
    HistoryResponse { to: String, messages: Vec<StoredMsg> },
    /// Ask the server for the list of users who initiated a chat with us
    /// and whose pending first message we have not consumed yet.
    ListPending,
    /// Delete our own account (must send current password).
    DeleteAccount { password: String },
}

/// What a [`ClientMsg`] says.
pub enum ClientMsgView {
    Send { to: Seq<char>, payload: Seq<char> },
    PullHistory { from: Seq<char>, since: i64 },
    HistoryResponse { to: Seq<char>, messages: Seq<StoredMsgView> },
    ListPending,
    DeleteAccount { password: Seq<char> },
}

impl View for ClientMsg {
    type V = ClientMsgView;

    open spec fn view(&self) -> ClientMsgView {
        match self {
            ClientMsg::Send { to, payload } => ClientMsgView::Send {
                to: to@,
                payload: payload@,
            },
            ClientMsg::PullHistory { from, since } => ClientMsgView::PullHistory {
                from: from@,
                since: *since,
            },
            ClientMsg::HistoryResponse { to, messages } => ClientMsgView::HistoryResponse {
                to: to@,
                messages: messages.deep_view(),
            },
            ClientMsg::ListPending => ClientMsgView::ListPending,
            ClientMsg::DeleteAccount { password } => ClientMsgView::DeleteAccount {
                password: password@,
            },
        }
    }
}

impl DeepView for ClientMsg {
    type V = ClientMsgView;

    open spec fn deep_view(&self) -> ClientMsgView {
        self@
    }
}

/// Messages the server pushes to a client.
#[derive(Debug, Clone, PartialEq, Eq)]
pub enum ServerMsg {
    AuthOk { username: String, last_seen: i64 },
    /// Established chat partners.
    Peers { peers: Vec<String> },
    /// Users who have sent us a first message we have not pulled yet.
    PendingChats { users: Vec<String> },
    PeerOnline { username: String },
    PeerOffline { username: String },
    Message { from: String, payload: String, ts: i64 },
    /// "User `from` wants to pull history from you."
    PullHistoryRequest { from: String, since: i64 },
    HistoryResponse { from: String, messages: Vec<StoredMsg> },
    Error { msg: String },
    /// Server-initiated close (e.g. after account deletion).
    Close,
}

/// What a [`ServerMsg`] says.
pub enum ServerMsgView {
    AuthOk { username: Seq<char>, last_seen: i64 },
    Peers { peers: Seq<Seq<char>> },
    PendingChats { users: Seq<Seq<char>> },
    PeerOnline { username: Seq<char> },
    PeerOffline { username: Seq<char> },
    Message { from: Seq<char>, payload: Seq<char>, ts: i64 },
    PullHistoryRequest { from: Seq<char>, since: i64 },
    HistoryResponse { from: Seq<char>, messages: Seq<StoredMsgView> },
    Error { msg: Seq<char> },
    Close,
}

impl View for ServerMsg {
    type V = ServerMsgView;

    open spec fn view(&self) -> ServerMsgView {
        match self {
            ServerMsg::AuthOk { username, last_seen } => ServerMsgView::AuthOk {
                username: username@,
                last_seen: *last_seen,
            },
            ServerMsg::Peers { peers } => ServerMsgView::Peers { peers: peers.deep_view() },
            ServerMsg::PendingChats { users } => ServerMsgView::PendingChats {
                users: users.deep_view(),
            },
            ServerMsg::PeerOnline { username } => ServerMsgView::PeerOnline { username: username@ },
            ServerMsg::PeerOffline { username } => ServerMsgView::PeerOffline {
                username: username@,
            },
            ServerMsg::Message { from, payload, ts } => ServerMsgView::Message {
                from: from@,
                payload: payload@,
                ts: *ts,
            },
            ServerMsg::PullHistoryRequest { from, since } => ServerMsgView::PullHistoryRequest {
                from: from@,
                since: *since,
            },
            ServerMsg::HistoryResponse { from, messages } => ServerMsgView::HistoryResponse {
                from: from@,
                messages: messages.deep_view(),
            },
            ServerMsg::Error { msg } => ServerMsgView::Error { msg: msg@ },
            ServerMsg::Close => ServerMsgView::Close,
        }
    }
}

impl DeepView for ServerMsg {
    type V = ServerMsgView;

    open spec fn deep_view(&self) -> ServerMsgView {
        self@
    }
}

/// What the user interface receives.
#[derive(Debug, Clone, PartialEq, Eq)]
pub struct UiMsg {
    pub peer: String,
    /// "in" | "out"
    pub direction: String,
    pub ts: i64,
    pub text: String,
}

/// What a [`UiMsg`] says.
pub struct UiMsgView {
    pub peer: Seq<char>,
    pub direction: Seq<char>,
    pub ts: i64,
    pub text: Seq<char>,
}

impl View for UiMsg {
    type V = UiMsgView;

    open spec fn view(&self) -> UiMsgView {
        UiMsgView { peer: self.peer@, direction: self.direction@, ts: self.ts, text: self.text@ }
    }
}

} // verus!
