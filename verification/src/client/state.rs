//! The client's state.
use crate::client::db::{text_of, Database, DatabaseView};
use vstd::prelude::*;
use vstd::string::*;

verus! {

/// What the client knows of its user, their local tables and the connection.
/// A channel is known by a number.
pub struct Inner {
    /// The local tables of the user.
    pub db: Option<Database>,
    pub username: Option<String>,
    /// The channel to the websocket, while there is a connection.
    pub ws_tx: Option<u64>,
    /// The channel by which the connection is shut down.
    pub shutdown_tx: Option<u64>,
    /// The session whose events reach the user interface; 0 for none.
    pub current_session: u64,
    /// When the server last saw the user, as it says at log-in.
    pub last_seen: i64,
}

/// What an [`Inner`] says.
pub struct InnerView {
    pub db: Option<DatabaseView>,
    pub username: Option<Seq<char>>,
    pub ws_tx: Option<u64>,
    pub shutdown_tx: Option<u64>,
    pub current_session: u64,
    pub last_seen: i64,
}

impl View for Inner {
    type V = InnerView;

    open spec fn view(&self) -> InnerView {
        InnerView {
            db: match self.db {
                Some(db) => Some(db@),
                None => None,
            },
            username: text_of(self.username),
            ws_tx: self.ws_tx,
            shutdown_tx: self.shutdown_tx,
            current_session: self.current_session,
            last_seen: self.last_seen,
        }
    }
}

impl InnerView {
    /// The local tables obey their keys.
    pub open spec fn keyed(self) -> bool {
        self.db matches Some(db) ==> db.keyed()
    }

    /// How the chat with `peer` is encrypted.
    pub open spec fn encryption_of(self, peer: Seq<char>) -> (Seq<char>, Option<Seq<char>>) {
        match self.db {
            Some(db) => db.encryption_of(peer),
            None => ("none"@, None),
        }
    }

    /// The same, with other tables.
    pub open spec fn with_db(self, db: DatabaseView) -> Self {
        InnerView { db: Some(db), ..self }
    }
}

impl Inner {
    /// The local tables obey their keys.
    pub open spec fn wf(&self) -> bool {
        self@.keyed()
    }

    /// The user who is logged in.
    pub fn owner(&self) -> (res: Result<String, String>)
        ensures
            (match res {
                Ok(name) => self@.username == Some(name@),
                Err(e) => self@.username is None && e@ == "not logged in"@,
            }),
    {
        match &self.username {
            Some(name) => Ok(name.clone()),
            None => Err("not logged in".to_owned()),
        }
    }

    /// How the chat with `peer` is encrypted: `(method, password)`.
    pub fn encryption_of(&self, peer: &str) -> (res: (String, Option<String>))
        requires
            self.wf(),
        ensures
            (res.0@, text_of(res.1)) == self@.encryption_of(peer@),
    {
        match &self.db {
            Some(db) => db.get_encryption(peer),
            None => ("none".to_owned(), None),
        }
    }
}

/// The client's state.
pub struct AppState {
    pub inner: Inner,
}

impl AppState {
    /// The state of a client that has just started: nobody is logged in.
    pub fn new() -> (res: Self)
        ensures
            res.inner@ == (InnerView {
                db: None,
                username: None,
                ws_tx: None,
                shutdown_tx: None,
                current_session: 0,
                last_seen: 0,
            }),
            res.inner.wf(),
    {
        AppState {
            inner: Inner {
                db: None,
                username: None,
                ws_tx: None,
                shutdown_tx: None,
                current_session: 0,
                last_seen: 0,
            },
        }
    }
}

} // verus!
