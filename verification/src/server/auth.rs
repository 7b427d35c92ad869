//! Registration, and the answers to HTTP requests.
use crate::server::db::DatabaseView;
use crate::server::state::{AppState, AppStateView};
use crate::util::{hash_password, password_hash};
use vstd::prelude::*;
use vstd::string::*;

verus! {

/// A username with its password.
#[derive(Debug, PartialEq, Eq)]
pub struct Credentials {
    pub username: String,
    pub password: String,
}

/// The status of an answer.
#[derive(Debug, Clone, Copy, PartialEq, Eq, Structural)]
pub enum Status {
    Success,
    BadRequest,
    Unauthorized,
    Conflict,
}

/// An answer to an HTTP request: `{ "status": .. }` where all is well, else
/// `{ "error": .., "message": .. }`.
#[derive(Debug, PartialEq, Eq)]
pub enum Reply {
    Done { status: Status, body: String },
    Failed { status: Status, error: String, message: String },
}

/// What a [`Reply`] says.
pub enum ReplyView {
    Done { status: Status, body: Seq<char> },
    Failed { status: Status, error: Seq<char>, message: Seq<char> },
}

impl View for Reply {
    type V = ReplyView;

    open spec fn view(&self) -> ReplyView {
        match self {
            Reply::Done { status, body } => ReplyView::Done { status: *status, body: body@ },
            Reply::Failed { status, error, message } => ReplyView::Failed {
                status: *status,
                error: error@,
                message: message@,
            },
        }
    }
}

/// An answer that says what went wrong.
pub fn bad(status: Status, err: &str, msg: &str) -> (res: Reply)
    ensures
        res@ == (ReplyView::Failed { status, error: err@, message: msg@ }),
{
    Reply::Failed { status, error: err.to_owned(), message: msg.to_owned() }
}

/// Neither the username nor the password is empty.
pub open spec fn complete(username: Seq<char>, password: Seq<char>) -> bool {
    username.len() > 0 && password.len() > 0
}

/// The answer to a registration.
pub open spec fn registration_reply(
    db: DatabaseView,
    username: Seq<char>,
    password: Seq<char>,
) -> ReplyView {
    if !complete(username, password) {
        ReplyView::Failed {
            status: Status::BadRequest,
            error: "bad_request"@,
            message: "missing credentials"@,
        }
    } else if db.user(username) is None {
        ReplyView::Done { status: Status::Success, body: "ok"@ }
    } else {
        ReplyView::Failed {
            status: Status::Conflict,
            error: "conflict"@,
            message: "username already taken"@,
        }
    }
}

/// The tables after a registration with a password of the given hash.
pub open spec fn registered(
    db: DatabaseView,
    username: Seq<char>,
    password: Seq<char>,
    hash: Seq<char>,
) -> DatabaseView {
    if complete(username, password) {
        db.user_created(username, hash)
    } else {
        db
    }
}

/// Registers an account whose password has the given hash.
pub fn register_hashed(state: &mut AppState, creds: &Credentials, hash: &str) -> (res: Reply)
    requires
        old(state).wf(),
    ensures
        final(state).wf(),
        res@ == registration_reply(old(state)@.db, creds.username@, creds.password@),
        final(state)@ == (AppStateView {
            db: registered(old(state)@.db, creds.username@, creds.password@, hash@),
            ..old(state)@
        }),
{
    if creds.username.as_str().is_empty() || creds.password.as_str().is_empty() {
        return bad(Status::BadRequest, "bad_request", "missing credentials");
    }
    if state.db.create_user(creds.username.as_str(), hash) {
        Reply::Done { status: Status::Success, body: "ok".to_owned() }
    } else {
        bad(Status::Conflict, "conflict", "username already taken")
    }
}

/// Registers an account.
pub fn register(state: &mut AppState, creds: &Credentials) -> (res: Reply)
    requires
        old(state).wf(),
    ensures
        final(state).wf(),
        res@ == registration_reply(old(state)@.db, creds.username@, creds.password@),
        final(state)@ == (AppStateView {
            db: registered(
                old(state)@.db,
                creds.username@,
                creds.password@,
                password_hash(creds.password@),
            ),
            ..old(state)@
        }),
{
    let hash = hash_password(creds.password.as_str());
    register_hashed(state, creds, hash.as_str())
}

} // verus!
