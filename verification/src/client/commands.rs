//! What the user interface can ask for.
//!
//! A command that talks to the server gives the message to send.
use crate::client::crypto::{
    can_encrypt, decrypted, encrypt_with_nonce, encryptable_len, sealed_bytes,
};
use crate::client::db::{str_of, DatabaseView, LocalMsg, LocalMsgView};
use crate::client::state::{Inner, InnerView};
use crate::outside::{base64_text, generate_nonce};
use crate::protocol::{ClientMsg, ClientMsgView};
use crate::text::text_eq;
use vstd::prelude::*;
use vstd::string::*;
use vstd::utf8::*;

verus! {

/// The password under which messages to `peer` are encrypted, if they are.
pub open spec fn sending_password(inner: InnerView, peer: Seq<char>) -> Option<Seq<char>> {
    let (method, password) = inner.encryption_of(peer);
    if method == "aes-gcm"@ {
        password
    } else {
        None
    }
}

/// What is sent for `text`: the text itself, or, under a password, its
/// encryption with the given nonce.
pub open spec fn payload_of(
    password: Option<Seq<char>>,
    nonce: Seq<u8>,
    text: Seq<char>,
) -> Seq<char> {
    match password {
        Some(pw) => base64_text(sealed_bytes(pw, nonce, text)),
        None => text,
    }
}

/// The state after `text` was sent to `to` at `ts`: it is in the local tables,
/// connected or not.
pub open spec fn message_sent(
    inner: InnerView,
    to: Seq<char>,
    text: Seq<char>,
    ts: i64,
) -> InnerView {
    match inner.db {
        Some(db) if inner.username is Some => inner.with_db(
            db.message_inserted(to, LocalMsgView { direction: "out"@, ts, text }),
        ),
        _ => inner,
    }
}

/// The outcome of sending `text` to `to`, with the given nonce.
pub open spec fn sending(
    inner: InnerView,
    to: Seq<char>,
    text: Seq<char>,
    nonce: Seq<u8>,
) -> Result<ClientMsgView, Seq<char>> {
    if inner.username is None {
        Err("not logged in"@)
    } else if inner.ws_tx is None {
        Err("not connected"@)
    } else {
        Ok(
            ClientMsgView::Send {
                to,
                payload: payload_of(sending_password(inner, to), nonce, text),
            },
        )
    }
}

/// `text` is not too long to be sent to `to`. That matters only where a user
/// who is logged in sends it encrypted.
pub open spec fn sendable(inner: InnerView, to: Seq<char>, text: Seq<char>) -> bool {
    inner.username is Some && sending_password(inner, to) is Some ==> encryptable_len(
        encode_utf8(text).len(),
    )
}

/// What a command that gives a message says.
pub open spec fn outcome(res: Result<ClientMsg, String>) -> Result<ClientMsgView, Seq<char>> {
    match res {
        Ok(msg) => Ok(msg@),
        Err(e) => Err(e@),
    }
}

/// Sends `text` to `to` at `ts`; where the chat is encrypted, with the given nonce.
pub fn send_message_with_nonce(
    inner: &mut Inner,
    to: String,
    text: &str,
    ts: i64,
    nonce: &[u8],
) -> (res: Result<ClientMsg, String>)
    requires
        old(inner).wf(),
        nonce@.len() == 12,
        sendable(old(inner)@, to@, text@),
    ensures
        final(inner).wf(),
        final(inner)@ == message_sent(old(inner)@, to@, text@, ts),
        outcome(res) == sending(old(inner)@, to@, text@, nonce@),
        (sending_password(old(inner)@, to@), outcome(res)) matches (
            Some(pw),
            Ok(ClientMsgView::Send { to: _, payload }),
        ) ==> decrypted(pw, payload) == Some(text@),
        old(inner)@.username is Some && old(inner)@.ws_tx is Some && old(inner)@.encryption_of(
            to@,
        ).0 == "aes-gcm"@ && old(inner)@.encryption_of(to@).1 is Some ==> (res matches Ok(
            ClientMsg::Send { to: receiver, payload },
        ) && receiver@ == to@ && decrypted(old(inner)@.encryption_of(to@).1->0, payload@) == Some(
            text@,
        )),
        old(inner)@.username is Some && old(inner)@.ws_tx is Some && (old(inner)@.encryption_of(
            to@,
        ).0 != "aes-gcm"@ || old(inner)@.encryption_of(to@).1 is None) ==> (res matches Ok(
            ClientMsg::Send { to: receiver, payload },
        ) && receiver@ == to@ && payload@ == text@),
{
    match inner.owner() {
        Err(e) => return Err(e),
        Ok(_) => {},
    }
    let (method, password) = inner.encryption_of(to.as_str());
    let payload = if text_eq(method.as_str(), "aes-gcm") {
        match password {
            Some(pw) => encrypt_with_nonce(pw.as_str(), nonce, text),
            None => text.to_owned(),
        }
    } else {
        text.to_owned()
    };
    let taken = inner.db.take();
    match taken {
        Some(mut db) => {
            db.insert_message(to.as_str(), "out", ts, text);
            inner.db = Some(db);
        },
        None => {},
    }
    match inner.ws_tx {
        Some(_) => Ok(ClientMsg::Send { to, payload }),
        None => Err("not connected".to_owned()),
    }
}

/// Sends `text` to `to` at `ts`.
///
/// Where the chat is encrypted, the nonce is random; whatever it is, the
/// password of the chat decrypts what is sent to `text`.
pub fn send_message(inner: &mut Inner, to: String, text: &str, ts: i64) -> (res: Result<
    ClientMsg,
    String,
>)
    requires
        old(inner).wf(),
        sendable(old(inner)@, to@, text@),
    ensures
        final(inner).wf(),
        final(inner)@ == message_sent(old(inner)@, to@, text@, ts),
        exists|nonce: Seq<u8>|
            nonce.len() == 12 && outcome(res) == #[trigger] sending(
                old(inner)@,
                to@,
                text@,
                nonce,
            ),
        (sending_password(old(inner)@, to@), outcome(res)) matches (
            Some(pw),
            Ok(ClientMsgView::Send { to: _, payload }),
        ) ==> decrypted(pw, payload) == Some(text@),
        old(inner)@.username is Some && old(inner)@.ws_tx is Some && old(inner)@.encryption_of(
            to@,
        ).0 == "aes-gcm"@ && old(inner)@.encryption_of(to@).1 is Some ==> (res matches Ok(
            ClientMsg::Send { to: receiver, payload },
        ) && receiver@ == to@ && decrypted(old(inner)@.encryption_of(to@).1->0, payload@) == Some(
            text@,
        )),
        old(inner)@.username is Some && old(inner)@.ws_tx is Some && (old(inner)@.encryption_of(
            to@,
        ).0 != "aes-gcm"@ || old(inner)@.encryption_of(to@).1 is None) ==> (res matches Ok(
            ClientMsg::Send { to: receiver, payload },
        ) && receiver@ == to@ && payload@ == text@),
{
    let nonce = generate_nonce();
    send_message_with_nonce(inner, to, text, ts, nonce.as_slice())
}

/// Whether `text` can be sent to `to`: where the chat is encrypted, a text too
/// long for the cipher can not. Where nobody is logged in, sending is refused
/// before that matters.
pub fn can_send(inner: &Inner, to: &str, text: &str) -> (res: bool)
    requires
        inner.wf(),
    ensures
        res == sendable(inner@, to@, text@),
{
    if inner.username.is_none() {
        return true;
    }
    let (method, password) = inner.encryption_of(to);
    if text_eq(method.as_str(), "aes-gcm") && password.is_some() {
        can_encrypt(text)
    } else {
        true
    }
}

/// Asks `from` for the history since a time, or for all of it.
pub fn pull_history(inner: &Inner, from: String, since: Option<i64>) -> (res: Result<
    ClientMsg,
    String,
>)
    ensures
        outcome(res) == (if inner@.ws_tx is Some {
            Ok(
                ClientMsgView::PullHistory {
                    from: from@,
                    since: match since {
                        Some(s) => s,
                        None => 0,
                    },
                },
            )
        } else {
            Err("not connected"@)
        }),
{
    let since = match since {
        Some(s) => s,
        None => 0,
    };
    match inner.ws_tx {
        Some(_) => Ok(ClientMsg::PullHistory { from, since }),
        None => Err("not connected".to_owned()),
    }
}

/// Asks for the pending chats. Nothing is sent where there is no connection.
pub fn list_pending(inner: &Inner) -> (res: Option<ClientMsg>)
    ensures
        res is Some <==> inner@.ws_tx is Some,
        res matches Some(msg) ==> msg@ == ClientMsgView::ListPending,
{
    match inner.ws_tx {
        Some(_) => Some(ClientMsg::ListPending),
        None => None,
    }
}

/// Asks for the deletion of the account. Nothing is sent where there is no connection.
pub fn delete_account(inner: &Inner, password: String) -> (res: Option<ClientMsg>)
    ensures
        res is Some <==> inner@.ws_tx is Some,
        res matches Some(msg) ==> msg@ == (ClientMsgView::DeleteAccount { password: password@ }),
{
    match inner.ws_tx {
        Some(_) => Some(ClientMsg::DeleteAccount { password }),
        None => None,
    }
}

/// The state without a connection, and without a session whose events are shown.
pub open spec fn disconnected(inner: InnerView) -> InnerView {
    InnerView { ws_tx: None, current_session: 0, ..inner }
}

/// Ends the connection, and with it the session whose events are shown: see
/// [`shows_events`](crate::client::ws::shows_events).
pub fn disconnect(inner: &mut Inner)
    ensures
        final(inner)@ == disconnected(old(inner)@),
{
    inner.current_session = 0;
    inner.ws_tx = None;
}

/// Sets how the chat with `peer` is encrypted.
pub fn set_peer_encryption(
    inner: &mut Inner,
    peer: &str,
    method: &str,
    password: Option<&str>,
) -> (res: Result<(), String>)
    requires
        old(inner).wf(),
    ensures
        final(inner).wf(),
        (match res {
            Ok(_) => old(inner)@.username is Some && final(inner)@ == (match old(inner)@.db {
                Some(db) => old(inner)@.with_db(
                    db.encryption_set(peer@, method@, str_of(password)),
                ),
                None => old(inner)@,
            }),
            Err(e) => old(inner)@.username is None && e@ == "not logged in"@ && final(inner)@
                == old(inner)@,
        }),
{
    match inner.owner() {
        Err(e) => return Err(e),
        Ok(_) => {},
    }
    let taken = inner.db.take();
    match taken {
        Some(mut db) => {
            db.set_encryption(peer, method, password);
            inner.db = Some(db);
        },
        None => {},
    }
    Ok(())
}

/// The method by which the chat with `peer` is encrypted.
pub fn get_peer_encryption(inner: &Inner, peer: &str) -> (res: Result<String, String>)
    requires
        inner.wf(),
    ensures
        (match res {
            Ok(method) => inner@.username is Some && method@ == inner@.encryption_of(peer@).0,
            Err(e) => inner@.username is None && e@ == "not logged in"@,
        }),
{
    match inner.owner() {
        Err(e) => Err(e),
        Ok(_) => Ok(inner.encryption_of(peer).0),
    }
}

/// The messages of the chat with `peer`.
pub fn get_messages(inner: &Inner, peer: &str) -> (res: Result<Vec<LocalMsg>, String>)
    ensures
        (match res {
            Ok(messages) => inner@.username is Some && messages.deep_view() == (match inner@.db {
                Some(db) => db.history(peer@),
                None => seq![],
            }),
            Err(e) => inner@.username is None && e@ == "not logged in"@,
        }),
{
    match inner.owner() {
        Err(e) => Err(e),
        Ok(_) => match &inner.db {
            Some(db) => Ok(db.get_messages(peer)),
            None => {
                let none: Vec<LocalMsg> = Vec::new();
                assert(none.deep_view() =~= seq![]);
                Ok(none)
            },
        },
    }
}

/// Deletes the local data of the user who is logged in. Where nobody is,
/// nothing is deleted.
pub fn wipe_local_data(inner: &mut Inner)
    requires
        old(inner).wf(),
    ensures
        final(inner).wf(),
        final(inner)@ == (match old(inner)@.db {
            Some(_) if old(inner)@.username is Some => old(inner)@.with_db(DatabaseView::empty()),
            _ => old(inner)@,
        }),
{
    match inner.owner() {
        Err(_) => return,
        Ok(_) => {},
    }
    let taken = inner.db.take();
    match taken {
        Some(mut db) => {
            db.wipe();
            inner.db = Some(db);
        },
        None => {},
    }
}

} // verus!
