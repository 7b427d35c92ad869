use chat::client::commands::{
    can_send, delete_account, disconnect, get_messages, get_peer_encryption, list_pending,
    pull_history, send_message, send_message_with_nonce, set_peer_encryption, wipe_local_data,
};
use chat::client::crypto::{
    can_encrypt, decrypt, decrypt_bytes, encrypt, encrypt_with_nonce, join_frame, read_plaintext,
    split_frame,
};
use chat::client::db::{Database, EncryptionRow, LocalMsg, MessageRow};
use chat::client::http_auth::{register, register_url, HttpOutcome};
use chat::client::state::{AppState, Inner};
use chat::client::ws::{
    handle_server, last_seen, read_message, send, shown_text, shows_events, Effect, UiEvent,
};
use chat::protocol::{ClientMsg, ServerMsg, StoredMsg, UiMsg};

const NONCE: [u8; 12] = [0, 1, 2, 3, 4, 5, 6, 7, 8, 9, 10, 11];

fn s(text: &str) -> String {
    text.to_string()
}

fn tables() -> Database {
    Database::open(Vec::new(), Vec::new()).unwrap()
}

/// `me` is logged in, and connected.
fn connected(me: &str) -> Inner {
    let mut inner = AppState::new().inner;
    inner.db = Some(tables());
    inner.username = Some(s(me));
    inner.ws_tx = Some(1);
    inner.current_session = 1;
    inner
}

fn local(direction: &str, ts: i64, text: &str) -> LocalMsg {
    LocalMsg { direction: s(direction), ts, text: s(text) }
}

fn stored(from: &str, to: &str, ts: i64, payload: &str) -> StoredMsg {
    StoredMsg { from: s(from), to: s(to), ts, payload: s(payload) }
}

fn emit(event: UiEvent) -> Effect {
    Effect::Emit { event }
}

fn shown(peer: &str, direction: &str, ts: i64, text: &str) -> Effect {
    emit(UiEvent::Message {
        msg: UiMsg { peer: s(peer), direction: s(direction), ts, text: s(text) },
    })
}

fn pull(from: &str, since: i64) -> Effect {
    Effect::Send { msg: ClientMsg::PullHistory { from: s(from), since } }
}

// ---- encryption -------------------------------------------------------

#[test]
fn encryption_with_a_given_nonce() {
    assert_eq!(
        encrypt_with_nonce("secret", &NONCE, "hello"),
        "AAECAwQFBgcICQoLwbPI5wZZSPZLYAZb2+2BvaCd4W1H"
    );
    assert_eq!(
        encrypt_with_nonce("secret", &NONCE, ""),
        "AAECAwQFBgcICQoLcwA2m6/Edm2/DUrNZF4y3Q=="
    );
    assert_eq!(
        encrypt_with_nonce("pw", &[0; 12], "grüße"),
        "AAAAAAAAAAAAAAAAisqu5TL+lyZmmHqmqQyYn0p95GnRd9c="
    );
}

#[test]
fn decryption_gives_the_text_back() {
    for text in ["", "hello", "grüße", "a longer text, over more than one block of the cipher"] {
        assert_eq!(decrypt("secret", &encrypt("secret", text)), Some(s(text)));
    }
    assert_eq!(
        decrypt("secret", "AAECAwQFBgcICQoLwbPI5wZZSPZLYAZb2+2BvaCd4W1H"),
        Some(s("hello"))
    );
}

#[test]
fn each_encryption_has_its_own_nonce() {
    let a = encrypt("secret", "hello");
    let b = encrypt("secret", "hello");
    assert_ne!(a, b);
    assert_eq!(a.len(), 44);
    assert_ne!(a[..16], b[..16]);
}

#[test]
fn lengths_of_encrypted_messages() {
    for password in ["", "secret", "a rather long password, longer than the key"] {
        assert_eq!(encrypt(password, "").len(), 40);
        assert_eq!(encrypt(password, "hello").len(), 44);
        assert!(encrypt(password, "grüße").is_ascii());
        assert_eq!(encrypt_with_nonce(password, &NONCE, "grüße").len(), 48);
    }
}

#[test]
fn what_does_not_decrypt() {
    let good = "AAECAwQFBgcICQoLwbPI5wZZSPZLYAZb2+2BvaCd4W1H";
    // another password
    assert_eq!(decrypt("other", good), None);
    // no base64
    assert_eq!(decrypt("secret", "hello!"), None);
    // padding missing
    assert_eq!(decrypt("secret", "AAECAwQFBgcICQoLcwA2m6/Edm2/DUrNZF4y3Q"), None);
    // too short for a nonce, and for a tag
    assert_eq!(decrypt("secret", ""), None);
    assert_eq!(decrypt("secret", "AAECAwQFBgcICQo="), None);
    assert_eq!(decrypt("secret", "AAECAwQFBgcICQoL"), None);
    // another ciphertext
    assert_eq!(decrypt("secret", "AAECAwQFBgcICQoLwbPI5wZZSPZLYAZb2+2BvaCd4W1I"), None);
    // no text
    assert_eq!(decrypt("secret", "AAECAwQFBgcICQoLViiU433lTIJfshNjbJymBQvH"), None);
}

#[test]
fn frames_of_nonce_and_ciphertext() {
    assert_eq!(join_frame(&NONCE, &[9, 9]), vec![0, 1, 2, 3, 4, 5, 6, 7, 8, 9, 10, 11, 9, 9]);
    let bytes: Vec<u8> = (0..14).collect();
    assert_eq!(split_frame(&bytes), Some((&NONCE[..], &[12u8, 13][..])));
    assert_eq!(split_frame(&bytes[..12]), Some((&NONCE[..], &[][..])));
    assert_eq!(split_frame(&bytes[..11]), None);
    assert_eq!(decrypt_bytes("secret", &bytes[..11]), None);
}

#[test]
fn plaintexts_that_are_no_text() {
    assert_eq!(read_plaintext(Some(vec![0x68, 0x69])), Some(s("hi")));
    assert_eq!(read_plaintext(Some(vec![0xff, 0xfe])), None);
    assert_eq!(read_plaintext(None), None);
    assert!(can_encrypt("hi"));
}

// ---- local tables -----------------------------------------------------

#[test]
fn histories_are_in_the_order_of_time() {
    let mut db = tables();
    db.insert_message("bob", "out", 3, "c");
    db.insert_message("bob", "in", 1, "a");
    db.insert_message("carol", "in", 2, "x");
    db.insert_message("bob", "in", 3, "d");
    db.insert_message("bob", "out", 2, "b");
    assert_eq!(
        db.get_messages("bob"),
        vec![local("in", 1, "a"), local("out", 2, "b"), local("out", 3, "c"), local("in", 3, "d")]
    );
    assert_eq!(
        db.get_messages_since("bob", 3),
        vec![local("out", 3, "c"), local("in", 3, "d")]
    );
    assert_eq!(db.get_messages("dave"), Vec::<LocalMsg>::new());
}

#[test]
fn the_same_message_is_stored_once() {
    let mut db = tables();
    assert!(db.store_message("bob", "in", 1, "a"));
    assert!(!db.store_message("bob", "in", 1, "a"));
    assert!(db.store_message("bob", "out", 1, "a"));
    assert!(db.store_message("bob", "in", 2, "a"));
    assert!(db.store_message("bob", "in", 1, "b"));
    assert!(db.store_message("carol", "in", 1, "a"));
    assert_eq!(db.message_count(), 5);
    db.insert_message("bob", "in", 1, "a");
    assert_eq!(db.message_count(), 6);
    assert_eq!(
        db.messages_from(5),
        vec![MessageRow { peer: s("bob"), msg: local("in", 1, "a") }]
    );
    assert_eq!(db.messages_from(6), Vec::<MessageRow>::new());
}

#[test]
fn encryption_settings() {
    let mut db = tables();
    assert_eq!(db.get_encryption("bob"), (s("none"), None));
    db.set_encryption("bob", "aes-gcm", Some("pw"));
    db.set_encryption("carol", "none", None);
    assert_eq!(db.get_encryption("bob"), (s("aes-gcm"), Some(s("pw"))));
    assert_eq!(db.get_peer_password("bob"), Some(s("pw")));
    db.set_encryption("bob", "none", None);
    assert_eq!(db.get_encryption("bob"), (s("none"), None));
    assert_eq!(db.get_encryption("carol"), (s("none"), None));
}

#[test]
fn a_wipe_deletes_everything() {
    let mut db = tables();
    db.insert_message("bob", "in", 1, "a");
    db.set_encryption("bob", "aes-gcm", Some("pw"));
    db.wipe();
    assert_eq!(db, tables());
    assert_eq!(db.get_encryption("bob"), (s("none"), None));
}

#[test]
fn a_peer_set_twice_is_no_database() {
    let row = |peer: &str| EncryptionRow { peer: s(peer), method: s("none"), password: None };
    assert!(Database::open(Vec::new(), vec![row("bob"), row("bob")]).is_none());
    assert!(Database::open(Vec::new(), vec![row("bob"), row("carol")]).is_some());
}

#[test]
fn history_is_handed_on_with_its_senders() {
    let mut db = tables();
    db.insert_message("bob", "out", 1, "a");
    db.insert_message("bob", "in", 2, "b");
    assert_eq!(
        db.history_for_peer("bob", "alice", 0),
        vec![stored("alice", "bob", 1, "a"), stored("bob", "alice", 2, "b")]
    );
    assert_eq!(db.history_for_peer("bob", "alice", 2), vec![stored("bob", "alice", 2, "b")]);
}

// ---- commands ---------------------------------------------------------

#[test]
fn a_new_client_is_logged_out() {
    let mut inner = AppState::new().inner;
    assert_eq!(inner.owner(), Err(s("not logged in")));
    assert_eq!(send_message(&mut inner, s("bob"), "hi", 1), Err(s("not logged in")));
    assert_eq!(get_messages(&inner, "bob"), Err(s("not logged in")));
    assert_eq!(get_peer_encryption(&inner, "bob"), Err(s("not logged in")));
    assert_eq!(
        set_peer_encryption(&mut inner, "bob", "none", None),
        Err(s("not logged in"))
    );
    assert_eq!(pull_history(&inner, s("bob"), None), Err(s("not connected")));
    assert_eq!(list_pending(&inner), None);
    assert_eq!(delete_account(&inner, s("pw")), None);
    assert_eq!(send(&inner, ClientMsg::ListPending), None);
    assert_eq!(last_seen(&inner), 0);
}

#[test]
fn logged_out_users_send_nothing() {
    let mut inner = connected("alice");
    set_peer_encryption(&mut inner, "bob", "aes-gcm", Some("secret")).unwrap();
    inner.username = None;
    assert!(can_send(&inner, "bob", "hi"));
    assert_eq!(send_message(&mut inner, s("bob"), "hi", 1), Err(s("not logged in")));
    assert_eq!(
        send_message_with_nonce(&mut inner, s("bob"), "hi", 1, &NONCE),
        Err(s("not logged in"))
    );
    assert_eq!(inner.db.as_ref().unwrap().message_count(), 0);
}

#[test]
fn messages_in_the_clear() {
    let mut inner = connected("alice");
    assert_eq!(
        send_message(&mut inner, s("bob"), "hi", 5),
        Ok(ClientMsg::Send { to: s("bob"), payload: s("hi") })
    );
    assert_eq!(get_messages(&inner, "bob"), Ok(vec![local("out", 5, "hi")]));
    // a password alone does not encrypt, nor does a method alone
    set_peer_encryption(&mut inner, "bob", "none", Some("pw")).unwrap();
    set_peer_encryption(&mut inner, "carol", "aes-gcm", None).unwrap();
    for peer in ["bob", "carol"] {
        assert_eq!(
            send_message(&mut inner, s(peer), "hi", 6),
            Ok(ClientMsg::Send { to: s(peer), payload: s("hi") })
        );
    }
}

#[test]
fn messages_under_a_password() {
    let mut inner = connected("alice");
    set_peer_encryption(&mut inner, "bob", "aes-gcm", Some("secret")).unwrap();
    assert_eq!(get_peer_encryption(&inner, "bob"), Ok(s("aes-gcm")));
    assert!(can_send(&inner, "bob", "hello"));
    assert_eq!(
        send_message_with_nonce(&mut inner, s("bob"), "hello", 5, &NONCE),
        Ok(ClientMsg::Send {
            to: s("bob"),
            payload: s("AAECAwQFBgcICQoLwbPI5wZZSPZLYAZb2+2BvaCd4W1H"),
        })
    );
    match send_message(&mut inner, s("bob"), "hello", 6) {
        Ok(ClientMsg::Send { to, payload }) => {
            assert_eq!(to, "bob");
            assert_eq!(decrypt("secret", &payload), Some(s("hello")));
        }
        other => panic!("{other:?}"),
    }
    // kept in the clear
    assert_eq!(
        get_messages(&inner, "bob"),
        Ok(vec![local("out", 5, "hello"), local("out", 6, "hello")])
    );
}

#[test]
fn messages_are_kept_without_a_connection() {
    let mut inner = connected("alice");
    disconnect(&mut inner);
    assert_eq!(inner.current_session, 0);
    assert_eq!(send_message(&mut inner, s("bob"), "hi", 5), Err(s("not connected")));
    assert_eq!(get_messages(&inner, "bob"), Ok(vec![local("out", 5, "hi")]));
    assert_eq!(pull_history(&inner, s("bob"), Some(3)), Err(s("not connected")));
}

#[test]
fn only_the_current_session_is_shown() {
    let mut inner = connected("alice");
    assert!(shows_events(&inner, 1));
    assert!(!shows_events(&inner, 2));
    inner.current_session = 2;
    assert!(!shows_events(&inner, 1));
    assert!(shows_events(&inner, 2));
    disconnect(&mut inner);
    for session in [0, 1, 2] {
        assert!(!shows_events(&inner, session));
    }
}

#[test]
fn requests_to_the_server() {
    let inner = connected("alice");
    assert_eq!(
        pull_history(&inner, s("bob"), None),
        Ok(ClientMsg::PullHistory { from: s("bob"), since: 0 })
    );
    assert_eq!(
        pull_history(&inner, s("bob"), Some(-4)),
        Ok(ClientMsg::PullHistory { from: s("bob"), since: -4 })
    );
    assert_eq!(list_pending(&inner), Some(ClientMsg::ListPending));
    assert_eq!(
        delete_account(&inner, s("pw")),
        Some(ClientMsg::DeleteAccount { password: s("pw") })
    );
    assert_eq!(send(&inner, ClientMsg::ListPending), Some(ClientMsg::ListPending));
}

#[test]
fn only_the_user_who_is_logged_in_is_wiped() {
    let mut inner = connected("alice");
    send_message(&mut inner, s("bob"), "hi", 5).unwrap();
    inner.username = None;
    wipe_local_data(&mut inner);
    inner.username = Some(s("alice"));
    assert_eq!(get_messages(&inner, "bob"), Ok(vec![local("out", 5, "hi")]));
    wipe_local_data(&mut inner);
    assert_eq!(get_messages(&inner, "bob"), Ok(Vec::new()));
}

// ---- messages of the server -------------------------------------------

#[test]
fn the_log_in_sets_the_last_visit() {
    let mut inner = connected("alice");
    let sm = ServerMsg::AuthOk { username: s("alice"), last_seen: 40 };
    assert_eq!(
        handle_server(sm, &mut inner, "alice"),
        vec![emit(UiEvent::AuthOk { username: s("alice"), last_seen: 40 })]
    );
    assert_eq!(last_seen(&inner), 40);
}

#[test]
fn peers_are_asked_for_what_was_missed() {
    let mut inner = connected("alice");
    inner.last_seen = 40;
    let peers = vec![s("bob"), s("carol")];
    assert_eq!(
        handle_server(ServerMsg::Peers { peers: peers.clone() }, &mut inner, "alice"),
        vec![pull("bob", 40), pull("carol", 40), emit(UiEvent::Peers { peers: peers.clone() })]
    );
    assert_eq!(
        handle_server(ServerMsg::PeerOnline { username: s("bob") }, &mut inner, "alice"),
        vec![pull("bob", 40), emit(UiEvent::PeerOnline { username: s("bob") })]
    );
    // not without a connection
    inner.ws_tx = None;
    assert_eq!(
        handle_server(ServerMsg::Peers { peers: peers.clone() }, &mut inner, "alice"),
        vec![emit(UiEvent::Peers { peers })]
    );
}

#[test]
fn notices_are_shown() {
    let mut inner = connected("alice");
    assert_eq!(
        handle_server(ServerMsg::PendingChats { users: vec![s("bob")] }, &mut inner, "alice"),
        vec![emit(UiEvent::PendingChats { users: vec![s("bob")] })]
    );
    assert_eq!(
        handle_server(ServerMsg::PeerOffline { username: s("bob") }, &mut inner, "alice"),
        vec![emit(UiEvent::PeerOffline { username: s("bob") })]
    );
    assert_eq!(
        handle_server(ServerMsg::Error { msg: s("no") }, &mut inner, "alice"),
        vec![emit(UiEvent::Error { msg: s("no") })]
    );
}

#[test]
fn messages_are_stored_and_decrypted() {
    let mut inner = connected("bob");
    let payload = "AAECAwQFBgcICQoLwbPI5wZZSPZLYAZb2+2BvaCd4W1H";
    let sm = ServerMsg::Message { from: s("alice"), payload: s(payload), ts: 5 };
    assert_eq!(
        handle_server(sm.clone(), &mut inner, "bob"),
        vec![shown("alice", "in", 5, &format!("<encrypted: {payload}>"))]
    );
    set_peer_encryption(&mut inner, "alice", "aes-gcm", Some("secret")).unwrap();
    assert_eq!(
        handle_server(sm, &mut inner, "bob"),
        vec![shown("alice", "in", 5, "hello")]
    );
    assert_eq!(get_messages(&inner, "alice"), Ok(vec![local("in", 5, payload)]));
}

#[test]
fn what_is_not_decrypted_is_marked() {
    assert_eq!(shown_text(None, "x"), "<encrypted: x>");
    assert_eq!(shown_text(Some(s("y")), "x"), "y");
    assert_eq!(read_message(&None, "x"), "<encrypted: x>");
    assert_eq!(read_message(&Some(s("pw")), "x"), "<encrypted: x>");
    assert_eq!(
        read_message(&Some(s("secret")), "AAECAwQFBgcICQoLwbPI5wZZSPZLYAZb2+2BvaCd4W1H"),
        "hello"
    );
}

#[test]
fn a_history_pull_is_answered_from_the_tables() {
    let mut inner = connected("alice");
    send_message(&mut inner, s("bob"), "a", 1).unwrap();
    send_message(&mut inner, s("bob"), "b", 2).unwrap();
    send_message(&mut inner, s("carol"), "c", 3).unwrap();
    let sm = ServerMsg::PullHistoryRequest { from: s("bob"), since: 2 };
    assert_eq!(
        handle_server(sm, &mut inner, "alice"),
        vec![Effect::Send {
            msg: ClientMsg::HistoryResponse {
                to: s("bob"),
                messages: vec![stored("alice", "bob", 2, "b")],
            },
        }]
    );
}

#[test]
fn a_history_brings_over_what_is_new() {
    let mut inner = connected("bob");
    inner.db.as_mut().unwrap().insert_message("alice", "out", 2, "b");
    inner.db.as_mut().unwrap().insert_message("carol", "in", 1, "x");
    let sm = ServerMsg::HistoryResponse {
        from: s("alice"),
        messages: vec![
            stored("alice", "bob", 1, "a"),
            stored("bob", "alice", 2, "b"),
            stored("alice", "bob", 3, "c"),
            stored("alice", "bob", 3, "c"),
        ],
    };
    assert_eq!(
        handle_server(sm.clone(), &mut inner, "bob"),
        vec![
            shown("alice", "in", 1, "<encrypted: a>"),
            shown("alice", "in", 3, "<encrypted: c>"),
        ]
    );
    assert_eq!(
        get_messages(&inner, "alice"),
        Ok(vec![local("in", 1, "a"), local("out", 2, "b"), local("in", 3, "c")])
    );
    assert_eq!(get_messages(&inner, "carol"), Ok(vec![local("in", 1, "x")]));
    // a second time, nothing is new
    assert_eq!(handle_server(sm, &mut inner, "bob"), Vec::<Effect>::new());
    assert_eq!(inner.db.as_ref().unwrap().message_count(), 4);
}

#[test]
fn without_tables_a_history_is_dropped() {
    let mut inner = connected("bob");
    inner.db = None;
    let sm = ServerMsg::HistoryResponse {
        from: s("alice"),
        messages: vec![stored("alice", "bob", 1, "a")],
    };
    assert_eq!(handle_server(sm, &mut inner, "bob"), Vec::<Effect>::new());
    let sm = ServerMsg::PullHistoryRequest { from: s("alice"), since: 0 };
    assert_eq!(
        handle_server(sm, &mut inner, "bob"),
        vec![Effect::Send {
            msg: ClientMsg::HistoryResponse { to: s("alice"), messages: Vec::new() },
        }]
    );
}

#[test]
fn a_closed_session_is_over() {
    let mut inner = connected("alice");
    assert_eq!(
        handle_server(ServerMsg::Close, &mut inner, "alice"),
        vec![emit(UiEvent::SessionClosed)]
    );
    assert_eq!(send_message(&mut inner, s("bob"), "hi", 1), Err(s("not logged in")));
    assert_eq!(list_pending(&inner), None);
}

#[test]
fn events_have_names() {
    let names = [
        (UiEvent::AuthOk { username: s("a"), last_seen: 0 }, "auth-ok"),
        (UiEvent::Peers { peers: Vec::new() }, "peers"),
        (UiEvent::PendingChats { users: Vec::new() }, "pending-chats"),
        (UiEvent::PeerOnline { username: s("a") }, "peer-online"),
        (UiEvent::PeerOffline { username: s("a") }, "peer-offline"),
        (
            UiEvent::Message {
                msg: UiMsg { peer: s("a"), direction: s("in"), ts: 0, text: s("x") },
            },
            "message",
        ),
        (UiEvent::Error { msg: s("no") }, "error"),
        (UiEvent::SessionClosed, "session-closed"),
    ];
    for (event, name) in names {
        assert_eq!(event.name(), name);
    }
}

// ---- registration -----------------------------------------------------

#[test]
fn where_to_register() {
    assert_eq!(register_url("http://host:8080"), "http://host:8080/register");
    assert_eq!(register_url("http://host:8080//"), "http://host:8080/register");
}

#[test]
fn outcomes_of_a_registration() {
    let answered = |success: bool| HttpOutcome::Answered {
        success,
        status: s("409 Conflict"),
        body: s("{}"),
    };
    assert_eq!(register(&answered(true)), Ok(()));
    assert_eq!(register(&answered(false)), Err(s("server: 409 Conflict {}")));
    assert_eq!(
        register(&HttpOutcome::Unreachable { reason: s("refused") }),
        Err(s("http: refused"))
    );
}
