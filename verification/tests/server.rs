use chat::protocol::{ClientMsg, ServerMsg, StoredMsg};
use chat::server::auth::{bad, register, register_hashed, Credentials, Reply, Status};
use chat::server::db::{Database, Relationship, User};
use chat::server::state::AppState;
use chat::server::ws::{
    after_message, check_hash, close_session, delete_account_hashed, handle_client, on_frame,
    open_session, reject, ws_handler, Admission, Frame, Outgoing, ReceiverAction, SenderAction,
    Step, Written,
};

const A: u64 = 1;
const B: u64 = 2;
const C: u64 = 3;

fn empty() -> AppState {
    AppState::new(Database::open(Vec::new(), Vec::new()).unwrap())
}

fn creds(username: &str, password: &str) -> Credentials {
    Credentials { username: username.to_string(), password: password.to_string() }
}

fn user(name: &str, last_seen: i64) -> User {
    User { username: name.to_string(), password_hash: "h".to_string(), last_seen }
}

fn chat(a: &str, b: &str, initiator: &str, established: bool) -> Relationship {
    Relationship {
        user_a: a.to_string(),
        user_b: b.to_string(),
        initiator: initiator.to_string(),
        established,
    }
}

/// Alice, Bob and Carol have accounts, and are online.
fn three() -> AppState {
    let mut s = empty();
    for (name, session) in [("alice", A), ("bob", B), ("carol", C)] {
        assert_eq!(register(&mut s, &creds(name, "pw")), done());
        open_session(&mut s, name, 0, session).unwrap();
    }
    s
}

fn done() -> Reply {
    Reply::Done { status: Status::Success, body: "ok".to_string() }
}

fn failed(status: Status, error: &str, message: &str) -> Reply {
    Reply::Failed { status, error: error.to_string(), message: message.to_string() }
}

fn to(session: u64, msg: ServerMsg) -> Outgoing {
    Outgoing { session, msg }
}

fn error(msg: &str) -> ServerMsg {
    ServerMsg::Error { msg: msg.to_string() }
}

fn online(name: &str) -> ServerMsg {
    ServerMsg::PeerOnline { username: name.to_string() }
}

fn offline(name: &str) -> ServerMsg {
    ServerMsg::PeerOffline { username: name.to_string() }
}

fn step(outgoing: Vec<Outgoing>, stored: bool) -> Step {
    Step { outgoing, stored }
}

fn send(s: &mut AppState, me: &str, session: u64, to: &str, payload: &str) -> Step {
    let cm = ClientMsg::Send { to: to.to_string(), payload: payload.to_string() };
    handle_client(cm, me, session, 77, s)
}

fn pull(s: &mut AppState, me: &str, session: u64, from: &str, since: i64) -> Step {
    handle_client(ClientMsg::PullHistory { from: from.to_string(), since }, me, session, 77, s)
}

fn respond(s: &mut AppState, me: &str, session: u64, to: &str, messages: Vec<StoredMsg>) -> Step {
    handle_client(ClientMsg::HistoryResponse { to: to.to_string(), messages }, me, session, 77, s)
}

fn pending(s: &mut AppState, me: &str, session: u64) -> Vec<String> {
    let mut step = handle_client(ClientMsg::ListPending, me, session, 77, s);
    assert_eq!(step.outgoing.len(), 1);
    assert!(!step.stored);
    match step.outgoing.remove(0) {
        Outgoing { session: to, msg: ServerMsg::PendingChats { users } } if to == session => users,
        other => panic!("{other:?}"),
    }
}

/// Alice and Bob chat.
fn chatting() -> AppState {
    let mut s = three();
    assert!(send(&mut s, "alice", A, "bob", "hi").stored);
    assert!(respond(&mut s, "alice", A, "bob", Vec::new()).stored);
    s
}

#[test]
fn registration() {
    let mut s = empty();
    assert_eq!(register(&mut s, &creds("alice", "pw")), done());
    assert_eq!(
        s.db.get_user("alice"),
        Some(("30c952fab122c3f9759f02a6d95c3758b246b4fee239957b2d4fee46e26170c4".to_string(), 0))
    );
    assert_eq!(s.db.get_user("bob"), None);
}

#[test]
fn registration_needs_both_credentials() {
    let mut s = empty();
    let expected = failed(Status::BadRequest, "bad_request", "missing credentials");
    assert_eq!(register(&mut s, &creds("", "pw")), expected);
    assert_eq!(register(&mut s, &creds("alice", "")), expected);
    assert_eq!(s.db.get_user("alice"), None);
    assert_eq!(s.db.get_user(""), None);
}

#[test]
fn a_name_is_registered_once() {
    let mut s = empty();
    assert_eq!(register_hashed(&mut s, &creds("alice", "pw"), "h1"), done());
    assert_eq!(
        register_hashed(&mut s, &creds("alice", "other"), "h2"),
        failed(Status::Conflict, "conflict", "username already taken")
    );
    assert_eq!(s.db.get_user("alice"), Some(("h1".to_string(), 0)));
}

#[test]
fn failed_replies() {
    assert_eq!(
        bad(Status::Conflict, "conflict", "taken"),
        failed(Status::Conflict, "conflict", "taken")
    );
    assert_eq!(reject("no"), failed(Status::Unauthorized, "unauthorized", "no"));
}

#[test]
fn registered_users_are_admitted() {
    let mut s = empty();
    register(&mut s, &creds("alice", "p:w"));
    assert_eq!(
        ws_handler(Some("alice:p:w"), &s),
        Ok(Admission { username: "alice".to_string(), last_seen: 0 })
    );
}

#[test]
fn others_are_not_admitted() {
    let mut s = empty();
    register(&mut s, &creds("alice", "pw"));
    let refused = |msg: &str| Err(failed(Status::Unauthorized, "unauthorized", msg));
    assert_eq!(ws_handler(None, &s), refused("missing Authorization header"));
    assert_eq!(ws_handler(Some("alice"), &s), refused("invalid Authorization header"));
    assert_eq!(ws_handler(Some("alice:no"), &s), refused("invalid credentials"));
    assert_eq!(ws_handler(Some("bob:pw"), &s), refused("invalid credentials"));
    assert_eq!(ws_handler(Some("alice:"), &s), refused("invalid credentials"));
}

#[test]
fn hashes_are_checked_against_the_account() {
    let db = Database::open(vec![user("alice", 12)], Vec::new()).unwrap();
    let s = AppState::new(db);
    assert_eq!(check_hash(&s, "alice", "h"), Some(12));
    assert_eq!(check_hash(&s, "alice", "g"), None);
    assert_eq!(check_hash(&s, "bob", "h"), None);
}

#[test]
fn a_session_starts_with_a_snapshot() {
    let db = Database::open(
        vec![user("alice", 5), user("bob", 6), user("carol", 7), user("dave", 8)],
        vec![
            chat("alice", "bob", "bob", true),
            chat("alice", "carol", "carol", false),
            chat("alice", "dave", "alice", true),
        ],
    )
    .unwrap();
    let mut s = AppState::new(db);
    open_session(&mut s, "bob", 6, B).unwrap();
    let welcome = open_session(&mut s, "alice", 5, A).unwrap();
    assert_eq!(welcome.peers, vec!["bob".to_string(), "dave".to_string()]);
    assert_eq!(
        welcome.outgoing,
        vec![
            to(A, ServerMsg::AuthOk { username: "alice".to_string(), last_seen: 5 }),
            to(A, ServerMsg::Peers { peers: vec!["bob".to_string(), "dave".to_string()] }),
            to(A, ServerMsg::PendingChats { users: vec!["carol".to_string()] }),
            to(B, online("alice")),
        ]
    );
}

#[test]
fn a_user_has_a_single_session() {
    let mut s = three();
    assert_eq!(
        open_session(&mut s, "alice", 0, 9),
        Err(error("another session is already connected for this user"))
    );
    assert_eq!(s.online.session_of("alice"), Some(A));
}

#[test]
fn closing_gives_the_place_back() {
    let mut s = chatting();
    let out = close_session(&mut s, "alice", A, &vec!["bob".to_string(), "dave".to_string()], 99);
    assert_eq!(out, vec![to(B, offline("alice"))]);
    assert_eq!(s.online.session_of("alice"), None);
    assert_eq!(s.online.session_of("bob"), Some(B));
    assert_eq!(s.db.get_user("alice").unwrap().1, 99);
    assert_eq!(s.db.get_user("bob").unwrap().1, 0);
    let welcome = open_session(&mut s, "alice", 99, 10).unwrap();
    assert_eq!(welcome.peers, vec!["bob".to_string()]);
    assert_eq!(s.online.session_of("alice"), Some(10));
}

#[test]
fn an_old_session_does_not_erase_a_new_one() {
    let mut s = chatting();
    let peers = vec!["bob".to_string()];
    // Alice deletes the account from session A, and the name is taken again.
    let delete = ClientMsg::DeleteAccount { password: "pw".to_string() };
    assert!(handle_client(delete, "alice", A, 77, &mut s).stored);
    assert_eq!(register(&mut s, &creds("alice", "new")), done());
    assert_eq!(open_session(&mut s, "alice", 0, 9).unwrap().peers, Vec::<String>::new());
    // Only now the cleanup of session A comes.
    assert_eq!(close_session(&mut s, "alice", A, &peers, 99), Vec::<Outgoing>::new());
    assert_eq!(s.online.session_of("alice"), Some(9));
    assert_eq!(s.db.get_user("alice").unwrap().1, 0);
    assert_eq!(
        open_session(&mut s, "alice", 0, 10),
        Err(error("another session is already connected for this user"))
    );
    // The new session gives its own place back.
    close_session(&mut s, "alice", 9, &Vec::new(), 100);
    assert_eq!(s.online.session_of("alice"), None);
    assert_eq!(s.db.get_user("alice").unwrap().1, 100);
}

#[test]
fn a_deleted_session_closes_quietly() {
    let mut s = chatting();
    let delete = ClientMsg::DeleteAccount { password: "pw".to_string() };
    handle_client(delete, "alice", A, 77, &mut s);
    let out = close_session(&mut s, "alice", A, &vec!["bob".to_string()], 99);
    assert_eq!(out, vec![to(B, offline("alice"))]);
    assert_eq!(s.db.get_user("alice"), None);
    assert_eq!(s.online.session_of("bob"), Some(B));
}

#[test]
fn the_sender_stops_after_a_close() {
    assert_eq!(after_message(&ServerMsg::Close, Written::Out), SenderAction::CloseThenStop);
    assert_eq!(after_message(&ServerMsg::Close, Written::Lost), SenderAction::Stop);
    assert_eq!(after_message(&ServerMsg::Close, Written::Unwritable), SenderAction::Next);
    assert_eq!(after_message(&online("a"), Written::Out), SenderAction::Next);
    assert_eq!(after_message(&online("a"), Written::Lost), SenderAction::Stop);
}

#[test]
fn frames_without_a_message_are_skipped() {
    assert_eq!(
        on_frame(Frame::Text { msg: Some(ClientMsg::ListPending) }),
        ReceiverAction::Handle { msg: ClientMsg::ListPending }
    );
    assert_eq!(on_frame(Frame::Text { msg: None }), ReceiverAction::Skip);
    assert_eq!(on_frame(Frame::Other), ReceiverAction::Skip);
    assert_eq!(on_frame(Frame::Close), ReceiverAction::Stop);
}

#[test]
fn nobody_writes_to_themselves() {
    let mut s = three();
    assert_eq!(
        send(&mut s, "alice", A, "alice", "x"),
        step(vec![to(A, error("cannot send to yourself"))], false)
    );
}

#[test]
fn a_chat_is_opened_by_pulling_history() {
    let mut s = three();
    // The first message reaches nobody.
    assert_eq!(
        send(&mut s, "alice", A, "bob", "hi"),
        step(
            vec![to(
                A,
                error("chat with bob initiated; bob must pull history to open it")
            )],
            true
        )
    );
    assert_eq!(pending(&mut s, "bob", B), vec!["alice".to_string()]);
    assert_eq!(pending(&mut s, "alice", A), Vec::<String>::new());
    assert_eq!(s.db.list_peers("alice"), Vec::<String>::new());
    assert_eq!(s.db.list_peers("bob"), Vec::<String>::new());
    // Neither side may write.
    assert_eq!(
        send(&mut s, "alice", A, "bob", "hi"),
        step(vec![to(A, error("bob has not pulled your history yet"))], false)
    );
    assert_eq!(
        send(&mut s, "bob", B, "alice", "hi"),
        step(vec![to(B, error("pull history from alice first"))], false)
    );
    // Only Bob may pull.
    assert_eq!(
        pull(&mut s, "alice", A, "bob", 0),
        step(vec![to(A, error("bob has not messaged you"))], false)
    );
    assert_eq!(
        pull(&mut s, "bob", B, "alice", 3),
        step(
            vec![to(A, ServerMsg::PullHistoryRequest { from: "bob".to_string(), since: 3 })],
            false
        )
    );
    // An answer of Bob's establishes nothing.
    assert_eq!(
        respond(&mut s, "bob", B, "alice", Vec::new()),
        step(
            vec![to(
                A,
                ServerMsg::HistoryResponse { from: "bob".to_string(), messages: Vec::new() }
            )],
            false
        )
    );
    // Alice's answer does.
    let messages = vec![StoredMsg {
        from: "alice".to_string(),
        to: "bob".to_string(),
        ts: 77,
        payload: "hi".to_string(),
    }];
    assert_eq!(
        respond(&mut s, "alice", A, "bob", messages.clone()),
        step(
            vec![
                to(B, online("alice")),
                to(A, online("bob")),
                to(B, ServerMsg::HistoryResponse { from: "alice".to_string(), messages }),
            ],
            true
        )
    );
    assert_eq!(s.db.list_peers("alice"), vec!["bob".to_string()]);
    assert_eq!(s.db.list_peers("bob"), vec!["alice".to_string()]);
    assert_eq!(pending(&mut s, "bob", B), Vec::<String>::new());
    // From then on both write.
    let hello = |from: &str| ServerMsg::Message {
        from: from.to_string(),
        payload: "hello".to_string(),
        ts: 77,
    };
    assert_eq!(
        send(&mut s, "alice", A, "bob", "hello"),
        step(vec![to(B, hello("alice"))], false)
    );
    assert_eq!(
        send(&mut s, "bob", B, "alice", "hello"),
        step(vec![to(A, hello("bob"))], false)
    );
    // Carol is not part of it.
    assert_eq!(s.db.get_relationship("carol", "alice"), None);
}

#[test]
fn history_goes_to_the_other_side_without_a_chat() {
    let mut s = three();
    assert_eq!(
        respond(&mut s, "alice", A, "bob", Vec::new()),
        step(
            vec![to(
                B,
                ServerMsg::HistoryResponse { from: "alice".to_string(), messages: Vec::new() }
            )],
            false
        )
    );
    assert_eq!(s.db.get_relationship("alice", "bob"), None);
}

#[test]
fn nobody_pulls_from_strangers() {
    let mut s = chatting();
    assert_eq!(
        pull(&mut s, "carol", C, "bob", 0),
        step(vec![to(C, error("bob has not messaged you"))], false)
    );
}

#[test]
fn messages_to_users_who_are_offline() {
    let mut s = chatting();
    close_session(&mut s, "bob", B, &vec!["alice".to_string()], 50);
    assert_eq!(send(&mut s, "alice", A, "bob", "x"), step(Vec::new(), false));
    assert_eq!(
        pull(&mut s, "alice", A, "bob", 0),
        step(vec![to(A, error("peer bob is offline, try again later"))], false)
    );
    assert_eq!(respond(&mut s, "alice", A, "bob", Vec::new()), step(Vec::new(), false));
}

#[test]
fn a_chat_lasts() {
    let mut s = chatting();
    send(&mut s, "bob", B, "alice", "x");
    respond(&mut s, "bob", B, "alice", Vec::new());
    respond(&mut s, "alice", A, "bob", Vec::new());
    assert_eq!(s.db.get_relationship("bob", "alice"), Some(("alice".to_string(), true)));
    assert_eq!(s.db.get_relationship("alice", "bob"), Some(("alice".to_string(), true)));
}

#[test]
fn deleting_an_account() {
    let mut s = chatting();
    send(&mut s, "carol", C, "alice", "x");
    let delete = ClientMsg::DeleteAccount { password: "pw".to_string() };
    assert_eq!(
        handle_client(delete, "alice", A, 77, &mut s),
        step(vec![to(B, offline("alice")), to(A, ServerMsg::Close)], true)
    );
    assert_eq!(s.db.get_user("alice"), None);
    assert_eq!(s.db.get_relationship("alice", "bob"), None);
    assert_eq!(s.db.get_relationship("alice", "carol"), None);
    assert_eq!(s.online.session_of("alice"), None);
    assert_eq!(s.online.session_of("bob"), Some(B));
    assert_eq!(
        ws_handler(Some("alice:pw"), &s),
        Err(failed(Status::Unauthorized, "unauthorized", "invalid credentials"))
    );
    assert_eq!(register(&mut s, &creds("alice", "new")), done());
}

#[test]
fn deleting_takes_the_password() {
    let mut s = chatting();
    let delete = ClientMsg::DeleteAccount { password: "no".to_string() };
    assert_eq!(
        handle_client(delete, "alice", A, 77, &mut s),
        step(vec![to(A, error("invalid password"))], false)
    );
    assert_eq!(s.db.list_peers("alice"), vec!["bob".to_string()]);
    assert_eq!(
        delete_account_hashed("nobody", "h", A, &mut s),
        step(vec![to(A, error("unknown user"))], false)
    );
}

#[test]
fn rows_that_break_a_key_are_no_database() {
    assert!(Database::open(vec![user("a", 0), user("a", 1)], Vec::new()).is_none());
    let twice = vec![chat("a", "b", "a", true), chat("a", "b", "b", false)];
    assert!(Database::open(Vec::new(), twice).is_none());
    let turned = vec![chat("a", "b", "a", true), chat("b", "a", "b", false)];
    assert!(Database::open(Vec::new(), turned).is_some());
}

#[test]
fn rows_of_a_user() {
    let db = Database::open(
        Vec::new(),
        vec![
            chat("a", "b", "a", true),
            chat("b", "c", "c", false),
            chat("a", "c", "c", false),
        ],
    )
    .unwrap();
    assert_eq!(
        db.relationships_of("a"),
        vec![chat("a", "b", "a", true), chat("a", "c", "c", false)]
    );
    assert_eq!(db.relationships_of("d"), Vec::<Relationship>::new());
    assert_eq!(db.list_pending_chats("b"), vec!["c".to_string()]);
    assert_eq!(db.list_pending_chats("c"), Vec::<String>::new());
}

#[test]
fn operations_on_missing_rows_change_nothing() {
    let mut db = Database::open(vec![user("a", 1)], Vec::new()).unwrap();
    db.update_last_seen("b", 9);
    db.establish_relationship("a", "b");
    db.delete_user("b");
    assert_eq!(db, Database::open(vec![user("a", 1)], Vec::new()).unwrap());
    db.ensure_relationship_initiated("b", "a");
    db.ensure_relationship_initiated("a", "b");
    assert_eq!(db.get_relationship("a", "b"), Some(("b".to_string(), false)));
}
