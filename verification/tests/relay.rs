use std::collections::HashMap;

use chat::client::commands::{
    get_messages, pull_history, send_message, set_peer_encryption,
};
use chat::client::db::{Database as LocalDatabase, LocalMsg};
use chat::client::state::{AppState as ClientState, Inner};
use chat::client::ws::{handle_server, Effect, UiEvent};
use chat::protocol::ClientMsg;
use chat::server::auth::{register, Credentials};
use chat::server::db::Database;
use chat::server::state::AppState;
use chat::server::ws::{handle_client, open_session, ws_handler, Outgoing};

/// A server with clients, one per session.
struct Relay {
    server: AppState,
    clients: HashMap<u64, (String, Inner)>,
    events: Vec<(String, UiEvent)>,
}

impl Relay {
    fn new() -> Self {
        Relay {
            server: AppState::new(Database::open(Vec::new(), Vec::new()).unwrap()),
            clients: HashMap::new(),
            events: Vec::new(),
        }
    }

    fn join(&mut self, session: u64, name: &str) {
        let creds = Credentials { username: name.to_string(), password: "pw".to_string() };
        register(&mut self.server, &creds);
        let header = format!("{name}:pw");
        let admission = ws_handler(Some(&header), &self.server).unwrap();
        let mut inner = ClientState::new().inner;
        inner.db = LocalDatabase::open(Vec::new(), Vec::new());
        inner.username = Some(name.to_string());
        inner.ws_tx = Some(session);
        self.clients.insert(session, (name.to_string(), inner));
        let welcome =
            open_session(&mut self.server, &admission.username, admission.last_seen, session)
                .unwrap();
        self.deliver(welcome.outgoing);
    }

    fn deliver(&mut self, outgoing: Vec<Outgoing>) {
        for o in outgoing {
            let (name, inner) = self.clients.get_mut(&o.session).unwrap();
            let name = name.clone();
            let effects = handle_server(o.msg, inner, &name);
            for effect in effects {
                match effect {
                    Effect::Send { msg } => self.relay(o.session, msg),
                    Effect::Emit { event } => self.events.push((name.clone(), event)),
                }
            }
        }
    }

    fn relay(&mut self, session: u64, msg: ClientMsg) {
        let me = self.clients[&session].0.clone();
        let step = handle_client(msg, &me, session, 100, &mut self.server);
        self.deliver(step.outgoing);
    }

    fn say(&mut self, session: u64, to: &str, text: &str, ts: i64) {
        let inner = &mut self.clients.get_mut(&session).unwrap().1;
        let msg = send_message(inner, to.to_string(), text, ts).unwrap();
        self.relay(session, msg);
    }

    fn history(&self, session: u64, peer: &str) -> Vec<LocalMsg> {
        get_messages(&self.clients[&session].1, peer).unwrap()
    }

    /// The messages shown to `name` since the last call, with their senders.
    fn shown(&mut self, name: &str) -> Vec<(String, String)> {
        let mut res = Vec::new();
        for (who, event) in self.events.drain(..) {
            if let UiEvent::Message { msg } = event {
                if who == name {
                    res.push((msg.peer, msg.text));
                }
            }
        }
        res
    }
}

fn local(direction: &str, ts: i64, text: &str) -> LocalMsg {
    LocalMsg { direction: direction.to_string(), ts, text: text.to_string() }
}

#[test]
fn history_and_messages_go_from_client_to_client() {
    let mut relay = Relay::new();
    relay.join(1, "alice");
    relay.join(2, "bob");
    for (session, peer) in [(1, "bob"), (2, "alice")] {
        let inner = &mut relay.clients.get_mut(&session).unwrap().1;
        set_peer_encryption(inner, peer, "aes-gcm", Some("shared secret")).unwrap();
    }

    // The first message stays with Alice.
    relay.say(1, "bob", "first", 10);
    assert_eq!(relay.history(2, "alice"), Vec::<LocalMsg>::new());
    assert_eq!(relay.shown("bob"), Vec::<(String, String)>::new());

    // Bob pulls, and has it.
    let msg = pull_history(&relay.clients[&2].1, "alice".to_string(), None).unwrap();
    relay.relay(2, msg);
    assert_eq!(relay.history(1, "bob"), vec![local("out", 10, "first")]);
    assert_eq!(relay.history(2, "alice"), vec![local("in", 10, "first")]);

    // Now they write, encrypted.
    relay.shown("bob");
    relay.say(1, "bob", "second", 20);
    assert_eq!(relay.shown("bob"), vec![("alice".to_string(), "second".to_string())]);
    relay.say(2, "alice", "third", 30);
    assert_eq!(relay.shown("alice"), vec![("bob".to_string(), "third".to_string())]);

    // What the server passed on, and Bob stored, was encrypted.
    let history = relay.history(2, "alice");
    assert_eq!(history.len(), 3);
    assert_eq!(history[1], local("out", 30, "third"));
    assert_eq!((history[2].direction.as_str(), history[2].ts), ("in", 100));
    assert_ne!(history[2].text, "second");

    // Pulling once more brings nothing twice.
    let msg = pull_history(&relay.clients[&2].1, "alice".to_string(), None).unwrap();
    relay.relay(2, msg.clone());
    let once = relay.history(2, "alice");
    relay.relay(2, msg);
    assert_eq!(relay.history(2, "alice"), once);
}
