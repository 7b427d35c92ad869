//! What holds from one client to the other.
use crate::client::commands::sending;
use crate::client::crypto::decrypted;
use crate::client::db::LocalMsgView;
use crate::client::laws::{law_pull_brings_over, law_read_with_password, mirrored};
use crate::client::state::InnerView;
use crate::client::ws::{server_step, EffectView, UiEventView};
use crate::protocol::{ClientMsgView, ServerMsgView, UiMsgView};
use crate::server::state::AppStateView;
use crate::server::ws::{answer, client_step, may_pull, OutgoingView};
use vstd::prelude::*;

verus! {

/// A message of `a` to `b` in an established chat reaches the client of `b`,
/// if it is online, as it was sent; and where `b` has set the password under
/// which it was encrypted, `b` reads the text.
///
/// That the payload decrypts to the text is what sending it promises.
pub proof fn law_message_reaches_peer(
    s: AppStateView,
    a: Seq<char>,
    b: Seq<char>,
    a_client: InnerView,
    b_client: InnerView,
    session_a: u64,
    text: Seq<char>,
    nonce: Seq<u8>,
    payload: Seq<char>,
    password: Seq<char>,
    ts: i64,
)
    requires
        a != b,
        s.db.chatting(a, b),
        s.online.contains_key(b),
        sending(a_client, b, text, nonce) == Ok::<ClientMsgView, Seq<char>>(
            ClientMsgView::Send { to: b, payload },
        ),
        decrypted(password, payload) == Some(text),
        b_client.encryption_of(a).1 == Some(password),
    ensures
        ({
            let received = ServerMsgView::Message { from: a, payload, ts };
            &&& client_step(s, a, session_a, ClientMsgView::Send { to: b, payload }, ts).outgoing
                == answer(s.online[b], received)
            &&& server_step(b_client, b, received).effects == seq![
                EffectView::Emit {
                    event: UiEventView::Message {
                        msg: UiMsgView { peer: a, direction: "in"@, ts, text },
                    },
                },
            ]
        }),
{
    law_read_with_password(b_client, b, a, password, payload, text, ts);
}

/// Where `b` may pull history from `a`, and both are online, the pull brings
/// every message that `a` has of their chat since the given time into the
/// tables of `b`.
pub proof fn law_history_reaches_peer(
    s: AppStateView,
    a: Seq<char>,
    b: Seq<char>,
    a_client: InnerView,
    b_client: InnerView,
    session_b: u64,
    since: i64,
    ts: i64,
    m: LocalMsgView,
)
    requires
        a != b,
        may_pull(s.db, b, a),
        s.online.contains_key(a),
        s.online.contains_key(b),
        a_client.ws_tx is Some,
        a_client.db is Some,
        b_client.db is Some,
        a_client.db->0.has_message(b, m),
        m.ts >= since,
    ensures
        ({
            let wish = ClientMsgView::PullHistory { from: a, since };
            let request = ServerMsgView::PullHistoryRequest { from: b, since };
            let messages = a_client.db->0.history_for_peer(b, a, since);
            let reply = ClientMsgView::HistoryResponse { to: b, messages };
            let history = ServerMsgView::HistoryResponse { from: a, messages };
            // the server passes the wish on to `a`
            &&& client_step(s, b, session_b, wish, ts) == (crate::server::ws::StepView {
                state: s,
                outgoing: answer(s.online[a], request),
            })
            // whose client answers from its tables
            &&& server_step(a_client, a, request).effects == seq![EffectView::Send { msg: reply }]
            // the server passes the answer on to `b`
            &&& client_step(s, a, s.online[a], reply, ts).outgoing.last() == (OutgoingView {
                session: s.online[b],
                msg: history,
            })
            // whose client stores it
            &&& server_step(b_client, b, history).inner.db matches Some(db) && db.has_message(
                a,
                mirrored(m),
            )
        }),
{
    let messages = a_client.db->0.history_for_peer(b, a, since);
    let reply = ClientMsgView::HistoryResponse { to: b, messages };
    law_pull_brings_over(a_client.db->0, b_client.db->0, a, b, since, m);
    let out = client_step(s, a, s.online[a], reply, ts).outgoing;
    assert(out[out.len() - 1] == (OutgoingView {
        session: s.online[b],
        msg: ServerMsgView::HistoryResponse { from: a, messages },
    }));
}

} // verus!
