//! A user's local tables: the messages of their chats, and how each chat is
//! encrypted.
use crate::protocol::{StoredMsg, StoredMsgView};
use crate::table::{
    distinct_keys, lemma_filter_kept, lemma_filter_next, lemma_lookup_at, lemma_lookup_push,
    lemma_lookup_same_keys, lookup, Row,
};
use crate::text::text_eq;
use vstd::prelude::*;
use vstd::string::*;

verus! {

/// A message of a chat.
#[derive(Debug, PartialEq, Eq)]
pub struct LocalMsg {
    /// "in" | "out"
    pub direction: String,
    pub ts: i64,
    pub text: String,
}

/// What a [`LocalMsg`] says.
pub struct LocalMsgView {
    pub direction: Seq<char>,
    pub ts: i64,
    pub text: Seq<char>,
}

impl View for LocalMsg {
    type V = LocalMsgView;

    open spec fn view(&self) -> LocalMsgView {
        LocalMsgView { direction: self.direction@, ts: self.ts, text: self.text@ }
    }
}

impl DeepView for LocalMsg {
    type V = LocalMsgView;

    open spec fn deep_view(&self) -> LocalMsgView {
        self@
    }
}

impl LocalMsg {
    fn copy(&self) -> (res: LocalMsg)
        ensures
            res@ == self@,
    {
        LocalMsg { direction: self.direction.clone(), ts: self.ts, text: self.text.clone() }
    }
}

/// A row of the messages: the peer, and the message.
#[derive(Debug, PartialEq, Eq)]
pub struct MessageRow {
    pub peer: String,
    pub msg: LocalMsg,
}

/// What a [`MessageRow`] says.
pub struct MessageRowView {
    pub peer: Seq<char>,
    pub msg: LocalMsgView,
}

impl View for MessageRow {
    type V = MessageRowView;

    open spec fn view(&self) -> MessageRowView {
        MessageRowView { peer: self.peer@, msg: self.msg@ }
    }
}

impl DeepView for MessageRow {
    type V = MessageRowView;

    open spec fn deep_view(&self) -> MessageRowView {
        self@
    }
}

/// A row of the encryption settings.
#[derive(Debug, PartialEq, Eq)]
pub struct EncryptionRow {
    pub peer: String,
    pub method: String,
    pub password: Option<String>,
}

/// What an [`EncryptionRow`] says.
pub struct EncryptionRowView {
    pub peer: Seq<char>,
    pub method: Seq<char>,
    pub password: Option<Seq<char>>,
}

/// The text of a string, if there is one.
pub open spec fn text_of(s: Option<String>) -> Option<Seq<char>> {
    match s {
        Some(s) => Some(s@),
        None => None,
    }
}

/// The text of a borrowed string, if there is one.
pub open spec fn str_of(s: Option<&str>) -> Option<Seq<char>> {
    match s {
        Some(s) => Some(s@),
        None => None,
    }
}

impl View for EncryptionRow {
    type V = EncryptionRowView;

    open spec fn view(&self) -> EncryptionRowView {
        EncryptionRowView {
            peer: self.peer@,
            method: self.method@,
            password: text_of(self.password),
        }
    }
}

impl DeepView for EncryptionRow {
    type V = EncryptionRowView;

    open spec fn deep_view(&self) -> EncryptionRowView {
        self@
    }
}

impl Row for EncryptionRowView {
    type Key = Seq<char>;

    open spec fn key(self) -> Seq<char> {
        self.peer
    }
}

// ---- ordering by time -------------------------------------------------

/// `m` put into a history: after the last message that is not later.
pub open spec fn insert_by_ts(history: Seq<LocalMsgView>, m: LocalMsgView) -> Seq<LocalMsgView>
    decreases history.len(),
{
    if history.len() == 0 || history.last().ts <= m.ts {
        history.push(m)
    } else {
        insert_by_ts(history.drop_last(), m).push(history.last())
    }
}

/// The messages in the order of their times; those of the same time stay in
/// the order in which they are given.
pub open spec fn by_ts(messages: Seq<LocalMsgView>) -> Seq<LocalMsgView>
    decreases messages.len(),
{
    if messages.len() == 0 {
        messages
    } else {
        insert_by_ts(by_ts(messages.drop_last()), messages.last())
    }
}

/// No message is later than one after it.
pub open spec fn ascending(history: Seq<LocalMsgView>) -> bool {
    forall|i: int, j: int|
        0 <= i < j < history.len() ==> (#[trigger] history[i]).ts <= (#[trigger] history[j]).ts
}

/// No message is later than `b`.
pub open spec fn none_after(history: Seq<LocalMsgView>, b: i64) -> bool {
    forall|i: int| 0 <= i < history.len() ==> (#[trigger] history[i]).ts <= b
}

proof fn lemma_insert_at(history: Seq<LocalMsgView>, m: LocalMsgView, pos: int)
    requires
        0 <= pos <= history.len(),
        pos == 0 || history[pos - 1].ts <= m.ts,
        forall|j: int| pos <= j < history.len() ==> (#[trigger] history[j]).ts > m.ts,
    ensures
        insert_by_ts(history, m) == history.insert(pos, m),
    decreases history.len(),
{
    if pos == history.len() {
        assert(history.insert(pos, m) =~= history.push(m));
    } else {
        assert(history[history.len() - 1].ts > m.ts);
        lemma_insert_at(history.drop_last(), m, pos);
        assert(history.insert(pos, m) =~= history.drop_last().insert(pos, m).push(
            history.last(),
        ));
    }
}

/// Inserting keeps a history in order, and adds just the one message.
proof fn lemma_insert_ascending(history: Seq<LocalMsgView>, m: LocalMsgView)
    requires
        ascending(history),
    ensures
        ascending(insert_by_ts(history, m)),
        insert_by_ts(history, m).to_multiset() == history.to_multiset().insert(m),
        insert_by_ts(history, m).len() == history.len() + 1,
        forall|b: i64|
            m.ts <= b && none_after(history, b) ==> #[trigger] none_after(
                insert_by_ts(history, m),
                b,
            ),
    decreases history.len(),
{
    broadcast use vstd::seq_lib::group_to_multiset_ensures;

    let res = insert_by_ts(history, m);
    if history.len() == 0 || history.last().ts <= m.ts {
        assert(history.to_multiset().insert(m) =~= history.push(m).to_multiset());
        assert forall|i: int, j: int| 0 <= i < j < res.len() implies (#[trigger] res[i]).ts <= (
        #[trigger] res[j]).ts by {
            assert(res[i] == history[i]);
            if j == history.len() {
                assert(history[i].ts <= history[history.len() - 1].ts || i == history.len() - 1);
            }
        }
    } else {
        let front = history.drop_last();
        let last = history.last();
        lemma_insert_ascending(front, m);
        let sub = insert_by_ts(front, m);
        assert forall|i: int| 0 <= i < front.len() implies (#[trigger] front[i]).ts <= last.ts by {
            assert(history[i].ts <= history[history.len() - 1].ts);
        }
        assert(none_after(front, last.ts));
        assert(none_after(sub, last.ts));
        assert(res == sub.push(last));
        assert forall|i: int, j: int| 0 <= i < j < res.len() implies (#[trigger] res[i]).ts <= (
        #[trigger] res[j]).ts by {
            assert(res[i] == sub[i]);
            if j < sub.len() {
                assert(res[j] == sub[j]);
            }
        }
        assert(front.push(last) =~= history);
        assert(res.to_multiset() =~= history.to_multiset().insert(m));
        assert forall|b: i64| m.ts <= b && none_after(history, b) implies #[trigger] none_after(
            res,
            b,
        ) by {
            assert(none_after(front, b)) by {
                assert forall|i: int| 0 <= i < front.len() implies (#[trigger] front[i]).ts
                    <= b by {
                    assert(front[i] == history[i]);
                }
            }
            assert(none_after(sub, b));
            assert forall|i: int| 0 <= i < res.len() implies (#[trigger] res[i]).ts <= b by {
                if i < sub.len() {
                    assert(res[i] == sub[i]);
                } else {
                    assert(history[history.len() - 1].ts <= b);
                }
            }
        }
    }
}

/// Ordering by time gives an ascending sequence of the same messages.
pub proof fn law_by_ts(messages: Seq<LocalMsgView>)
    ensures
        ascending(by_ts(messages)),
        by_ts(messages).to_multiset() == messages.to_multiset(),
        by_ts(messages).len() == messages.len(),
    decreases messages.len(),
{
    broadcast use vstd::seq_lib::group_to_multiset_ensures;

    if messages.len() > 0 {
        law_by_ts(messages.drop_last());
        lemma_insert_ascending(by_ts(messages.drop_last()), messages.last());
        assert(messages.drop_last().push(messages.last()) =~= messages);
    }
}

/// The message is not older than `since`.
pub open spec fn not_before(since: i64) -> spec_fn(LocalMsgView) -> bool {
    |m: LocalMsgView| m.ts >= since
}

proof fn lemma_insert_filter(history: Seq<LocalMsgView>, m: LocalMsgView, since: i64)
    requires
        ascending(history),
    ensures
        insert_by_ts(history, m).filter(not_before(since)) == (if m.ts >= since {
            insert_by_ts(history.filter(not_before(since)), m)
        } else {
            history.filter(not_before(since))
        }),
    decreases history.len(),
{
    reveal(Seq::filter);
    let p = not_before(since);
    let kept = history.filter(p);
    if history.len() == 0 || history.last().ts <= m.ts {
        assert(history.push(m).drop_last() =~= history);
        if m.ts >= since && kept.len() > 0 {
            lemma_filter_kept(history, p, kept.len() - 1);
            let k = history.index_of(kept.last());
            assert(history[k].ts <= history[history.len() - 1].ts || k == history.len() - 1);
        }
    } else {
        let front = history.drop_last();
        let last = history.last();
        lemma_insert_filter(front, m, since);
        let sub = insert_by_ts(front, m);
        assert(sub.push(last).drop_last() =~= sub);
        if last.ts >= since {
            assert(kept == front.filter(p).push(last));
            assert(kept.drop_last() =~= front.filter(p));
        } else {
            assert(m.ts < since);
        }
    }
}

/// Ordering by time and leaving out the older messages can be done in either order.
pub proof fn law_by_ts_since(messages: Seq<LocalMsgView>, since: i64)
    ensures
        by_ts(messages.filter(not_before(since))) == by_ts(messages).filter(not_before(since)),
    decreases messages.len(),
{
    reveal(Seq::filter);
    if messages.len() > 0 {
        let front = messages.drop_last();
        law_by_ts_since(front, since);
        law_by_ts(front);
        lemma_insert_filter(by_ts(front), messages.last(), since);
        if messages.last().ts >= since {
            assert(front.filter(not_before(since)).push(messages.last()).drop_last()
                =~= front.filter(not_before(since)));
        }
    }
}

/// The message is of the time `t`.
pub open spec fn at_time(t: i64) -> spec_fn(LocalMsgView) -> bool {
    |m: LocalMsgView| m.ts == t
}

proof fn lemma_insert_stable(history: Seq<LocalMsgView>, m: LocalMsgView, t: i64)
    ensures
        insert_by_ts(history, m).filter(at_time(t)) == (if m.ts == t {
            history.filter(at_time(t)).push(m)
        } else {
            history.filter(at_time(t))
        }),
    decreases history.len(),
{
    reveal(Seq::filter);
    if history.len() == 0 || history.last().ts <= m.ts {
        assert(history.push(m).drop_last() =~= history);
    } else {
        let sub = insert_by_ts(history.drop_last(), m);
        lemma_insert_stable(history.drop_last(), m, t);
        assert(sub.push(history.last()).drop_last() =~= sub);
    }
}

/// Messages of the same time stay in the order in which they were stored.
pub proof fn law_by_ts_stable(messages: Seq<LocalMsgView>, t: i64)
    ensures
        by_ts(messages).filter(at_time(t)) == messages.filter(at_time(t)),
    decreases messages.len(),
{
    reveal(Seq::filter);
    if messages.len() > 0 {
        law_by_ts_stable(messages.drop_last(), t);
        lemma_insert_stable(by_ts(messages.drop_last()), messages.last(), t);
    }
}

// ---- the tables -------------------------------------------------------

/// The contents of the tables, rows in the order of their insertion.
pub struct DatabaseView {
    pub messages: Seq<MessageRowView>,
    pub encryption: Seq<EncryptionRowView>,
}

/// The message of `peer` that a row of a chat with `peer` holds, as the
/// history that is handed on to them says it.
pub open spec fn handed_on(m: LocalMsgView, peer: Seq<char>, me: Seq<char>) -> StoredMsgView {
    if m.direction == "out"@ {
        StoredMsgView { from: me, to: peer, ts: m.ts, payload: m.text }
    } else {
        StoredMsgView { from: peer, to: me, ts: m.ts, payload: m.text }
    }
}

impl DatabaseView {
    /// Peers are the primary key of the encryption settings.
    pub open spec fn keyed(self) -> bool {
        distinct_keys(self.encryption)
    }

    /// One more message.
    pub open spec fn message_inserted(self, peer: Seq<char>, msg: LocalMsgView) -> Self {
        DatabaseView { messages: self.messages.push(MessageRowView { peer, msg }), ..self }
    }

    /// The message is stored already.
    pub open spec fn has_message(self, peer: Seq<char>, msg: LocalMsgView) -> bool {
        self.messages.contains(MessageRowView { peer, msg })
    }

    /// One more message, unless it is stored already.
    pub open spec fn message_stored(self, peer: Seq<char>, msg: LocalMsgView) -> Self {
        if self.has_message(peer, msg) {
            self
        } else {
            self.message_inserted(peer, msg)
        }
    }

    /// The messages of the chat with `peer`, as they were stored.
    pub open spec fn chat(self, peer: Seq<char>) -> Seq<LocalMsgView> {
        self.messages.filter(|r: MessageRowView| r.peer == peer).map_values(
            |r: MessageRowView| r.msg,
        )
    }

    /// The messages of the chat with `peer`, in the order of their times.
    pub open spec fn history(self, peer: Seq<char>) -> Seq<LocalMsgView> {
        by_ts(self.chat(peer))
    }

    /// The messages of the chat with `peer` from `since` on, in the order of their times.
    pub open spec fn history_since(self, peer: Seq<char>, since: i64) -> Seq<LocalMsgView> {
        by_ts(self.chat(peer).filter(not_before(since)))
    }

    /// The history that `peer` is handed by `me`.
    pub open spec fn history_for_peer(self, peer: Seq<char>, me: Seq<char>, since: i64) -> Seq<
        StoredMsgView,
    > {
        self.history_since(peer, since).map_values(|m: LocalMsgView| handed_on(m, peer, me))
    }

    /// How the chat with `peer` is encrypted: the method and the password.
    pub open spec fn encryption_of(self, peer: Seq<char>) -> (Seq<char>, Option<Seq<char>>) {
        match lookup(self.encryption, peer) {
            Some(row) => (row.method, row.password),
            None => ("none"@, None),
        }
    }

    /// The chat with `peer` is encrypted anew.
    pub open spec fn encryption_set(
        self,
        peer: Seq<char>,
        method: Seq<char>,
        password: Option<Seq<char>>,
    ) -> Self {
        let row = EncryptionRowView { peer, method, password };
        DatabaseView {
            encryption: if lookup(self.encryption, peer) is Some {
                self.encryption.map_values(
                    |r: EncryptionRowView|
                        if r.peer == peer {
                            row
                        } else {
                            r
                        },
                )
            } else {
                self.encryption.push(row)
            },
            ..self
        }
    }

    /// Empty tables.
    pub open spec fn empty() -> Self {
        DatabaseView { messages: seq![], encryption: seq![] }
    }
}

/// A user's local tables.
#[derive(Debug, PartialEq, Eq)]
pub struct Database {
    messages: Vec<MessageRow>,
    encryption: Vec<EncryptionRow>,
}

impl View for Database {
    type V = DatabaseView;

    closed spec fn view(&self) -> DatabaseView {
        DatabaseView {
            messages: self.messages.deep_view(),
            encryption: self.encryption.deep_view(),
        }
    }
}

fn copy_option(s: &Option<String>) -> (res: Option<String>)
    ensures
        text_of(res) == text_of(*s),
{
    match s {
        Some(s) => Some(s.clone()),
        None => None,
    }
}

fn own_option(s: Option<&str>) -> (res: Option<String>)
    ensures
        text_of(res) == str_of(s),
{
    match s {
        Some(s) => Some(s.to_owned()),
        None => None,
    }
}

/// Puts `m` into a history that is in order.
fn insert_in_order(history: &mut Vec<LocalMsg>, m: LocalMsg)
    ensures
        final(history).deep_view() == insert_by_ts(old(history).deep_view(), m@),
{
    let ghost before = history.deep_view();
    let mut pos: usize = history.len();
    while pos > 0 && history[pos - 1].ts > m.ts
        invariant
            pos <= history@.len(),
            before == history.deep_view(),
            forall|j: int| pos <= j < before.len() ==> (#[trigger] before[j]).ts > m.ts,
        decreases pos,
    {
        pos -= 1;
        assert(before[pos as int] == history@[pos as int]@);
    }
    proof {
        if pos > 0 {
            assert(before[pos - 1] == history@[pos - 1]@);
        }
        lemma_insert_at(before, m@, pos as int);
    }
    history.insert(pos, m);
    assert(history.deep_view() =~= before.insert(pos as int, m@));
}

impl Database {
    /// The tables obey their keys.
    pub open spec fn wf(&self) -> bool {
        self@.keyed()
    }

    /// Takes up the rows of an existing database. Rows that break the primary
    /// key are no database.
    pub fn open(messages: Vec<MessageRow>, encryption: Vec<EncryptionRow>) -> (res: Option<Self>)
        ensures
            res is Some <==> distinct_keys(encryption.deep_view()),
            res matches Some(db) ==> db.wf() && db@ == (DatabaseView {
                messages: messages.deep_view(),
                encryption: encryption.deep_view(),
            }),
    {
        let ghost es = encryption.deep_view();
        let mut i: usize = 0;
        while i < encryption.len()
            invariant
                i <= encryption@.len(),
                es == encryption.deep_view(),
                forall|p: int, q: int|
                    0 <= p < q < i ==> (#[trigger] es[p]).key() != (#[trigger] es[q]).key(),
            decreases encryption@.len() - i,
        {
            let mut j: usize = 0;
            while j < i
                invariant
                    j <= i < encryption@.len(),
                    es == encryption.deep_view(),
                    forall|p: int| 0 <= p < j ==> (#[trigger] es[p]).key() != es[i as int].key(),
                decreases i - j,
            {
                if text_eq(encryption[j].peer.as_str(), encryption[i].peer.as_str()) {
                    assert(es[j as int].key() == es[i as int].key());
                    return None;
                }
                assert(es[j as int].key() != es[i as int].key());
                j += 1;
            }
            i += 1;
        }
        Some(Database { messages, encryption })
    }

    /// The number of messages stored.
    pub fn message_count(&self) -> (res: usize)
        ensures
            res == self@.messages.len(),
    {
        self.messages.len()
    }

    /// The messages stored after the first `start`, as they are to be kept on disk.
    pub fn messages_from(&self, start: usize) -> (res: Vec<MessageRow>)
        requires
            start <= self@.messages.len(),
        ensures
            res.deep_view() == self@.messages.skip(start as int),
    {
        let mut res: Vec<MessageRow> = Vec::new();
        let mut i: usize = start;
        while i < self.messages.len()
            invariant
                start <= i <= self.messages@.len(),
                res@.len() == i - start,
                forall|j: int| 0 <= j < res@.len() ==> (#[trigger] res@[j])@ == self@.messages[start
                    + j],
            decreases self.messages@.len() - i,
        {
            let row = &self.messages[i];
            res.push(MessageRow { peer: row.peer.clone(), msg: row.msg.copy() });
            assert(self@.messages[i as int] == row@);
            i += 1;
        }
        assert(res.deep_view() =~= self@.messages.skip(start as int));
        res
    }

    /// Appends a message to the chat with `peer`.
    pub fn insert_message(&mut self, peer: &str, direction: &str, ts: i64, text: &str)
        ensures
            final(self)@ == old(self)@.message_inserted(
                peer@,
                LocalMsgView { direction: direction@, ts, text: text@ },
            ),
    {
        let ghost before = self@;
        let row = MessageRow {
            peer: peer.to_owned(),
            msg: LocalMsg { direction: direction.to_owned(), ts, text: text.to_owned() },
        };
        self.messages.push(row);
        proof {
            assert(self@.messages =~= before.messages.push(row@));
            assert(self@.encryption =~= before.encryption);
        }
    }

    /// Appends a message to the chat with `peer`, unless the same message is
    /// there already. Returns whether it is new.
    pub fn store_message(&mut self, peer: &str, direction: &str, ts: i64, text: &str) -> (res: bool)
        ensures
            res == !old(self)@.has_message(
                peer@,
                LocalMsgView { direction: direction@, ts, text: text@ },
            ),
            final(self)@ == old(self)@.message_stored(
                peer@,
                LocalMsgView { direction: direction@, ts, text: text@ },
            ),
    {
        let ghost sought = MessageRowView {
            peer: peer@,
            msg: LocalMsgView { direction: direction@, ts, text: text@ },
        };
        let mut i: usize = 0;
        while i < self.messages.len()
            invariant
                i <= self.messages@.len(),
                self@ == old(self)@,
                sought == (MessageRowView {
                    peer: peer@,
                    msg: LocalMsgView { direction: direction@, ts, text: text@ },
                }),
                forall|j: int| 0 <= j < i ==> (#[trigger] self@.messages[j]) != sought,
            decreases self.messages@.len() - i,
        {
            let row = &self.messages[i];
            assert(self@.messages[i as int] == row@);
            if row.msg.ts == ts && text_eq(row.peer.as_str(), peer) && text_eq(
                row.msg.direction.as_str(),
                direction,
            ) && text_eq(row.msg.text.as_str(), text) {
                assert(self@.messages[i as int] == sought);
                return false;
            }
            i += 1;
        }
        self.insert_message(peer, direction, ts, text);
        true
    }

    /// The messages of the chat with `peer`, in the order of their times.
    pub fn get_messages(&self, peer: &str) -> (res: Vec<LocalMsg>)
        ensures
            res.deep_view() == self@.history(peer@),
    {
        let res = self.get_messages_since(peer, i64::MIN);
        proof {
            lemma_filter_all(self@.chat(peer@), not_before(i64::MIN));
        }
        res
    }

    /// The messages of the chat with `peer` from `since` on, in the order of
    /// their times.
    pub fn get_messages_since(&self, peer: &str, since: i64) -> (res: Vec<LocalMsg>)
        ensures
            res.deep_view() == self@.history_since(peer@, since),
    {
        let ghost rows = self@.messages;
        let ghost of_peer = |r: MessageRowView| r.peer == peer@;
        let ghost msg = |r: MessageRowView| r.msg;
        let ghost late = not_before(since);
        let mut res: Vec<LocalMsg> = Vec::new();
        let mut i: usize = 0;
        assert(rows.take(0).filter(of_peer).map_values(msg).filter(late) =~= seq![]) by {
            reveal(Seq::filter);
        }
        assert(res.deep_view() =~= seq![]);
        while i < self.messages.len()
            invariant
                i <= self.messages@.len(),
                rows == self@.messages,
                of_peer == (|r: MessageRowView| r.peer == peer@),
                msg == (|r: MessageRowView| r.msg),
                late == not_before(since),
                res.deep_view() == by_ts(
                    rows.take(i as int).filter(of_peer).map_values(msg).filter(late),
                ),
            decreases self.messages@.len() - i,
        {
            let row = &self.messages[i];
            proof {
                assert(rows[i as int] == row@);
                lemma_filter_next(rows, of_peer, i as int);
            }
            let ghost chat = rows.take(i as int).filter(of_peer).map_values(msg);
            if text_eq(row.peer.as_str(), peer) {
                proof {
                    assert(rows.take(i + 1).filter(of_peer).map_values(msg) =~= chat.push(
                        row@.msg,
                    ));
                    lemma_filter_push(chat, row@.msg, late);
                }
                if row.msg.ts >= since {
                    let m = row.msg.copy();
                    insert_in_order(&mut res, m);
                    assert(chat.filter(late).push(row@.msg).drop_last() =~= chat.filter(late));
                }
            }
            i += 1;
        }
        assert(rows.take(i as int) =~= rows);
        res
    }

    /// The history with `peer` from `since` on, as `me` hands it on to them.
    pub fn history_for_peer(&self, peer: &str, me: &str, since: i64) -> (res: Vec<StoredMsg>)
        ensures
            res.deep_view() == self@.history_for_peer(peer@, me@, since),
    {
        let history = self.get_messages_since(peer, since);
        let ghost msgs = history.deep_view();
        let mut res: Vec<StoredMsg> = Vec::new();
        let mut i: usize = 0;
        while i < history.len()
            invariant
                i <= history@.len(),
                i == res@.len(),
                msgs == history.deep_view(),
                forall|j: int|
                    0 <= j < i ==> (#[trigger] res@[j])@ == handed_on(msgs[j], peer@, me@),
            decreases history@.len() - i,
        {
            let m = &history[i];
            let payload = m.text.clone();
            if text_eq(m.direction.as_str(), "out") {
                res.push(
                    StoredMsg { from: me.to_owned(), to: peer.to_owned(), ts: m.ts, payload },
                );
            } else {
                res.push(
                    StoredMsg { from: peer.to_owned(), to: me.to_owned(), ts: m.ts, payload },
                );
            }
            assert(msgs[i as int] == m@);
            i += 1;
        }
        assert(res.deep_view() =~= self@.history_for_peer(peer@, me@, since));
        res
    }

    fn find_encryption(&self, peer: &str) -> (res: Option<usize>)
        requires
            self.wf(),
        ensures
            (match res {
                Some(i) => i < self.encryption@.len() && lookup(self@.encryption, peer@) == Some(
                    self.encryption@[i as int]@,
                ) && self.encryption@[i as int]@.peer == peer@,
                None => lookup(self@.encryption, peer@) is None,
            }),
    {
        let mut i: usize = 0;
        while i < self.encryption.len()
            invariant
                i <= self.encryption@.len(),
                self.wf(),
                forall|j: int| 0 <= j < i ==> (#[trigger] self@.encryption[j]).key() != peer@,
            decreases self.encryption@.len() - i,
        {
            if text_eq(self.encryption[i].peer.as_str(), peer) {
                proof {
                    lemma_lookup_at(self@.encryption, i as int);
                }
                return Some(i);
            }
            i += 1;
        }
        None
    }

    /// Returns `(method, password)`; defaults to `("none", None)`.
    pub fn get_encryption(&self, peer: &str) -> (res: (String, Option<String>))
        requires
            self.wf(),
        ensures
            (res.0@, text_of(res.1)) == self@.encryption_of(peer@),
    {
        match self.find_encryption(peer) {
            Some(i) => (
                self.encryption[i].method.clone(),
                copy_option(&self.encryption[i].password),
            ),
            None => ("none".to_owned(), None),
        }
    }

    /// The password of the chat with `peer`.
    pub fn get_peer_password(&self, peer: &str) -> (res: Option<String>)
        requires
            self.wf(),
        ensures
            text_of(res) == self@.encryption_of(peer@).1,
    {
        self.get_encryption(peer).1
    }

    /// Sets how the chat with `peer` is encrypted.
    pub fn set_encryption(&mut self, peer: &str, method: &str, password: Option<&str>)
        requires
            old(self).wf(),
        ensures
            final(self).wf(),
            final(self)@ == old(self)@.encryption_set(peer@, method@, str_of(password)),
    {
        let ghost before = self@;
        let row = EncryptionRow {
            peer: peer.to_owned(),
            method: method.to_owned(),
            password: own_option(password),
        };
        match self.find_encryption(peer) {
            Some(i) => {
                self.encryption.set(i, row);
                proof {
                    assert forall|j: int| 0 <= j < before.encryption.len() && j != i implies (
                    #[trigger] before.encryption[j]).peer != peer@ by {
                        if j < i {
                            assert(before.encryption[j].key() != before.encryption[i as int].key());
                        } else {
                            assert(before.encryption[i as int].key() != before.encryption[j].key());
                        }
                    }
                    assert(self@.encryption =~= before.encryption_set(
                        peer@,
                        method@,
                        str_of(password),
                    ).encryption);
                    lemma_lookup_same_keys(before.encryption, self@.encryption);
                }
            },
            None => {
                self.encryption.push(row);
                proof {
                    assert(self@.encryption =~= before.encryption.push(row@));
                    lemma_lookup_push(before.encryption, row@);
                }
            },
        }
        assert(self@.messages =~= before.messages);
    }

    /// Deletes everything.
    pub fn wipe(&mut self)
        ensures
            final(self).wf(),
            final(self)@ == DatabaseView::empty(),
    {
        self.messages = Vec::new();
        self.encryption = Vec::new();
        assert(self@.messages =~= seq![]);
        assert(self@.encryption =~= seq![]);
    }
}

proof fn lemma_filter_push(s: Seq<LocalMsgView>, m: LocalMsgView, p: spec_fn(LocalMsgView) -> bool)
    ensures
        s.push(m).filter(p) == (if p(m) {
            s.filter(p).push(m)
        } else {
            s.filter(p)
        }),
{
    reveal(Seq::filter);
    assert(s.push(m).drop_last() =~= s);
}

proof fn lemma_filter_all(s: Seq<LocalMsgView>, p: spec_fn(LocalMsgView) -> bool)
    requires
        forall|m: LocalMsgView| #[trigger] p(m),
    ensures
        s.filter(p) == s,
    decreases s.len(),
{
    reveal(Seq::filter);
    if s.len() > 0 {
        lemma_filter_all(s.drop_last(), p);
        assert(s.drop_last().push(s.last()) =~= s);
    }
}

/// An optional text says what its string holds, an empty one too; only where
/// there is no string is there no text.
pub proof fn law_optional_text(s: String, t: &str)
    ensures
        text_of(Some(s)) == Some(s@),
        str_of(Some(t)) == Some(t@),
        text_of(None) is None,
        str_of(None) is None,
{
}

} // verus!
