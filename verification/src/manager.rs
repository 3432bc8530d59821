//! The store of conversations and the dispatcher of client commands.

use crate::cache::{got_or_made, put};
use crate::history::{recent, History};
use crate::identity::{
    hyphenated, lemma_hyphenated_injective, parse_uuid, parsed_uuid, uuid_text,
};
use crate::messages::{
    message_views, user_views, ChatMessage, ChatMessageView, ChatUser, ChatUserView,
    ClientMessage, ServerErrors, ServerMessage, ServerMessageView,
};
use crate::ws::{Outgoing, PoolState, SocketId, TaggedMessage, WsPool};
use vstd::prelude::*;
use vstd::string::StringExecFns;

verus! {

/// How many entries the log of one conversation retains.
pub const HISTORY_SIZE: usize = 100;

/// The key of the conversation between `a` and `b`: the text forms of the
/// two, the smaller identity first, with a hyphen between them.
pub open spec fn conversation_key(a: u128, b: u128) -> Seq<char> {
    if a < b {
        hyphenated(a) + seq!['-'] + hyphenated(b)
    } else {
        hyphenated(b) + seq!['-'] + hyphenated(a)
    }
}

/// The key of a conversation does not depend on the order in which its
/// two identities are given.
pub proof fn lemma_conversation_key_symmetric(a: u128, b: u128)
    ensures
        conversation_key(a, b) == conversation_key(b, a),
{
}

/// Two conversations have the same key only if they are between the same
/// two identities.
pub proof fn lemma_conversation_key_injective(a: u128, b: u128, c: u128, d: u128)
    requires
        conversation_key(a, b) == conversation_key(c, d),
    ensures
        (a == c && b == d) || (a == d && b == c),
{
    let low = if a < b {
        a
    } else {
        b
    };
    let high = if a < b {
        b
    } else {
        a
    };
    let other_low = if c < d {
        c
    } else {
        d
    };
    let other_high = if c < d {
        d
    } else {
        c
    };
    let key = conversation_key(a, b);
    assert(key.subrange(0, 36) =~= hyphenated(low));
    assert(key.subrange(0, 36) =~= hyphenated(other_low));
    assert(key.subrange(37, 73) =~= hyphenated(high));
    assert(key.subrange(37, 73) =~= hyphenated(other_high));
    lemma_hyphenated_injective(low, other_low);
    lemma_hyphenated_injective(high, other_high);
}

/// An entry pushed into one conversation leaves the log of every other
/// conversation as it was.
pub proof fn lemma_conversations_do_not_mix(
    state: HistoryState,
    a: u128,
    b: u128,
    c: u128,
    d: u128,
    entry: ChatMessageView,
)
    requires
        !((a == c && b == d) || (a == d && b == c)),
    ensures
        state.pushed(conversation_key(a, b), entry).log(conversation_key(c, d)) == state.log(
            conversation_key(c, d),
        ),
{
    if conversation_key(a, b) == conversation_key(c, d) {
        lemma_conversation_key_injective(a, b, c, d);
    }
}

/// A conversation is found under the same key whichever of its two
/// identities is named first: an entry pushed for one order is in the log
/// that is read for the other.
pub proof fn lemma_either_order_same_log(
    state: HistoryState,
    a: u128,
    b: u128,
    entry: ChatMessageView,
)
    ensures
        state.log(conversation_key(a, b)) == state.log(conversation_key(b, a)),
        state.pushed(conversation_key(a, b), entry) == state.pushed(conversation_key(b, a), entry),
        state.pushed(conversation_key(a, b), entry).log(conversation_key(b, a)) == recent(
            state.log(conversation_key(a, b)).push(entry),
            HISTORY_SIZE as nat,
        ),
{
}

/// The log of a conversation is made once: asking for it again makes no
/// other, and everyone who asks finds the same entries. Asking for a log
/// that is held changes nothing.
pub proof fn lemma_log_made_once(state: HistoryState, key: Seq<char>)
    ensures
        state.with_log(key).with_log(key) == state.with_log(key),
        state.with_log(key).log(key) == state.log(key),
        state.with_log(key).logs.dom() == state.logs.dom().insert(key),
        state.logs.contains_key(key) ==> state.with_log(key) == state,
{
    assert(state.with_log(key).with_log(key).logs =~= state.with_log(key).logs);
    assert(state.with_log(key).logs.dom() =~= state.logs.dom().insert(key));
    if state.logs.contains_key(key) {
        assert(state.with_log(key).logs =~= state.logs);
    }
}

/// `users` with `who` added at the end, unless it is among them already.
pub open spec fn noted(users: Seq<ChatUserView>, who: ChatUserView) -> Seq<ChatUserView> {
    if users.contains(who) {
        users
    } else {
        users.push(who)
    }
}

/// Noting `who` leaves every summary that was noted in its place, holds
/// `who` afterwards, and adds no summary a second time.
pub proof fn lemma_noted_keeps(users: Seq<ChatUserView>, who: ChatUserView)
    ensures
        noted(users, who).contains(who),
        forall|other: ChatUserView| users.contains(other) ==> noted(users, who).contains(other),
        users.no_duplicates() ==> noted(users, who).no_duplicates(),
{
    let after = noted(users, who);
    if !users.contains(who) {
        assert(after[users.len() as int] == who);
    }
    assert forall|other: ChatUserView| users.contains(other) implies after.contains(other) by {
        let at = choose|at: int| 0 <= at < users.len() && users[at] == other;
        assert(after[at] == other);
    }
}

/// What the store holds: the retained entries of every conversation by
/// its key, oldest first, and for every identity, by its text form, the
/// summaries of those it has a conversation with.
pub struct HistoryState {
    pub logs: Map<Seq<char>, Seq<ChatMessageView>>,
    pub chats: Map<Seq<char>, Seq<ChatUserView>>,
}

impl HistoryState {
    /// The store without conversations.
    pub open spec fn empty() -> HistoryState {
        HistoryState { logs: Map::empty(), chats: Map::empty() }
    }

    /// No log holds more than `HISTORY_SIZE` entries, and no directory
    /// holds a summary twice.
    pub open spec fn valid(self) -> bool {
        &&& forall|key: Seq<char>| #[trigger]
            self.logs.contains_key(key) ==> self.logs[key].len() <= HISTORY_SIZE
        &&& forall|user: Seq<char>| #[trigger]
            self.chats.contains_key(user) ==> self.chats[user].no_duplicates()
    }

    /// The retained entries of the conversation under `key`; none for a
    /// conversation that the store does not hold.
    pub open spec fn log(self, key: Seq<char>) -> Seq<ChatMessageView> {
        if self.logs.contains_key(key) {
            self.logs[key]
        } else {
            Seq::empty()
        }
    }

    /// The summaries noted for the identity whose text form is `user`.
    pub open spec fn directory(self, user: Seq<char>) -> Seq<ChatUserView> {
        if self.chats.contains_key(user) {
            self.chats[user]
        } else {
            Seq::empty()
        }
    }

    /// The store once it holds a log under `key`: an empty one is made if
    /// there was none.
    pub open spec fn with_log(self, key: Seq<char>) -> HistoryState {
        HistoryState { logs: self.logs.insert(key, self.log(key)), chats: self.chats }
    }

    /// The store once it holds a directory for `user`: an empty one is
    /// made if there was none.
    pub open spec fn with_directory(self, user: Seq<char>) -> HistoryState {
        HistoryState { logs: self.logs, chats: self.chats.insert(user, self.directory(user)) }
    }

    /// The store after `entry` was pushed into the log under `key`.
    pub open spec fn pushed(self, key: Seq<char>, entry: ChatMessageView) -> HistoryState {
        HistoryState {
            logs: self.logs.insert(key, recent(self.log(key).push(entry), HISTORY_SIZE as nat)),
            chats: self.chats,
        }
    }

    /// The store after `who` was noted in the directory of `user`.
    pub open spec fn noting(self, user: Seq<char>, who: ChatUserView) -> HistoryState {
        HistoryState {
            logs: self.logs,
            chats: self.chats.insert(user, noted(self.directory(user), who)),
        }
    }

    /// The store after a conversation between `user` and `with` was
    /// noted in the directories of both.
    pub open spec fn chat_opened(self, user: ChatUserView, with: ChatUserView) -> HistoryState {
        self.noting(user.id, with).noting(with.id, user)
    }
}

/// The cache that holds the log of every conversation, by its key.
pub type LogCache = moka::sync::Cache<String, History<ChatMessage>>;

/// The cache that holds the directory of every identity, by its text form.
pub type ChatCache = moka::sync::Cache<String, Vec<ChatUser>>;

/// The entries that a cache of logs holds.
pub uninterp spec fn log_entries(cache: LogCache) -> Map<Seq<char>, History<ChatMessage>>;

/// The entries that a cache of directories holds.
pub uninterp spec fn chat_entries(cache: ChatCache) -> Map<Seq<char>, Vec<ChatUser>>;

/// `Cache::builder().build()` of moka: a cache without entries, without a
/// bound on their number and without expiry.
#[verifier::external_body]
fn logs_new() -> (made: LogCache)
    ensures
        log_entries(made) == (Map::<Seq<char>, History<ChatMessage>>::empty()),
{
    moka::sync::Cache::builder().build()
}

/// `Cache::get_with_by_ref` of moka, with `fresh` as what the entry is
/// made of where the cache holds none under `key`.
#[verifier::external_body]
fn logs_get_with(cache: &mut LogCache, key: &str, fresh: History<ChatMessage>) -> (found: History<
    ChatMessage,
>)
    ensures
        got_or_made(log_entries(*old(cache)), log_entries(*final(cache)), key@, fresh, found),
{
    cache.get_with_by_ref(key, move || fresh)
}

/// `Cache::insert` of moka: a clone of `value` becomes the entry under
/// `key`, in place of an earlier one if there was one.
#[verifier::external_body]
fn logs_insert(cache: &mut LogCache, key: String, value: History<ChatMessage>)
    ensures
        put(log_entries(*old(cache)), log_entries(*final(cache)), key@, value),
{
    cache.insert(key, value)
}

/// `Cache::builder().build()` of moka: a cache without entries, without a
/// bound on their number and without expiry.
#[verifier::external_body]
fn chats_new() -> (made: ChatCache)
    ensures
        chat_entries(made) == (Map::<Seq<char>, Vec<ChatUser>>::empty()),
{
    moka::sync::Cache::builder().build()
}

/// `Cache::get_with_by_ref` of moka, with `fresh` as what the entry is
/// made of where the cache holds none under `key`.
#[verifier::external_body]
fn chats_get_with(cache: &mut ChatCache, key: &str, fresh: Vec<ChatUser>) -> (found: Vec<ChatUser>)
    ensures
        got_or_made(chat_entries(*old(cache)), chat_entries(*final(cache)), key@, fresh, found),
{
    cache.get_with_by_ref(key, move || fresh)
}

/// `Cache::insert` of moka: a clone of `value` becomes the entry under
/// `key`, in place of an earlier one if there was one.
#[verifier::external_body]
fn chats_insert(cache: &mut ChatCache, key: String, value: Vec<ChatUser>)
    ensures
        put(chat_entries(*old(cache)), chat_entries(*final(cache)), key@, value),
{
    cache.insert(key, value)
}

/// Pushing an entry and taking views can be done in either order.
proof fn lemma_views_of_push(entries: Seq<ChatMessage>, entry: ChatMessage)
    ensures
        message_views(entries.push(entry)) == message_views(entries).push(entry@),
{
    assert(message_views(entries.push(entry)) =~= message_views(entries).push(entry@));
}

/// Keeping the newest entries and taking views can be done in either order.
proof fn lemma_views_of_recent(entries: Seq<ChatMessage>, capacity: nat)
    ensures
        message_views(recent(entries, capacity)) == recent(message_views(entries), capacity),
{
    assert(message_views(recent(entries, capacity)) =~= recent(message_views(entries), capacity));
}

/// The store of conversations: one bounded log for each pair of
/// identities, and for each identity the directory of those it has a
/// conversation with.
pub struct HistoryManager {
    message_history: LogCache,
    open_chats: ChatCache,
}

impl View for HistoryManager {
    type V = HistoryState;

    closed spec fn view(&self) -> HistoryState {
        HistoryState {
            logs: log_entries(self.message_history).map_values(
                |log: History<ChatMessage>| message_views(log@),
            ),
            chats: chat_entries(self.open_chats).map_values(
                |users: Vec<ChatUser>| user_views(users@),
            ),
        }
    }
}

impl HistoryManager {
    /// Every log is a ring of `HISTORY_SIZE` slots, and no directory holds
    /// two summaries that hold the same. `new` establishes this and every
    /// method keeps it.
    pub closed spec fn wf(&self) -> bool {
        &&& forall|key: Seq<char>| #[trigger]
            log_entries(self.message_history).contains_key(key) ==> log_entries(
                self.message_history,
            )[key].wf() && log_entries(self.message_history)[key].capacity() == HISTORY_SIZE
        &&& forall|user: Seq<char>| #[trigger]
            chat_entries(self.open_chats).contains_key(user) ==> user_views(
                chat_entries(self.open_chats)[user]@,
            ).no_duplicates()
    }

    /// What a well-formed store holds is valid: every log is within
    /// `HISTORY_SIZE` entries, and no directory holds a summary twice.
    pub proof fn lemma_wf_valid(&self)
        requires
            self.wf(),
        ensures
            self@.valid(),
    {
        assert forall|key: Seq<char>| #[trigger] self@.logs.contains_key(key) implies self@.logs[key].len()
            <= HISTORY_SIZE by {
            log_entries(self.message_history)[key].lemma_within_capacity();
        }
    }

    /// A store without conversations.
    pub fn new() -> (store: HistoryManager)
        ensures
            store.wf(),
            store@ == HistoryState::empty(),
    {
        let store = HistoryManager { message_history: logs_new(), open_chats: chats_new() };
        proof {
            assert(store@.logs =~= Map::empty());
            assert(store@.chats =~= Map::empty());
        }
        store
    }

    /// The key of the conversation between `a` and `b`, the same for
    /// either order of the two.
    pub fn history_id(a: &u128, b: &u128) -> (key: String)
        ensures
            key@ == conversation_key(*a, *b),
    {
        let first: u128 = if *a < *b {
            *a
        } else {
            *b
        };
        let second: u128 = if *a < *b {
            *b
        } else {
            *a
        };
        let mut key = uuid_text(first);
        let tail = uuid_text(second);
        key.append("-");
        key.append(tail.as_str());
        proof {
            reveal_strlit("-");
            assert("-"@ =~= seq!['-']);
        }
        key
    }

    /// The log under `history_id`, as it is now. An empty one is made and
    /// kept if the store held none under that key.
    pub fn get_history(&mut self, history_id: &str) -> (log: History<ChatMessage>)
        requires
            old(self).wf(),
        ensures
            final(self).wf(),
            final(self)@ == old(self)@.with_log(history_id@),
            log.wf(),
            log.capacity() == HISTORY_SIZE,
            message_views(log@) == final(self)@.logs[history_id@],
    {
        let fresh: History<ChatMessage> = History::new(HISTORY_SIZE);
        let log = logs_get_with(&mut self.message_history, history_id, fresh);
        proof {
            let before = log_entries(old(self).message_history);
            let after = log_entries(self.message_history);
            let stored = after[history_id@];
            if before.contains_key(history_id@) {
                assert(after == before);
            } else {
                assert(after == before.insert(history_id@, stored));
                assert(message_views(stored@) =~= Seq::empty());
            }
            assert(message_views(log@) =~= message_views(stored@));
            assert(self@.logs =~= old(self)@.with_log(history_id@).logs);
            assert(self@.chats =~= old(self)@.chats);
        }
        log
    }

    /// The directory of the identity whose text form is `user`, as it is
    /// now. An empty one is made and kept if the store held none for it.
    pub fn get_open_chats(&mut self, user: &str) -> (users: Vec<ChatUser>)
        requires
            old(self).wf(),
        ensures
            final(self).wf(),
            final(self)@ == old(self)@.with_directory(user@),
            user_views(users@) == final(self)@.chats[user@],
            user_views(users@).no_duplicates(),
    {
        let users = chats_get_with(&mut self.open_chats, user, Vec::new());
        proof {
            let before = chat_entries(old(self).open_chats);
            let after = chat_entries(self.open_chats);
            let stored = after[user@];
            if before.contains_key(user@) {
                assert(after == before);
            } else {
                assert(after == before.insert(user@, stored));
                assert(user_views(stored@) =~= Seq::empty());
            }
            assert(user_views(stored@).no_duplicates());
            assert(user_views(users@) =~= user_views(stored@));
            assert(self@.chats =~= old(self)@.with_directory(user@).chats);
            assert(self@.logs =~= old(self)@.logs);
        }
        users
    }

    /// Notes `who` in the directory of the identity whose text form is
    /// `user`, unless a summary that holds the same is there already.
    fn note(&mut self, user: &String, who: ChatUser)
        requires
            old(self).wf(),
        ensures
            final(self).wf(),
            final(self)@ == old(self)@.noting(user@, who@),
    {
        let mut users = self.get_open_chats(user.as_str());
        let ghost held = self@;
        let ghost before = users@;
        let mut at: usize = 0;
        let mut known = false;
        while at < users.len() && !known
            invariant
                at <= users@.len(),
                users@ == before,
                known ==> user_views(before).contains(who@),
                !known ==> forall|i: int| 0 <= i < at ==> user_views(before)[i] != who@,
            decreases users@.len() - at + if known { 0int } else { 1int },
        {
            if users[at].id == who.id && users[at].email == who.email {
                known = true;
                proof {
                    assert(user_views(before)[at as int] == who@);
                }
            } else {
                at += 1;
            }
        }
        if !known {
            users.push(who);
            proof {
                assert(user_views(users@) =~= user_views(before).push(who@));
            }
        }
        proof {
            assert(user_views(before) == old(self)@.directory(user@));
            if !known {
                assert(!user_views(before).contains(who@));
            }
            assert(user_views(users@) == noted(old(self)@.directory(user@), who@));
            assert(user_views(users@).no_duplicates());
        }
        chats_insert(&mut self.open_chats, user.clone(), users);
        proof {
            let stored = chat_entries(self.open_chats)[user@];
            assert(user_views(stored@) =~= user_views(users@));
            assert(self@.chats =~= held.chats.insert(user@, user_views(users@)));
            assert(self@.chats =~= old(self)@.noting(user@, who@).chats);
            assert(self@.logs =~= old(self)@.logs);
        }
    }

    /// Notes the conversation between `user` and `with` in the
    /// directories of both.
    pub fn open_chat(&mut self, user: ChatUser, with: ChatUser)
        requires
            old(self).wf(),
        ensures
            final(self).wf(),
            final(self)@ == old(self)@.chat_opened(user@, with@),
    {
        let user_id = user.id.clone();
        let with_id = with.id.clone();
        self.note(&user_id, with);
        self.note(&with_id, user);
    }

    /// Pushes `message` into the log of the conversation between `from`
    /// and `to`, which gives up its oldest entry if it is full.
    pub fn push_message(&mut self, from: &u128, to: &u128, message: ChatMessage)
        requires
            old(self).wf(),
        ensures
            final(self).wf(),
            final(self)@ == old(self)@.pushed(conversation_key(*from, *to), message@),
    {
        let history_id = Self::history_id(from, to);
        let mut log = self.get_history(history_id.as_str());
        let ghost held = self@;
        proof {
            lemma_views_of_push(log@, message);
            lemma_views_of_recent(log@.push(message), HISTORY_SIZE as nat);
            assert(message_views(log@) == old(self)@.log(history_id@));
        }
        log.push(message);
        logs_insert(&mut self.message_history, history_id, log);
        proof {
            let stored = log_entries(self.message_history)[history_id@];
            assert(message_views(stored@) =~= message_views(log@));
            assert(self@.logs =~= held.logs.insert(history_id@, message_views(log@)));
            assert(self@.logs =~= old(self)@.pushed(conversation_key(*from, *to), message@).logs);
            assert(self@.chats =~= old(self)@.chats);
        }
    }

    /// The retained entries of the conversation between `from` and `to`,
    /// oldest first. An empty log is made and kept if the store held none
    /// for the two.
    pub fn get_messages(&mut self, from: &u128, to: &u128) -> (messages: Vec<ChatMessage>)
        requires
            old(self).wf(),
        ensures
            final(self).wf(),
            final(self)@ == old(self)@.with_log(conversation_key(*from, *to)),
            message_views(messages@) == old(self)@.log(conversation_key(*from, *to)),
            messages@.len() <= HISTORY_SIZE,
    {
        let history_id = Self::history_id(from, to);
        let log = self.get_history(history_id.as_str());
        let messages = log.to_vec();
        proof {
            log.lemma_within_capacity();
            assert(message_views(messages@) =~= message_views(log@));
        }
        messages
    }
}

/// The cache that holds the summary of every identity that was resolved.
pub type ProfileCache = moka::sync::Cache<u128, ChatUser>;

/// The entries that a cache of summaries holds.
pub uninterp spec fn profile_entries(cache: ProfileCache) -> Map<u128, ChatUser>;

/// `Cache::builder().build()` of moka: a cache without entries, without a
/// bound on their number and without expiry.
#[verifier::external_body]
fn profiles_new() -> (made: ProfileCache)
    ensures
        profile_entries(made) == (Map::<u128, ChatUser>::empty()),
{
    moka::sync::Cache::builder().build()
}

/// `Cache::contains_key` of moka: whether the cache holds an entry under
/// `key`.
#[verifier::external_body]
fn profiles_contains(cache: &ProfileCache, key: u128) -> (held: bool)
    ensures
        held == profile_entries(*cache).contains_key(key),
{
    cache.contains_key(&key)
}

/// `Cache::get_with` of moka, with `fresh` as what the entry is made of
/// where the cache holds none under `key`.
#[verifier::external_body]
fn profiles_get_with(cache: &mut ProfileCache, key: u128, fresh: ChatUser) -> (found: ChatUser)
    ensures
        got_or_made(
            profile_entries(*old(cache)),
            profile_entries(*final(cache)),
            key,
            fresh,
            found,
        ),
{
    cache.get_with(key, move || fresh)
}

/// A command with its identities read: `None` stands for text that is
/// not read as an identity.
#[derive(Debug, PartialEq, Eq)]
pub enum Command {
    Authenticate { id: Option<u128>, secret: Option<u128> },
    DirectMessage { to: Option<u128>, message: String },
    SetTopic { to: Option<u128>, topic: String },
    SyncChat { with: Option<u128> },
    SyncChatUsers,
    UserMeta { with: Option<u128> },
    Ping,
    Disconnect,
}

/// What a `Command` holds.
pub enum CommandView {
    Authenticate { id: Option<u128>, secret: Option<u128> },
    DirectMessage { to: Option<u128>, message: Seq<char> },
    SetTopic { to: Option<u128>, topic: Seq<char> },
    SyncChat { with: Option<u128> },
    SyncChatUsers,
    UserMeta { with: Option<u128> },
    Ping,
    Disconnect,
}

impl View for Command {
    type V = CommandView;

    open spec fn view(&self) -> CommandView {
        match *self {
            Command::Authenticate { id, secret } => CommandView::Authenticate { id, secret },
            Command::DirectMessage { to, message } => CommandView::DirectMessage {
                to,
                message: message@,
            },
            Command::SetTopic { to, topic } => CommandView::SetTopic { to, topic: topic@ },
            Command::SyncChat { with } => CommandView::SyncChat { with },
            Command::SyncChatUsers => CommandView::SyncChatUsers,
            Command::UserMeta { with } => CommandView::UserMeta { with },
            Command::Ping => CommandView::Ping,
            Command::Disconnect => CommandView::Disconnect,
        }
    }
}

/// The command that `message` is once its identities are read.
pub open spec fn parsed(message: ClientMessage) -> CommandView {
    match message {
        ClientMessage::Authenticate { id, secret } => CommandView::Authenticate {
            id: parsed_uuid(id@),
            secret: parsed_uuid(secret@),
        },
        ClientMessage::DirectMessage { to, message } => CommandView::DirectMessage {
            to: parsed_uuid(to@),
            message: message@,
        },
        ClientMessage::SetTopic { to, topic } => CommandView::SetTopic {
            to: parsed_uuid(to@),
            topic: topic@,
        },
        ClientMessage::SyncChat { with } => CommandView::SyncChat { with: parsed_uuid(with@) },
        ClientMessage::SyncChatUsers => CommandView::SyncChatUsers,
        ClientMessage::UserMeta { with } => CommandView::UserMeta { with: parsed_uuid(with@) },
        ClientMessage::Ping => CommandView::Ping,
        ClientMessage::Disconnect => CommandView::Disconnect,
    }
}

/// What the dispatcher asks to be done outside of it.
#[derive(Debug, PartialEq, Eq)]
pub enum Action {
    /// Write the message to each target; report a target to which the
    /// write fails with `WsPool::write_failed`.
    Send(Outgoing<ServerMessage>),
    /// Look up the secret kept for `id` and hand it to
    /// `ChatManager::finish_authentication`.
    VerifySecret { socket_id: SocketId, id: u128, secret: u128 },
    /// Look up what is displayed for each of the two that
    /// `ChatManager::needs_profile` asks for, and hand it to
    /// `ChatManager::open_chat`.
    OpenChat { from: u128, to: u128 },
    /// Look up what is displayed for `with` if `ChatManager::needs_profile`
    /// asks for it, and hand it to `ChatManager::user_meta`.
    UserMeta { socket_id: SocketId, with: u128 },
}

/// What an `Action` holds.
pub enum ActionView {
    Send { targets: Seq<SocketId>, message: ServerMessageView },
    VerifySecret { socket_id: SocketId, id: u128, secret: u128 },
    OpenChat { from: u128, to: u128 },
    UserMeta { socket_id: SocketId, with: u128 },
}

impl View for Action {
    type V = ActionView;

    open spec fn view(&self) -> ActionView {
        match *self {
            Action::Send(delivery) => ActionView::Send {
                targets: delivery.targets@,
                message: delivery.message@,
            },
            Action::VerifySecret { socket_id, id, secret } => ActionView::VerifySecret {
                socket_id,
                id,
                secret,
            },
            Action::OpenChat { from, to } => ActionView::OpenChat { from, to },
            Action::UserMeta { socket_id, with } => ActionView::UserMeta { socket_id, with },
        }
    }
}

/// What each action of `actions` holds, in their order.
pub open spec fn action_views(actions: Seq<Action>) -> Seq<ActionView> {
    actions.map_values(|action: Action| action@)
}

/// `action` as the only thing to do.
fn only(action: Action) -> (actions: Vec<Action>)
    ensures
        action_views(actions@) == seq![action@],
{
    let mut actions: Vec<Action> = Vec::new();
    actions.push(action);
    assert(action_views(actions@) =~= seq![action@]);
    actions
}

/// The summary of `id`: its text form, with `email` as what is displayed,
/// or a placeholder where none is known.
pub open spec fn profile(id: u128, email: Option<Seq<char>>) -> ChatUserView {
    ChatUserView {
        id: hyphenated(id),
        email: match email {
            Some(email) => email,
            None => "Unknown"@,
        },
    }
}

/// Every summary of `profiles` carries the text form of the identity that
/// it is held under.
pub open spec fn all_named(profiles: Map<u128, ChatUserView>) -> bool {
    forall|id: u128| #[trigger] profiles.contains_key(id) ==> profiles[id].id == hyphenated(id)
}

/// What `email` holds, if there is one.
pub open spec fn email_view(email: Option<String>) -> Option<Seq<char>> {
    match email {
        Some(email) => Some(email@),
        None => None,
    }
}

/// What the dispatcher works on: the summaries resolved so far, the
/// registry, and the store of conversations.
pub struct ManagerState {
    pub profiles: Map<u128, ChatUserView>,
    pub pool: PoolState,
    pub history: HistoryState,
}

impl ManagerState {
    /// Every summary that is held carries the text form of its identity.
    pub open spec fn named(self) -> bool {
        all_named(self.profiles)
    }

    /// The delivery of `message` to socket `socket_id` alone.
    pub open spec fn reply(self, socket_id: SocketId, message: ServerMessageView) -> ActionView {
        ActionView::Send { targets: self.pool.socket_targets(socket_id), message }
    }

    /// The outcome of a command that is turned down: nothing changes and
    /// the reason goes to the socket that sent it, and to no other.
    pub open spec fn refused(self, socket_id: SocketId, error: ServerErrors) -> (
        ManagerState,
        Seq<ActionView>,
    ) {
        (self, seq![self.reply(socket_id, ServerMessageView::Error(error))])
    }

    /// The outcome of an entry that `from` sends to `to`: it is pushed
    /// into the log of the two, goes to every socket of either, and the
    /// conversation is to be noted in the directories of both.
    pub open spec fn entry_sent(self, from: u128, to: u128, entry: ChatMessageView) -> (
        ManagerState,
        Seq<ActionView>,
    ) {
        (
            ManagerState {
                profiles: self.profiles,
                pool: self.pool,
                history: self.history.pushed(conversation_key(from, to), entry),
            },
            seq![
                ActionView::Send {
                    targets: self.pool.fan_out(seq![from, to]),
                    message: ServerMessageView::DirectMessage {
                        participants: seq![hyphenated(from), hyphenated(to)],
                        message: entry,
                    },
                },
                ActionView::OpenChat { from, to },
            ],
        )
    }

    /// The outcome of a request of `from`, made on socket `socket_id`, for
    /// the retained entries of its conversation with `with`: they go to
    /// that socket, and to no other socket of `from`.
    pub open spec fn chat_synced(self, socket_id: SocketId, from: u128, with: u128) -> (
        ManagerState,
        Seq<ActionView>,
    ) {
        (
            ManagerState {
                profiles: self.profiles,
                pool: self.pool,
                history: self.history.with_log(conversation_key(from, with)),
            },
            seq![
                self.reply(
                    socket_id,
                    ServerMessageView::BulkMessages {
                        participants: seq![hyphenated(from), hyphenated(with)],
                        messages: self.history.log(conversation_key(from, with)),
                    },
                ),
            ],
        )
    }

    /// The outcome of a request of `user`, made on socket `socket_id`,
    /// for its directory: it goes to that socket.
    pub open spec fn users_synced(self, socket_id: SocketId, user: u128) -> (
        ManagerState,
        Seq<ActionView>,
    ) {
        (
            ManagerState {
                profiles: self.profiles,
                pool: self.pool,
                history: self.history.with_directory(hyphenated(user)),
            },
            seq![
                self.reply(
                    socket_id,
                    ServerMessageView::BulkUsers {
                        users: self.history.directory(hyphenated(user)),
                    },
                ),
            ],
        )
    }

    /// The outcome of `command`, which came from socket `socket_id` while
    /// it carried `user_id`: the state after it, and what is to be done
    /// outside the dispatcher, in order.
    pub open spec fn dispatched(
        self,
        socket_id: SocketId,
        user_id: Option<u128>,
        command: CommandView,
    ) -> (ManagerState, Seq<ActionView>) {
        match command {
            CommandView::Authenticate { id, secret } => {
                if user_id is Some {
                    self.refused(socket_id, ServerErrors::AlreadyAuthenticated)
                } else if id is None {
                    self.refused(socket_id, ServerErrors::InvalidUuid)
                } else if secret is None {
                    self.refused(socket_id, ServerErrors::InvalidSecret)
                } else {
                    (
                        self,
                        seq![
                            ActionView::VerifySecret { socket_id, id: id->0, secret: secret->0 },
                        ],
                    )
                }
            },
            CommandView::DirectMessage { to, message } => {
                if user_id is None {
                    self.refused(socket_id, ServerErrors::Unauthorized)
                } else if to is None {
                    self.refused(socket_id, ServerErrors::InvalidUuid)
                } else {
                    self.entry_sent(
                        user_id->0,
                        to->0,
                        ChatMessageView::User { from: hyphenated(user_id->0), message },
                    )
                }
            },
            CommandView::SetTopic { to, topic } => {
                if user_id is None {
                    self.refused(socket_id, ServerErrors::Unauthorized)
                } else if to is None {
                    self.refused(socket_id, ServerErrors::InvalidUuid)
                } else {
                    self.entry_sent(user_id->0, to->0, ChatMessageView::Topic { topic })
                }
            },
            CommandView::SyncChat { with } => {
                if user_id is None {
                    self.refused(socket_id, ServerErrors::Unauthorized)
                } else if with is None {
                    self.refused(socket_id, ServerErrors::InvalidUuid)
                } else {
                    self.chat_synced(socket_id, user_id->0, with->0)
                }
            },
            CommandView::SyncChatUsers => {
                if user_id is None {
                    self.refused(socket_id, ServerErrors::Unauthorized)
                } else {
                    self.users_synced(socket_id, user_id->0)
                }
            },
            CommandView::UserMeta { with } => {
                if user_id is None {
                    self.refused(socket_id, ServerErrors::Unauthorized)
                } else if with is None {
                    self.refused(socket_id, ServerErrors::InvalidUuid)
                } else {
                    (self, seq![ActionView::UserMeta { socket_id, with: with->0 }])
                }
            },
            CommandView::Ping => (self, seq![self.reply(socket_id, ServerMessageView::Pong)]),
            CommandView::Disconnect => (
                ManagerState {
                    profiles: self.profiles,
                    pool: self.pool.deregistered(socket_id),
                    history: self.history,
                },
                Seq::empty(),
            ),
        }
    }

    /// The summaries once `id` is resolved: one that is held stays; else
    /// the summary made of `email` is held from now on.
    pub open spec fn resolved(self, id: u128, email: Option<Seq<char>>) -> ManagerState {
        ManagerState {
            profiles: if self.profiles.contains_key(id) {
                self.profiles
            } else {
                self.profiles.insert(id, profile(id, email))
            },
            pool: self.pool,
            history: self.history,
        }
    }

    /// The state after the conversation between `from` and `to` was noted
    /// in the directories of both, with the summaries of the two resolved
    /// first: `from`, then `to`.
    pub open spec fn chat_opened(
        self,
        from: u128,
        from_email: Option<Seq<char>>,
        to: u128,
        to_email: Option<Seq<char>>,
    ) -> ManagerState {
        let known = self.resolved(from, from_email).resolved(to, to_email);
        ManagerState {
            profiles: known.profiles,
            pool: known.pool,
            history: known.history.chat_opened(known.profiles[from], known.profiles[to]),
        }
    }

    /// The outcome of an authentication of socket `socket_id` as `id` with
    /// `secret`, where `found` is the secret kept for `id`, if any is: the
    /// socket is bound only if the two secrets are the same and the socket
    /// carries no identity yet.
    pub open spec fn authenticated(
        self,
        socket_id: SocketId,
        id: u128,
        secret: u128,
        found: Option<u128>,
    ) -> (ManagerState, ActionView) {
        if found != Some(secret) {
            (self, self.reply(socket_id, ServerMessageView::Error(ServerErrors::InvalidSecret)))
        } else if self.pool.identity_of(socket_id) is Some {
            (
                self,
                self.reply(
                    socket_id,
                    ServerMessageView::Error(ServerErrors::AlreadyAuthenticated),
                ),
            )
        } else {
            (
                ManagerState {
                    profiles: self.profiles,
                    pool: self.pool.bound(socket_id, id),
                    history: self.history,
                },
                self.reply(socket_id, ServerMessageView::Authenticated),
            )
        }
    }
}

/// Without an identity a socket can send no message: the command is
/// turned down as unauthorized, answered to that socket alone, and no log
/// changes. Once the socket is bound, which asks for the right secret and
/// a socket that carries no identity, its messages are entries of the log
/// and a further authentication is turned down.
pub proof fn lemma_authentication_gates_messages(
    state: ManagerState,
    socket_id: SocketId,
    id: u128,
    secret: u128,
    to: u128,
    message: Seq<char>,
    again: CommandView,
)
    requires
        again is Authenticate,
    ensures
        state.dispatched(
            socket_id,
            None,
            CommandView::DirectMessage { to: Some(to), message },
        ) == state.refused(socket_id, ServerErrors::Unauthorized),
        state.refused(socket_id, ServerErrors::Unauthorized).0 == state,
        state.pool.sockets.contains_key(socket_id) && state.pool.identity_of(socket_id) is None
            ==> state.authenticated(socket_id, id, secret, Some(secret)).0.pool.identity_of(
            socket_id,
        ) == Some(id),
        state.dispatched(
            socket_id,
            Some(id),
            CommandView::DirectMessage { to: Some(to), message },
        ).0.history.log(conversation_key(id, to)) == recent(
            state.history.log(conversation_key(id, to)).push(
                ChatMessageView::User { from: hyphenated(id), message },
            ),
            HISTORY_SIZE as nat,
        ),
        state.dispatched(socket_id, Some(id), again) == state.refused(
            socket_id,
            ServerErrors::AlreadyAuthenticated,
        ),
        state.pool.identity_of(socket_id) is Some ==> state.authenticated(
            socket_id,
            id,
            secret,
            Some(secret),
        ) == (
            state,
            state.reply(socket_id, ServerMessageView::Error(ServerErrors::AlreadyAuthenticated)),
        ),
{
}

/// Whether `command`, sent while the socket carried `user_id`, is an entry
/// for a conversation: a message or a topic that is not turned down.
pub open spec fn is_entry(user_id: Option<u128>, command: CommandView) -> bool {
    match command {
        CommandView::DirectMessage { to, message } => user_id is Some && to is Some,
        CommandView::SetTopic { to, topic } => user_id is Some && to is Some,
        _ => false,
    }
}

/// Whatever is not an entry for a conversation is answered to the socket
/// that sent it and to no other, whichever sockets carry the same
/// identity, and leaves the entries of every log as they were.
pub proof fn lemma_answers_reach_the_sender_alone(
    state: ManagerState,
    socket_id: SocketId,
    user_id: Option<u128>,
    command: CommandView,
    at: int,
    other: SocketId,
    key: Seq<char>,
)
    requires
        !is_entry(user_id, command),
        0 <= at < state.dispatched(socket_id, user_id, command).1.len(),
        state.dispatched(socket_id, user_id, command).1[at] is Send,
    ensures
        state.dispatched(socket_id, user_id, command).1[at]->targets.contains(other) ==> other
            == socket_id,
        state.dispatched(socket_id, user_id, command).0.history.log(key) == state.history.log(key),
{
    let targets = state.dispatched(socket_id, user_id, command).1[at]->targets;
    assert(targets == state.pool.socket_targets(socket_id));
    if targets.contains(other) {
        let found = choose|found: int| 0 <= found < targets.len() && targets[found] == other;
        assert(targets[found] == socket_id);
    }
}

/// A wrong secret binds nothing: the socket is told so and the state is
/// as before. The lookup that finds no secret counts as a wrong one.
pub proof fn lemma_wrong_secret_binds_nothing(
    state: ManagerState,
    socket_id: SocketId,
    id: u128,
    secret: u128,
    found: Option<u128>,
)
    requires
        found != Some(secret),
    ensures
        state.authenticated(socket_id, id, secret, found) == (
            state,
            state.reply(socket_id, ServerMessageView::Error(ServerErrors::InvalidSecret)),
        ),
{
}

/// A conversation is noted where each of the two looks its directory up:
/// under the text form of its own identity, with the summary of the
/// other. The summaries stay named by their identities.
pub proof fn lemma_chat_opened_by_text(
    state: ManagerState,
    from: u128,
    from_email: Option<Seq<char>>,
    to: u128,
    to_email: Option<Seq<char>>,
)
    requires
        state.named(),
    ensures
        state.chat_opened(from, from_email, to, to_email).named(),
        state.chat_opened(from, from_email, to, to_email).profiles.contains_key(from),
        state.chat_opened(from, from_email, to, to_email).profiles.contains_key(to),
        state.chat_opened(from, from_email, to, to_email).history.directory(
            hyphenated(from),
        ).contains(state.chat_opened(from, from_email, to, to_email).profiles[to]),
        state.chat_opened(from, from_email, to, to_email).history.directory(
            hyphenated(to),
        ).contains(state.chat_opened(from, from_email, to, to_email).profiles[from]),
{
    let known = state.resolved(from, from_email).resolved(to, to_email);
    assert(state.resolved(from, from_email).named());
    assert(known.named());
    assert(known.profiles.contains_key(from) && known.profiles.contains_key(to));
    let one = known.profiles[from];
    let other = known.profiles[to];
    let first = known.history.noting(one.id, other);
    lemma_noted_keeps(known.history.directory(one.id), other);
    lemma_noted_keeps(first.directory(other.id), one);
}

/// The summaries that were resolved so far, by identity.
pub struct Metadata {
    cache: ProfileCache,
}

impl View for Metadata {
    type V = Map<u128, ChatUserView>;

    closed spec fn view(&self) -> Map<u128, ChatUserView> {
        profile_entries(self.cache).map_values(|user: ChatUser| user@)
    }
}

impl Metadata {
    /// No summaries.
    pub fn new() -> (made: Metadata)
        ensures
            made@ == Map::<u128, ChatUserView>::empty(),
    {
        let made = Metadata { cache: profiles_new() };
        proof {
            assert(made@ =~= Map::empty());
        }
        made
    }

    /// Whether a summary of `user_id` is held.
    pub fn contains(&self, user_id: u128) -> (held: bool)
        ensures
            held == self@.contains_key(user_id),
    {
        profiles_contains(&self.cache, user_id)
    }

    /// The summary held of `user_id`; `fresh` is held from now on if none
    /// was.
    pub fn get_with(&mut self, user_id: u128, fresh: ChatUser) -> (user: ChatUser)
        ensures
            final(self)@ == if old(self)@.contains_key(user_id) {
                old(self)@
            } else {
                old(self)@.insert(user_id, fresh@)
            },
            user@ == final(self)@[user_id],
    {
        let user = profiles_get_with(&mut self.cache, user_id, fresh);
        proof {
            let before = profile_entries(old(self).cache);
            let after = profile_entries(self.cache);
            if before.contains_key(user_id) {
                assert(after == before);
                assert(self@ =~= old(self)@);
            } else {
                assert(after == before.insert(user_id, after[user_id]));
                assert(self@ =~= old(self)@.insert(user_id, fresh@));
            }
        }
        user
    }
}

/// The dispatcher: it works through the commands of all connections one
/// by one, on the registry and the store that it holds.
pub struct ChatManager {
    pub metadata: Metadata,
    pub wspool: WsPool,
    pub history: HistoryManager,
}

impl View for ChatManager {
    type V = ManagerState;

    open spec fn view(&self) -> ManagerState {
        ManagerState { profiles: self.metadata@, pool: self.wspool@, history: self.history@ }
    }
}

impl ChatManager {
    /// The registry and the store are well-formed, and every summary that
    /// is held carries the text form of its identity, which is the key of
    /// that identity's directory.
    pub open spec fn wf(&self) -> bool {
        self.wspool.wf() && self.history.wf() && all_named(self.metadata@)
    }

    /// A dispatcher on the registry `wsroom`, with an empty store and no
    /// summaries.
    pub fn new(wsroom: WsPool) -> (manager: ChatManager)
        requires
            wsroom.wf(),
        ensures
            manager.wf(),
            manager@ == (ManagerState {
                profiles: Map::empty(),
                pool: wsroom@,
                history: HistoryState::empty(),
            }),
    {
        ChatManager { metadata: Metadata::new(), wspool: wsroom, history: HistoryManager::new() }
    }

    /// Reads the identities of `message`.
    pub fn parse(message: ClientMessage) -> (command: Command)
        ensures
            command@ == parsed(message),
    {
        match message {
            ClientMessage::Authenticate { id, secret } => Command::Authenticate {
                id: parse_uuid(id.as_str()),
                secret: parse_uuid(secret.as_str()),
            },
            ClientMessage::DirectMessage { to, message } => Command::DirectMessage {
                to: parse_uuid(to.as_str()),
                message,
            },
            ClientMessage::SetTopic { to, topic } => Command::SetTopic {
                to: parse_uuid(to.as_str()),
                topic,
            },
            ClientMessage::SyncChat { with } => Command::SyncChat {
                with: parse_uuid(with.as_str()),
            },
            ClientMessage::SyncChatUsers => Command::SyncChatUsers,
            ClientMessage::UserMeta { with } => Command::UserMeta {
                with: parse_uuid(with.as_str()),
            },
            ClientMessage::Ping => Command::Ping,
            ClientMessage::Disconnect => Command::Disconnect,
        }
    }

    /// The delivery of the reason `error` to socket `socket_id` alone.
    pub fn send_error(&self, socket_id: SocketId, error: ServerErrors) -> (action: Action)
        ensures
            action@ == self@.reply(socket_id, ServerMessageView::Error(error)),
    {
        Action::Send(self.wspool.send_to_socket(socket_id, ServerMessage::Error(error)))
    }

    /// Pushes `entry` into the log of `from` and `to` and plans its
    /// delivery to both.
    fn send_entry(&mut self, from: u128, to: u128, entry: ChatMessage) -> (actions: Vec<Action>)
        requires
            old(self).wf(),
        ensures
            final(self).wf(),
            (final(self)@, action_views(actions@)) == old(self)@.entry_sent(from, to, entry@),
    {
        let from_str = uuid_text(from);
        let to_str = uuid_text(to);
        let message = ServerMessage::DirectMessage {
            participants: [from_str, to_str],
            message: entry.clone(),
        };
        self.history.push_message(&from, &to, entry);
        let mut users: Vec<u128> = Vec::new();
        users.push(from);
        users.push(to);
        proof {
            assert(users@ =~= seq![from, to]);
        }
        let delivery = self.wspool.send_to_users(users.as_slice(), message);
        let mut actions: Vec<Action> = Vec::new();
        actions.push(Action::Send(delivery));
        actions.push(Action::OpenChat { from, to });
        proof {
            let expected = old(self)@.entry_sent(from, to, entry@);
            assert(action_views(actions@) =~= expected.1);
        }
        actions
    }

    /// The topic of the conversation between `from` and `to` becomes
    /// `topic`: the change is an entry of their log and goes to both.
    pub fn set_topic(&mut self, from: u128, to: u128, topic: String) -> (actions: Vec<Action>)
        requires
            old(self).wf(),
        ensures
            final(self).wf(),
            (final(self)@, action_views(actions@)) == old(self)@.entry_sent(
                from,
                to,
                ChatMessageView::Topic { topic: topic@ },
            ),
    {
        self.send_entry(from, to, ChatMessage::Topic { topic })
    }

    /// `from` sends `message` to `to`: it is an entry of their log and
    /// goes to both.
    pub fn send_message(&mut self, from: u128, to: u128, message: String) -> (actions: Vec<
        Action,
    >)
        requires
            old(self).wf(),
        ensures
            final(self).wf(),
            (final(self)@, action_views(actions@)) == old(self)@.entry_sent(
                from,
                to,
                ChatMessageView::User { from: hyphenated(from), message: message@ },
            ),
    {
        let from_str = uuid_text(from);
        self.send_entry(from, to, ChatMessage::User { from: from_str, message })
    }

    /// Works through one command, which came from socket `socket_id`
    /// while it carried `user_id`. A command that is turned down changes
    /// nothing and is answered to its socket alone.
    pub fn dispatch(&mut self, socket_id: SocketId, user_id: Option<u128>, command: Command) -> (actions:
        Vec<Action>)
        requires
            old(self).wf(),
        ensures
            final(self).wf(),
            (final(self)@, action_views(actions@)) == old(self)@.dispatched(
                socket_id,
                user_id,
                command@,
            ),
    {
        match command {
            Command::DirectMessage { to, message } => {
                let Some(from) = user_id else {
                    return only(self.send_error(socket_id, ServerErrors::Unauthorized));
                };
                let Some(to) = to else {
                    return only(self.send_error(socket_id, ServerErrors::InvalidUuid));
                };
                self.send_message(from, to, message)
            },
            Command::SyncChat { with } => {
                let Some(from) = user_id else {
                    return only(self.send_error(socket_id, ServerErrors::Unauthorized));
                };
                let Some(with) = with else {
                    return only(self.send_error(socket_id, ServerErrors::InvalidUuid));
                };
                let messages = self.history.get_messages(&from, &with);
                let message = ServerMessage::BulkMessages {
                    participants: [uuid_text(from), uuid_text(with)],
                    messages,
                };
                only(Action::Send(self.wspool.send_to_socket(socket_id, message)))
            },
            Command::Ping => only(
                Action::Send(self.wspool.send_to_socket(socket_id, ServerMessage::Pong)),
            ),
            Command::Authenticate { id, secret } => {
                if user_id.is_some() {
                    return only(self.send_error(socket_id, ServerErrors::AlreadyAuthenticated));
                }
                let Some(id) = id else {
                    return only(self.send_error(socket_id, ServerErrors::InvalidUuid));
                };
                let Some(secret) = secret else {
                    return only(self.send_error(socket_id, ServerErrors::InvalidSecret));
                };
                only(Action::VerifySecret { socket_id, id, secret })
            },
            Command::UserMeta { with } => {
                if user_id.is_none() {
                    return only(self.send_error(socket_id, ServerErrors::Unauthorized));
                }
                let Some(with) = with else {
                    return only(self.send_error(socket_id, ServerErrors::InvalidUuid));
                };
                only(Action::UserMeta { socket_id, with })
            },
            Command::SyncChatUsers => {
                let Some(user_id) = user_id else {
                    return only(self.send_error(socket_id, ServerErrors::Unauthorized));
                };
                let key = uuid_text(user_id);
                let users = self.history.get_open_chats(key.as_str());
                let message = ServerMessage::BulkUsers { users };
                only(Action::Send(self.wspool.send_to_socket(socket_id, message)))
            },
            Command::SetTopic { to, topic } => {
                let Some(user_id) = user_id else {
                    return only(self.send_error(socket_id, ServerErrors::Unauthorized));
                };
                let Some(to) = to else {
                    return only(self.send_error(socket_id, ServerErrors::InvalidUuid));
                };
                self.set_topic(user_id, to, topic)
            },
            Command::Disconnect => {
                self.wspool.remove_socket(socket_id);
                let actions: Vec<Action> = Vec::new();
                assert(action_views(actions@) =~= Seq::empty());
                actions
            },
        }
    }

    /// Works through one command as it came from its connection: reads
    /// its identities and dispatches it.
    pub fn handle(&mut self, envelope: TaggedMessage<ClientMessage>) -> (actions: Vec<Action>)
        requires
            old(self).wf(),
        ensures
            final(self).wf(),
            (final(self)@, action_views(actions@)) == old(self)@.dispatched(
                envelope.socket_id,
                envelope.user_id,
                parsed(envelope.message),
            ),
    {
        let TaggedMessage { socket_id, user_id, message } = envelope;
        let command = Self::parse(message);
        self.dispatch(socket_id, user_id, command)
    }

    /// Whether `secret` is the secret kept for an identity, where `found`
    /// is what the lookup of the kept secret gave: `None` if it gave none.
    pub fn verify_secret(secret: &u128, found: Option<u128>) -> (same: bool)
        ensures
            same == (found == Some(*secret)),
    {
        match found {
            Some(kept) => kept == *secret,
            None => false,
        }
    }

    /// Ends the authentication of socket `socket_id` as `id`, for which
    /// the dispatcher asked with `Action::VerifySecret`: `found` is the
    /// secret kept for `id`, or `None` if the lookup gave none.
    pub fn finish_authentication(
        &mut self,
        socket_id: SocketId,
        id: u128,
        secret: u128,
        found: Option<u128>,
    ) -> (action: Action)
        requires
            old(self).wf(),
        ensures
            final(self).wf(),
            (final(self)@, action@) == old(self)@.authenticated(socket_id, id, secret, found),
    {
        if !Self::verify_secret(&secret, found) {
            return self.send_error(socket_id, ServerErrors::InvalidSecret);
        }
        match self.wspool.authenticate(id, socket_id) {
            Err(error) => self.send_error(socket_id, error),
            Ok(()) => Action::Send(
                self.wspool.send_to_socket(socket_id, ServerMessage::Authenticated),
            ),
        }
    }

    /// The summary of `user_id` with `email` as what is displayed for it;
    /// `None` where no `email` was found.
    pub fn fetch_user_metadata(user_id: &u128, email: Option<String>) -> (user: Option<ChatUser>)
        ensures
            match user {
                Some(user) => email is Some && user@ == profile(*user_id, email_view(email)),
                None => email is None,
            },
    {
        match email {
            Some(email) => Some(ChatUser { id: uuid_text(*user_id), email }),
            None => None,
        }
    }

    /// Whether the summary of `user_id` is still to be looked up.
    pub fn needs_profile(&self, user_id: &u128) -> (needed: bool)
        ensures
            needed == !self@.profiles.contains_key(*user_id),
    {
        !self.metadata.contains(*user_id)
    }

    /// The summary of `user_id`. One that was resolved before is returned
    /// as it is. Else the summary is made of `email`, or of a placeholder
    /// where the lookup found none, and is kept for the next time.
    pub fn get_user_metadata(&mut self, user_id: &u128, email: Option<String>) -> (user: ChatUser)
        requires
            old(self).wf(),
        ensures
            final(self).wf(),
            final(self)@ == old(self)@.resolved(*user_id, email_view(email)),
            user@ == final(self)@.profiles[*user_id],
            user@.id == hyphenated(*user_id),
    {
        let fresh = match Self::fetch_user_metadata(user_id, email) {
            Some(user) => user,
            None => ChatUser { id: uuid_text(*user_id), email: "Unknown".to_owned() },
        };
        let user = self.metadata.get_with(*user_id, fresh);
        proof {
            assert(self@.profiles =~= old(self)@.resolved(*user_id, email_view(email)).profiles);
            assert forall|id: u128| #[trigger] self.metadata@.contains_key(id) implies self.metadata@[id].id
                == hyphenated(id) by {
                if id != *user_id {
                    assert(old(self).metadata@.contains_key(id));
                }
            }
        }
        user
    }

    /// Notes the conversation between `from` and `to` in the directories
    /// of both, for which the dispatcher asked with `Action::OpenChat`.
    /// `from_email` and `to_email` are what the lookups gave; they count
    /// only for one whose summary was not resolved before.
    pub fn open_chat(
        &mut self,
        from: u128,
        from_email: Option<String>,
        to: u128,
        to_email: Option<String>,
    )
        requires
            old(self).wf(),
        ensures
            final(self).wf(),
            final(self)@ == old(self)@.chat_opened(
                from,
                email_view(from_email),
                to,
                email_view(to_email),
            ),
    {
        let from_user = self.get_user_metadata(&from, from_email);
        let to_user = self.get_user_metadata(&to, to_email);
        self.history.open_chat(from_user, to_user);
    }

    /// The delivery of the summary of `with` to socket `socket_id`, for
    /// which the dispatcher asked with `Action::UserMeta`. `email` is what
    /// the lookup gave; it counts only if the summary was not resolved
    /// before.
    pub fn user_meta(&mut self, socket_id: SocketId, with: u128, email: Option<String>) -> (action:
        Action)
        requires
            old(self).wf(),
        ensures
            final(self).wf(),
            final(self)@ == old(self)@.resolved(with, email_view(email)),
            action@ == final(self)@.reply(
                socket_id,
                ServerMessageView::UserMeta { user: final(self)@.profiles[with] },
            ),
    {
        let user = self.get_user_metadata(&with, email);
        Action::Send(self.wspool.send_to_socket(socket_id, ServerMessage::UserMeta { user }))
    }
}

} // verus!
