//! The commands that clients send and the messages that the server sends,
//! with the plain values that contracts speak of them by.

use vstd::prelude::*;

verus! {

/// Why a command was turned down. Each is reported to the sender alone.
#[derive(Clone, Copy, Debug, PartialEq, Eq, Structural)]
pub enum ServerErrors {
    /// The command needs a bound identity and the socket has none.
    Unauthorized,
    /// An identity in the command is not a well-formed id.
    InvalidUuid,
    /// The secret did not pass verification.
    InvalidSecret,
    /// The socket already carries an identity.
    AlreadyAuthenticated,
}

/// The summary of one identity: its id in text and what is displayed for it.
#[derive(Debug, PartialEq, Eq)]
pub struct ChatUser {
    pub id: String,
    pub email: String,
}

/// What a `ChatUser` holds.
pub struct ChatUserView {
    pub id: Seq<char>,
    pub email: Seq<char>,
}

impl View for ChatUser {
    type V = ChatUserView;

    open spec fn view(&self) -> ChatUserView {
        ChatUserView { id: self.id@, email: self.email@ }
    }
}

impl Clone for ChatUser {
    fn clone(&self) -> (copy: Self)
        ensures
            copy == *self,
    {
        ChatUser { id: self.id.clone(), email: self.email.clone() }
    }
}

/// One entry of a conversation.
#[derive(Debug, PartialEq, Eq)]
pub enum ChatMessage {
    /// A message written by `from`.
    User { from: String, message: String },
    /// A change of the conversation's topic.
    Topic { topic: String },
}

/// What a `ChatMessage` holds.
pub enum ChatMessageView {
    User { from: Seq<char>, message: Seq<char> },
    Topic { topic: Seq<char> },
}

impl View for ChatMessage {
    type V = ChatMessageView;

    open spec fn view(&self) -> ChatMessageView {
        match *self {
            ChatMessage::User { from, message } => ChatMessageView::User {
                from: from@,
                message: message@,
            },
            ChatMessage::Topic { topic } => ChatMessageView::Topic { topic: topic@ },
        }
    }
}

impl Clone for ChatMessage {
    fn clone(&self) -> (copy: Self)
        ensures
            copy == *self,
    {
        match self {
            ChatMessage::User { from, message } => ChatMessage::User {
                from: from.clone(),
                message: message.clone(),
            },
            ChatMessage::Topic { topic } => ChatMessage::Topic { topic: topic.clone() },
        }
    }
}

/// What each message of `messages` holds, in their order.
pub open spec fn message_views(messages: Seq<ChatMessage>) -> Seq<ChatMessageView> {
    messages.map_values(|message: ChatMessage| message@)
}

/// What each summary of `users` holds, in their order.
pub open spec fn user_views(users: Seq<ChatUser>) -> Seq<ChatUserView> {
    users.map_values(|user: ChatUser| user@)
}

/// A command as a client sends it, identities still in text.
#[derive(Debug, PartialEq, Eq)]
pub enum ClientMessage {
    Authenticate { id: String, secret: String },
    DirectMessage { to: String, message: String },
    SetTopic { to: String, topic: String },
    SyncChat { with: String },
    SyncChatUsers,
    UserMeta { with: String },
    Ping,
    Disconnect,
}

/// A message from the server to a client.
#[derive(Debug, PartialEq, Eq)]
pub enum ServerMessage {
    Authenticated,
    DirectMessage { participants: [String; 2], message: ChatMessage },
    BulkMessages { participants: [String; 2], messages: Vec<ChatMessage> },
    BulkUsers { users: Vec<ChatUser> },
    UserMeta { user: ChatUser },
    Pong,
    Error(ServerErrors),
}

/// What a `ServerMessage` holds.
pub enum ServerMessageView {
    Authenticated,
    DirectMessage { participants: Seq<Seq<char>>, message: ChatMessageView },
    BulkMessages { participants: Seq<Seq<char>>, messages: Seq<ChatMessageView> },
    BulkUsers { users: Seq<ChatUserView> },
    UserMeta { user: ChatUserView },
    Pong,
    Error(ServerErrors),
}

/// The text of each of the two participants, in their order.
pub open spec fn participant_views(participants: [String; 2]) -> Seq<Seq<char>> {
    seq![participants@[0]@, participants@[1]@]
}

impl View for ServerMessage {
    type V = ServerMessageView;

    open spec fn view(&self) -> ServerMessageView {
        match *self {
            ServerMessage::Authenticated => ServerMessageView::Authenticated,
            ServerMessage::DirectMessage { participants, message } => {
                ServerMessageView::DirectMessage {
                    participants: participant_views(participants),
                    message: message@,
                }
            },
            ServerMessage::BulkMessages { participants, messages } => {
                ServerMessageView::BulkMessages {
                    participants: participant_views(participants),
                    messages: message_views(messages@),
                }
            },
            ServerMessage::BulkUsers { users } => ServerMessageView::BulkUsers {
                users: user_views(users@),
            },
            ServerMessage::UserMeta { user } => ServerMessageView::UserMeta { user: user@ },
            ServerMessage::Pong => ServerMessageView::Pong,
            ServerMessage::Error(kind) => ServerMessageView::Error(kind),
        }
    }
}

} // verus!
