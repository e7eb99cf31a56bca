//! Core data types of the chat engine: identities, messages, presence,
//! and the inbound / outbound action unions, together with their
//! mathematical views.

use vstd::prelude::*;
use vstd::string::StringExecFns;

verus! {

/// Identity of a registered user. Equality is case-sensitive exact match
/// on the identifier string.
pub struct UserID(pub String);

impl View for UserID {
    type V = Seq<char>;

    open spec fn view(&self) -> Seq<char> {
        self.0@
    }
}

impl Clone for UserID {
    fn clone(&self) -> (r: Self)
        ensures
            r == *self,
    {
        UserID(self.0.clone())
    }
}

impl UserID {
    /// The identifier as a string, for callers that display it.
    pub fn as_string(&self) -> (r: String)
        ensures
            r@ == self@,
    {
        self.0.clone()
    }
}

/// Identity of a chat room.
pub struct ChatRoomID(pub String);

impl View for ChatRoomID {
    type V = Seq<char>;

    open spec fn view(&self) -> Seq<char> {
        self.0@
    }
}

impl Clone for ChatRoomID {
    fn clone(&self) -> (r: Self)
        ensures
            r == *self,
    {
        ChatRoomID(self.0.clone())
    }
}

impl ChatRoomID {
    /// The room name as a string, for callers that display it.
    pub fn as_string(&self) -> (r: String)
        ensures
            r@ == self@,
    {
        self.0.clone()
    }
}

/// Identity of a persisted message row.
#[derive(Clone, Copy, PartialEq, Eq, Structural)]
pub struct MessageID(pub i64);

/// A message sent into a room. Immutable once constructed; the timestamp
/// is in seconds since the Unix epoch.
pub struct ChatMessage {
    pub sender: UserID,
    pub room: ChatRoomID,
    pub content: String,
    pub timestamp: u64,
}

/// Mathematical value of a [`ChatMessage`].
#[verifier::ext_equal]
pub struct ChatMessageV {
    pub sender: Seq<char>,
    pub room: Seq<char>,
    pub content: Seq<char>,
    pub timestamp: u64,
}

impl View for ChatMessage {
    type V = ChatMessageV;

    open spec fn view(&self) -> ChatMessageV {
        ChatMessageV {
            sender: self.sender@,
            room: self.room@,
            content: self.content@,
            timestamp: self.timestamp,
        }
    }
}

impl Clone for ChatMessage {
    fn clone(&self) -> (r: Self)
        ensures
            r == *self,
    {
        ChatMessage {
            sender: self.sender.clone(),
            room: self.room.clone(),
            content: self.content.clone(),
            timestamp: self.timestamp,
        }
    }
}

/// Events the server delivers to clients.
pub enum ServerAction {
    Message(ChatMessage),
    Add { room: ChatRoomID, adder: Option<UserID>, added: UserID },
    List(Vec<UserID>),
    TimedIn(bool),
    Leave((ChatRoomID, UserID)),
    Error(String),
}

/// Mathematical value of a [`ServerAction`].
#[verifier::ext_equal]
pub enum ServerActionV {
    Message(ChatMessageV),
    Add { room: Seq<char>, adder: Option<Seq<char>>, added: Seq<char> },
    List(Seq<Seq<char>>),
    TimedIn(bool),
    Leave(Seq<char>, Seq<char>),
    Error(Seq<char>),
}

impl View for ServerAction {
    type V = ServerActionV;

    open spec fn view(&self) -> ServerActionV {
        match *self {
            ServerAction::Message(m) => ServerActionV::Message(m@),
            ServerAction::Add { room, adder, added } => ServerActionV::Add {
                room: room@,
                adder: match adder {
                    Some(a) => Some(a@),
                    None => None,
                },
                added: added@,
            },
            ServerAction::List(ids) => ServerActionV::List(ids@.map_values(|u: UserID| u@)),
            ServerAction::TimedIn(b) => ServerActionV::TimedIn(b),
            ServerAction::Leave((room, user)) => ServerActionV::Leave(room@, user@),
            ServerAction::Error(e) => ServerActionV::Error(e@),
        }
    }
}

impl Clone for ServerAction {
    fn clone(&self) -> (r: Self)
        ensures
            r@ == self@,
    {
        match self {
            ServerAction::Message(m) => ServerAction::Message(m.clone()),
            ServerAction::Add { room, adder, added } => {
                let adder2 = match adder {
                    Some(a) => Some(a.clone()),
                    None => None,
                };
                ServerAction::Add { room: room.clone(), adder: adder2, added: added.clone() }
            },
            ServerAction::List(ids) => {
                let mut out: Vec<UserID> = Vec::new();
                let mut i: usize = 0;
                while i < ids.len()
                    invariant
                        i <= ids.len(),
                        out@.len() == i,
                        forall|k: int| 0 <= k < i ==> out@[k] == ids@[k],
                    decreases ids.len() - i,
                {
                    out.push(ids[i].clone());
                    i = i + 1;
                }
                proof {
                    assert(out@ =~= ids@);
                }
                ServerAction::List(out)
            },
            ServerAction::TimedIn(b) => ServerAction::TimedIn(*b),
            ServerAction::Leave((room, user)) => {
                ServerAction::Leave((room.clone(), user.clone()))
            },
            ServerAction::Error(e) => ServerAction::Error(e.clone()),
        }
    }
}

/// The room an outbound event is scoped to, if any: queued events that
/// reference a room are purged when the user leaves that room.
pub open spec fn action_room_view(a: ServerActionV) -> Option<Seq<char>> {
    match a {
        ServerActionV::Message(m) => Some(m.room),
        ServerActionV::Add { room, adder, added } => Some(room),
        ServerActionV::Leave(room, user) => Some(room),
        _ => None,
    }
}

impl ServerAction {
    /// The room this event is scoped to, if any.
    pub fn room(&self) -> (r: Option<&ChatRoomID>)
        ensures
            match r {
                Some(rid) => action_room_view(self@) == Some(rid@),
                None => action_room_view(self@) is None,
            },
    {
        match self {
            ServerAction::Message(msg) => Some(&msg.room),
            ServerAction::Add { room, .. } => Some(room),
            ServerAction::Leave((room, _)) => Some(room),
            _ => None,
        }
    }
}

impl From<ChatMessage> for ServerAction {
    fn from(msg: ChatMessage) -> (r: Self) {
        ServerAction::Message(msg)
    }
}

impl vstd::std_specs::convert::FromSpecImpl<ChatMessage> for ServerAction {
    open spec fn obeys_from_spec() -> bool {
        true
    }

    open spec fn from_spec(msg: ChatMessage) -> Self {
        ServerAction::Message(msg)
    }
}

/// Presence of a user: `Active` while the user owns a live connection
/// (the delivery channel itself is held by the connection layer), and
/// `Inactive` otherwise, carrying the ordered queue of events that
/// arrived while the user was away.
pub enum UserStatus {
    Active,
    Inactive { queue: Vec<ServerAction> },
}

/// Mathematical value of a [`UserStatus`].
#[verifier::ext_equal]
pub enum UserStatusV {
    Active,
    Inactive { queue: Seq<ServerActionV> },
}

impl View for UserStatus {
    type V = UserStatusV;

    open spec fn view(&self) -> UserStatusV {
        match *self {
            UserStatus::Active => UserStatusV::Active,
            UserStatus::Inactive { queue } => UserStatusV::Inactive {
                queue: queue@.map_values(|a: ServerAction| a@),
            },
        }
    }
}

impl Clone for UserStatus {
    fn clone(&self) -> (r: Self)
        ensures
            r@ == self@,
    {
        match self {
            UserStatus::Active => UserStatus::Active,
            UserStatus::Inactive { queue } => {
                let mut out: Vec<ServerAction> = Vec::new();
                let mut i: usize = 0;
                while i < queue.len()
                    invariant
                        i <= queue.len(),
                        out@.len() == i,
                        forall|k: int| 0 <= k < i ==> #[trigger] out@[k]@ == queue@[k]@,
                    decreases queue.len() - i,
                {
                    out.push(queue[i].clone());
                    i = i + 1;
                }
                proof {
                    assert(out@.map_values(|a: ServerAction| a@) =~= queue@.map_values(
                        |a: ServerAction| a@));
                }
                UserStatus::Inactive { queue: out }
            },
        }
    }
}

/// A registered user: identity, presence, and the stored password hash.
pub struct User {
    pub name: UserID,
    pub status: UserStatus,
    pub password: String,
}

/// Mathematical value of a [`User`].
#[verifier::ext_equal]
pub struct UserV {
    pub name: Seq<char>,
    pub status: UserStatusV,
    pub password: Seq<char>,
}

impl View for User {
    type V = UserV;

    open spec fn view(&self) -> UserV {
        UserV { name: self.name@, status: self.status@, password: self.password@ }
    }
}

impl Clone for User {
    fn clone(&self) -> (r: Self)
        ensures
            r@ == self@,
    {
        User {
            name: self.name.clone(),
            status: self.status.clone(),
            password: self.password.clone(),
        }
    }
}

/// Actions a client can send to the server.
pub enum UserAction {
    Message(ChatMessage),
    Report(String),
    Leave(ChatRoomID),
    Add((ChatRoomID, UserID)),
    ListUsers,
    TimeIn(Option<String>),
    TimeOut(Option<String>),
    CheckTime,
    AllowTime(UserID),
}

/// One pending live delivery: an event to hand to the recipient's
/// delivery channel.
pub struct Delivery {
    pub to: UserID,
    pub action: ServerAction,
}

/// Mathematical value of a [`Delivery`].
#[verifier::ext_equal]
pub struct DeliveryV {
    pub to: Seq<char>,
    pub action: ServerActionV,
}

impl View for Delivery {
    type V = DeliveryV;

    open spec fn view(&self) -> DeliveryV {
        DeliveryV { to: self.to@, action: self.action@ }
    }
}

/// Why an engine operation was rejected.
#[derive(Debug)]
pub enum ChatError {
    RoomExists,
    RoomNotFound,
    UserNotFound,
    AlreadyMember,
    EmptyRoom,
    AlreadyConnected,
    NameTaken,
    CredentialFailure,
}

impl ChatError {
    /// A short description, for error events and HTTP bodies.
    pub fn text(&self) -> (r: String)
        ensures
            match *self {
                ChatError::RoomExists => r@ == "room already exists"@,
                ChatError::RoomNotFound => r@ == "room not found"@,
                ChatError::UserNotFound => r@ == "user not found"@,
                ChatError::AlreadyMember => r@ == "already a member"@,
                ChatError::EmptyRoom => r@ == "no valid members"@,
                ChatError::AlreadyConnected => r@ == "already connected"@,
                ChatError::NameTaken => r@ == "user already exists"@,
                ChatError::CredentialFailure => r@ == "credential failure"@,
            },
    {
        match self {
            ChatError::RoomExists => String::from_str("room already exists"),
            ChatError::RoomNotFound => String::from_str("room not found"),
            ChatError::UserNotFound => String::from_str("user not found"),
            ChatError::AlreadyMember => String::from_str("already a member"),
            ChatError::EmptyRoom => String::from_str("no valid members"),
            ChatError::AlreadyConnected => String::from_str("already connected"),
            ChatError::NameTaken => String::from_str("user already exists"),
            ChatError::CredentialFailure => String::from_str("credential failure"),
        }
    }
}

/// A name and password pair, as submitted on the registration and
/// login paths.
pub struct Credentials {
    pub name: String,
    pub password: String,
}

} // verus!
