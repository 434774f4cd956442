use vstd::prelude::*;
use vstd::string::*;

verus! {

/// The commands a client can send, and the kinds of messages the server answers with.
#[derive(PartialEq, Eq, Structural, Clone, Copy, Debug)]
pub enum Action {
    CreateRoom,
    JoinRoom,
    LeaveRoom,
    ListUsers,
    SendDirectMessage,
    BroadcastMessage,
    Error,
}

/// The name under which an action is printed (its variant name).
pub open spec fn action_name(a: Action) -> Seq<char> {
    match a {
        Action::CreateRoom => "CreateRoom"@,
        Action::JoinRoom => "JoinRoom"@,
        Action::LeaveRoom => "LeaveRoom"@,
        Action::ListUsers => "ListUsers"@,
        Action::SendDirectMessage => "SendDirectMessage"@,
        Action::BroadcastMessage => "BroadcastMessage"@,
        Action::Error => "Error"@,
    }
}

impl Action {
    /// The variant name of the action, as its `Debug` form prints it.
    pub fn name(&self) -> (s: String)
        ensures
            s@ == action_name(*self),
    {
        match self {
            Action::CreateRoom => {
                proof {
                    reveal_strlit("CreateRoom");
                }
                String::from_str("CreateRoom")
            },
            Action::JoinRoom => {
                proof {
                    reveal_strlit("JoinRoom");
                }
                String::from_str("JoinRoom")
            },
            Action::LeaveRoom => {
                proof {
                    reveal_strlit("LeaveRoom");
                }
                String::from_str("LeaveRoom")
            },
            Action::ListUsers => {
                proof {
                    reveal_strlit("ListUsers");
                }
                String::from_str("ListUsers")
            },
            Action::SendDirectMessage => {
                proof {
                    reveal_strlit("SendDirectMessage");
                }
                String::from_str("SendDirectMessage")
            },
            Action::BroadcastMessage => {
                proof {
                    reveal_strlit("BroadcastMessage");
                }
                String::from_str("BroadcastMessage")
            },
            Action::Error => {
                proof {
                    reveal_strlit("Error");
                }
                String::from_str("Error")
            },
        }
    }
}

/// A command from a client, or a message from the server about a room.
#[derive(Debug)]
pub struct RoomAction {
    pub action: Action,
    pub room_id: String,
    pub user_id: String,
    pub data: Option<String>,
}

/// The view of an optional string.
pub open spec fn opt_view(o: Option<String>) -> Option<Seq<char>> {
    match o {
        Some(s) => Some(s@),
        None => None,
    }
}

/// `a` is the action `kind` about `room` for `user`, carrying `data`.
pub open spec fn action_is(
    a: RoomAction,
    kind: Action,
    room: Seq<char>,
    user: Seq<char>,
    data: Option<Seq<char>>,
) -> bool {
    &&& a.action == kind
    &&& a.room_id@ == room
    &&& a.user_id@ == user
    &&& opt_view(a.data) == data
}

/// Why a command was refused.
#[derive(Debug)]
pub enum RoomError {
    RoomAlreadyExists(String),
    RoomDoesNotExists(String),
    TargetUserNotFound(String, String),
    MissingData(String, String, Action),
    LockFailed,
}

/// The error as plain values: the kind and its string arguments.
pub enum RoomErrorView {
    RoomAlreadyExists(Seq<char>),
    RoomDoesNotExists(Seq<char>),
    TargetUserNotFound(Seq<char>, Seq<char>),
    MissingData(Seq<char>, Seq<char>, Action),
    LockFailed,
}

impl View for RoomError {
    type V = RoomErrorView;

    open spec fn view(&self) -> RoomErrorView {
        match self {
            RoomError::RoomAlreadyExists(r) => RoomErrorView::RoomAlreadyExists(r@),
            RoomError::RoomDoesNotExists(r) => RoomErrorView::RoomDoesNotExists(r@),
            RoomError::TargetUserNotFound(r, u) => RoomErrorView::TargetUserNotFound(r@, u@),
            RoomError::MissingData(r, u, a) => RoomErrorView::MissingData(r@, u@, *a),
            RoomError::LockFailed => RoomErrorView::LockFailed,
        }
    }
}

/// The human-readable text of an error.
pub open spec fn error_text(e: RoomErrorView) -> Seq<char> {
    match e {
        RoomErrorView::RoomAlreadyExists(r) => "Room "@ + r + " already exists"@,
        RoomErrorView::RoomDoesNotExists(r) => "Room "@ + r + " does not exist"@,
        RoomErrorView::TargetUserNotFound(r, u) => "Target user "@ + u + " in room "@ + r
            + " does not exist"@,
        RoomErrorView::MissingData(r, u, a) => "Action "@ + action_name(a) + " from user "@ + u
            + " in room "@ + r + " is missing"@,
        RoomErrorView::LockFailed => "Failed to acquire lock"@,
    }
}

impl RoomError {
    /// The human-readable text of the error.
    pub fn message(&self) -> (s: String)
        ensures
            s@ == error_text(self@),
    {
        match self {
            RoomError::RoomAlreadyExists(r) => {
                proof {
                    reveal_strlit("Room ");
                    reveal_strlit(" already exists");
                }
                let mut s = String::from_str("Room ");
                s.append(r.as_str());
                s.append(" already exists");
                s
            },
            RoomError::RoomDoesNotExists(r) => {
                proof {
                    reveal_strlit("Room ");
                    reveal_strlit(" does not exist");
                }
                let mut s = String::from_str("Room ");
                s.append(r.as_str());
                s.append(" does not exist");
                s
            },
            RoomError::TargetUserNotFound(r, u) => {
                proof {
                    reveal_strlit("Target user ");
                    reveal_strlit(" in room ");
                    reveal_strlit(" does not exist");
                }
                let mut s = String::from_str("Target user ");
                s.append(u.as_str());
                s.append(" in room ");
                s.append(r.as_str());
                s.append(" does not exist");
                s
            },
            RoomError::MissingData(r, u, a) => {
                proof {
                    reveal_strlit("Action ");
                    reveal_strlit(" from user ");
                    reveal_strlit(" in room ");
                    reveal_strlit(" is missing");
                }
                let name = a.name();
                let mut s = String::from_str("Action ");
                s.append(name.as_str());
                s.append(" from user ");
                s.append(u.as_str());
                s.append(" in room ");
                s.append(r.as_str());
                s.append(" is missing");
                s
            },
            RoomError::LockFailed => {
                proof {
                    reveal_strlit("Failed to acquire lock");
                }
                String::from_str("Failed to acquire lock")
            },
        }
    }
}

/// The server's answer to a command.
#[derive(Debug)]
pub enum RoomResponse {
    Success(RoomAction),
    Error(RoomError),
}

/// A message from one member of a room to another.
#[derive(Debug)]
pub struct DirectMessage {
    pub sender_id: String,
    pub receiver_id: String,
    pub content: String,
}

/// A connected user: its id, its public key, and the channel that reaches it.
#[derive(Clone, Debug)]
pub struct User<S> {
    user_id: String,
    public_key: String,
    sender: S,
}

impl<S> User<S> {
    /// The user's id.
    pub closed spec fn uid(&self) -> Seq<char> {
        self.user_id@
    }

    /// The user's public key.
    pub closed spec fn key(&self) -> Seq<char> {
        self.public_key@
    }

    /// The channel that reaches the user.
    pub closed spec fn channel(&self) -> S {
        self.sender
    }

    pub fn new(user_id: &String, user_pk: String, user_sender: S) -> (u: Self)
        ensures
            u.uid() == user_id@,
            u.key() == user_pk@,
            u.channel() == user_sender,
    {
        User { user_id: user_id.clone(), public_key: user_pk, sender: user_sender }
    }

    pub fn id(&self) -> (r: &String)
        ensures
            r@ == self.uid(),
    {
        &self.user_id
    }

    pub fn publickey(&self) -> (r: &String)
        ensures
            r@ == self.key(),
    {
        &self.public_key
    }

    pub fn sender(&self) -> (r: &S)
        ensures
            *r == self.channel(),
    {
        &self.sender
    }
}


/// The text of a successful room creation.
pub open spec fn created_text(room: Seq<char>) -> Seq<char> {
    "Room "@ + room + " created"@
}

/// The text of a successful join.
pub open spec fn joined_text(user: Seq<char>, room: Seq<char>) -> Seq<char> {
    "User "@ + user + " joined room "@ + room
}

/// The text of a successful leave.
pub open spec fn left_text(user: Seq<char>, room: Seq<char>) -> Seq<char> {
    "User "@ + user + " leave room "@ + room
}

/// Builds `created_text(room)`.
pub fn created_message(room: &str) -> (s: String)
    ensures
        s@ == created_text(room@),
{
    proof {
        reveal_strlit("Room ");
        reveal_strlit(" created");
    }
    let mut s = String::from_str("Room ");
    s.append(room);
    s.append(" created");
    s
}

/// Builds `joined_text(user, room)`.
pub fn joined_message(user: &str, room: &str) -> (s: String)
    ensures
        s@ == joined_text(user@, room@),
{
    proof {
        reveal_strlit("User ");
        reveal_strlit(" joined room ");
    }
    let mut s = String::from_str("User ");
    s.append(user);
    s.append(" joined room ");
    s.append(room);
    s
}

/// Builds `left_text(user, room)`.
pub fn left_message(user: &str, room: &str) -> (s: String)
    ensures
        s@ == left_text(user@, room@),
{
    proof {
        reveal_strlit("User ");
        reveal_strlit(" leave room ");
    }
    let mut s = String::from_str("User ");
    s.append(user);
    s.append(" leave room ");
    s.append(room);
    s
}

} // verus!
