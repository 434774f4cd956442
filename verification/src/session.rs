//! One step of a client connection: a command in, the new room state, the
//! messages to deliver to other users and the reply to the client out.
use crate::members::member_ids;
use crate::registry::{joined, left, message_is, user_list_notices, RoomRegistry};
use crate::external::{is_v4_uuid_text, json_string_array};
use crate::room::{
    action_is, created_text, joined_text, left_text, opt_view, Action, DirectMessage,
    RoomAction, RoomError, RoomErrorView, RoomResponse, User,
};
use crate::text::{message_parts, parse_direct_message_data};
use vstd::prelude::*;

verus! {

/// What the connection sends back to its own client.
pub enum Reply {
    /// This response.
    Respond(RoomResponse),
    /// Nothing: the command is not one the server handles.
    Ignore,
    /// A broadcast went out, and no success response exists for it: the
    /// connection is not answered.
    Unanswered,
}

/// The result of handling one command.
pub struct CommandOutcome {
    /// Member lists to send to room members, each to the user in its `user_id`.
    pub notices: Vec<RoomAction>,
    /// Messages to send to users, each to the user in its `receiver_id`.
    pub messages: Vec<DirectMessage>,
    /// The answer to the client.
    pub reply: Reply,
}

/// `o` answers with success carrying the action `kind` about `room` for `user`
/// with `data`.
pub open spec fn replies_success(
    o: CommandOutcome,
    kind: Action,
    room: Seq<char>,
    user: Seq<char>,
    data: Option<Seq<char>>,
) -> bool {
    o.reply matches Reply::Respond(RoomResponse::Success(a)) && action_is(a, kind, room, user, data)
}

/// `o` answers with the error `e`.
pub open spec fn replies_error(o: CommandOutcome, e: RoomErrorView) -> bool {
    o.reply matches Reply::Respond(RoomResponse::Error(err)) && err@ == e
}

/// Handles one command of the connection of `user` on the rooms `rooms`.
///
/// Create, join, leave and list act for the connection's user; direct messages
/// and broadcasts need the command's data, `"<target>:<text>"` (a broadcast
/// sends the text to every member of the room). Commands of kind `Error` are
/// ignored.
pub fn handle_command<S>(rooms: &mut RoomRegistry<S>, user: User<S>, command: RoomAction) -> (o:
    CommandOutcome)
    requires
        old(rooms).wf(),
    ensures
        final(rooms).wf(),
        !(command.action == Action::JoinRoom && old(rooms)@.dom().contains(command.room_id@))
            ==> o.notices@.len() == 0,
        // The connection's user acts: the command's own `user_id` names no actor.
        o.reply matches Reply::Respond(RoomResponse::Success(a)) ==> a.user_id@ == user.uid(),
        forall|i: int| 0 <= i < o.messages@.len() ==> (#[trigger] o.messages@[i]).sender_id@ == user.uid(),
        !(command.action == Action::SendDirectMessage || command.action
            == Action::BroadcastMessage) ==> o.messages@.len() == 0,
        // Creating a room: always, under a fresh version-4 UUID id.
        command.action == Action::CreateRoom ==> (o.reply matches Reply::Respond(
            RoomResponse::Success(a),
        ) && !old(rooms)@.dom().contains(a.room_id@) && is_v4_uuid_text(a.room_id@) && action_is(
            a,
            Action::CreateRoom,
            a.room_id@,
            user.uid(),
            Some(created_text(a.room_id@)),
        ) && final(rooms)@ == old(rooms)@.insert(a.room_id@, seq![user])),
        // Joining a room.
        command.action == Action::JoinRoom && old(rooms)@.dom().contains(command.room_id@) ==> {
            &&& final(rooms)@ == joined(old(rooms)@, command.room_id@, user)
            &&& replies_success(
                o,
                Action::JoinRoom,
                command.room_id@,
                user.uid(),
                Some(joined_text(user.uid(), command.room_id@)),
            )
            &&& user_list_notices(
                o.notices@,
                command.room_id@,
                final(rooms)@[command.room_id@],
                user.uid(),
            )
        },
        // Leaving a room.
        command.action == Action::LeaveRoom && old(rooms)@.dom().contains(command.room_id@) ==> {
            &&& final(rooms)@ == left(old(rooms)@, command.room_id@, user.uid())
            &&& replies_success(
                o,
                Action::LeaveRoom,
                command.room_id@,
                user.uid(),
                Some(left_text(user.uid(), command.room_id@)),
            )
        },
        // Listing the members of a room.
        command.action == Action::ListUsers && old(rooms)@.dom().contains(command.room_id@)
            ==> replies_success(
            o,
            Action::ListUsers,
            command.room_id@,
            user.uid(),
            Some(json_string_array(member_ids(old(rooms)@[command.room_id@]))),
        ),
        // A missing room, for join, leave and list.
        (command.action == Action::JoinRoom || command.action == Action::LeaveRoom
            || command.action == Action::ListUsers) && !old(rooms)@.dom().contains(command.room_id@)
            ==> replies_error(o, RoomErrorView::RoomDoesNotExists(command.room_id@))
            && final(rooms)@ == old(rooms)@,
        // Direct messages and broadcasts without data.
        (command.action == Action::SendDirectMessage || command.action
            == Action::BroadcastMessage) && command.data is None ==> o.messages@.len() == 0
            && replies_error(
            o,
            RoomErrorView::MissingData(command.room_id@, command.user_id@, command.action),
        ),
        // A direct message: delivered when the target is in the room, and always
        // answered with `TargetUserNotFound`.
        command.action == Action::SendDirectMessage && command.data is Some ==> {
            let parts = message_parts(opt_view(command.data)->0);
            &&& replies_error(o, RoomErrorView::TargetUserNotFound(command.room_id@, parts.0))
            &&& (o.messages@.len() == 1 <==> old(rooms)@.dom().contains(command.room_id@)
                && crate::members::has_member(old(rooms)@[command.room_id@], parts.0))
            &&& o.messages@.len() <= 1
            &&& o.messages@.len() == 1 ==> message_is(o.messages@[0], user.uid(), parts.0, parts.1)
        },
        // A broadcast: to every member, the sender included, when the room exists.
        command.action == Action::BroadcastMessage && command.data is Some ==> {
            let parts = message_parts(opt_view(command.data)->0);
            if old(rooms)@.dom().contains(command.room_id@) {
                &&& o.reply is Unanswered
                &&& o.messages@.len() == old(rooms)@[command.room_id@].len()
                &&& forall|i: int|
                    0 <= i < o.messages@.len() ==> message_is(
                        #[trigger] o.messages@[i],
                        user.uid(),
                        old(rooms)@[command.room_id@][i].uid(),
                        parts.1,
                    )
            } else {
                &&& o.messages@.len() == 0
                &&& replies_error(o, RoomErrorView::LockFailed)
            }
        },
        // Commands that change no room.
        !(command.action == Action::CreateRoom || command.action == Action::JoinRoom
            || command.action == Action::LeaveRoom) ==> final(rooms)@ == old(rooms)@,
        command.action == Action::Error ==> o.reply is Ignore,
{
    let none_notices: Vec<RoomAction> = Vec::new();
    let none_messages: Vec<DirectMessage> = Vec::new();
    match command.action {
        Action::CreateRoom => {
            let reply = match rooms.create_room(user) {
                Ok(a) => RoomResponse::Success(a),
                Err(e) => RoomResponse::Error(e),
            };
            CommandOutcome { notices: none_notices, messages: none_messages, reply: Reply::Respond(reply) }
        },
        Action::JoinRoom => {
            match rooms.join_room(&command.room_id, user) {
                Ok((a, notices)) => CommandOutcome {
                    notices,
                    messages: none_messages,
                    reply: Reply::Respond(RoomResponse::Success(a)),
                },
                Err(e) => CommandOutcome {
                    notices: none_notices,
                    messages: none_messages,
                    reply: Reply::Respond(RoomResponse::Error(e)),
                },
            }
        },
        Action::LeaveRoom => {
            let reply = match rooms.leave_room(&command.room_id, &user) {
                Ok(a) => RoomResponse::Success(a),
                Err(e) => RoomResponse::Error(e),
            };
            CommandOutcome { notices: none_notices, messages: none_messages, reply: Reply::Respond(reply) }
        },
        Action::ListUsers => {
            let reply = match rooms.get_list_users_in_room(&command.room_id, &user) {
                Ok(a) => RoomResponse::Success(a),
                Err(e) => RoomResponse::Error(e),
            };
            CommandOutcome { notices: none_notices, messages: none_messages, reply: Reply::Respond(reply) }
        },
        Action::SendDirectMessage => {
            match command.data {
                Some(data) => {
                    let (target_user_id, message) = parse_direct_message_data(data.as_str());
                    let (delivery, result) = rooms.send_direct_message(
                        &command.room_id,
                        &user,
                        &target_user_id,
                        message.as_str(),
                    );
                    let mut messages: Vec<DirectMessage> = Vec::new();
                    match delivery {
                        Some(m) => {
                            messages.push(m);
                        },
                        None => {},
                    }
                    let reply = match result {
                        Ok(()) => Reply::Unanswered,
                        Err(e) => Reply::Respond(RoomResponse::Error(e)),
                    };
                    CommandOutcome { notices: none_notices, messages, reply }
                },
                None => CommandOutcome {
                    notices: none_notices,
                    messages: none_messages,
                    reply: Reply::Respond(
                        RoomResponse::Error(
                            RoomError::MissingData(
                                command.room_id,
                                command.user_id,
                                command.action,
                            ),
                        ),
                    ),
                },
            }
        },
        Action::BroadcastMessage => {
            match command.data {
                Some(data) => {
                    let (_target, message) = parse_direct_message_data(data.as_str());
                    let (messages, result) = rooms.broadcast_message_to_room(
                        &command.room_id,
                        &user,
                        message.as_str(),
                    );
                    let reply = match result {
                        Ok(()) => Reply::Unanswered,
                        Err(e) => Reply::Respond(RoomResponse::Error(e)),
                    };
                    CommandOutcome { notices: none_notices, messages, reply }
                },
                None => CommandOutcome {
                    notices: none_notices,
                    messages: none_messages,
                    reply: Reply::Respond(
                        RoomResponse::Error(
                            RoomError::MissingData(
                                command.room_id,
                                command.user_id,
                                command.action,
                            ),
                        ),
                    ),
                },
            }
        },
        Action::Error => CommandOutcome {
            notices: none_notices,
            messages: none_messages,
            reply: Reply::Ignore,
        },
    }
}

} // verus!
