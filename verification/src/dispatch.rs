//! The event dispatcher: a closed union of client actions, each routed
//! to its handler by an exhaustive match. Handlers compute the fanout
//! and the direct reply; the connection layer performs them.

use vstd::prelude::*;
use vstd::string::StringExecFns;
use crate::types::{
    UserID, ChatRoomID, ServerAction, ServerActionV, UserAction, Delivery, DeliveryV, UserV,
    ChatError,
};
use crate::chat::{
    ChatServer, ChatStateV, has_room, is_member, members_of, room_index, remove_member,
    purge_user_queue, opt_id_view, RoomV,
};
use crate::engine::{has_user, deliver_users, live_targets, deliveries_view, ids_view};
use crate::timing::{
    TimeState, TimingAction, CheckTime, has_sheet, sheet_of, start_result, stop_result,
    stop_allowed, opt_note_view, SheetEntryV,
};

verus! {

/// What one dispatched action asks the connection layer to do: the
/// live deliveries of a fanout, a direct reply to the requester, and
/// a line for the report log.
pub struct DispatchOutcome {
    pub deliveries: Vec<Delivery>,
    pub reply: Option<ServerAction>,
    pub log_line: Option<String>,
}

/// Mathematical value of a [`DispatchOutcome`].
#[verifier::ext_equal]
pub struct OutcomeV {
    pub deliveries: Seq<DeliveryV>,
    pub reply: Option<ServerActionV>,
    pub log_line: Option<Seq<char>>,
}

impl View for DispatchOutcome {
    type V = OutcomeV;

    open spec fn view(&self) -> OutcomeV {
        OutcomeV {
            deliveries: deliveries_view(self.deliveries@),
            reply: match self.reply {
                Some(a) => Some(a@),
                None => None,
            },
            log_line: match self.log_line {
                Some(l) => Some(l@),
                None => None,
            },
        }
    }
}

/// What routing one action through the dispatcher does: for every
/// variant, how the engine and the clock move and what the outcome
/// carries. Domain failures surface as an `Error` reply and leave the
/// engine untouched.
pub open spec fn dispatch_post(
    pre: ChatStateV,
    post: ChatStateV,
    pre_t: Seq<SheetEntryV>,
    post_t: Seq<SheetEntryV>,
    pre_tc: i64,
    post_tc: i64,
    user: Seq<char>,
    action: UserAction,
    out: OutcomeV,
    now: u64,
) -> bool {
    match action {
        UserAction::Message(msg) => {
            &&& match out.reply {
                None => {
                    &&& has_room(pre.rooms, msg.room@)
                    &&& post.log == pre.log.push(msg@)
                    &&& post.rooms == pre.rooms
                    &&& post.users == deliver_users(pre.users, members_of(pre.rooms,
                        msg.room@), ServerActionV::Message(msg@))
                    &&& out.deliveries == live_targets(pre.users, members_of(pre.rooms,
                        msg.room@), ServerActionV::Message(msg@))
                },
                Some(e) => e is Error && !has_room(pre.rooms, msg.room@) && post == pre,
            }
            &&& post_t == pre_t
            &&& post_tc == pre_tc
        },
        UserAction::Report(text) => {
            &&& out.log_line == Some("Report: "@ + text@)
            &&& post == pre
            &&& post_t == pre_t
            &&& post_tc == pre_tc
            &&& out.deliveries.len() == 0
            &&& out.reply is None
        },
        UserAction::Leave(room) => {
            &&& match out.reply {
                None => {
                    &&& has_room(pre.rooms, room@)
                    &&& post.rooms == pre.rooms.update(room_index(pre.rooms, room@), (RoomV {
                        id: room@,
                        members: remove_member(members_of(pre.rooms, room@), user),
                    }))
                    &&& post.users == deliver_users(purge_user_queue(pre.users, user, room@),
                        remove_member(members_of(pre.rooms, room@), user),
                        ServerActionV::Leave(room@, user))
                    &&& post.log == pre.log
                    &&& out.deliveries == live_targets(purge_user_queue(pre.users, user,
                        room@), remove_member(members_of(pre.rooms, room@), user),
                        ServerActionV::Leave(room@, user))
                },
                Some(e) => e is Error && !has_room(pre.rooms, room@) && post == pre,
            }
            &&& post_t == pre_t
            &&& post_tc == pre_tc
        },
        UserAction::Add((room, added)) => {
            &&& match out.reply {
                None => {
                    &&& has_room(pre.rooms, room@)
                    &&& has_user(pre.users, added@)
                    &&& !is_member(pre.rooms, room@, added@)
                    &&& post.rooms == pre.rooms.update(room_index(pre.rooms, room@), (RoomV {
                        id: room@,
                        members: members_of(pre.rooms, room@).push(added@),
                    }))
                    &&& post.users == deliver_users(pre.users, members_of(pre.rooms,
                        room@).push(added@), (ServerActionV::Add {
                        room: room@,
                        adder: Some(user),
                        added: added@,
                    }))
                    &&& post.log == pre.log
                    &&& out.deliveries == live_targets(pre.users, members_of(pre.rooms,
                        room@).push(added@), (ServerActionV::Add {
                        room: room@,
                        adder: Some(user),
                        added: added@,
                    }))
                },
                Some(e) => e is Error && post == pre && !(has_room(pre.rooms, room@)
                    && has_user(pre.users, added@) && !is_member(pre.rooms, room@, added@)),
            }
            &&& post_t == pre_t
            &&& post_tc == pre_tc
        },
        UserAction::ListUsers => {
            &&& out.reply matches Some(a) && a matches ServerActionV::List(ids) && ids
                == pre.users.map_values(|u: UserV| u.name)
            &&& post == pre
            &&& post_t == pre_t
            &&& post_tc == pre_tc
            &&& out.deliveries.len() == 0
        },
        UserAction::CheckTime => {
            &&& out.reply == Some(ServerActionV::TimedIn(has_sheet(pre_t, user) && sheet_of(
                pre_t, user).current is Some))
            &&& post == pre
            &&& post_t == pre_t
            &&& post_tc == pre_tc
            &&& out.deliveries.len() == 0
        },
        UserAction::TimeIn(note) => {
            &&& post_t == start_result(pre_t, user, opt_note_view(note), now)
            &&& post_tc == pre_tc
            &&& post == pre
            &&& out.deliveries.len() == 0
            &&& out.reply is None
        },
        UserAction::TimeOut(note) => {
            &&& if stop_allowed(pre_t, user) {
                post_t == stop_result(pre_t, user, opt_note_view(note), now, pre_tc) && post_tc
                    == pre_tc + 1
            } else {
                post_t == pre_t && post_tc == pre_tc
            }
            &&& post == pre
            &&& out.deliveries.len() == 0
            &&& out.reply is None
        },
        UserAction::AllowTime(_) => {
            &&& post == pre
            &&& post_t == pre_t
            &&& post_tc == pre_tc
            &&& out.deliveries.len() == 0
            &&& out.reply is None
        },
    }
}

impl DispatchOutcome {
    /// An outcome that asks for nothing.
    pub fn quiet() -> (r: Self)
        ensures
            r@.deliveries.len() == 0,
            r@.reply is None,
            r@.log_line is None,
    {
        DispatchOutcome { deliveries: Vec::new(), reply: None, log_line: None }
    }
}

/// A request to list every registered identity, answered to the
/// requester alone.
pub struct ListUsers;

impl ListUsers {
    /// Answer with the full list of registered identities.
    pub fn handle(self, server: &ChatServer) -> (r: ServerAction)
        ensures
            r matches ServerAction::List(ids) && ids_view(ids@) == server@.users.map_values(
                |u: UserV| u.name),
    {
        ServerAction::List(server.list_users())
    }
}

/// A room join or leave request arriving on the streaming path.
pub enum RoomEvent {
    Leave,
    Join,
}

/// The join/leave payload: which user, which room, which way.
pub struct RoomEgress {
    pub room_id: String,
    pub user_id: String,
    pub action: RoomEvent,
}

impl RoomEgress {
    /// Apply the membership change on behalf of the authenticated
    /// caller `user`. A join adds the payload-named user with the
    /// caller as the adder; a leave removes the caller itself — the
    /// payload may not name who leaves, so no client can move another
    /// user out of a room. A failure becomes an error reply for the
    /// caller.
    pub fn handle(self, user: &UserID, server: &mut ChatServer) -> (r: DispatchOutcome)
        requires
            old(server).wf(),
        ensures
            final(server).wf(),
            ({
                let room = self.room_id@;
                let added = self.user_id@;
                match self.action {
                    RoomEvent::Join => match r.reply {
                        None => {
                            &&& has_room(old(server)@.rooms, room)
                            &&& has_user(old(server)@.users, added)
                            &&& !is_member(old(server)@.rooms, room, added)
                            &&& deliveries_view(r.deliveries@) == live_targets(
                                old(server)@.users, members_of(old(server)@.rooms, room).push(
                                    added), (ServerActionV::Add {
                                    room: room,
                                    adder: Some(user@),
                                    added: added,
                                }))
                        },
                        Some(e) => e is Error && final(server)@ == old(server)@
                            && r.deliveries@.len() == 0 && !(has_room(old(server)@.rooms, room)
                            && has_user(old(server)@.users, added) && !is_member(
                            old(server)@.rooms, room, added)),
                    },
                    RoomEvent::Leave => match r.reply {
                        None => {
                            &&& has_room(old(server)@.rooms, room)
                            &&& deliveries_view(r.deliveries@) == live_targets(purge_user_queue(
                                old(server)@.users, user@, room), remove_member(members_of(
                                old(server)@.rooms, room), user@), ServerActionV::Leave(room,
                                user@))
                        },
                        Some(e) => e is Error && final(server)@ == old(server)@
                            && r.deliveries@.len() == 0 && !has_room(old(server)@.rooms, room),
                    },
                }
            }),
    {
        let room = ChatRoomID(self.room_id);
        match self.action {
            RoomEvent::Join => {
                let added = UserID(self.user_id);
                match server.add_member(&room, &added, Some(user.clone())) {
                    Ok(deliveries) => DispatchOutcome {
                        deliveries,
                        reply: None,
                        log_line: None,
                    },
                    Err(e) => DispatchOutcome {
                        deliveries: Vec::new(),
                        reply: Some(ServerAction::Error(e.text())),
                        log_line: None,
                    },
                }
            },
            RoomEvent::Leave => match server.leave(&room, user) {
                Ok(deliveries) => DispatchOutcome { deliveries, reply: None, log_line: None },
                Err(e) => DispatchOutcome {
                    deliveries: Vec::new(),
                    reply: Some(ServerAction::Error(e.text())),
                    log_line: None,
                },
            },
        }
    }
}

/// Route one client action to its handler. Domain failures surface as
/// an `Error` reply to the requester — one error-reporting contract
/// for the whole streaming path — and never tear anything down.
pub fn dispatch(
    server: &mut ChatServer,
    time: &mut TimeState,
    user: &UserID,
    action: UserAction,
    now: u64,
) -> (r: DispatchOutcome)
    requires
        old(server).wf(),
        old(time).wf(),
        old(time).id_counter < i64::MAX,
    ensures
        final(server).wf(),
        final(time).wf(),
        dispatch_post(old(server)@, final(server)@, old(time)@, final(time)@,
            old(time).id_counter, final(time).id_counter, user@, action, r@, now),
{
    match action {
        UserAction::Message(msg) => match server.send_message(msg) {
            Ok(deliveries) => DispatchOutcome { deliveries, reply: None, log_line: None },
            Err(e) => DispatchOutcome {
                deliveries: Vec::new(),
                reply: Some(ServerAction::Error(e.text())),
                log_line: None,
            },
        },
        UserAction::Report(text) => {
            let mut line = String::from_str("Report: ");
            line.append(text.as_str());
            DispatchOutcome { deliveries: Vec::new(), reply: None, log_line: Some(line) }
        },
        UserAction::Leave(room) => match server.leave(&room, user) {
            Ok(deliveries) => DispatchOutcome { deliveries, reply: None, log_line: None },
            Err(e) => DispatchOutcome {
                deliveries: Vec::new(),
                reply: Some(ServerAction::Error(e.text())),
                log_line: None,
            },
        },
        UserAction::Add((room, added)) => match server.add_member(&room, &added, Some(
            user.clone())) {
            Ok(deliveries) => DispatchOutcome { deliveries, reply: None, log_line: None },
            Err(e) => DispatchOutcome {
                deliveries: Vec::new(),
                reply: Some(ServerAction::Error(e.text())),
                log_line: None,
            },
        },
        UserAction::ListUsers => DispatchOutcome {
            deliveries: Vec::new(),
            reply: Some(ListUsers.handle(server)),
            log_line: None,
        },
        UserAction::CheckTime => DispatchOutcome {
            deliveries: Vec::new(),
            reply: Some(CheckTime.handle(user, time)),
            log_line: None,
        },
        UserAction::TimeIn(note) => {
            TimingAction { action: crate::timing::ClockType::TimeIn, note }.handle(user, time,
                now);
            DispatchOutcome::quiet()
        },
        UserAction::TimeOut(note) => {
            TimingAction { action: crate::timing::ClockType::TimeOut, note }.handle(user, time,
                now);
            DispatchOutcome::quiet()
        },
        UserAction::AllowTime(_) => DispatchOutcome::quiet(),
    }
}

} // verus!
