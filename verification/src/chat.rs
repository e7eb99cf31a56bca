//! The chat engine proper: the room directory, the message log, and
//! the operations the request and streaming paths dispatch into —
//! room creation, membership changes, and message fanout.

use vstd::prelude::*;
use vstd::string::StringExecFns;
use crate::types::{
    UserID, ChatRoomID, ChatMessage, ChatMessageV, ServerAction, ServerActionV, UserStatus,
    UserStatusV, User, UserV, Delivery, ChatError,
};
use crate::engine::{
    UserDB, ids_view, actions_view, deliveries_view, has_user, user_of, user_index,
    is_connected, deliver_users, live_targets, unique_names, unique_ids, lemma_take_push,
};

verus! {

/// A chat room: identity and the ordered set of its members.
pub struct Room {
    pub id: ChatRoomID,
    pub members: Vec<UserID>,
}

/// Mathematical value of a [`Room`].
#[verifier::ext_equal]
pub struct RoomV {
    pub id: Seq<char>,
    pub members: Seq<Seq<char>>,
}

impl View for Room {
    type V = RoomV;

    open spec fn view(&self) -> RoomV {
        RoomV { id: self.id@, members: ids_view(self.members@) }
    }
}

/// View of a sequence of rooms.
pub open spec fn rooms_view(v: Seq<Room>) -> Seq<RoomV> {
    v.map_values(|r: Room| r@)
}

/// View of a sequence of messages.
pub open spec fn msgs_view(v: Seq<ChatMessage>) -> Seq<ChatMessageV> {
    v.map_values(|m: ChatMessage| m@)
}

/// Whether a room with this identity exists.
pub open spec fn has_room(rooms: Seq<RoomV>, id: Seq<char>) -> bool {
    exists|i: int| 0 <= i < rooms.len() && #[trigger] rooms[i].id == id
}

/// The index of the room with this identity (meaningful under `has_room`).
pub open spec fn room_index(rooms: Seq<RoomV>, id: Seq<char>) -> int {
    choose|i: int| 0 <= i < rooms.len() && #[trigger] rooms[i].id == id
}

/// The membership of the room with this identity.
pub open spec fn members_of(rooms: Seq<RoomV>, id: Seq<char>) -> Seq<Seq<char>> {
    rooms[room_index(rooms, id)].members
}

/// Whether `name` is a member of the room with this identity.
pub open spec fn is_member(rooms: Seq<RoomV>, id: Seq<char>, name: Seq<char>) -> bool {
    has_room(rooms, id) && members_of(rooms, id).contains(name)
}

/// No two rooms share an identity.
pub open spec fn unique_rooms(rooms: Seq<RoomV>) -> bool {
    forall|i: int, j: int|
        0 <= i < j < rooms.len() ==> #[trigger] rooms[i].id != #[trigger] rooms[j].id
}

/// With unique room identities, the chosen index for the identity that
/// room `i` carries is `i` itself.
pub proof fn lemma_room_index_unique(rooms: Seq<RoomV>, i: int)
    requires
        unique_rooms(rooms),
        0 <= i < rooms.len(),
    ensures
        room_index(rooms, rooms[i].id) == i,
        has_room(rooms, rooms[i].id),
        members_of(rooms, rooms[i].id) == rooms[i].members,
{
    assert(has_room(rooms, rooms[i].id));
    let j = room_index(rooms, rooms[i].id);
    if i < j {
        assert(rooms[i].id != rooms[j].id);
    } else if j < i {
        assert(rooms[j].id != rooms[i].id);
    }
}

/// The requested member list, filtered to registered identities, with
/// duplicates dropped (first occurrence kept).
pub open spec fn dedup_filter(users: Seq<UserV>, req: Seq<Seq<char>>) -> Seq<Seq<char>>
    decreases req.len(),
{
    if req.len() == 0 {
        Seq::empty()
    } else {
        let rest = dedup_filter(users, req.drop_last());
        if has_user(users, req.last()) && !rest.contains(req.last()) {
            rest.push(req.last())
        } else {
            rest
        }
    }
}

/// The membership a newly created room receives: the requested list
/// with the creator appended, filtered to registered identities, with
/// duplicates dropped.
pub open spec fn creation_members(
    users: Seq<UserV>,
    req: Seq<Seq<char>>,
    creator: Seq<char>,
) -> Seq<Seq<char>> {
    dedup_filter(users, req.push(creator))
}

/// A membership list with one identity removed.
pub open spec fn remove_member(members: Seq<Seq<char>>, name: Seq<char>) -> Seq<Seq<char>>
    decreases members.len(),
{
    if members.len() == 0 {
        Seq::empty()
    } else {
        let rest = remove_member(members.drop_last(), name);
        if members.last() == name {
            rest
        } else {
            rest.push(members.last())
        }
    }
}

/// A queue with every event scoped to `room` purged.
pub open spec fn purge_actions(q: Seq<ServerActionV>, room: Seq<char>) -> Seq<ServerActionV>
    decreases q.len(),
{
    if q.len() == 0 {
        Seq::empty()
    } else {
        let rest = purge_actions(q.drop_last(), room);
        if crate::types::action_room_view(q.last()) == Some(room) {
            rest
        } else {
            rest.push(q.last())
        }
    }
}

/// The registry after every queued event scoped to `room` is purged
/// from the queue of the user named `name`; everyone else untouched.
pub open spec fn purge_user_queue(
    users: Seq<UserV>,
    name: Seq<char>,
    room: Seq<char>,
) -> Seq<UserV> {
    Seq::new(users.len(), |i: int|
        if users[i].name == name && users[i].status is Inactive {
            UserV {
                status: UserStatusV::Inactive {
                    queue: purge_actions(users[i].status->queue, room),
                },
                ..users[i]
            }
        } else {
            users[i]
        })
}

/// View of an optional identity.
pub open spec fn opt_id_view(o: Option<UserID>) -> Option<Seq<char>> {
    match o {
        Some(a) => Some(a@),
        None => None,
    }
}

/// Leaving purges exactly the events scoped to the left room: nothing
/// scoped to it survives, and every survivor was queued before, in its
/// original order.
pub proof fn lemma_purge_scoped(q: Seq<ServerActionV>, room: Seq<char>)
    ensures
        forall|k: int|
            0 <= k < purge_actions(q, room).len() ==> crate::types::action_room_view(
                #[trigger] purge_actions(q, room)[k]) != Some(room),
        forall|k: int|
            0 <= k < purge_actions(q, room).len() ==> q.contains(
                #[trigger] purge_actions(q, room)[k]),
    decreases q.len(),
{
    if q.len() == 0 {
    } else {
        lemma_purge_scoped(q.drop_last(), room);
        let rest = purge_actions(q.drop_last(), room);
        assert forall|k: int| 0 <= k < rest.len() implies q.contains(rest[k]) by {
            let x = choose|x: int| 0 <= x < q.drop_last().len() && q.drop_last()[x] == rest[k];
            assert(q[x] == rest[k]);
        }
        if crate::types::action_room_view(q.last()) != Some(room) {
            assert(purge_actions(q, room) == rest.push(q.last()));
            assert(q.contains(q.last())) by {
                assert(q[q.len() - 1] == q.last());
            }
        }
    }
}

/// Removing a member keeps the list duplicate-free, drops every
/// occurrence of the removed identity, and invents nobody.
pub proof fn lemma_remove_member_props(members: Seq<Seq<char>>, name: Seq<char>)
    requires
        unique_ids(members),
    ensures
        unique_ids(remove_member(members, name)),
        !remove_member(members, name).contains(name),
        forall|k: int|
            0 <= k < remove_member(members, name).len() ==> members.contains(
                #[trigger] remove_member(members, name)[k]),
    decreases members.len(),
{
    if members.len() == 0 {
    } else {
        assert(unique_ids(members.drop_last()));
        lemma_remove_member_props(members.drop_last(), name);
        let rest = remove_member(members.drop_last(), name);
        assert forall|k: int| 0 <= k < rest.len() implies members.contains(rest[k]) by {
            let x = choose|x: int|
                0 <= x < members.drop_last().len() && members.drop_last()[x] == rest[k];
            assert(members[x] == rest[k]);
        }
        if members.last() != name {
            assert(!rest.contains(members.last())) by {
                if rest.contains(members.last()) {
                    let k = choose|k: int| 0 <= k < rest.len() && rest[k] == members.last();
                    let x = choose|x: int|
                        0 <= x < members.drop_last().len() && members.drop_last()[x] == rest[k];
                    assert(members[x] == members[members.len() - 1]);
                }
            }
            let out = rest.push(members.last());
            assert forall|i: int, j: int|
                0 <= i < j < out.len() implies #[trigger] out[i] != #[trigger] out[j] by {
                if j < rest.len() {
                    assert(rest[i] != rest[j]);
                } else {
                    if rest[i] == members.last() {
                        assert(rest.contains(members.last()));
                    }
                }
            }
            assert forall|k: int| 0 <= k < out.len() implies out[k] != name by {
                if k < rest.len() {
                    assert(!rest.contains(name));
                    if rest[k] == name {
                        assert(rest.contains(name));
                    }
                }
            }
            assert(!out.contains(name)) by {
                if out.contains(name) {
                    let k = choose|k: int| 0 <= k < out.len() && out[k] == name;
                }
            }
        }
    }
}

/// The catch-up notices a connecting user receives: one membership
/// notice per room the user belongs to, in directory order.
pub open spec fn room_notices(rooms: Seq<RoomV>, name: Seq<char>) -> Seq<ServerActionV>
    decreases rooms.len(),
{
    if rooms.len() == 0 {
        Seq::empty()
    } else {
        let rest = room_notices(rooms.drop_last(), name);
        if rooms.last().members.contains(name) {
            rest.push(ServerActionV::Add { room: rooms.last().id, adder: None, added: name })
        } else {
            rest
        }
    }
}

/// What `dedup_filter` yields: a duplicate-free list of registered
/// identities, each drawn from the request.
pub proof fn lemma_dedup_filter_props(users: Seq<UserV>, req: Seq<Seq<char>>)
    ensures
        unique_ids(dedup_filter(users, req)),
        forall|k: int|
            0 <= k < dedup_filter(users, req).len() ==> has_user(users, #[trigger] dedup_filter(
                users, req)[k]),
    decreases req.len(),
{
    if req.len() == 0 {
    } else {
        lemma_dedup_filter_props(users, req.drop_last());
        let rest = dedup_filter(users, req.drop_last());
        if has_user(users, req.last()) && !rest.contains(req.last()) {
            assert forall|i: int| 0 <= i < rest.len() implies rest[i] != req.last() by {
                if rest[i] == req.last() {
                    assert(rest.contains(req.last()));
                }
            }
        }
    }
}

/// Room creation always includes the creator: a registered creator is a
/// member of the filtered list, so the list is never empty for one.
pub proof fn lemma_creator_included(users: Seq<UserV>, req: Seq<Seq<char>>, creator: Seq<char>)
    requires
        has_user(users, creator),
    ensures
        creation_members(users, req, creator).contains(creator),
        creation_members(users, req, creator).len() > 0,
{
    let all = req.push(creator);
    assert(all.drop_last() =~= req);
    assert(all.last() == creator);
    let rest = dedup_filter(users, req);
    if rest.contains(creator) {
        assert(creation_members(users, req, creator) == rest);
    } else {
        assert(creation_members(users, req, creator) == rest.push(creator));
        assert(rest.push(creator)[rest.len() as int] == creator);
        assert(rest.push(creator).contains(creator));
    }
}

/// Adding a member is not idempotent by design: the membership a
/// successful `add_member` leaves behind contains the added user, so a
/// second add of the same user to the same room must conflict, never
/// be silently accepted.
pub proof fn lemma_add_not_idempotent(rooms: Seq<RoomV>, room: Seq<char>, user: Seq<char>)
    requires
        unique_rooms(rooms),
        has_room(rooms, room),
    ensures
        is_member(rooms.update(room_index(rooms, room),
            (RoomV { id: room, members: members_of(rooms, room).push(user) })), room, user),
{
    let i = room_index(rooms, room);
    let grown = members_of(rooms, room).push(user);
    let post = rooms.update(i, (RoomV { id: room, members: grown }));
    assert(post[i].id == room);
    assert(has_room(post, room));
    assert(unique_rooms(post)) by {
        assert forall|x: int, y: int|
            0 <= x < y < post.len() implies #[trigger] post[x].id != #[trigger] post[y].id by {
            assert(rooms[x].id != rooms[y].id);
            assert(rooms[i].id == room);
        }
    }
    lemma_room_index_unique(post, i);
    assert(grown[grown.len() - 1] == user);
    assert(grown.contains(user));
}

/// A user connecting holds the only live session: the registry a
/// successful `connect` leaves behind shows the user connected, so a
/// second attempt for the same identity must be rejected — of two
/// racing connection attempts exactly one succeeds.
pub proof fn lemma_second_connect_conflicts(users: Seq<UserV>, name: Seq<char>)
    requires
        unique_names(users),
        has_user(users, name),
    ensures
        is_connected(users.update(user_index(users, name),
            (UserV { status: UserStatusV::Active, ..user_of(users, name) })), name),
{
    let i = user_index(users, name);
    let post = users.update(i, (UserV { status: UserStatusV::Active, ..user_of(users, name) }));
    assert(post[i].name == name);
    assert(unique_names(post)) by {
        assert forall|x: int, y: int|
            0 <= x < y < post.len() implies #[trigger] post[x].name
            != #[trigger] post[y].name by {
            assert(users[x].name != users[y].name);
        }
    }
    crate::engine::lemma_user_index_unique(post, i);
}

/// View of a sequence of room identities.
pub open spec fn room_ids_view(v: Seq<ChatRoomID>) -> Seq<Seq<char>> {
    v.map_values(|r: ChatRoomID| r@)
}

/// The identities of the rooms a user belongs to, in directory order.
pub open spec fn rooms_of(rooms: Seq<RoomV>, name: Seq<char>) -> Seq<Seq<char>>
    decreases rooms.len(),
{
    if rooms.len() == 0 {
        Seq::empty()
    } else {
        let rest = rooms_of(rooms.drop_last(), name);
        if rooms.last().members.contains(name) {
            rest.push(rooms.last().id)
        } else {
            rest
        }
    }
}

/// Copy a list of identities.
pub(crate) fn clone_ids(v: &Vec<UserID>) -> (r: Vec<UserID>)
    ensures
        r@ == v@,
{
    let mut out: Vec<UserID> = Vec::new();
    let mut i: usize = 0;
    while i < v.len()
        invariant
            i <= v.len(),
            out@.len() == i,
            forall|k: int| 0 <= k < i ==> out@[k] == v@[k],
        decreases v.len() - i,
    {
        out.push(v[i].clone());
        i = i + 1;
    }
    proof {
        assert(out@ =~= v@);
    }
    out
}

/// Whether an identity occurs in a list.
pub(crate) fn contains_id(v: &Vec<UserID>, id: &UserID) -> (r: bool)
    ensures
        r == ids_view(v@).contains(id@),
{
    let mut i: usize = 0;
    while i < v.len()
        invariant
            i <= v.len(),
            forall|k: int| 0 <= k < i ==> #[trigger] v@[k]@ != id@,
        decreases v.len() - i,
    {
        if v[i].0 == id.0 {
            proof {
                assert(ids_view(v@)[i as int] == id@);
            }
            return true;
        }
        i = i + 1;
    }
    proof {
        if ids_view(v@).contains(id@) {
            let k = choose|k: int| 0 <= k < v@.len() && ids_view(v@)[k] == id@;
            assert(v@[k]@ == id@);
        }
    }
    false
}

/// The whole engine state: user registry, room directory, and the
/// persistent message log, all owned by one process.
pub struct ChatServer {
    pub users: UserDB,
    pub rooms: Vec<Room>,
    pub log: Vec<ChatMessage>,
}

/// Mathematical value of the engine state.
#[verifier::ext_equal]
pub struct ChatStateV {
    pub users: Seq<UserV>,
    pub rooms: Seq<RoomV>,
    pub log: Seq<ChatMessageV>,
}

impl View for ChatServer {
    type V = ChatStateV;

    open spec fn view(&self) -> ChatStateV {
        ChatStateV {
            users: self.users@,
            rooms: rooms_view(self.rooms@),
            log: msgs_view(self.log@),
        }
    }
}

impl ChatServer {
    /// The engine invariant: one registry entry per identity, one room
    /// per identity, and no duplicate members within a room.
    pub open spec fn wf(&self) -> bool {
        &&& unique_names(self@.users)
        &&& unique_rooms(self@.rooms)
        &&& forall|i: int|
            0 <= i < self@.rooms.len() ==> unique_ids(#[trigger] self@.rooms[i].members)
    }

    /// A fresh engine with no users, rooms, or history.
    pub fn new() -> (r: Self)
        ensures
            r.wf(),
            r@.users == Seq::<UserV>::empty(),
            r@.rooms == Seq::<RoomV>::empty(),
            r@.log == Seq::<ChatMessageV>::empty(),
    {
        let r = ChatServer { users: UserDB::new(), rooms: Vec::new(), log: Vec::new() };
        proof {
            assert(r@.rooms =~= Seq::<RoomV>::empty());
            assert(r@.log =~= Seq::<ChatMessageV>::empty());
        }
        r
    }

    /// Position of the room with this identity, if any.
    fn find_room(&self, id: &ChatRoomID) -> (r: Option<usize>)
        ensures
            match r {
                Some(i) => i < self@.rooms.len() && self@.rooms[i as int].id == id@,
                None => !has_room(self@.rooms, id@),
            },
    {
        let mut i: usize = 0;
        while i < self.rooms.len()
            invariant
                i <= self.rooms.len(),
                forall|k: int| 0 <= k < i ==> #[trigger] self@.rooms[k].id != id@,
            decreases self.rooms.len() - i,
        {
            if self.rooms[i].id.0 == id.0 {
                return Some(i);
            }
            i = i + 1;
        }
        None
    }

    /// Fan a message out to its room: append it to the log, deliver it
    /// live to every connected member (the sender included), and queue
    /// it for every disconnected member. Fails, changing nothing, iff
    /// the room does not exist.
    pub fn send_message(&mut self, msg: ChatMessage) -> (r: Result<Vec<Delivery>, ChatError>)
        requires
            old(self).wf(),
        ensures
            final(self).wf(),
            match r {
                Ok(d) => {
                    &&& has_room(old(self)@.rooms, msg.room@)
                    &&& final(self)@.rooms == old(self)@.rooms
                    &&& final(self)@.log == old(self)@.log.push(msg@)
                    &&& final(self)@.users == deliver_users(old(self)@.users, members_of(
                        old(self)@.rooms, msg.room@), ServerActionV::Message(msg@))
                    &&& deliveries_view(d@) == live_targets(old(self)@.users, members_of(
                        old(self)@.rooms, msg.room@), ServerActionV::Message(msg@))
                },
                Err(e) => {
                    &&& e is RoomNotFound
                    &&& !has_room(old(self)@.rooms, msg.room@)
                    &&& final(self)@ == old(self)@
                },
            },
    {
        let ghost pre = self@;
        match self.find_room(&msg.room) {
            None => Err(ChatError::RoomNotFound),
            Some(i) => {
                proof {
                    lemma_room_index_unique(pre.rooms, i as int);
                }
                let members = clone_ids(&self.rooms[i].members);
                let ghost m = msg@;
                self.log.push(msg.clone());
                proof {
                    assert(self@.log =~~= pre.log.push(m));
                    assert(self@.rooms =~~= pre.rooms);
                    assert(ids_view(members@) == members_of(pre.rooms, m.room));
                }
                let d = self.users.write_to(msg, &members);
                proof {
                    assert(self@.rooms =~~= pre.rooms);
                }
                Ok(d)
            },
        }
    }

    /// Create a room. The requested member list is filtered to
    /// registered identities and de-duplicated, and the creator is
    /// always considered even when omitted from the request. Fails,
    /// changing nothing, iff the identity is taken or the filtered
    /// member list is empty. On success, a synthetic "created the
    /// room" message from the system sender is fanned out to the new
    /// room's members.
    pub fn create_room(
        &mut self,
        name: ChatRoomID,
        requested: Vec<UserID>,
        creator: UserID,
        now: u64,
    ) -> (r: Result<Vec<Delivery>, ChatError>)
        requires
            old(self).wf(),
        ensures
            final(self).wf(),
            ({
                let mems = creation_members(old(self)@.users, ids_view(requested@), creator@);
                let m = (ChatMessageV {
                    sender: "admin"@,
                    room: name@,
                    content: creator@ + " created the room"@,
                    timestamp: now,
                });
                match r {
                    Ok(d) => {
                        &&& !has_room(old(self)@.rooms, name@)
                        &&& mems.len() > 0
                        &&& final(self)@.rooms == old(self)@.rooms.push(
                            (RoomV { id: name@, members: mems }))
                        &&& final(self)@.log == old(self)@.log.push(m)
                        &&& final(self)@.users == deliver_users(old(self)@.users, mems,
                            ServerActionV::Message(m))
                        &&& deliveries_view(d@) == live_targets(old(self)@.users, mems,
                            ServerActionV::Message(m))
                    },
                    Err(e) => {
                        &&& final(self)@ == old(self)@
                        &&& match e {
                            ChatError::RoomExists => has_room(old(self)@.rooms, name@),
                            ChatError::EmptyRoom => !has_room(old(self)@.rooms, name@)
                                && mems.len() == 0,
                            _ => false,
                        }
                    },
                }
            }),
    {
        let ghost pre = self@;
        if self.find_room(&name).is_some() {
            return Err(ChatError::RoomExists);
        }
        let ghost req0 = ids_view(requested@);
        let mut cand = requested;
        cand.push(creator.clone());
        let ghost candv = ids_view(cand@);
        proof {
            assert(candv =~= req0.push(creator@));
        }
        let mut members: Vec<UserID> = Vec::new();
        let mut k: usize = 0;
        proof {
            assert(ids_view(members@) =~= dedup_filter(pre.users, candv.take(0)));
        }
        while k < cand.len()
            invariant
                k <= cand.len(),
                candv == ids_view(cand@),
                candv.len() == cand@.len(),
                self@ == pre,
                self.wf(),
                ids_view(members@) == dedup_filter(pre.users, candv.take(k as int)),
            decreases cand.len() - k,
        {
            proof {
                lemma_take_push(candv, k as int);
                assert(candv.take(k + 1).drop_last() =~= candv.take(k as int));
                assert(candv.take(k + 1).last() == candv[k as int]);
                assert(cand@[k as int]@ == candv[k as int]);
            }
            if self.users.index_of(&cand[k]).is_some() && !contains_id(&members, &cand[k]) {
                members.push(cand[k].clone());
                proof {
                    assert(ids_view(members@) =~= dedup_filter(pre.users, candv.take(k + 1)));
                }
            } else {
                proof {
                    assert(ids_view(members@) =~= dedup_filter(pre.users, candv.take(k + 1)));
                }
            }
            k = k + 1;
        }
        proof {
            assert(candv.take(cand@.len() as int) =~= candv);
            assert(ids_view(members@) == creation_members(pre.users, req0, creator@));
            lemma_dedup_filter_props(pre.users, candv);
        }
        if members.is_empty() {
            return Err(ChatError::EmptyRoom);
        }
        let ghost mems = ids_view(members@);
        let mut content = creator.0.clone();
        content.append(" created the room");
        let room_for_msg = name.clone();
        let member_list = clone_ids(&members);
        self.rooms.push(Room { id: name, members: members });
        proof {
            assert(self@.rooms =~~= pre.rooms.push((RoomV { id: room_for_msg@, members: mems })));
            assert(self@.users == pre.users);
            assert(self@.log =~~= pre.log);
            assert forall|i: int, j: int|
                0 <= i < j < self@.rooms.len() implies #[trigger] self@.rooms[i].id
                != #[trigger] self@.rooms[j].id by {
                if j < pre.rooms.len() {
                    assert(pre.rooms[i].id != pre.rooms[j].id);
                } else {
                    assert(self@.rooms[j].id == room_for_msg@);
                    if pre.rooms[i].id == room_for_msg@ {
                        assert(has_room(pre.rooms, room_for_msg@));
                    }
                }
            }
        }
        let msg = ChatMessage {
            sender: UserID(String::from_str("admin")),
            room: room_for_msg,
            content,
            timestamp: now,
        };
        let ghost m = msg@;
        self.log.push(msg.clone());
        proof {
            assert(self@.log =~~= pre.log.push(m));
            assert(self@.rooms == pre.rooms.push((RoomV { id: m.room, members: mems })));
        }
        let ghost mid = self@;
        let d = self.users.deliver_all(ServerAction::Message(msg), &member_list);
        proof {
            assert(self@.rooms == mid.rooms);
            assert(self@.log == mid.log);
        }
        Ok(d)
    }

    /// Add a user to a room. Fails, changing nothing, iff the room does
    /// not exist, the user is not registered, or the user is already a
    /// member: adding twice is a conflict, never silently accepted. On
    /// success a membership notice is fanned out to the room, the new
    /// member included.
    pub fn add_member(
        &mut self,
        room: &ChatRoomID,
        added: &UserID,
        adder: Option<UserID>,
    ) -> (r: Result<Vec<Delivery>, ChatError>)
        requires
            old(self).wf(),
        ensures
            final(self).wf(),
            ({
                let grown = members_of(old(self)@.rooms, room@).push(added@);
                let a = (ServerActionV::Add {
                    room: room@,
                    adder: opt_id_view(adder),
                    added: added@,
                });
                match r {
                    Ok(d) => {
                        &&& has_room(old(self)@.rooms, room@)
                        &&& has_user(old(self)@.users, added@)
                        &&& !is_member(old(self)@.rooms, room@, added@)
                        &&& final(self)@.rooms == old(self)@.rooms.update(room_index(
                            old(self)@.rooms, room@), (RoomV { id: room@, members: grown }))
                        &&& final(self)@.users == deliver_users(old(self)@.users, grown, a)
                        &&& deliveries_view(d@) == live_targets(old(self)@.users, grown, a)
                        &&& final(self)@.log == old(self)@.log
                    },
                    Err(e) => {
                        &&& final(self)@ == old(self)@
                        &&& match e {
                            ChatError::RoomNotFound => !has_room(old(self)@.rooms, room@),
                            ChatError::UserNotFound => has_room(old(self)@.rooms, room@)
                                && !has_user(old(self)@.users, added@),
                            ChatError::AlreadyMember => has_room(old(self)@.rooms, room@)
                                && has_user(old(self)@.users, added@) && is_member(
                                old(self)@.rooms, room@, added@),
                            _ => false,
                        }
                    },
                }
            }),
    {
        let ghost pre = self@;
        let Some(ri) = self.find_room(room) else {
            return Err(ChatError::RoomNotFound);
        };
        proof {
            lemma_room_index_unique(pre.rooms, ri as int);
        }
        if self.users.index_of(added).is_none() {
            return Err(ChatError::UserNotFound);
        }
        if contains_id(&self.rooms[ri].members, added) {
            return Err(ChatError::AlreadyMember);
        }
        let ghost adv = opt_id_view(adder);
        let mut rm = self.rooms.remove(ri);
        rm.members.push(added.clone());
        let member_list = clone_ids(&rm.members);
        let ghost grown = ids_view(rm.members@);
        proof {
            assert(grown =~= members_of(pre.rooms, room@).push(added@));
        }
        self.rooms.insert(ri, rm);
        proof {
            assert(self@.rooms =~~= pre.rooms.update(ri as int,
                (RoomV { id: room@, members: grown })));
            assert(self@.users == pre.users);
            assert(self@.log =~~= pre.log);
            assert forall|i: int, j: int|
                0 <= i < j < self@.rooms.len() implies #[trigger] self@.rooms[i].id
                != #[trigger] self@.rooms[j].id by {
                assert(pre.rooms[i].id != pre.rooms[j].id);
            }
            assert forall|i: int|
                0 <= i < self@.rooms.len() implies unique_ids(
                #[trigger] self@.rooms[i].members) by {
                if i == ri {
                    let oldm = pre.rooms[ri as int].members;
                    assert(unique_ids(oldm));
                    assert forall|x: int, y: int|
                        0 <= x < y < grown.len() implies #[trigger] grown[x]
                        != #[trigger] grown[y] by {
                        if y < oldm.len() {
                            assert(oldm[x] != oldm[y]);
                        } else {
                            if oldm[x] == added@ {
                                assert(oldm.contains(added@));
                            }
                        }
                    }
                } else {
                    assert(unique_ids(pre.rooms[i].members));
                }
            }
        }
        let action = ServerAction::Add { room: room.clone(), adder, added: added.clone() };
        proof {
            assert(action@ == (ServerActionV::Add { room: room@, adder: adv, added: added@ }));
        }
        let ghost mid = self@;
        let d = self.users.deliver_all(action, &member_list);
        proof {
            assert(self@.rooms == mid.rooms);
            assert(self@.log == mid.log);
        }
        Ok(d)
    }

    /// Remove a user from a room: the membership entry goes, every
    /// queued-but-undelivered event scoped to the room is purged from
    /// the user's queue, and a leave notice is fanned out to the
    /// now-reduced room. Fails, changing nothing, iff the room does
    /// not exist; leaving a room one is not in removes nothing.
    pub fn leave(&mut self, room: &ChatRoomID, user: &UserID) -> (r: Result<
        Vec<Delivery>,
        ChatError,
    >)
        requires
            old(self).wf(),
        ensures
            final(self).wf(),
            ({
                let reduced = remove_member(members_of(old(self)@.rooms, room@), user@);
                let purged = purge_user_queue(old(self)@.users, user@, room@);
                let a = ServerActionV::Leave(room@, user@);
                match r {
                    Ok(d) => {
                        &&& has_room(old(self)@.rooms, room@)
                        &&& final(self)@.rooms == old(self)@.rooms.update(room_index(
                            old(self)@.rooms, room@), (RoomV { id: room@, members: reduced }))
                        &&& final(self)@.users == deliver_users(purged, reduced, a)
                        &&& deliveries_view(d@) == live_targets(purged, reduced, a)
                        &&& final(self)@.log == old(self)@.log
                    },
                    Err(e) => {
                        &&& final(self)@ == old(self)@
                        &&& e is RoomNotFound
                        &&& !has_room(old(self)@.rooms, room@)
                    },
                }
            }),
    {
        let ghost pre = self@;
        let Some(ri) = self.find_room(room) else {
            return Err(ChatError::RoomNotFound);
        };
        proof {
            lemma_room_index_unique(pre.rooms, ri as int);
        }
        // purge the leaver's queue of events scoped to this room
        match self.users.index_of(user) {
            None => {
                proof {
                    assert(self.users@ =~~= purge_user_queue(pre.users, user@, room@));
                }
            },
            Some(ui) => {
                proof {
                    crate::engine::lemma_user_index_unique(pre.users, ui as int);
                }
                let u = self.users.0.remove(ui);
                let User { name: uname, status: ust, password: upw } = u;
                match ust {
                    UserStatus::Active => {
                        self.users.0.insert(ui, User {
                            name: uname,
                            status: UserStatus::Active,
                            password: upw,
                        });
                        proof {
                            assert(self.users@ =~~= purge_user_queue(pre.users, user@, room@));
                        }
                    },
                    UserStatus::Inactive { queue } => {
                        let ghost qv = crate::engine::actions_view(queue@);
                        let mut kept: Vec<ServerAction> = Vec::new();
                        let mut t: usize = 0;
                        proof {
                            assert(crate::engine::actions_view(kept@) =~= purge_actions(
                                qv.take(0), room@));
                        }
                        while t < queue.len()
                            invariant
                                t <= queue.len(),
                                qv == crate::engine::actions_view(queue@),
                                qv.len() == queue@.len(),
                                crate::engine::actions_view(kept@) == purge_actions(
                                    qv.take(t as int), room@),
                            decreases queue.len() - t,
                        {
                            proof {
                                lemma_take_push(qv, t as int);
                                assert(qv.take(t + 1).drop_last() =~= qv.take(t as int));
                                assert(qv.take(t + 1).last() == qv[t as int]);
                                assert(queue@[t as int]@ == qv[t as int]);
                            }
                            let keep = match queue[t].room() {
                                Some(rid) => !(rid.0 == room.0),
                                None => true,
                            };
                            if keep {
                                kept.push(queue[t].clone());
                            }
                            proof {
                                assert(crate::engine::actions_view(kept@) =~= purge_actions(
                                    qv.take(t + 1), room@));
                            }
                            t = t + 1;
                        }
                        proof {
                            assert(qv.take(queue@.len() as int) =~= qv);
                        }
                        let nu = User {
                            name: uname,
                            status: UserStatus::Inactive { queue: kept },
                            password: upw,
                        };
                        self.users.0.insert(ui, nu);
                        proof {
                            assert(self.users@ =~~= purge_user_queue(pre.users, user@, room@));
                        }
                    },
                }
            },
        }
        let ghost purged = purge_user_queue(pre.users, user@, room@);
        proof {
            assert(unique_names(purged)) by {
                assert forall|i: int, j: int|
                    0 <= i < j < purged.len() implies #[trigger] purged[i].name
                    != #[trigger] purged[j].name by {
                    assert(purged[i].name == pre.users[i].name);
                    assert(purged[j].name == pre.users[j].name);
                }
            }
        }
        // drop the membership entry
        let mut rm = self.rooms.remove(ri);
        let ghost oldm = ids_view(rm.members@);
        let mut kept_members: Vec<UserID> = Vec::new();
        let mut t: usize = 0;
        proof {
            assert(oldm == members_of(pre.rooms, room@));
            assert(ids_view(kept_members@) =~= remove_member(oldm.take(0), user@));
        }
        while t < rm.members.len()
            invariant
                t <= rm.members.len(),
                oldm == ids_view(rm.members@),
                oldm.len() == rm.members@.len(),
                ids_view(kept_members@) == remove_member(oldm.take(t as int), user@),
            decreases rm.members.len() - t,
        {
            proof {
                lemma_take_push(oldm, t as int);
                assert(oldm.take(t + 1).drop_last() =~= oldm.take(t as int));
                assert(oldm.take(t + 1).last() == oldm[t as int]);
                assert(rm.members@[t as int]@ == oldm[t as int]);
            }
            if !(rm.members[t].0 == user.0) {
                kept_members.push(rm.members[t].clone());
            }
            proof {
                assert(ids_view(kept_members@) =~= remove_member(oldm.take(t + 1), user@));
            }
            t = t + 1;
        }
        proof {
            assert(oldm.take(rm.members@.len() as int) =~= oldm);
            lemma_remove_member_props(oldm, user@);
        }
        let ghost reduced = remove_member(oldm, user@);
        rm.members = kept_members;
        let member_list = clone_ids(&rm.members);
        let rid_for_insert = ChatRoomID(rm.id.0);
        let ghost mid_users = self.users@;
        self.rooms.insert(ri, Room { id: rid_for_insert, members: rm.members });
        proof {
            assert(self@.rooms =~~= pre.rooms.update(ri as int,
                (RoomV { id: room@, members: reduced })));
            assert(self@.log =~~= pre.log);
            assert(self.users@ == mid_users);
            assert forall|i: int, j: int|
                0 <= i < j < self@.rooms.len() implies #[trigger] self@.rooms[i].id
                != #[trigger] self@.rooms[j].id by {
                assert(pre.rooms[i].id != pre.rooms[j].id);
            }
            assert forall|i: int|
                0 <= i < self@.rooms.len() implies unique_ids(
                #[trigger] self@.rooms[i].members) by {
                if i != ri {
                    assert(unique_ids(pre.rooms[i].members));
                }
            }
        }
        let action = ServerAction::Leave((room.clone(), user.clone()));
        let ghost mid = self@;
        let d = self.users.deliver_all(action, &member_list);
        proof {
            assert(self@.rooms == mid.rooms);
            assert(self@.log == mid.log);
        }
        Ok(d)
    }

    /// Open the single live session for a user. Fails, changing
    /// nothing, iff the identity is unknown or a session is already
    /// active: exactly one of two racing connection attempts can
    /// succeed. On success the presence turns `Active`, the offline
    /// queue is drained, and the catch-up sequence is returned: one
    /// membership notice per room the user belongs to, in directory
    /// order, followed by every drained event in its original order.
    pub fn connect(&mut self, name: &UserID) -> (r: Result<Vec<ServerAction>, ChatError>)
        requires
            old(self).wf(),
        ensures
            final(self).wf(),
            match r {
                Ok(catchup) => {
                    &&& has_user(old(self)@.users, name@)
                    &&& !is_connected(old(self)@.users, name@)
                    &&& final(self)@.users == old(self)@.users.update(user_index(
                        old(self)@.users, name@),
                        (UserV { status: UserStatusV::Active, ..user_of(old(self)@.users, name@) }))
                    &&& actions_view(catchup@) == room_notices(old(self)@.rooms, name@)
                        + user_of(old(self)@.users, name@).status->queue
                    &&& final(self)@.rooms == old(self)@.rooms
                    &&& final(self)@.log == old(self)@.log
                },
                Err(e) => {
                    &&& final(self)@ == old(self)@
                    &&& match e {
                        ChatError::UserNotFound => !has_user(old(self)@.users, name@),
                        ChatError::AlreadyConnected => is_connected(old(self)@.users, name@),
                        _ => false,
                    }
                },
            },
    {
        let ghost pre = self@;
        let Some(ui) = self.users.index_of(name) else {
            return Err(ChatError::UserNotFound);
        };
        proof {
            crate::engine::lemma_user_index_unique(pre.users, ui as int);
        }
        let u = self.users.0.remove(ui);
        let User { name: uname, status: ust, password: upw } = u;
        match ust {
            UserStatus::Active => {
                self.users.0.insert(ui, User {
                    name: uname,
                    status: UserStatus::Active,
                    password: upw,
                });
                proof {
                    assert(self@.users =~~= pre.users);
                    assert(self@ =~~= pre);
                }
                Err(ChatError::AlreadyConnected)
            },
            UserStatus::Inactive { queue } => {
                let ghost qv = actions_view(queue@);
                self.users.0.insert(ui, User {
                    name: uname,
                    status: UserStatus::Active,
                    password: upw,
                });
                proof {
                    assert(self@.users =~~= pre.users.update(ui as int,
                        (UserV { status: UserStatusV::Active, ..user_of(pre.users, name@) })));
                    assert(self@.rooms =~~= pre.rooms);
                }
                let ghost post_users = self@.users;
                let ghost rv = pre.rooms;
                let mut catchup: Vec<ServerAction> = Vec::new();
                let mut k: usize = 0;
                proof {
                    assert(actions_view(catchup@) =~= room_notices(rv.take(0), name@));
                }
                while k < self.rooms.len()
                    invariant
                        k <= self.rooms.len(),
                        self@.users == post_users,
                        self@.rooms == rv,
                        self@.log == pre.log,
                        rv.len() == self.rooms@.len(),
                        actions_view(catchup@) == room_notices(rv.take(k as int), name@),
                    decreases self.rooms.len() - k,
                {
                    proof {
                        lemma_take_push(rv, k as int);
                        assert(rv.take(k + 1).drop_last() =~= rv.take(k as int));
                        assert(rv.take(k + 1).last() == rv[k as int]);
                        assert(self.rooms@[k as int]@ == rv[k as int]);
                    }
                    if contains_id(&self.rooms[k].members, name) {
                        catchup.push(ServerAction::Add {
                            room: self.rooms[k].id.clone(),
                            adder: None,
                            added: name.clone(),
                        });
                    }
                    proof {
                        assert(actions_view(catchup@) =~= room_notices(rv.take(k + 1), name@));
                    }
                    k = k + 1;
                }
                proof {
                    assert(rv.take(self.rooms@.len() as int) =~= rv);
                }
                let mut drained = queue;
                let ghost notices = catchup@;
                catchup.append(&mut drained);
                proof {
                    assert(actions_view(catchup@) =~~= room_notices(rv, name@) + qv);
                    assert(user_of(pre.users, name@).status->queue == qv);
                }
                Ok(catchup)
            },
        }
    }

    /// Close a user's live session: presence turns `Inactive` with an
    /// empty queue. Unknown identities are left alone; rooms and log
    /// are untouched.
    pub fn close_user(&mut self, id: &UserID)
        requires
            old(self).wf(),
        ensures
            final(self).wf(),
            final(self)@.rooms == old(self)@.rooms,
            final(self)@.log == old(self)@.log,
            !has_user(old(self)@.users, id@) ==> final(self)@.users == old(self)@.users,
            has_user(old(self)@.users, id@) ==> final(self)@.users == old(self)@.users.update(
                user_index(old(self)@.users, id@),
                (UserV {
                    status: UserStatusV::Inactive { queue: Seq::empty() },
                    ..user_of(old(self)@.users, id@)
                })),
    {
        self.users.close_user(id);
    }

    /// Whether an identity is registered.
    pub fn contains_user(&self, name: &UserID) -> (r: bool)
        ensures
            r == has_user(self@.users, name@),
    {
        self.users.index_of(name).is_some()
    }

    /// Enter a new identity with an already-computed password hash.
    /// Succeeds if and only if the name is free; the user then joins
    /// the registry disconnected, with an empty queue and that hash,
    /// and nothing else moves. The conflict is the point: registering
    /// a taken name is rejected, never merged.
    pub fn register_user(&mut self, name: &UserID, hashed: String) -> (r: Result<(), ChatError>)
        requires
            old(self).wf(),
        ensures
            final(self).wf(),
            match r {
                Ok(()) => {
                    &&& !has_user(old(self)@.users, name@)
                    &&& final(self)@.users == old(self)@.users.push(
                        (UserV {
                            name: name@,
                            status: (UserStatusV::Inactive {
                                queue: Seq::<ServerActionV>::empty(),
                            }),
                            password: hashed@,
                        }))
                    &&& final(self)@.rooms == old(self)@.rooms
                    &&& final(self)@.log == old(self)@.log
                },
                Err(e) => {
                    &&& final(self)@ == old(self)@
                    &&& e is NameTaken
                    &&& has_user(old(self)@.users, name@)
                },
            },
    {
        let ghost pre = self@;
        if self.users.index_of(name).is_some() {
            return Err(ChatError::NameTaken);
        }
        self.users.0.push(User {
            name: name.clone(),
            status: UserStatus::Inactive { queue: Vec::new() },
            password: hashed,
        });
        proof {
            assert(self@.users =~~= pre.users.push(
                (UserV {
                    name: name@,
                    status: (UserStatusV::Inactive { queue: Seq::<ServerActionV>::empty() }),
                    password: self@.users.last().password,
                })));
            assert forall|i: int, j: int|
                0 <= i < j < self@.users.len() implies #[trigger] self@.users[i].name
                != #[trigger] self@.users[j].name by {
                if j < pre.users.len() {
                    assert(pre.users[i].name != pre.users[j].name);
                } else {
                    if pre.users[i].name == name@ {
                        assert(has_user(pre.users, name@));
                    }
                }
            }
            assert(self@.rooms =~~= pre.rooms);
            assert(self@.log =~~= pre.log);
        }
        Ok(())
    }

    /// Register a new identity. Fails iff the name is taken, or the
    /// credential service fails to hash the password or sign the first
    /// token; nothing changes on failure. On success the user joins
    /// the registry disconnected, with an empty queue and a password
    /// hash that verifies the submitted password, and a signed
    /// credential good for an hour is returned.
    pub fn register(&mut self, name: &UserID, password: &str, secret: &[u8], now: u64) -> (r:
        Result<String, ChatError>)
        requires
            old(self).wf(),
            now <= u64::MAX - 3600,
        ensures
            final(self).wf(),
            match r {
                Ok(token) => {
                    &&& !has_user(old(self)@.users, name@)
                    &&& final(self)@.users.len() == old(self)@.users.len() + 1
                    &&& final(self)@.users.drop_last() == old(self)@.users
                    &&& final(self)@.users.last().name == name@
                    &&& final(self)@.users.last().status == (UserStatusV::Inactive {
                        queue: Seq::<ServerActionV>::empty(),
                    })
                    &&& crate::auth::bcrypt_verifies(password@,
                        final(self)@.users.last().password)
                    &&& token@ == crate::auth::jwt_of(name@, (now + 3600) as u64, secret@)
                    &&& crate::auth::claims_of(token@, secret@) == Some((name@, (now
                        + 3600) as u64))
                    &&& final(self)@.rooms == old(self)@.rooms
                    &&& final(self)@.log == old(self)@.log
                },
                Err(e) => {
                    &&& final(self)@ == old(self)@
                    &&& match e {
                        ChatError::NameTaken => has_user(old(self)@.users, name@),
                        ChatError::CredentialFailure => !has_user(old(self)@.users, name@),
                        _ => false,
                    }
                },
            },
    {
        if self.users.index_of(name).is_some() {
            return Err(ChatError::NameTaken);
        }
        let Some(hashed) = crate::auth::hash_password(password) else {
            return Err(ChatError::CredentialFailure);
        };
        let token = crate::auth::encode_jwt(name, secret, now);
        match self.register_user(name, hashed) {
            Ok(()) => {
                proof {
                    assert(self@.users.drop_last() =~= old(self)@.users);
                }
                Ok(token)
            },
            Err(e) => Err(e),
        }
    }

    /// Whether a name and password pair is right: the identity is
    /// registered and the password matches its stored hash.
    pub fn check_credentials(&self, name: &UserID, password: &str) -> (r: bool)
        requires
            self.wf(),
        ensures
            r == (has_user(self@.users, name@) && crate::auth::bcrypt_verifies(password@,
                user_of(self@.users, name@).password)),
    {
        let Some(ui) = self.users.index_of(name) else {
            return false;
        };
        proof {
            crate::engine::lemma_user_index_unique(self@.users, ui as int);
        }
        crate::auth::verify_password(password, self.users.0[ui].password.as_str())
    }

    /// Check a name and password pair: a signed credential good for an
    /// hour from `now` is issued if and only if the identity is
    /// registered and the password matches its stored hash, and the
    /// token decodes back to exactly this identity and expiry.
    pub fn login(&self, name: &UserID, password: &str, secret: &[u8], now: u64) -> (r: Option<
        String,
    >)
        requires
            self.wf(),
            now <= u64::MAX - 3600,
        ensures
            r is Some <==> has_user(self@.users, name@) && crate::auth::bcrypt_verifies(
                password@, user_of(self@.users, name@).password),
            r matches Some(token) ==> {
                &&& token@ == crate::auth::jwt_of(name@, (now + 3600) as u64, secret@)
                &&& crate::auth::claims_of(token@, secret@) == Some((name@, (now
                    + 3600) as u64))
            },
    {
        if !self.check_credentials(name, password) {
            return None;
        }
        Some(crate::auth::encode_jwt(name, secret, now))
    }

    /// The identities of the rooms this user belongs to, in directory
    /// order.
    pub fn list_rooms(&self, user: &UserID) -> (r: Vec<ChatRoomID>)
        ensures
            room_ids_view(r@) == rooms_of(self@.rooms, user@),
    {
        let ghost rv = self@.rooms;
        let mut out: Vec<ChatRoomID> = Vec::new();
        let mut k: usize = 0;
        proof {
            assert(room_ids_view(out@) =~= rooms_of(rv.take(0), user@));
        }
        while k < self.rooms.len()
            invariant
                k <= self.rooms.len(),
                rv == self@.rooms,
                rv.len() == self.rooms@.len(),
                room_ids_view(out@) == rooms_of(rv.take(k as int), user@),
            decreases self.rooms.len() - k,
        {
            proof {
                lemma_take_push(rv, k as int);
                assert(rv.take(k + 1).drop_last() =~= rv.take(k as int));
                assert(rv.take(k + 1).last() == rv[k as int]);
                assert(self.rooms@[k as int]@ == rv[k as int]);
            }
            if contains_id(&self.rooms[k].members, user) {
                out.push(self.rooms[k].id.clone());
            }
            proof {
                assert(room_ids_view(out@) =~= rooms_of(rv.take(k + 1), user@));
            }
            k = k + 1;
        }
        proof {
            assert(rv.take(self.rooms@.len() as int) =~= rv);
        }
        out
    }

    /// All registered identities, in registry order, for the caller
    /// alone: a direct reply, never a broadcast.
    pub fn list_users(&self) -> (r: Vec<UserID>)
        ensures
            ids_view(r@) == self@.users.map_values(|u: UserV| u.name),
    {
        self.users.all_users()
    }
}

} // verus!
