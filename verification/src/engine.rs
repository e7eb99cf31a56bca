//! The user registry: presence, offline queues, and the fanout core
//! that delivers one event to every listed member, live or queued.

use vstd::prelude::*;
use vstd::pervasive::VecAdditionalExecFns;
use crate::types::{
    UserID, ChatMessage, ServerAction, ServerActionV, UserStatus, UserStatusV, User, UserV,
    Delivery, DeliveryV,
};

verus! {

/// View of a sequence of identities.
pub open spec fn ids_view(v: Seq<UserID>) -> Seq<Seq<char>> {
    v.map_values(|u: UserID| u@)
}

/// View of a sequence of outbound events.
pub open spec fn actions_view(v: Seq<ServerAction>) -> Seq<ServerActionV> {
    v.map_values(|a: ServerAction| a@)
}

/// View of a sequence of pending deliveries.
pub open spec fn deliveries_view(v: Seq<Delivery>) -> Seq<DeliveryV> {
    v.map_values(|d: Delivery| d@)
}

/// Whether some registered user carries this name.
pub open spec fn has_user(users: Seq<UserV>, name: Seq<char>) -> bool {
    exists|i: int| 0 <= i < users.len() && #[trigger] users[i].name == name
}

/// The index of the user with this name (meaningful when `has_user`).
pub open spec fn user_index(users: Seq<UserV>, name: Seq<char>) -> int {
    choose|i: int| 0 <= i < users.len() && #[trigger] users[i].name == name
}

/// The registered user carrying this name (meaningful when `has_user`).
pub open spec fn user_of(users: Seq<UserV>, name: Seq<char>) -> UserV {
    users[user_index(users, name)]
}

/// Whether the user with this name currently owns a live connection.
pub open spec fn is_connected(users: Seq<UserV>, name: Seq<char>) -> bool {
    has_user(users, name) && user_of(users, name).status is Active
}

/// No two registry entries share a name: the single-presence invariant.
pub open spec fn unique_names(users: Seq<UserV>) -> bool {
    forall|i: int, j: int|
        0 <= i < j < users.len() ==> #[trigger] users[i].name != #[trigger] users[j].name
}

/// No name occurs twice in a member list.
pub open spec fn unique_ids(ids: Seq<Seq<char>>) -> bool {
    forall|i: int, j: int| 0 <= i < j < ids.len() ==> #[trigger] ids[i] != #[trigger] ids[j]
}

/// The user as it stands after one more event is queued for it.
pub open spec fn enqueue_for(u: UserV, a: ServerActionV) -> UserV {
    UserV {
        status: UserStatusV::Inactive { queue: u.status->queue.push(a) },
        ..u
    }
}

/// The registry after event `a` is fanned out to `members`: each listed
/// disconnected member's queue grows by that one event; everyone else,
/// and every connected member, is untouched.
pub open spec fn deliver_users(
    users: Seq<UserV>,
    members: Seq<Seq<char>>,
    a: ServerActionV,
) -> Seq<UserV> {
    Seq::new(users.len(), |i: int|
        if members.contains(users[i].name) && users[i].status is Inactive {
            enqueue_for(users[i], a)
        } else {
            users[i]
        })
}

/// The live deliveries a fanout of `a` to `members` performs: one per
/// listed member that is currently connected, in member-list order.
pub open spec fn live_targets(
    users: Seq<UserV>,
    members: Seq<Seq<char>>,
    a: ServerActionV,
) -> Seq<DeliveryV>
    decreases members.len(),
{
    if members.len() == 0 {
        Seq::empty()
    } else {
        let rest = live_targets(users, members.drop_last(), a);
        if is_connected(users, members.last()) {
            rest.push(DeliveryV { to: members.last(), action: a })
        } else {
            rest
        }
    }
}

/// In-memory registry of users, keyed by identity.
pub struct UserDB(pub Vec<User>);

impl View for UserDB {
    type V = Seq<UserV>;

    open spec fn view(&self) -> Seq<UserV> {
        self.0@.map_values(|u: User| u@)
    }
}

impl UserDB {
    /// The registry invariant: one entry per identity.
    pub open spec fn wf(&self) -> bool {
        unique_names(self@)
    }

    /// An empty registry.
    pub fn new() -> (r: Self)
        ensures
            r@ == Seq::<UserV>::empty(),
            r.wf(),
    {
        let r = UserDB(Vec::new());
        proof {
            assert(r@ =~= Seq::<UserV>::empty());
        }
        r
    }

    /// Position of the entry named `name`, if any.
    pub fn index_of(&self, name: &UserID) -> (r: Option<usize>)
        ensures
            match r {
                Some(i) => i < self@.len() && self@[i as int].name == name@,
                None => !has_user(self@, name@),
            },
    {
        let mut i: usize = 0;
        while i < self.0.len()
            invariant
                i <= self.0.len(),
                forall|k: int| 0 <= k < i ==> #[trigger] self@[k].name != name@,
            decreases self.0.len() - i,
        {
            if self.0[i].name.0 == name.0 {
                return Some(i);
            }
            i = i + 1;
        }
        None
    }

    /// Look a user up by identity.
    pub fn get_user(&self, id: &UserID) -> (r: Option<User>)
        requires
            self.wf(),
        ensures
            match r {
                Some(u) => has_user(self@, id@) && u@ == user_of(self@, id@),
                None => !has_user(self@, id@),
            },
    {
        match self.index_of(id) {
            Some(i) => {
                let u = self.0[i].clone();
                proof {
                    lemma_user_index_unique(self@, i as int);
                }
                Some(u)
            },
            None => None,
        }
    }

    /// Insert a user, replacing any entry with the same identity.
    pub fn add_user(&mut self, user: User)
        requires
            old(self).wf(),
        ensures
            final(self).wf(),
            has_user(old(self)@, user@.name) ==> final(self)@ == old(self)@.update(
                user_index(old(self)@, user@.name), user@),
            !has_user(old(self)@, user@.name) ==> final(self)@ == old(self)@.push(user@),
    {
        let ghost pre = self@;
        match self.index_of(&user.name) {
            Some(i) => {
                proof {
                    lemma_user_index_unique(pre, i as int);
                }
                let ghost uv = user@;
                self.0.set(i, user);
                proof {
                    assert(self@ =~= pre.update(i as int, uv));
                }
            },
            None => {
                self.0.push(user);
                proof {
                    assert(self@ =~= pre.push(user@));
                }
            },
        }
    }

    /// Mark a user disconnected, with an empty queue. Unknown
    /// identities are left alone.
    pub fn close_user(&mut self, id: &UserID)
        requires
            old(self).wf(),
        ensures
            final(self).wf(),
            !has_user(old(self)@, id@) ==> final(self)@ == old(self)@,
            has_user(old(self)@, id@) ==> final(self)@ == old(self)@.update(
                user_index(old(self)@, id@),
                UserV {
                    status: UserStatusV::Inactive { queue: Seq::empty() },
                    ..user_of(old(self)@, id@)
                }),
    {
        let ghost pre = self@;
        match self.index_of(id) {
            Some(i) => {
                proof {
                    lemma_user_index_unique(pre, i as int);
                }
                let mut u = self.0.remove(i);
                u.status = UserStatus::Inactive { queue: Vec::new() };
                self.0.insert(i, u);
                proof {
                    assert(self@ =~~= pre.update(i as int,
                        UserV {
                            status: UserStatusV::Inactive { queue: Seq::empty() },
                            ..user_of(pre, id@)
                        }));
                }
            },
            None => {
                proof {
                    assert(self@ =~= pre);
                }
            },
        }
    }

    /// Fan one event out to every listed member: a connected member
    /// gets a live delivery (returned, in member-list order), a
    /// disconnected member's queue grows by exactly this event, and
    /// identities not in the list are untouched. Unknown identities in
    /// the list are skipped.
    pub fn deliver_all(&mut self, action: ServerAction, targets: &Vec<UserID>) -> (r: Vec<
        Delivery,
    >)
        requires
            old(self).wf(),
            unique_ids(ids_view(targets@)),
        ensures
            final(self).wf(),
            final(self)@ == deliver_users(old(self)@, ids_view(targets@), action@),
            deliveries_view(r@) == live_targets(old(self)@, ids_view(targets@), action@),
    {
        let ghost users0 = self@;
        let ghost tgt = ids_view(targets@);
        let ghost av = action@;
        let mut deliveries: Vec<Delivery> = Vec::new();
        let mut j: usize = 0;
        proof {
            assert(self@ =~~= deliver_users(users0, tgt.take(0), av));
        }
        while j < targets.len()
            invariant
                j <= targets.len(),
                tgt == ids_view(targets@),
                tgt.len() == targets@.len(),
                av == action@,
                unique_ids(tgt),
                unique_names(users0),
                self@ == deliver_users(users0, tgt.take(j as int), av),
                deliveries_view(deliveries@) == live_targets(users0, tgt.take(j as int), av),
            decreases targets.len() - j,
        {
            let ghost n = tgt[j as int];
            let ghost prefix = tgt.take(j as int);
            proof {
                assert(targets@[j as int]@ == n);
                lemma_take_push(tgt, j as int);
                assert(tgt.take(j + 1).drop_last() =~= prefix);
                assert(tgt.take(j + 1).last() == n);
                // the target has not been handled before in this fanout
                if prefix.contains(n) {
                    let k = choose|k: int| 0 <= k < prefix.len() && prefix[k] == n;
                    assert(tgt[k] == tgt[j as int]);
                    assert(false);
                }
                // names and presence kinds are preserved by queue growth
                assert forall|x: int| 0 <= x < users0.len() implies #[trigger] self@[x].name
                    == users0[x].name && (self@[x].status is Active <==> users0[x].status
                    is Active) by {
                    assert(self@[x] == deliver_users(users0, prefix, av)[x]);
                }
            }
            match self.index_of(&targets[j]) {
                None => {
                    proof {
                        assert(!has_user(users0, n)) by {
                            if has_user(users0, n) {
                                let k = user_index(users0, n);
                                assert(self@[k].name == users0[k].name);
                            }
                        }
                        assert(self@ =~~= deliver_users(users0, tgt.take(j + 1), av));
                        assert(deliveries_view(deliveries@) =~~= live_targets(users0, tgt.take(
                            j + 1), av));
                    }
                },
                Some(i) => {
                    proof {
                        assert(users0[i as int].name == n);
                        lemma_user_index_unique(users0, i as int);
                        assert(self@[i as int] == deliver_users(users0, prefix, av)[i as int]);
                        assert(self@[i as int] == users0[i as int]);
                    }
                    let ghost cur = self@;
                    let u = self.0.remove(i);
                    let User { name: uname, status: ust, password: upw } = u;
                    match ust {
                        UserStatus::Active => {
                            self.0.insert(i, User {
                                name: uname,
                                status: UserStatus::Active,
                                password: upw,
                            });
                            let d = Delivery { to: targets[j].clone(), action: action.clone() };
                            proof {
                                assert(d@.to == n);
                                assert(d@.action == av);
                            }
                            deliveries.push(d);
                            proof {
                                assert(self@ =~~= cur);
                                assert(is_connected(users0, n));
                                assert(self@ =~~= deliver_users(users0, tgt.take(j + 1), av));
                                assert(deliveries_view(deliveries@) =~~= live_targets(users0,
                                    tgt.take(j + 1), av));
                            }
                        },
                        UserStatus::Inactive { mut queue } => {
                            let ghost q0 = queue@;
                            let c = action.clone();
                            proof {
                                assert(c@ == av);
                            }
                            queue.push(c);
                            proof {
                                assert(queue@.map_values(|x: ServerAction| x@) =~= q0.map_values(
                                    |x: ServerAction| x@).push(av));
                            }
                            let nu = User {
                                name: uname,
                                status: UserStatus::Inactive { queue },
                                password: upw,
                            };
                            proof {
                                assert(nu@ == enqueue_for(users0[i as int], av));
                            }
                            self.0.insert(i, nu);
                            proof {
                                assert(!is_connected(users0, n));
                                assert(self@ =~~= cur.update(i as int, nu@));
                                assert(self@ =~~= deliver_users(users0, tgt.take(j + 1), av));
                                assert(deliveries_view(deliveries@) =~~= live_targets(users0,
                                    tgt.take(j + 1), av));
                            }
                        },
                    }
                },
            }
            j = j + 1;
        }
        proof {
            assert(tgt.take(targets@.len() as int) =~= tgt);
        }
        deliveries
    }

    /// Fan a chat message out to every listed member, live or queued.
    pub fn write_to(&mut self, message: ChatMessage, users: &Vec<UserID>) -> (r: Vec<Delivery>)
        requires
            old(self).wf(),
            unique_ids(ids_view(users@)),
        ensures
            final(self).wf(),
            final(self)@ == deliver_users(old(self)@, ids_view(users@), ServerActionV::Message(
                message@)),
            deliveries_view(r@) == live_targets(old(self)@, ids_view(users@),
                ServerActionV::Message(message@)),
    {
        self.deliver_all(ServerAction::Message(message), users)
    }

    /// All registered identities, in registry order.
    pub fn all_users(&self) -> (r: Vec<UserID>)
        ensures
            ids_view(r@) == self@.map_values(|u: UserV| u.name),
    {
        let mut out: Vec<UserID> = Vec::new();
        let mut i: usize = 0;
        while i < self.0.len()
            invariant
                i <= self.0.len(),
                out@.len() == i,
                forall|k: int| 0 <= k < i ==> #[trigger] out@[k]@ == self@[k].name,
            decreases self.0.len() - i,
        {
            out.push(self.0[i].name.clone());
            i = i + 1;
        }
        proof {
            assert(ids_view(out@) =~= self@.map_values(|u: UserV| u.name));
        }
        out
    }
}

/// A prefix one longer is the prefix plus the next element.
pub proof fn lemma_take_push<T>(s: Seq<T>, j: int)
    requires
        0 <= j < s.len(),
    ensures
        s.take(j + 1) == s.take(j).push(s[j]),
{
    assert(s.take(j + 1) =~= s.take(j).push(s[j]));
}

/// With unique names, the chosen index for a name that entry `i`
/// carries is `i` itself.
pub proof fn lemma_user_index_unique(users: Seq<UserV>, i: int)
    requires
        unique_names(users),
        0 <= i < users.len(),
    ensures
        user_index(users, users[i].name) == i,
        user_of(users, users[i].name) == users[i],
        has_user(users, users[i].name),
{
    assert(has_user(users, users[i].name));
    let j = user_index(users, users[i].name);
    if i < j {
        assert(users[i].name != users[j].name);
    } else if j < i {
        assert(users[j].name != users[i].name);
    }
}

/// How many live deliveries in a batch are addressed to `m`.
pub open spec fn deliveries_to(ds: Seq<DeliveryV>, m: Seq<char>) -> nat
    decreases ds.len(),
{
    if ds.len() == 0 {
        0
    } else {
        deliveries_to(ds.drop_last(), m) + if ds.last().to == m {
            1nat
        } else {
            0nat
        }
    }
}

/// A fanout delivers nothing live to an identity outside the member
/// list.
pub proof fn lemma_live_delivery_none(
    users: Seq<UserV>,
    members: Seq<Seq<char>>,
    a: ServerActionV,
    m: Seq<char>,
)
    requires
        !members.contains(m),
    ensures
        deliveries_to(live_targets(users, members, a), m) == 0,
    decreases members.len(),
{
    if members.len() == 0 {
    } else {
        assert(!members.drop_last().contains(m)) by {
            if members.drop_last().contains(m) {
                let k = choose|k: int|
                    0 <= k < members.drop_last().len() && members.drop_last()[k] == m;
                assert(members[k] == m);
            }
        }
        lemma_live_delivery_none(users, members.drop_last(), a, m);
        assert(members.last() != m) by {
            if members.last() == m {
                assert(members[members.len() - 1] == m);
            }
        }
        let rest = live_targets(users, members.drop_last(), a);
        if is_connected(users, members.last()) {
            let lt = rest.push((DeliveryV { to: members.last(), action: a }));
            assert(lt.drop_last() =~= rest);
        }
    }
}

/// Every currently-connected member of the room receives the event
/// exactly once in a fanout; together with `deliver_users`, which
/// grows each disconnected member's queue by exactly one entry, this
/// is the delivery guarantee of a broadcast.
pub proof fn lemma_live_delivery_exactly_once(
    users: Seq<UserV>,
    members: Seq<Seq<char>>,
    a: ServerActionV,
    m: Seq<char>,
)
    requires
        unique_ids(members),
        members.contains(m),
        is_connected(users, m),
    ensures
        deliveries_to(live_targets(users, members, a), m) == 1,
    decreases members.len(),
{
    let rest = live_targets(users, members.drop_last(), a);
    if members.last() == m {
        assert(!members.drop_last().contains(m)) by {
            if members.drop_last().contains(m) {
                let k = choose|k: int|
                    0 <= k < members.drop_last().len() && members.drop_last()[k] == m;
                assert(members[k] == members[members.len() - 1]);
            }
        }
        lemma_live_delivery_none(users, members.drop_last(), a, m);
        let lt = rest.push((DeliveryV { to: m, action: a }));
        assert(lt.drop_last() =~= rest);
    } else {
        assert(members.drop_last().contains(m)) by {
            let k = choose|k: int| 0 <= k < members.len() && members[k] == m;
            assert(members.drop_last()[k] == m);
        }
        assert(unique_ids(members.drop_last()));
        lemma_live_delivery_exactly_once(users, members.drop_last(), a, m);
        if is_connected(users, members.last()) {
            let lt = rest.push((DeliveryV { to: members.last(), action: a }));
            assert(lt.drop_last() =~= rest);
        }
    }
}

/// The queued half of the delivery guarantee: a fanout grows each
/// listed disconnected member's queue by exactly the one event, and
/// touches nobody else.
pub proof fn lemma_fanout_queues_one(
    users: Seq<UserV>,
    members: Seq<Seq<char>>,
    a: ServerActionV,
    i: int,
)
    requires
        0 <= i < users.len(),
    ensures
        members.contains(users[i].name) && users[i].status is Inactive ==> deliver_users(users,
            members, a)[i].status->queue == users[i].status->queue.push(a),
        !members.contains(users[i].name) ==> deliver_users(users, members, a)[i] == users[i],
        users[i].status is Active ==> deliver_users(users, members, a)[i] == users[i],
{
}

/// A user, at most one presence: with the registry invariant, two
/// entries carrying one name are the same entry, so at any instant at
/// most one presence per identity can be `Active`.
pub proof fn lemma_at_most_one_presence(users: Seq<UserV>, i: int, j: int)
    requires
        unique_names(users),
        0 <= i < users.len(),
        0 <= j < users.len(),
        users[i].name == users[j].name,
    ensures
        i == j,
{
    if i < j {
        assert(users[i].name != users[j].name);
    } else if j < i {
        assert(users[j].name != users[i].name);
    }
}

} // verus!
