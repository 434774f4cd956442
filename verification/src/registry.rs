//! The registry of rooms: each room id maps to the room's members.
use crate::members::{
    has_member, ids_distinct, lemma_join_leave, lemma_member_pos, lemma_with_member,
    lemma_without_member, member_pos, with_member, without_member,
};
use crate::external::{is_v4_uuid_text, json_string_array, new_random_id, to_json_string_array};
use crate::members::{
    law_join_adds_only_the_joiner, law_leave_removes_only_the_leaver, member_ids,
};
use crate::room_ids::{
    counted_id, counted_room_id, lemma_counted_id_injective, lemma_counted_id_is_v4,
    lemma_distinct_within,
};
use crate::room::{
    action_is, created_message, created_text, joined_message, joined_text, left_message,
    left_text, Action, DirectMessage, RoomAction, RoomError, RoomErrorView, User,
};
use vstd::prelude::*;
use vstd::string::*;

verus! {

/// How many random ids room creation draws before it counts ids upwards.
pub const RANDOM_ID_DRAWS: u64 = 64;

/// One room: its id and its members, in the order they joined.
pub struct Room<S> {
    room_id: String,
    members: Vec<User<S>>,
}

/// All rooms of the server.
pub struct RoomRegistry<S> {
    rooms: Vec<Room<S>>,
}

/// Some room in `rooms` has the id `k`.
pub open spec fn has_room<S>(rooms: Seq<Room<S>>, k: Seq<char>) -> bool {
    exists|i: int| 0 <= i < rooms.len() && #[trigger] room_key(rooms[i]) == k
}

/// The id of a room.
pub closed spec fn room_key<S>(r: Room<S>) -> Seq<char> {
    r.room_id@
}

/// The members of a room.
pub closed spec fn room_members<S>(r: Room<S>) -> Seq<User<S>> {
    r.members@
}

/// The position of the room with id `k` (meaningful where `has_room` holds).
pub open spec fn room_pos<S>(rooms: Seq<Room<S>>, k: Seq<char>) -> int {
    choose|i: int| 0 <= i < rooms.len() && #[trigger] room_key(rooms[i]) == k
}

/// No two rooms share an id.
pub open spec fn rooms_distinct<S>(rooms: Seq<Room<S>>) -> bool {
    forall|i: int, j: int|
        0 <= i < rooms.len() && 0 <= j < rooms.len() && i != j ==> #[trigger] room_key(rooms[i])
            != #[trigger] room_key(rooms[j])
}

/// The rooms as a map from room id to members.
pub open spec fn rooms_map<S>(rooms: Seq<Room<S>>) -> Map<Seq<char>, Seq<User<S>>> {
    Map::new(|k: Seq<char>| has_room(rooms, k), |k: Seq<char>| room_members(rooms[room_pos(rooms, k)]))
}

/// The registry after `u` joins the existing room `room`.
pub open spec fn joined<S>(m: Map<Seq<char>, Seq<User<S>>>, room: Seq<char>, u: User<S>) -> Map<
    Seq<char>,
    Seq<User<S>>,
> {
    m.insert(room, with_member(m[room], u))
}

/// The registry after the user `id` leaves the existing room `room`; a room
/// left without members is removed.
pub open spec fn left<S>(m: Map<Seq<char>, Seq<User<S>>>, room: Seq<char>, id: Seq<char>) -> Map<
    Seq<char>,
    Seq<User<S>>,
> {
    let rest = without_member(m[room], id);
    if rest.len() == 0 {
        m.remove(room)
    } else {
        m.insert(room, rest)
    }
}

/// Every room has at least one member, and no two members of a room share an id.
pub open spec fn rooms_sound<S>(m: Map<Seq<char>, Seq<User<S>>>) -> bool {
    forall|k: Seq<char>| #[trigger]
        m.dom().contains(k) ==> m[k].len() > 0 && ids_distinct(m[k])
}

proof fn lemma_room_pos<S>(rooms: Seq<Room<S>>, j: int)
    requires
        rooms_distinct(rooms),
        0 <= j < rooms.len(),
    ensures
        has_room(rooms, room_key(rooms[j])),
        room_pos(rooms, room_key(rooms[j])) == j,
{
    let k = room_key(rooms[j]);
    assert(has_room(rooms, k));
    let p: int = room_pos(rooms, k);
    if p != j {
        assert(room_key(rooms[p]) != room_key(rooms[j]));
    }
}

proof fn lemma_rooms_update<S>(rooms: Seq<Room<S>>, i: int, r: Room<S>)
    requires
        rooms_distinct(rooms),
        0 <= i < rooms.len(),
        room_key(r) == room_key(rooms[i]),
    ensures
        rooms_distinct(rooms.update(i, r)),
        rooms_map(rooms.update(i, r)) == rooms_map(rooms).insert(room_key(r), room_members(r)),
{
    let r2 = rooms.update(i, r);
    assert forall|a: int, b: int|
        0 <= a < r2.len() && 0 <= b < r2.len() && a != b implies #[trigger] room_key(r2[a])
        != #[trigger] room_key(r2[b]) by {
        assert(room_key(r2[a]) == room_key(rooms[a]));
        assert(room_key(r2[b]) == room_key(rooms[b]));
    }
    let m1 = rooms_map(r2);
    let m2 = rooms_map(rooms).insert(room_key(r), room_members(r));
    assert forall|k: Seq<char>| m1.dom().contains(k) <==> m2.dom().contains(k) by {
        if has_room(r2, k) {
            let p: int = choose|p: int| 0 <= p < r2.len() && #[trigger] room_key(r2[p]) == k;
            assert(room_key(rooms[p]) == k);
        }
        if has_room(rooms, k) {
            let p: int = choose|p: int| 0 <= p < rooms.len() && #[trigger] room_key(rooms[p]) == k;
            assert(room_key(r2[p]) == k);
        }
        if k == room_key(r) {
            assert(room_key(r2[i]) == k);
        }
    }
    assert forall|k: Seq<char>| #[trigger] m1.dom().contains(k) implies m1[k] == m2[k] by {
        let p: int = choose|p: int| 0 <= p < r2.len() && #[trigger] room_key(r2[p]) == k;
        lemma_room_pos(r2, p);
        if p != i {
            assert(r2[p] == rooms[p]);
            lemma_room_pos(rooms, p);
        }
    }
    assert(m1 =~= m2);
}

proof fn lemma_rooms_push<S>(rooms: Seq<Room<S>>, r: Room<S>)
    requires
        rooms_distinct(rooms),
        !has_room(rooms, room_key(r)),
    ensures
        rooms_distinct(rooms.push(r)),
        rooms_map(rooms.push(r)) == rooms_map(rooms).insert(room_key(r), room_members(r)),
{
    let r2 = rooms.push(r);
    let n: int = rooms.len() as int;
    assert forall|a: int, b: int|
        0 <= a < r2.len() && 0 <= b < r2.len() && a != b implies #[trigger] room_key(r2[a])
        != #[trigger] room_key(r2[b]) by {
        if a == n {
            assert(r2[b] == rooms[b]);
        } else if b == n {
            assert(r2[a] == rooms[a]);
        } else {
            assert(r2[a] == rooms[a]);
            assert(r2[b] == rooms[b]);
        }
    }
    let m1 = rooms_map(r2);
    let m2 = rooms_map(rooms).insert(room_key(r), room_members(r));
    assert forall|k: Seq<char>| m1.dom().contains(k) <==> m2.dom().contains(k) by {
        if has_room(r2, k) {
            let p: int = choose|p: int| 0 <= p < r2.len() && #[trigger] room_key(r2[p]) == k;
            if p < n {
                assert(r2[p] == rooms[p]);
            }
        }
        if has_room(rooms, k) {
            let p: int = choose|p: int| 0 <= p < rooms.len() && #[trigger] room_key(rooms[p]) == k;
            assert(r2[p] == rooms[p]);
        }
        if k == room_key(r) {
            assert(room_key(r2[n]) == k);
        }
    }
    assert forall|k: Seq<char>| #[trigger] m1.dom().contains(k) implies m1[k] == m2[k] by {
        let p: int = choose|p: int| 0 <= p < r2.len() && #[trigger] room_key(r2[p]) == k;
        lemma_room_pos(r2, p);
        if p != n {
            assert(r2[p] == rooms[p]);
            lemma_room_pos(rooms, p);
        }
    }
    assert(m1 =~= m2);
}

proof fn lemma_rooms_remove<S>(rooms: Seq<Room<S>>, i: int)
    requires
        rooms_distinct(rooms),
        0 <= i < rooms.len(),
    ensures
        rooms_distinct(rooms.remove(i)),
        rooms_map(rooms.remove(i)) == rooms_map(rooms).remove(room_key(rooms[i])),
{
    let r2 = rooms.remove(i);
    assert forall|a: int, b: int|
        0 <= a < r2.len() && 0 <= b < r2.len() && a != b implies #[trigger] room_key(r2[a])
        != #[trigger] room_key(r2[b]) by {
        let a1: int = if a < i { a } else { a + 1 };
        let b1: int = if b < i { b } else { b + 1 };
        assert(r2[a] == rooms[a1]);
        assert(r2[b] == rooms[b1]);
    }
    let m1 = rooms_map(r2);
    let m2 = rooms_map(rooms).remove(room_key(rooms[i]));
    assert forall|k: Seq<char>| m1.dom().contains(k) <==> m2.dom().contains(k) by {
        if has_room(r2, k) {
            let p: int = choose|p: int| 0 <= p < r2.len() && #[trigger] room_key(r2[p]) == k;
            let p1: int = if p < i { p } else { p + 1 };
            assert(r2[p] == rooms[p1]);
            assert(room_key(rooms[p1]) != room_key(rooms[i]));
        }
        if has_room(rooms, k) && k != room_key(rooms[i]) {
            let p: int = choose|p: int| 0 <= p < rooms.len() && #[trigger] room_key(rooms[p]) == k;
            let p2: int = if p < i { p } else { p - 1 };
            assert(r2[p2] == rooms[p]);
        }
    }
    assert forall|k: Seq<char>| #[trigger] m1.dom().contains(k) implies m1[k] == m2[k] by {
        let p: int = choose|p: int| 0 <= p < r2.len() && #[trigger] room_key(r2[p]) == k;
        let p1: int = if p < i { p } else { p + 1 };
        assert(r2[p] == rooms[p1]);
        lemma_room_pos(r2, p);
        lemma_room_pos(rooms, p1);
    }
    assert(m1 =~= m2);
}

/// Every room has at least one member, and no two members of a room share an id.
pub open spec fn members_sound<S>(rooms: Seq<Room<S>>) -> bool {
    forall|i: int|
        0 <= i < rooms.len() ==> #[trigger] room_members(rooms[i]).len() > 0 && ids_distinct(
            room_members(rooms[i]),
        )
}

proof fn lemma_sound_update<S>(rooms: Seq<Room<S>>, i: int, r: Room<S>)
    requires
        members_sound(rooms),
        0 <= i < rooms.len(),
        room_members(r).len() > 0,
        ids_distinct(room_members(r)),
    ensures
        members_sound(rooms.update(i, r)),
{
    let r2 = rooms.update(i, r);
    assert forall|k: int| 0 <= k < r2.len() implies #[trigger] room_members(r2[k]).len() > 0
        && ids_distinct(room_members(r2[k])) by {
        if k != i {
            assert(r2[k] == rooms[k]);
        }
    }
}

proof fn lemma_sound_push<S>(rooms: Seq<Room<S>>, r: Room<S>)
    requires
        members_sound(rooms),
        room_members(r).len() > 0,
        ids_distinct(room_members(r)),
    ensures
        members_sound(rooms.push(r)),
{
    let r2 = rooms.push(r);
    assert forall|k: int| 0 <= k < r2.len() implies #[trigger] room_members(r2[k]).len() > 0
        && ids_distinct(room_members(r2[k])) by {
        if k < rooms.len() {
            assert(r2[k] == rooms[k]);
        }
    }
}

proof fn lemma_sound_remove<S>(rooms: Seq<Room<S>>, i: int)
    requires
        members_sound(rooms),
        0 <= i < rooms.len(),
    ensures
        members_sound(rooms.remove(i)),
{
    let r2 = rooms.remove(i);
    assert forall|k: int| 0 <= k < r2.len() implies #[trigger] room_members(r2[k]).len() > 0
        && ids_distinct(room_members(r2[k])) by {
        let k1: int = if k < i { k } else { k + 1 };
        assert(r2[k] == rooms[k1]);
    }
}

impl<S> View for RoomRegistry<S> {
    type V = Map<Seq<char>, Seq<User<S>>>;

    closed spec fn view(&self) -> Map<Seq<char>, Seq<User<S>>> {
        rooms_map(self.rooms@)
    }
}

impl<S> RoomRegistry<S> {
    /// The registry's invariant: distinct room ids, and every room has at least
    /// one member and no two members with one id.
    pub closed spec fn wf(&self) -> bool {
        &&& rooms_distinct(self.rooms@)
        &&& members_sound(self.rooms@)
    }

    /// Every room of a well-formed registry has at least one member, and no two
    /// members of a room share an id.
    pub proof fn lemma_wf_rooms_sound(&self)
        requires
            self.wf(),
        ensures
            rooms_sound(self@),
    {
        assert forall|k: Seq<char>| #[trigger] self@.dom().contains(k) implies self@[k].len() > 0
            && ids_distinct(self@[k]) by {
            let p: int = room_pos(self.rooms@, k);
            assert(0 <= p < self.rooms@.len());
        }
    }

    /// An empty registry.
    pub fn new() -> (r: Self)
        ensures
            r.wf(),
            r@ == Map::<Seq<char>, Seq<User<S>>>::empty(),
    {
        let r = RoomRegistry { rooms: Vec::new() };
        assert(r@ =~= Map::<Seq<char>, Seq<User<S>>>::empty());
        r
    }

    fn find_room(&self, room_id: &String) -> (pos: Option<usize>)
        requires
            self.wf(),
        ensures
            match pos {
                Some(i) => i < self.rooms@.len() && room_key(self.rooms@[i as int]) == room_id@
                    && self@.dom().contains(room_id@) && room_pos(self.rooms@, room_id@) == i,
                None => !self@.dom().contains(room_id@),
            },
    {
        let mut i: usize = 0;
        while i < self.rooms.len()
            invariant
                self.wf(),
                i <= self.rooms@.len(),
                forall|j: int| 0 <= j < i ==> #[trigger] room_key(self.rooms@[j]) != room_id@,
            decreases self.rooms@.len() - i,
        {
            if self.rooms[i].room_id == *room_id {
                proof {
                    lemma_room_pos(self.rooms@, i as int);
                }
                return Some(i);
            }
            i = i + 1;
        }
        None
    }

    /// Whether a room with this id exists.
    pub fn contains_room(&self, room_id: &String) -> (b: bool)
        requires
            self.wf(),
        ensures
            b == self@.dom().contains(room_id@),
    {
        self.find_room(room_id).is_some()
    }
}


/// The predicate "is not `id`", over user ids.
pub open spec fn other_than(id: Seq<char>) -> spec_fn(Seq<char>) -> bool {
    |x: Seq<char>| x != id
}

/// `notices` tell every member of `room` but `joined` the room's member list:
/// one `ListUsers` message per such member, in member order, addressed to that
/// member and carrying the JSON array of all member ids.
pub open spec fn user_list_notices<S>(
    notices: Seq<RoomAction>,
    room: Seq<char>,
    members: Seq<User<S>>,
    joined: Seq<char>,
) -> bool {
    let recipients = member_ids(members).filter(other_than(joined));
    &&& notices.len() == recipients.len()
    &&& forall|i: int|
        0 <= i < notices.len() ==> action_is(
            #[trigger] notices[i],
            Action::ListUsers,
            room,
            recipients[i],
            Some(json_string_array(member_ids(members))),
        )
}

/// `m` is the direct message from `from` to `to` carrying `content`.
pub open spec fn message_is(m: DirectMessage, from: Seq<char>, to: Seq<char>, content: Seq<char>) -> bool {
    &&& m.sender_id@ == from
    &&& m.receiver_id@ == to
    &&& m.content@ == content
}

/// Returns the position of the member with id `id`, if any.
fn find_member<S>(members: &Vec<User<S>>, id: &String) -> (pos: Option<usize>)
    requires
        ids_distinct(members@),
    ensures
        match pos {
            Some(p) => p < members@.len() && has_member(members@, id@) && member_pos(members@, id@)
                == p,
            None => !has_member(members@, id@),
        },
{
    let mut i: usize = 0;
    while i < members.len()
        invariant
            ids_distinct(members@),
            i <= members@.len(),
            forall|j: int| 0 <= j < i ==> #[trigger] members@[j].uid() != id@,
        decreases members@.len() - i,
    {
        if *members[i].id() == *id {
            proof {
                lemma_member_pos(members@, i as int);
            }
            return Some(i);
        }
        i = i + 1;
    }
    None
}

/// The ids of `members`, in order.
fn member_id_list<S>(members: &Vec<User<S>>) -> (ids: Vec<String>)
    ensures
        ids.deep_view() == member_ids(members@),
{
    let mut ids: Vec<String> = Vec::new();
    let mut i: usize = 0;
    while i < members.len()
        invariant
            i <= members@.len(),
            ids@.len() == i,
            forall|j: int| 0 <= j < i ==> #[trigger] ids@[j]@ == members@[j].uid(),
        decreases members@.len() - i,
    {
        let id = members[i].id().clone();
        ids.push(id);
        i = i + 1;
    }
    assert(ids.deep_view() =~= member_ids(members@));
    ids
}

impl<S> Room<S> {
    fn add_member(&mut self, u: User<S>)
        requires
            ids_distinct(old(self).members@),
        ensures
            final(self).members@ == with_member(old(self).members@, u),
            final(self).room_id == old(self).room_id,
    {
        let found = find_member(&self.members, u.id());
        match found {
            Some(p) => {
                self.members.set(p, u);
            },
            None => {
                self.members.push(u);
            },
        }
    }

    fn remove_member(&mut self, id: &String)
        requires
            ids_distinct(old(self).members@),
        ensures
            final(self).members@ == without_member(old(self).members@, id@),
            final(self).room_id == old(self).room_id,
    {
        let found = find_member(&self.members, id);
        match found {
            Some(p) => {
                self.members.remove(p);
            },
            None => {},
        }
    }
}

impl<S> RoomRegistry<S> {
    /// The member `user_id` of room `room_id`, if both exist.
    pub fn member(&self, room_id: &String, user_id: &String) -> (r: Option<&User<S>>)
        requires
            self.wf(),
        ensures
            r is Some <==> self@.dom().contains(room_id@) && has_member(self@[room_id@], user_id@),
            r matches Some(u) ==> *u == self@[room_id@][member_pos(self@[room_id@], user_id@)],
    {
        match self.find_room(room_id) {
            None => None,
            Some(i) => {
                let room = &self.rooms[i];
                assert(room_members(self.rooms@[i as int]).len() > 0);
                match find_member(&room.members, user_id) {
                    None => None,
                    Some(p) => Some(&room.members[p]),
                }
            },
        }
    }

    /// Creates the room `room_id` with `user` as its only member, unless a room
    /// with that id exists already.
    pub fn create_room_with_id(&mut self, room_id: String, user: User<S>) -> (r: Result<
        RoomAction,
        RoomError,
    >)
        requires
            old(self).wf(),
        ensures
            final(self).wf(),
            old(self)@.dom().contains(room_id@) ==> (r matches Err(e) && e@
                == RoomErrorView::RoomAlreadyExists(room_id@) && final(self)@ == old(self)@),
            !old(self)@.dom().contains(room_id@) ==> (r matches Ok(a) && action_is(
                a,
                Action::CreateRoom,
                room_id@,
                user.uid(),
                Some(created_text(room_id@)),
            ) && final(self)@ == old(self)@.insert(room_id@, seq![user])),
    {
        if self.find_room(&room_id).is_some() {
            return Err(RoomError::RoomAlreadyExists(room_id));
        }
        let uid = user.id().clone();
        let mut members: Vec<User<S>> = Vec::new();
        members.push(user);
        let data = created_message(room_id.as_str());
        let room = Room { room_id: room_id.clone(), members };
        proof {
            lemma_rooms_push(self.rooms@, room);
            assert(room_members(room) =~= seq![user]);
        }
        self.rooms.push(room);
        proof {
            lemma_sound_push(old(self).rooms@, room);
        }
        Ok(RoomAction { action: Action::CreateRoom, room_id, user_id: uid, data: Some(data) })
    }

    /// Creates a room with a fresh id and `user` as its only member. Random
    /// version-4 UUIDs are drawn until one is not in use; should every one of
    /// `RANDOM_ID_DRAWS` draws hit an id in use, the counted ids
    /// `counted_room_id(0)`, `counted_room_id(1)`, ... are tried in turn, and
    /// one of the first `n + 1` of them is free when `n` rooms exist.
    pub fn create_room(&mut self, user: User<S>) -> (r: Result<RoomAction, RoomError>)
        requires
            old(self).wf(),
        ensures
            final(self).wf(),
            r matches Ok(a) && !old(self)@.dom().contains(a.room_id@) && is_v4_uuid_text(
                a.room_id@,
            ) && action_is(
                a,
                Action::CreateRoom,
                a.room_id@,
                user.uid(),
                Some(created_text(a.room_id@)),
            ) && final(self)@ == old(self)@.insert(a.room_id@, seq![user]),
    {
        let mut draws: u64 = 0;
        while draws < RANDOM_ID_DRAWS
            invariant
                self.wf(),
                self@ == old(self)@,
            decreases RANDOM_ID_DRAWS - draws,
        {
            let candidate = new_random_id();
            if !self.contains_room(&candidate) {
                return self.create_room_with_id(candidate, user);
            }
            draws = draws + 1;
        }
        let n: u64 = self.rooms.len() as u64;
        let mut k: u64 = 0;
        let ghost mut tried: Seq<Seq<char>> = Seq::empty();
        loop
            invariant
                self.wf(),
                self@ == old(self)@,
                n == self.rooms@.len(),
                k <= n,
                tried.len() == k,
                forall|j: int|
                    0 <= j < k ==> #[trigger] tried[j] == counted_room_id(j as nat)
                        && self@.dom().contains(tried[j]),
            decreases n - k,
        {
            let candidate = counted_id(k);
            if !self.contains_room(&candidate) {
                proof {
                    lemma_counted_id_is_v4(k as nat);
                }
                return self.create_room_with_id(candidate, user);
            }
            proof {
                tried = tried.push(candidate@);
                if k == n {
                    self.lemma_counted_ids_in_use(tried);
                }
            }
            k = k + 1;
        }
    }

    /// Counted ids that are all in use are no more than the rooms.
    proof fn lemma_counted_ids_in_use(&self, tried: Seq<Seq<char>>)
        requires
            self.wf(),
            tried.len() <= u64::MAX + 1,
            forall|j: int|
                0 <= j < tried.len() ==> #[trigger] tried[j] == counted_room_id(j as nat)
                    && self@.dom().contains(tried[j]),
        ensures
            tried.len() <= self.rooms@.len(),
    {
        assert forall|i: int, j: int|
            0 <= i < tried.len() && 0 <= j < tried.len() && i != j implies tried[i] != tried[j] by {
            if tried[i] == tried[j] {
                lemma_counted_id_injective(i as u64, j as u64);
            }
        }
        let keys = self.rooms@.map_values(|r: Room<S>| room_key(r));
        assert forall|i: int| 0 <= i < tried.len() implies keys.contains(#[trigger] tried[i]) by {
            assert(self@.dom().contains(tried[i]));
            let p = choose|p: int| 0 <= p < self.rooms@.len() && #[trigger] room_key(self.rooms@[p]) == tried[i];
            assert(keys[p] == tried[i]);
        }
        lemma_distinct_within(tried, keys);
    }

    /// Adds `user` to the existing room `room_id` (replacing a member with the
    /// same id), and lists the room's members for every other member.
    pub fn join_room(&mut self, room_id: &String, user: User<S>) -> (r: Result<
        (RoomAction, Vec<RoomAction>),
        RoomError,
    >)
        requires
            old(self).wf(),
        ensures
            final(self).wf(),
            !old(self)@.dom().contains(room_id@) ==> (r matches Err(e) && e@
                == RoomErrorView::RoomDoesNotExists(room_id@) && final(self)@ == old(self)@),
            old(self)@.dom().contains(room_id@) ==> (r matches Ok((a, notices)) && final(self)@
                == joined(old(self)@, room_id@, user) && action_is(
                a,
                Action::JoinRoom,
                room_id@,
                user.uid(),
                Some(joined_text(user.uid(), room_id@)),
            ) && user_list_notices(notices@, room_id@, final(self)@[room_id@], user.uid())),
    {
        let found = self.find_room(room_id);
        let i: usize = match found {
            None => {
                return Err(RoomError::RoomDoesNotExists(room_id.clone()));
            },
            Some(i) => i,
        };
        let ghost old_rooms = self.rooms@;
        let uid = user.id().clone();
        let ghost u = user;
        let mut room = Room { room_id: String::new(), members: Vec::new() };
        self.rooms.set_and_swap(i, &mut room);
        assert(room == old_rooms[i as int]);
        assert(room_members(old_rooms[i as int]).len() > 0);
        room.add_member(user);
        proof {
            lemma_with_member(room_members(old_rooms[i as int]), u);
        }
        let ids = member_id_list(&room.members);
        let json = to_json_string_array(&ids);
        let mut notices: Vec<RoomAction> = Vec::new();
        let ghost ms = room.members@;
        let mut j: usize = 0;
        while j < room.members.len()
            invariant
                j <= room.members@.len(),
                ms == room.members@,
                uid@ == u.uid(),
                json@ == json_string_array(member_ids(ms)),
                notices@.len() == member_ids(ms).take(j as int).filter(other_than(u.uid())).len(),
                forall|k: int|
                    0 <= k < notices@.len() ==> action_is(
                        #[trigger] notices@[k],
                        Action::ListUsers,
                        room_id@,
                        member_ids(ms).take(j as int).filter(other_than(u.uid()))[k],
                        Some(json_string_array(member_ids(ms))),
                    ),
            decreases room.members@.len() - j,
        {
            let ghost prev = member_ids(ms).take(j as int);
            proof {
                assert(member_ids(ms).take(j + 1).drop_last() =~= prev);
                reveal(Seq::filter);
            }
            let mid = room.members[j].id();
            if *mid != uid {
                notices.push(
                    RoomAction {
                        action: Action::ListUsers,
                        room_id: room_id.clone(),
                        user_id: mid.clone(),
                        data: Some(json.clone()),
                    },
                );
            }
            j = j + 1;
        }
        proof {
            assert(member_ids(ms).take(j as int) =~= member_ids(ms));
        }
        let data = joined_message(uid.as_str(), room_id.as_str());
        let ghost new_room = room;
        self.rooms.set(i, room);
        proof {
            lemma_rooms_update(old_rooms, i as int, new_room);
            assert(self.rooms@ =~= old_rooms.update(i as int, new_room));
            lemma_sound_update(old_rooms, i as int, new_room);
            lemma_room_pos(old_rooms, i as int);
        }
        Ok(
            (
                RoomAction {
                    action: Action::JoinRoom,
                    room_id: room_id.clone(),
                    user_id: uid,
                    data: Some(data),
                },
                notices,
            ),
        )
    }
}

impl<S> RoomRegistry<S> {
    /// Removes `user` from the existing room `room_id`; a room left without
    /// members is removed.
    pub fn leave_room(&mut self, room_id: &String, user: &User<S>) -> (r: Result<
        RoomAction,
        RoomError,
    >)
        requires
            old(self).wf(),
        ensures
            final(self).wf(),
            !old(self)@.dom().contains(room_id@) ==> (r matches Err(e) && e@
                == RoomErrorView::RoomDoesNotExists(room_id@) && final(self)@ == old(self)@),
            old(self)@.dom().contains(room_id@) ==> (r matches Ok(a) && final(self)@ == left(
                old(self)@,
                room_id@,
                user.uid(),
            ) && action_is(
                a,
                Action::LeaveRoom,
                room_id@,
                user.uid(),
                Some(left_text(user.uid(), room_id@)),
            )),
    {
        let found = self.find_room(room_id);
        let i: usize = match found {
            None => {
                return Err(RoomError::RoomDoesNotExists(room_id.clone()));
            },
            Some(i) => i,
        };
        let ghost old_rooms = self.rooms@;
        let mut room = Room { room_id: String::new(), members: Vec::new() };
        self.rooms.set_and_swap(i, &mut room);
        assert(room == old_rooms[i as int]);
        assert(room_members(old_rooms[i as int]).len() > 0);
        room.remove_member(user.id());
        proof {
            lemma_without_member(room_members(old_rooms[i as int]), user.uid());
            lemma_room_pos(old_rooms, i as int);
        }
        if room.members.len() == 0 {
            self.rooms.remove(i);
            proof {
                assert(self.rooms@ =~= old_rooms.remove(i as int));
                lemma_rooms_remove(old_rooms, i as int);
                lemma_sound_remove(old_rooms, i as int);
            }
        } else {
            let ghost new_room = room;
            self.rooms.set(i, room);
            proof {
                lemma_rooms_update(old_rooms, i as int, new_room);
                assert(self.rooms@ =~= old_rooms.update(i as int, new_room));
                lemma_sound_update(old_rooms, i as int, new_room);
            }
        }
        let data = left_message(user.id().as_str(), room_id.as_str());
        Ok(
            RoomAction {
                action: Action::LeaveRoom,
                room_id: room_id.clone(),
                user_id: user.id().clone(),
                data: Some(data),
            },
        )
    }

    /// Lists the members of the room `room_id` for `user`, as a JSON array of
    /// their ids in member order.
    pub fn get_list_users_in_room(&self, room_id: &String, user: &User<S>) -> (r: Result<
        RoomAction,
        RoomError,
    >)
        requires
            self.wf(),
        ensures
            !self@.dom().contains(room_id@) ==> (r matches Err(e) && e@
                == RoomErrorView::RoomDoesNotExists(room_id@)),
            self@.dom().contains(room_id@) ==> (r matches Ok(a) && action_is(
                a,
                Action::ListUsers,
                room_id@,
                user.uid(),
                Some(json_string_array(member_ids(self@[room_id@]))),
            )),
    {
        match self.find_room(room_id) {
            None => Err(RoomError::RoomDoesNotExists(room_id.clone())),
            Some(i) => {
                let ids = member_id_list(&self.rooms[i].members);
                let json = to_json_string_array(&ids);
                Ok(
                    RoomAction {
                        action: Action::ListUsers,
                        room_id: room_id.clone(),
                        user_id: user.id().clone(),
                        data: Some(json),
                    },
                )
            },
        }
    }

    /// A direct message from `user` to the member `target_user_id` of room
    /// `room_id`: the message to deliver when the target is there, and the
    /// outcome reported to the sender, which is `TargetUserNotFound` in every
    /// case, delivered or not.
    pub fn send_direct_message(
        &self,
        room_id: &String,
        user: &User<S>,
        target_user_id: &String,
        message: &str,
    ) -> (r: (Option<DirectMessage>, Result<(), RoomError>))
        requires
            self.wf(),
        ensures
            r.0 is Some <==> self@.dom().contains(room_id@) && has_member(
                self@[room_id@],
                target_user_id@,
            ),
            r.0 matches Some(m) ==> message_is(m, user.uid(), target_user_id@, message@),
            r.1 matches Err(e) && e@ == RoomErrorView::TargetUserNotFound(room_id@, target_user_id@),
    {
        let mut delivery: Option<DirectMessage> = None;
        match self.find_room(room_id) {
            None => {},
            Some(i) => {
                assert(room_members(self.rooms@[i as int]).len() > 0);
                match find_member(&self.rooms[i].members, target_user_id) {
                    None => {},
                    Some(_) => {
                        delivery =
                        Some(
                            DirectMessage {
                                sender_id: user.id().clone(),
                                receiver_id: target_user_id.clone(),
                                content: String::from_str(message),
                            },
                        );
                    },
                }
            },
        }
        (delivery, Err(RoomError::TargetUserNotFound(room_id.clone(), target_user_id.clone())))
    }

    /// A message from `user` to every member of room `room_id`, the sender
    /// included, in member order. A missing room is reported as `LockFailed`.
    pub fn broadcast_message_to_room(&self, room_id: &String, user: &User<S>, message: &str) -> (r: (
        Vec<DirectMessage>,
        Result<(), RoomError>,
    ))
        requires
            self.wf(),
        ensures
            !self@.dom().contains(room_id@) ==> r.0@.len() == 0 && (r.1 matches Err(e) && e@
                == RoomErrorView::LockFailed),
            self@.dom().contains(room_id@) ==> r.1 is Ok && r.0@.len() == self@[room_id@].len()
                && forall|i: int|
                0 <= i < r.0@.len() ==> message_is(
                    #[trigger] r.0@[i],
                    user.uid(),
                    self@[room_id@][i].uid(),
                    message@,
                ),
    {
        match self.find_room(room_id) {
            None => (Vec::new(), Err(RoomError::LockFailed)),
            Some(i) => {
                let members = &self.rooms[i].members;
                let mut out: Vec<DirectMessage> = Vec::new();
                let mut j: usize = 0;
                while j < members.len()
                    invariant
                        j <= members@.len(),
                        out@.len() == j,
                        forall|k: int|
                            0 <= k < j ==> message_is(
                                #[trigger] out@[k],
                                user.uid(),
                                members@[k].uid(),
                                message@,
                            ),
                    decreases members@.len() - j,
                {
                    out.push(
                        DirectMessage {
                            sender_id: user.id().clone(),
                            receiver_id: members[j].id().clone(),
                            content: String::from_str(message),
                        },
                    );
                    j = j + 1;
                }
                (out, Ok(()))
            },
        }
    }
}

/// Joining a room and then leaving it again restores the registry exactly, for a
/// user who was not yet a member of that room.
pub proof fn law_join_then_leave_restores<S>(m: Map<Seq<char>, Seq<User<S>>>, room: Seq<char>, u: User<S>)
    requires
        rooms_sound(m),
        m.dom().contains(room),
        !has_member(m[room], u.uid()),
    ensures
        left(joined(m, room, u), room, u.uid()) == m,
{
    lemma_join_leave(m[room], u);
    assert(left(joined(m, room, u), room, u.uid()) =~= m);
}

/// After joining, the user is a member of the room (the member with its id is
/// exactly the user), and every other room is unchanged.
pub proof fn law_joined_user_is_member<S>(m: Map<Seq<char>, Seq<User<S>>>, room: Seq<char>, u: User<S>)
    requires
        rooms_sound(m),
        m.dom().contains(room),
    ensures
        joined(m, room, u).dom() == m.dom(),
        has_member(joined(m, room, u)[room], u.uid()),
        joined(m, room, u)[room][member_pos(joined(m, room, u)[room], u.uid())] == u,
        forall|k: Seq<char>| k != room && #[trigger] m.dom().contains(k) ==> joined(m, room, u)[k] == m[k],
{
    lemma_with_member(m[room], u);
    assert(joined(m, room, u).dom() =~= m.dom());
}

/// After leaving, the user is no longer a member of the room (which may be
/// gone), and every other room is unchanged.
pub proof fn law_left_user_is_gone<S>(m: Map<Seq<char>, Seq<User<S>>>, room: Seq<char>, id: Seq<char>)
    requires
        rooms_sound(m),
        m.dom().contains(room),
    ensures
        !(left(m, room, id).dom().contains(room) && has_member(left(m, room, id)[room], id)),
        forall|k: Seq<char>| k != room ==> (#[trigger] left(m, room, id).dom().contains(k) <==> m.dom().contains(k)),
        forall|k: Seq<char>| k != room && #[trigger] m.dom().contains(k) ==> left(m, room, id)[k] == m[k],
{
    lemma_without_member(m[room], id);
}

/// Every operation keeps the registry sound: no room is ever left empty, and no
/// two members of a room share an id.
pub proof fn law_rooms_stay_sound<S>(m: Map<Seq<char>, Seq<User<S>>>, room: Seq<char>, u: User<S>, id: Seq<char>)
    requires
        rooms_sound(m),
    ensures
        !m.dom().contains(room) ==> rooms_sound(m.insert(room, seq![u])),
        m.dom().contains(room) ==> rooms_sound(joined(m, room, u)),
        m.dom().contains(room) ==> rooms_sound(left(m, room, id)),
{
    if m.dom().contains(room) {
        lemma_with_member(m[room], u);
        lemma_without_member(m[room], id);
    }
    let m1 = m.insert(room, seq![u]);
    assert forall|k: Seq<char>| #[trigger] m1.dom().contains(k) implies m1[k].len() > 0 && ids_distinct(m1[k]) by {
        if k != room {
            assert(m.dom().contains(k));
        }
    }
    if m.dom().contains(room) {
        let m2 = joined(m, room, u);
        assert forall|k: Seq<char>| #[trigger] m2.dom().contains(k) implies m2[k].len() > 0 && ids_distinct(m2[k]) by {
            if k != room {
                assert(m.dom().contains(k));
            }
        }
        let m3 = left(m, room, id);
        assert forall|k: Seq<char>| #[trigger] m3.dom().contains(k) implies m3[k].len() > 0 && ids_distinct(m3[k]) by {
            if k != room {
                assert(m.dom().contains(k));
            }
        }
    }
}

/// Joining a room a second time, as the same user, changes nothing more: the
/// registry after the second join equals the one after the first (and so does
/// the second join's result, which its contract fixes from that registry).
pub proof fn law_join_twice_same<S>(m: Map<Seq<char>, Seq<User<S>>>, room: Seq<char>, u: User<S>)
    requires
        rooms_sound(m),
        m.dom().contains(room),
    ensures
        joined(joined(m, room, u), room, u) == joined(m, room, u),
{
    let ms = with_member(m[room], u);
    lemma_with_member(m[room], u);
    let p = member_pos(ms, u.uid());
    assert(with_member(ms, u) == ms.update(p, u));
    assert(ms.update(p, u) =~= ms);
    assert(joined(joined(m, room, u), room, u) =~= joined(m, room, u));
}

proof fn lemma_filter_keeps_all(s: Seq<Seq<char>>, id: Seq<char>)
    requires
        forall|i: int| 0 <= i < s.len() ==> #[trigger] s[i] != id,
    ensures
        s.filter(other_than(id)) == s,
    decreases s.len(),
{
    reveal(Seq::filter);
    if s.len() > 0 {
        lemma_filter_keeps_all(s.drop_last(), id);
        assert(s.drop_last().push(s.last()) =~= s);
    }
}

proof fn lemma_filter_drops_one(s: Seq<Seq<char>>, id: Seq<char>, p: int)
    requires
        0 <= p < s.len(),
        s[p] == id,
        forall|i: int| 0 <= i < s.len() && i != p ==> #[trigger] s[i] != id,
    ensures
        s.filter(other_than(id)) == s.remove(p),
    decreases s.len(),
{
    reveal(Seq::filter);
    if p == s.len() - 1 {
        lemma_filter_keeps_all(s.drop_last(), id);
        assert(s.drop_last() =~= s.remove(p));
    } else {
        lemma_filter_drops_one(s.drop_last(), id, p);
        assert(s.drop_last().remove(p).push(s.last()) =~= s.remove(p));
    }
}

/// A join sends one member-list notice to each member other than the joiner,
/// in member order, and none to the joiner: with the joiner already a member
/// at position `p`, the notices go to the members before and after `p`;
/// otherwise to every member.
pub proof fn law_notices_reach_every_other_member<S>(
    notices: Seq<RoomAction>,
    room: Seq<char>,
    members: Seq<User<S>>,
    joiner: Seq<char>,
)
    requires
        ids_distinct(members),
        user_list_notices(notices, room, members, joiner),
    ensures
        forall|k: int|
            0 <= k < notices.len() ==> (#[trigger] notices[k]).action == Action::ListUsers
                && notices[k].room_id@ == room && notices[k].user_id@ != joiner,
        has_member(members, joiner) ==> notices.len() == members.len() - 1 && forall|k: int|
            0 <= k < notices.len() ==> (#[trigger] notices[k]).user_id@ == members[if k < member_pos(
                members,
                joiner,
            ) {
                k
            } else {
                k + 1
            }].uid(),
        !has_member(members, joiner) ==> notices.len() == members.len() && forall|k: int|
            0 <= k < notices.len() ==> (#[trigger] notices[k]).user_id@ == members[k].uid(),
{
    let ids = member_ids(members);
    assert(ids.len() == members.len());
    if has_member(members, joiner) {
        let p: int = member_pos(members, joiner);
        assert forall|i: int| 0 <= i < ids.len() && i != p implies #[trigger] ids[i] != joiner by {
            assert(ids[i] == members[i].uid());
            assert(members[i].uid() != members[p].uid());
        }
        lemma_filter_drops_one(ids, joiner, p);
        let r = ids.filter(other_than(joiner));
        assert forall|k: int| 0 <= k < notices.len() implies (#[trigger] notices[k]).action
            == Action::ListUsers && notices[k].room_id@ == room && notices[k].user_id@ != joiner
            && notices[k].user_id@ == members[if k < p { k } else { k + 1 }].uid() by {
            let q: int = if k < p { k } else { k + 1 };
            assert(r[k] == ids[q]);
            assert(ids[q] == members[q].uid());
        }
    } else {
        assert forall|i: int| 0 <= i < ids.len() implies #[trigger] ids[i] != joiner by {
            assert(ids[i] == members[i].uid());
        }
        lemma_filter_keeps_all(ids, joiner);
        assert forall|k: int| 0 <= k < notices.len() implies (#[trigger] notices[k]).action
            == Action::ListUsers && notices[k].room_id@ == room && notices[k].user_id@ != joiner
            && notices[k].user_id@ == members[k].uid() by {
            assert(ids[k] == members[k].uid());
        }
    }
}

/// After a leave, a room that remains holds every old member but the leaver
/// and no one else, with one member fewer when the leaver was a member; a room
/// that goes away held no one but the leaver.
pub proof fn law_leave_keeps_other_members<S>(m: Map<Seq<char>, Seq<User<S>>>, room: Seq<char>, id: Seq<char>)
    requires
        rooms_sound(m),
        m.dom().contains(room),
    ensures
        left(m, room, id).dom().contains(room) ==> {
            let after = left(m, room, id)[room];
            &&& has_member(m[room], id) ==> after.len() == m[room].len() - 1
            &&& !has_member(m[room], id) ==> after.len() == m[room].len()
            &&& forall|j: int|
                0 <= j < m[room].len() && #[trigger] m[room][j].uid() != id ==> after.contains(
                    m[room][j],
                )
            &&& forall|k: int|
                0 <= k < after.len() ==> (#[trigger] after[k]).uid() != id && m[room].contains(after[k])
        },
        !left(m, room, id).dom().contains(room) ==> forall|j: int|
            0 <= j < m[room].len() ==> (#[trigger] m[room][j]).uid() == id,
{
    law_leave_removes_only_the_leaver(m[room], id);
    if !left(m, room, id).dom().contains(room) {
        assert forall|j: int| 0 <= j < m[room].len() implies (#[trigger] m[room][j]).uid() == id by {
            if m[room][j].uid() != id {
                assert(without_member(m[room], id).contains(m[room][j]));
            }
        }
    }
}

/// After a join, the room holds the joiner, every old member with another id,
/// and no one else: as many members as before for a rejoin, one more for a
/// new member.
pub proof fn law_join_keeps_other_members<S>(m: Map<Seq<char>, Seq<User<S>>>, room: Seq<char>, u: User<S>)
    requires
        rooms_sound(m),
        m.dom().contains(room),
    ensures
        ({
            let after = joined(m, room, u)[room];
            &&& after.contains(u)
            &&& has_member(m[room], u.uid()) ==> after.len() == m[room].len()
            &&& !has_member(m[room], u.uid()) ==> after.len() == m[room].len() + 1
            &&& forall|j: int|
                0 <= j < m[room].len() && #[trigger] m[room][j].uid() != u.uid() ==> after.contains(
                    m[room][j],
                )
            &&& forall|k: int|
                0 <= k < after.len() ==> #[trigger] after[k] == u || (m[room].contains(after[k])
                    && after[k].uid() != u.uid())
        }),
{
    law_join_adds_only_the_joiner(m[room], u);
}

} // verus!
