//! The members of one room: an ordered list of users with distinct ids.
use crate::room::User;
use vstd::prelude::*;

verus! {

/// The ids of `members`, in order.
pub open spec fn member_ids<S>(members: Seq<User<S>>) -> Seq<Seq<char>> {
    members.map_values(|u: User<S>| u.uid())
}

/// No two members share an id.
pub open spec fn ids_distinct<S>(members: Seq<User<S>>) -> bool {
    forall|i: int, j: int|
        0 <= i < members.len() && 0 <= j < members.len() && i != j ==> #[trigger] members[i].uid()
            != #[trigger] members[j].uid()
}

/// Some member has the id `id`.
pub open spec fn has_member<S>(members: Seq<User<S>>, id: Seq<char>) -> bool {
    exists|i: int| 0 <= i < members.len() && #[trigger] members[i].uid() == id
}

/// The position of the member with id `id` (meaningful where `has_member` holds).
pub open spec fn member_pos<S>(members: Seq<User<S>>, id: Seq<char>) -> int {
    choose|i: int| 0 <= i < members.len() && #[trigger] members[i].uid() == id
}

/// `members` after `u` joins: a member with `u`'s id is replaced in place,
/// otherwise `u` is added at the end.
pub open spec fn with_member<S>(members: Seq<User<S>>, u: User<S>) -> Seq<User<S>> {
    if has_member(members, u.uid()) {
        members.update(member_pos(members, u.uid()), u)
    } else {
        members.push(u)
    }
}

/// `members` after the member with id `id` leaves; the others keep their order.
pub open spec fn without_member<S>(members: Seq<User<S>>, id: Seq<char>) -> Seq<User<S>> {
    if has_member(members, id) {
        members.remove(member_pos(members, id))
    } else {
        members
    }
}

/// With distinct ids, the member at `j` is the one `member_pos` finds.
pub proof fn lemma_member_pos<S>(members: Seq<User<S>>, j: int)
    requires
        ids_distinct(members),
        0 <= j < members.len(),
    ensures
        has_member(members, members[j].uid()),
        member_pos(members, members[j].uid()) == j,
{
    let id = members[j].uid();
    assert(has_member(members, id));
    let p: int = member_pos(members, id);
    if p != j {
        assert(members[p].uid() != members[j].uid());
    }
}

/// Joining keeps the ids distinct and makes `u` a member.
pub proof fn lemma_with_member<S>(members: Seq<User<S>>, u: User<S>)
    requires
        ids_distinct(members),
    ensures
        ids_distinct(with_member(members, u)),
        has_member(with_member(members, u), u.uid()),
        with_member(members, u)[member_pos(with_member(members, u), u.uid())] == u,
        with_member(members, u).len() > 0,
{
    let m2 = with_member(members, u);
    if has_member(members, u.uid()) {
        let p: int = member_pos(members, u.uid());
        assert forall|i: int, j: int|
            0 <= i < m2.len() && 0 <= j < m2.len() && i != j implies #[trigger] m2[i].uid()
            != #[trigger] m2[j].uid() by {
            if i == p {
                assert(members[p].uid() == u.uid());
                assert(members[j].uid() != members[p].uid());
            } else if j == p {
                assert(members[i].uid() != members[p].uid());
            } else {
                assert(members[i].uid() != members[j].uid());
            }
        }
        lemma_member_pos(m2, p);
    } else {
        assert forall|i: int, j: int|
            0 <= i < m2.len() && 0 <= j < m2.len() && i != j implies #[trigger] m2[i].uid()
            != #[trigger] m2[j].uid() by {
            if i == members.len() {
                assert(m2[j] == members[j]);
            } else if j == members.len() {
                assert(m2[i] == members[i]);
            } else {
                assert(members[i].uid() != members[j].uid());
            }
        }
        lemma_member_pos(m2, members.len() as int);
    }
}

/// Leaving keeps the ids distinct and removes the member with that id.
pub proof fn lemma_without_member<S>(members: Seq<User<S>>, id: Seq<char>)
    requires
        ids_distinct(members),
    ensures
        ids_distinct(without_member(members, id)),
        !has_member(without_member(members, id), id),
{
    let m2 = without_member(members, id);
    if has_member(members, id) {
        let p: int = member_pos(members, id);
        assert forall|i: int, j: int|
            0 <= i < m2.len() && 0 <= j < m2.len() && i != j implies #[trigger] m2[i].uid()
            != #[trigger] m2[j].uid() by {
            let a: int = if i < p { i } else { i + 1 };
            let b: int = if j < p { j } else { j + 1 };
            assert(m2[i] == members[a]);
            assert(m2[j] == members[b]);
            assert(members[a].uid() != members[b].uid());
        }
        if has_member(m2, id) {
            let q: int = member_pos(m2, id);
            let a: int = if q < p { q } else { q + 1 };
            assert(m2[q] == members[a]);
            assert(members[a].uid() != members[p].uid());
        }
    }
}

/// A user who was not a member joins and then leaves: the members are as before.
pub proof fn lemma_join_leave<S>(members: Seq<User<S>>, u: User<S>)
    requires
        ids_distinct(members),
        !has_member(members, u.uid()),
    ensures
        without_member(with_member(members, u), u.uid()) == members,
{
    let m2 = members.push(u);
    lemma_member_pos(m2, members.len() as int);
    assert(m2.remove(members.len() as int) =~= members);
}

/// The listed ids are the ids of all members, one for each member, in order.
pub proof fn law_member_ids_list_every_member<S>(members: Seq<User<S>>)
    ensures
        member_ids(members).len() == members.len(),
        forall|i: int| 0 <= i < members.len() ==> #[trigger] member_ids(members)[i] == members[i].uid(),
{
}

/// Leaving removes exactly the leaver: one member fewer when the leaver was a
/// member (none fewer otherwise), every other member stays, and no one else
/// appears.
pub proof fn law_leave_removes_only_the_leaver<S>(members: Seq<User<S>>, id: Seq<char>)
    requires
        ids_distinct(members),
    ensures
        has_member(members, id) ==> without_member(members, id).len() == members.len() - 1,
        !has_member(members, id) ==> without_member(members, id).len() == members.len(),
        forall|j: int|
            0 <= j < members.len() && #[trigger] members[j].uid() != id ==> without_member(
                members,
                id,
            ).contains(members[j]),
        forall|k: int|
            0 <= k < without_member(members, id).len() ==> (#[trigger] without_member(members, id)[k]).uid()
                != id && members.contains(without_member(members, id)[k]),
{
    let r = without_member(members, id);
    if has_member(members, id) {
        let p: int = member_pos(members, id);
        assert forall|j: int|
            0 <= j < members.len() && #[trigger] members[j].uid() != id implies r.contains(members[j]) by {
            let q: int = if j < p { j } else { j - 1 };
            assert(j != p);
            assert(r[q] == members[j]);
        }
        assert forall|k: int| 0 <= k < r.len() implies (#[trigger] r[k]).uid() != id && members.contains(
            r[k],
        ) by {
            let q: int = if k < p { k } else { k + 1 };
            assert(r[k] == members[q]);
            assert(members[q].uid() != members[p].uid());
        }
    } else {
        assert forall|k: int| 0 <= k < r.len() implies (#[trigger] r[k]).uid() != id && members.contains(
            r[k],
        ) by {
            assert(r[k] == members[k]);
        }
    }
}

/// Joining never removes anyone: the joiner is a member afterwards, the count
/// grows by one for a new member and stays for a rejoin, every other member
/// stays, and no one but the joiner appears.
pub proof fn law_join_adds_only_the_joiner<S>(members: Seq<User<S>>, u: User<S>)
    requires
        ids_distinct(members),
    ensures
        with_member(members, u).contains(u),
        has_member(members, u.uid()) ==> with_member(members, u).len() == members.len(),
        !has_member(members, u.uid()) ==> with_member(members, u).len() == members.len() + 1,
        forall|j: int|
            0 <= j < members.len() && #[trigger] members[j].uid() != u.uid() ==> with_member(
                members,
                u,
            ).contains(members[j]),
        forall|k: int|
            0 <= k < with_member(members, u).len() ==> #[trigger] with_member(members, u)[k] == u || (
            members.contains(with_member(members, u)[k]) && with_member(members, u)[k].uid()
                != u.uid()),
{
    let r = with_member(members, u);
    if has_member(members, u.uid()) {
        let p: int = member_pos(members, u.uid());
        assert(r[p] == u);
        assert forall|j: int|
            0 <= j < members.len() && #[trigger] members[j].uid() != u.uid() implies r.contains(
            members[j],
        ) by {
            assert(j != p);
            assert(r[j] == members[j]);
        }
        assert forall|k: int| 0 <= k < r.len() implies #[trigger] r[k] == u || (members.contains(r[k])
            && r[k].uid() != u.uid()) by {
            if k != p {
                assert(r[k] == members[k]);
                assert(members[k].uid() != members[p].uid());
            }
        }
    } else {
        let n: int = members.len() as int;
        assert(r[n] == u);
        assert forall|j: int|
            0 <= j < members.len() && #[trigger] members[j].uid() != u.uid() implies r.contains(
            members[j],
        ) by {
            assert(r[j] == members[j]);
        }
        assert forall|k: int| 0 <= k < r.len() implies #[trigger] r[k] == u || (members.contains(r[k])
            && r[k].uid() != u.uid()) by {
            if k != n {
                assert(r[k] == members[k]);
            }
        }
    }
}

} // verus!
