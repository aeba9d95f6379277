//! Checks that the shard lists of a committee's members split the shard space
//! among them.

use crate::committee::{
    holds_at, members_view, shard_is_assigned, shards_distinct, shards_in_range, Member,
    MemberView, ShardIndex,
};
use vstd::prelude::*;

verus! {

/// Position `(m1, p1)` of an assignment is read before position `(m, p)`.
pub open spec fn before(m1: int, p1: int, m: int, p: int) -> bool {
    m1 < m || (m1 == m && p1 < p)
}

/// Shard `s` stands at a position that is read before `(m, p)`.
pub open spec fn seen_before(members: Seq<MemberView>, m: int, p: int, s: ShardIndex) -> bool {
    exists|m1: int, p1: int| #[trigger] holds_at(members, m1, p1, s) && before(m1, p1, m, p)
}

/// No shard stands at two positions that are read before `(m, p)`.
pub open spec fn distinct_before(members: Seq<MemberView>, m: int, p: int) -> bool {
    forall|m1: int, p1: int, m2: int, p2: int, s: ShardIndex|
        #[trigger] holds_at(members, m1, p1, s) && #[trigger] holds_at(members, m2, p2, s)
            && before(m1, p1, m, p) && before(m2, p2, m, p) ==> m1 == m2 && p1 == p2
}

/// Tells whether every assigned shard index lies below `n_shards`.
pub fn all_in_range(members: &Vec<Member>, n_shards: u16) -> (r: bool)
    ensures
        r == shards_in_range(members_view(members@), n_shards),
{
    let ghost mv = members_view(members@);
    let mut m: usize = 0;
    while m < members.len()
        invariant
            m <= members.len(),
            mv == members_view(members@),
            forall|m1: int, p1: int, s: ShardIndex| #[trigger]
                holds_at(mv, m1, p1, s) && m1 < m ==> s < n_shards,
        decreases members.len() - m,
    {
        let ids = &members[m].shard_ids;
        let mut p: usize = 0;
        while p < ids.len()
            invariant
                m < members.len(),
                p <= ids.len(),
                mv == members_view(members@),
                ids@ == mv[m as int].shard_ids,
                forall|m1: int, p1: int, s: ShardIndex| #[trigger]
                    holds_at(mv, m1, p1, s) && m1 < m ==> s < n_shards,
                forall|p1: int, s: ShardIndex| #[trigger]
                    holds_at(mv, m as int, p1, s) && p1 < p ==> s < n_shards,
            decreases ids.len() - p,
        {
            if ids[p] >= n_shards {
                assert(holds_at(mv, m as int, p as int, ids@[p as int]));
                return false;
            }
            p += 1;
        }
        m += 1;
    }
    true
}

/// Reads the assignment once and marks each shard that it meets. Gives no
/// marks when a shard is met a second time.
pub fn mark_shards(members: &Vec<Member>, n_shards: u16) -> (r: Option<Vec<bool>>)
    requires
        shards_in_range(members_view(members@), n_shards),
    ensures
        r is Some <==> shards_distinct(members_view(members@)),
        r matches Some(seen) ==> seen@.len() == n_shards && forall|s: ShardIndex|
            s < n_shards ==> #[trigger] seen@[s as int] == shard_is_assigned(
                members_view(members@),
                s,
            ),
{
    let ghost mv = members_view(members@);
    let mut seen: Vec<bool> = Vec::new();
    let mut k: u16 = 0;
    while k < n_shards
        invariant
            k <= n_shards,
            seen@.len() == k,
            forall|j: int| 0 <= j < k ==> !seen@[j],
        decreases n_shards - k,
    {
        seen.push(false);
        k += 1;
    }
    let mut m: usize = 0;
    while m < members.len()
        invariant
            m <= members.len(),
            mv == members_view(members@),
            shards_in_range(mv, n_shards),
            seen@.len() == n_shards,
            forall|s: ShardIndex|
                s < n_shards ==> #[trigger] seen@[s as int] == seen_before(mv, m as int, 0, s),
            distinct_before(mv, m as int, 0),
        decreases members.len() - m,
    {
        let ids = &members[m].shard_ids;
        let mut p: usize = 0;
        while p < ids.len()
            invariant
                m < members.len(),
                p <= ids.len(),
                mv == members_view(members@),
                ids@ == mv[m as int].shard_ids,
                shards_in_range(mv, n_shards),
                seen@.len() == n_shards,
                forall|s: ShardIndex|
                    s < n_shards ==> #[trigger] seen@[s as int] == seen_before(
                        mv,
                        m as int,
                        p as int,
                        s,
                    ),
                distinct_before(mv, m as int, p as int),
            decreases ids.len() - p,
        {
            let id: ShardIndex = ids[p];
            assert(holds_at(mv, m as int, p as int, id));
            if seen[id as usize] {
                proof {
                    assert(seen_before(mv, m as int, p as int, id));
                    let (m1, p1) = choose|m1: int, p1: int| #[trigger]
                        holds_at(mv, m1, p1, id) && before(m1, p1, m as int, p as int);
                    assert(holds_at(mv, m1, p1, id));
                    assert(!(m1 == m && p1 == p));
                }
                return None;
            }
            let ghost marks = seen@;
            seen.set(id as usize, true);
            proof {
                lemma_mark_step(mv, n_shards, m as int, p as int, id, marks, seen@);
            }
            p += 1;
        }
        proof {
            lemma_next_member(mv, m as int);
        }
        m += 1;
    }
    proof {
        lemma_all_read(mv);
    }
    Some(seen)
}

/// Marking the shard at `(m, p)` keeps the marks in step with what was read.
proof fn lemma_mark_step(
    mv: Seq<MemberView>,
    n_shards: u16,
    m: int,
    p: int,
    id: ShardIndex,
    marks: Seq<bool>,
    marked: Seq<bool>,
)
    requires
        holds_at(mv, m, p, id),
        id < n_shards,
        marks.len() == n_shards,
        marked == marks.update(id as int, true),
        !marks[id as int],
        forall|s: ShardIndex|
            s < n_shards ==> #[trigger] marks[s as int] == seen_before(mv, m, p, s),
        distinct_before(mv, m, p),
    ensures
        forall|s: ShardIndex|
            s < n_shards ==> #[trigger] marked[s as int] == seen_before(mv, m, p + 1, s),
        distinct_before(mv, m, p + 1),
{
    assert forall|s: ShardIndex| s < n_shards implies #[trigger] marked[s as int] == seen_before(
        mv,
        m,
        p + 1,
        s,
    ) by {
        if s == id {
            assert(holds_at(mv, m, p, id) && before(m, p, m, p + 1));
        } else {
            assert(marked[s as int] == marks[s as int]);
            if seen_before(mv, m, p, s) {
                let (m1, p1) = choose|m1: int, p1: int| #[trigger]
                    holds_at(mv, m1, p1, s) && before(m1, p1, m, p);
                assert(holds_at(mv, m1, p1, s) && before(m1, p1, m, p + 1));
            }
            if seen_before(mv, m, p + 1, s) {
                let (m1, p1) = choose|m1: int, p1: int| #[trigger]
                    holds_at(mv, m1, p1, s) && before(m1, p1, m, p + 1);
                assert(holds_at(mv, m1, p1, s) && before(m1, p1, m, p));
            }
        }
    }
    assert forall|m1: int, p1: int, m2: int, p2: int, s: ShardIndex|
        #[trigger] holds_at(mv, m1, p1, s) && #[trigger] holds_at(mv, m2, p2, s) && before(
            m1,
            p1,
            m,
            p + 1,
        ) && before(m2, p2, m, p + 1) implies m1 == m2 && p1 == p2 by {
        if m1 == m && p1 == p {
            if !(m2 == m && p2 == p) {
                assert(before(m2, p2, m, p));
                assert(seen_before(mv, m, p, s));
            }
        } else if m2 == m && p2 == p {
            assert(before(m1, p1, m, p));
            assert(seen_before(mv, m, p, s));
        } else {
            assert(before(m1, p1, m, p) && before(m2, p2, m, p));
        }
    }
}

/// What was read at the end of member `m`'s list is what has been read when
/// the next member's list begins.
proof fn lemma_next_member(mv: Seq<MemberView>, m: int)
    requires
        0 <= m < mv.len(),
    ensures
        forall|s: ShardIndex|
            seen_before(mv, m, mv[m].shard_ids.len() as int, s) == #[trigger] seen_before(
                mv,
                m + 1,
                0,
                s,
            ),
        distinct_before(mv, m, mv[m].shard_ids.len() as int) ==> distinct_before(mv, m + 1, 0),
{
    let end = mv[m].shard_ids.len() as int;
    assert forall|m1: int, p1: int, s: ShardIndex| #[trigger] holds_at(mv, m1, p1, s) implies (
    before(m1, p1, m, end) <==> before(m1, p1, m + 1, 0)) by {}
    assert forall|s: ShardIndex|
        seen_before(mv, m, end, s) == #[trigger] seen_before(mv, m + 1, 0, s) by {
        if seen_before(mv, m, end, s) {
            let (m1, p1) = choose|m1: int, p1: int| #[trigger]
                holds_at(mv, m1, p1, s) && before(m1, p1, m, end);
            assert(holds_at(mv, m1, p1, s) && before(m1, p1, m + 1, 0));
        }
        if seen_before(mv, m + 1, 0, s) {
            let (m1, p1) = choose|m1: int, p1: int| #[trigger]
                holds_at(mv, m1, p1, s) && before(m1, p1, m + 1, 0);
            assert(holds_at(mv, m1, p1, s) && before(m1, p1, m, end));
        }
    }
}

/// Once every member's list is read, what was read is the whole assignment.
proof fn lemma_all_read(mv: Seq<MemberView>)
    ensures
        forall|s: ShardIndex|
            #[trigger] seen_before(mv, mv.len() as int, 0, s) == shard_is_assigned(mv, s),
        distinct_before(mv, mv.len() as int, 0) == shards_distinct(mv),
{
    let n = mv.len() as int;
    assert forall|m1: int, p1: int, s: ShardIndex| #[trigger]
        holds_at(mv, m1, p1, s) implies before(m1, p1, n, 0) by {}
    assert forall|s: ShardIndex| #[trigger]
        seen_before(mv, n, 0, s) == shard_is_assigned(mv, s) by {
        if seen_before(mv, n, 0, s) {
            let (m1, p1) = choose|m1: int, p1: int| #[trigger]
                holds_at(mv, m1, p1, s) && before(m1, p1, n, 0);
            assert(holds_at(mv, m1, p1, s));
        }
        if shard_is_assigned(mv, s) {
            let (m1, p1) = choose|m1: int, p1: int| #[trigger] holds_at(mv, m1, p1, s);
            assert(holds_at(mv, m1, p1, s) && before(m1, p1, n, 0));
        }
    }
}

/// The first shard that no mark stands for.
pub fn first_unmarked(seen: &Vec<bool>) -> (r: Option<ShardIndex>)
    requires
        seen@.len() <= u16::MAX,
    ensures
        r is None <==> forall|j: int| 0 <= j < seen@.len() ==> seen@[j],
        r matches Some(s) ==> s < seen@.len() && !seen@[s as int] && forall|j: int|
            0 <= j < s ==> seen@[j],
{
    let mut s: u16 = 0;
    while (s as usize) < seen.len()
        invariant
            s <= seen@.len() <= u16::MAX,
            forall|j: int| 0 <= j < s ==> seen@[j],
        decreases seen@.len() - s,
    {
        if !seen[s as usize] {
            return Some(s);
        }
        s += 1;
    }
    None
}

} // verus!
