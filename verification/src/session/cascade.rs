//! What a cascading deletion reaches: the walk of descendants seen as
//! reachability along parent links, and what a deletion leaves behind.
use vstd::prelude::*;

use super::model::SessionView;
use super::ops::{deletion, has_id, ids_unique, law_removed_sessions_are_gone, reap_list, remove_each};
use super::tree::{child_of, desc_walk, desc_walk_list, id_is, parents_present};
use crate::error::EzError;
use crate::search::{find_first, first_match, lemma_first_match};

verus! {

/// `x` lies under `id` within `fuel` levels: it is a child of `id`, or it
/// lies within `fuel - 1` levels under some child of `id` in `t`.
pub open spec fn within(t: Seq<SessionView>, id: Seq<char>, x: SessionView, fuel: nat) -> bool
    decreases fuel,
{
    if fuel == 0 {
        false
    } else {
        x.parent_id == Some(id) || exists|k: int|
            0 <= k < t.len() && (#[trigger] t[k]).parent_id == Some(id) && within(
                t,
                t[k].id,
                x,
                (fuel - 1) as nat,
            )
    }
}

/// The walk under `id` holds exactly the sessions of `t` within `fuel`
/// levels of it.
pub proof fn lemma_walk_is_within(t: Seq<SessionView>, id: Seq<char>, x: SessionView, fuel: nat)
    ensures
        desc_walk(t, id, fuel).contains(x) <==> t.contains(x) && within(t, id, x, fuel),
    decreases fuel, 0nat,
{
    broadcast use vstd::seq_lib::lemma_seq_concat_contains_all_elements;

    if fuel > 0 {
        let ch = t.filter(child_of(id));
        let f1 = (fuel - 1) as nat;
        lemma_list_is_within(t, ch.reverse(), x, f1);
        assert(desc_walk(t, id, fuel) == ch + desc_walk_list(t, ch.reverse(), f1));
        if ch.contains(x) {
            t.lemma_filter_contains_rev(child_of(id), x);
            let i = choose|i: int| 0 <= i < ch.len() && ch[i] == x;
            t.lemma_filter_pred(child_of(id), i);
        }
        if t.contains(x) && x.parent_id == Some(id) {
            let j = choose|j: int| 0 <= j < t.len() && t[j] == x;
            t.lemma_filter_contains(child_of(id), j);
        }
        if desc_walk_list(t, ch.reverse(), f1).contains(x) {
            let i = choose|i: int|
                0 <= i < ch.reverse().len() && #[trigger] within(t, ch.reverse()[i].id, x, f1);
            let c = ch.reverse()[i];
            assert(c == ch[ch.len() - 1 - i]);
            assert(ch.contains(c));
            t.lemma_filter_contains_rev(child_of(id), c);
            t.lemma_filter_pred(child_of(id), ch.len() - 1 - i);
            let k = choose|k: int| 0 <= k < t.len() && t[k] == c;
            assert(t[k].parent_id == Some(id) && within(t, t[k].id, x, f1));
        }
        if t.contains(x) && x.parent_id != Some(id) && within(t, id, x, fuel) {
            let k = choose|k: int|
                0 <= k < t.len() && (#[trigger] t[k]).parent_id == Some(id) && within(
                    t,
                    t[k].id,
                    x,
                    f1,
                );
            t.lemma_filter_contains(child_of(id), k);
            let i = choose|i: int| 0 <= i < ch.len() && ch[i] == t[k];
            assert(ch.reverse()[ch.len() - 1 - i] == t[k]);
            assert(within(t, ch.reverse()[ch.len() - 1 - i].id, x, f1));
        }
    }
}

/// The walks under a list of sessions hold exactly the sessions of `t`
/// within `fuel` levels of one of them.
pub proof fn lemma_list_is_within(t: Seq<SessionView>, cs: Seq<SessionView>, x: SessionView, fuel: nat)
    ensures
        desc_walk_list(t, cs, fuel).contains(x) <==> t.contains(x) && exists|i: int|
            0 <= i < cs.len() && #[trigger] within(t, cs[i].id, x, fuel),
    decreases fuel, cs.len() + 1,
{
    broadcast use vstd::seq_lib::lemma_seq_concat_contains_all_elements;

    if cs.len() > 0 {
        lemma_walk_is_within(t, cs[0].id, x, fuel);
        lemma_list_is_within(t, cs.drop_first(), x, fuel);
        if exists|i: int| 0 <= i < cs.len() && #[trigger] within(t, cs[i].id, x, fuel) {
            let i = choose|i: int| 0 <= i < cs.len() && #[trigger] within(t, cs[i].id, x, fuel);
            if i > 0 {
                assert(cs.drop_first()[i - 1] == cs[i]);
            }
        }
        if exists|i: int|
            0 <= i < cs.drop_first().len() && #[trigger] within(t, cs.drop_first()[i].id, x, fuel) {
            let i = choose|i: int|
                0 <= i < cs.drop_first().len() && #[trigger] within(
                    t,
                    cs.drop_first()[i].id,
                    x,
                    fuel,
                );
            assert(cs[i + 1] == cs.drop_first()[i]);
        }
    }
}

/// A child of a session within `fuel` levels lies within `fuel + 1`.
proof fn lemma_within_step(t: Seq<SessionView>, id: Seq<char>, d: SessionView, x: SessionView, fuel: nat)
    requires
        t.contains(d),
        within(t, id, d, fuel),
        x.parent_id == Some(d.id),
    ensures
        within(t, id, x, fuel + 1),
    decreases fuel,
{
    let k0 = choose|k: int| 0 <= k < t.len() && t[k] == d;
    if d.parent_id == Some(id) {
        assert(t[k0].parent_id == Some(id) && within(t, t[k0].id, x, fuel));
    } else {
        let k = choose|k: int|
            0 <= k < t.len() && (#[trigger] t[k]).parent_id == Some(id) && within(
                t,
                t[k].id,
                d,
                (fuel - 1) as nat,
            );
        lemma_within_step(t, t[k].id, d, x, (fuel - 1) as nat);
        assert(within(t, t[k].id, x, fuel));
    }
}

/// Within `fuel + 1` levels means a child of `id`, or a child of a session
/// within `fuel` levels.
proof fn lemma_within_last(t: Seq<SessionView>, id: Seq<char>, x: SessionView, fuel: nat)
    requires
        within(t, id, x, fuel + 1),
    ensures
        x.parent_id == Some(id) || exists|m: int|
            0 <= m < t.len() && within(t, id, #[trigger] t[m], fuel) && x.parent_id == Some(t[m].id),
    decreases fuel,
{
    if x.parent_id != Some(id) {
        let k = choose|k: int|
            0 <= k < t.len() && (#[trigger] t[k]).parent_id == Some(id) && within(t, t[k].id, x, fuel);
        assert(fuel > 0);
        let f1 = (fuel - 1) as nat;
        lemma_within_last(t, t[k].id, x, f1);
        if x.parent_id == Some(t[k].id) {
            assert(within(t, id, t[k], fuel));
        } else {
            let m = choose|m: int|
                0 <= m < t.len() && within(t, t[k].id, #[trigger] t[m], f1) && x.parent_id == Some(
                    t[m].id,
                );
            assert(within(t, id, t[m], fuel));
        }
    }
}

/// More levels reach at least as far.
proof fn lemma_within_more(t: Seq<SessionView>, id: Seq<char>, x: SessionView, fuel: nat)
    requires
        within(t, id, x, fuel),
    ensures
        within(t, id, x, fuel + 1),
    decreases fuel,
{
    if x.parent_id != Some(id) {
        let k = choose|k: int|
            0 <= k < t.len() && (#[trigger] t[k]).parent_id == Some(id) && within(
                t,
                t[k].id,
                x,
                (fuel - 1) as nat,
            );
        lemma_within_more(t, t[k].id, x, (fuel - 1) as nat);
        assert(within(t, t[k].id, x, fuel));
    }
}

/// Positions in `t` of the sessions within `fuel` levels of `id`.
spec fn reached(t: Seq<SessionView>, id: Seq<char>, fuel: nat) -> Set<int> {
    Set::new(|j: int| 0 <= j < t.len() && within(t, id, t[j], fuel))
}

proof fn lemma_reached_grows(t: Seq<SessionView>, id: Seq<char>, fuel: nat)
    ensures
        reached(t, id, fuel).subset_of(reached(t, id, fuel + 1)),
        reached(t, id, fuel + 1).subset_of(vstd::set_lib::set_int_range(0, t.len() as int)),
{
    let r0 = reached(t, id, fuel);
    let r1 = reached(t, id, fuel + 1);
    assert forall|j: int| r0.contains(j) implies r1.contains(j) by {
        lemma_within_more(t, id, t[j], fuel);
    }
}

/// Once a level adds nothing, no later level does.
proof fn lemma_reached_stays(t: Seq<SessionView>, id: Seq<char>, fuel: nat)
    requires
        reached(t, id, fuel) == reached(t, id, fuel + 1),
    ensures
        reached(t, id, fuel + 1) == reached(t, id, fuel + 2),
{
    lemma_reached_grows(t, id, fuel + 1);
    let r1 = reached(t, id, fuel + 1);
    let r2 = reached(t, id, fuel + 2);
    assert forall|j: int| r2.contains(j) implies r1.contains(j) by {
        lemma_within_last(t, id, t[j], fuel + 1);
        if t[j].parent_id != Some(id) {
            let m = choose|m: int|
                0 <= m < t.len() && within(t, id, #[trigger] t[m], fuel + 1) && t[j].parent_id == Some(
                    t[m].id,
                );
            assert(r1.contains(m));
            assert(reached(t, id, fuel).contains(m));
            assert(t.contains(t[m]));
            lemma_within_step(t, id, t[m], t[j], fuel);
        }
    }
    assert(reached(t, id, fuel + 1) =~= reached(t, id, fuel + 2));
}

/// Each level either adds nothing or brings the count to at least its depth.
proof fn lemma_reached_count(t: Seq<SessionView>, id: Seq<char>, fuel: nat)
    ensures
        reached(t, id, fuel) == reached(t, id, fuel + 1) || reached(t, id, fuel + 1).len() >= fuel + 1,
    decreases fuel,
{
    vstd::set_lib::lemma_int_range(0, t.len() as int);
    let r1 = reached(t, id, fuel + 1);
    lemma_reached_grows(t, id, fuel);
    vstd::set_lib::lemma_len_subset(r1, vstd::set_lib::set_int_range(0, t.len() as int));
    vstd::set_lib::lemma_len_subset(reached(t, id, fuel), r1);
    if fuel == 0 {
        if reached(t, id, 0) != r1 {
            assert(reached(t, id, 0) =~= Set::<int>::empty());
            assert(exists|j: int| r1.contains(j)) by {
                if !(exists|j: int| r1.contains(j)) {
                    assert(r1 =~= Set::<int>::empty());
                }
            }
            let j = choose|j: int| r1.contains(j);
            vstd::set_lib::lemma_len_subset(Set::<int>::empty().insert(j), r1);
        }
    } else {
        let f0 = (fuel - 1) as nat;
        lemma_reached_count(t, id, f0);
        if reached(t, id, f0) == reached(t, id, fuel) {
            lemma_reached_stays(t, id, f0);
        } else if reached(t, id, fuel) != r1 {
            if reached(t, id, fuel).len() == r1.len() {
                vstd::set_lib::lemma_subset_equality(reached(t, id, fuel), r1);
            }
        }
    }
}

/// Every child of a session the walk under `id` reaches is reached too.
pub proof fn lemma_walk_closed(t: Seq<SessionView>, id: Seq<char>, d: SessionView, x: SessionView)
    requires
        desc_walk(t, id, t.len()).contains(d),
        t.contains(x),
        x.parent_id == Some(d.id),
    ensures
        desc_walk(t, id, t.len()).contains(x),
{
    let n = t.len();
    lemma_walk_is_within(t, id, d, n);
    lemma_within_step(t, id, d, x, n);
    lemma_reached_count(t, id, n);
    vstd::set_lib::lemma_int_range(0, n as int);
    lemma_reached_grows(t, id, n);
    vstd::set_lib::lemma_len_subset(reached(t, id, n + 1), vstd::set_lib::set_int_range(0, n as int));
    let j = choose|j: int| 0 <= j < t.len() && t[j] == x;
    assert(reached(t, id, n + 1).contains(j));
    assert(reached(t, id, n).contains(j));
    lemma_walk_is_within(t, id, x, n);
}

/// Removing sessions one by one, when every removal finds its session,
/// keeps only sessions of `t`, and keeps each one whose ID is not removed.
proof fn lemma_remove_each_keeps(t: Seq<SessionView>, ids: Seq<Seq<char>>)
    requires
        remove_each(t, ids).1 is None,
    ensures
        forall|j: int| 0 <= j < remove_each(t, ids).0.len() ==> t.contains(#[trigger] remove_each(t, ids).0[j]),
        forall|m: int|
            0 <= m < t.len() && !ids.contains(#[trigger] t[m].id) ==> remove_each(t, ids).0.contains(t[m]),
    decreases ids.len(),
{
    if ids.len() > 0 {
        let (t2, failed) = remove_each(t, ids.drop_last());
        assert(failed is None);
        lemma_remove_each_keeps(t, ids.drop_last());
        let last = ids.last();
        lemma_first_match(t2, id_is(last));
        let k = first_match(t2, id_is(last));
        let r = t2.remove(k);
        assert(remove_each(t, ids).0 == r);
        assert forall|j: int| 0 <= j < r.len() implies t.contains(#[trigger] r[j]) by {
            let a = if j < k { j } else { j + 1 };
            assert(r[j] == t2[a]);
        }
        assert forall|m: int| 0 <= m < t.len() && !ids.contains(#[trigger] t[m].id) implies r.contains(t[m]) by {
            if ids.drop_last().contains(t[m].id) {
                let i = choose|i: int| 0 <= i < ids.drop_last().len() && ids.drop_last()[i] == t[m].id;
                assert(ids[i] == t[m].id);
            }
            assert(ids[ids.len() - 1] == last);
            let a = choose|a: int| 0 <= a < t2.len() && t2[a] == t[m];
            assert(a != k);
            let b = if a < k { a } else { a - 1 };
            assert(r[b] == t2[a]);
        }
    }
}

/// Deleting a session in a tree whose IDs are unique, once its checks have
/// passed, leaves no session whose parent was among the reaped ones; so a
/// tree in which every named parent is present stays so.
pub proof fn law_delete_leaves_no_orphans(
    t: Seq<SessionView>,
    session_id: Seq<char>,
    force: bool,
    dirty_ids: Seq<Seq<char>>,
    todo_ids: Seq<Seq<char>>,
    r: Result<Seq<SessionView>, EzError>,
    after: Seq<SessionView>,
)
    requires
        ids_unique(t),
        deletion(t, session_id, force, dirty_ids, todo_ids, r, after),
        r is Ok,
    ensures
        forall|j: int, i: int|
            0 <= j < after.len() && 0 <= i < r->Ok_0.len() ==> (#[trigger] after[j]).parent_id != Some(
                (#[trigger] r->Ok_0[i]).id,
            ),
        parents_present(t) ==> parents_present(after),
{
    let s = find_first(t, id_is(session_id))->Some_0;
    let n = t.len();
    let walk = desc_walk(t, s.id, n);
    let reap = reap_list(t, s);
    let ids = reap.map_values(|x: SessionView| x.id);
    assert(r->Ok_0 == reap && after == remove_each(t, ids).0);
    law_removed_sessions_are_gone(t, ids);
    lemma_remove_each_keeps(t, ids);
    assert forall|j: int, i: int| 0 <= j < after.len() && 0 <= i < reap.len() implies (
    #[trigger] after[j]).parent_id != Some((#[trigger] reap[i]).id) by {
        let x = after[j];
        if x.parent_id == Some(reap[i].id) {
            assert(t.contains(x));
            if i == reap.len() - 1 {
                assert(reap[i] == s);
                lemma_walk_is_within(t, s.id, x, n);
            } else {
                let d = reap[i];
                assert(d == walk[walk.len() - 1 - i]);
                assert(walk.contains(d));
                lemma_walk_closed(t, s.id, d, x);
            }
            let w = choose|w: int| 0 <= w < walk.len() && walk[w] == x;
            let i2 = walk.len() - 1 - w;
            assert(reap[i2] == x);
            assert(ids[i2] == x.id);
            assert(has_id(after, ids[i2]));
        }
    }
    if parents_present(t) {
        assert forall|j: int| 0 <= j < after.len() implies match (#[trigger] after[j]).parent_id {
            Some(p) => exists|m: int| 0 <= m < after.len() && after[m].id == p,
            None => true,
        } by {
            if let Some(p) = after[j].parent_id {
                assert(t.contains(after[j]));
                let a = choose|a: int| 0 <= a < t.len() && t[a] == after[j];
                assert(t[a].parent_id == Some(p));
                let m = choose|m: int| 0 <= m < t.len() && t[m].id == p;
                if ids.contains(t[m].id) {
                    let i = choose|i: int| 0 <= i < ids.len() && ids[i] == t[m].id;
                    assert(reap[i].id == p);
                    assert(after[j].parent_id != Some(reap[i].id));
                }
                assert(after.contains(t[m]));
                let b = choose|b: int| 0 <= b < after.len() && after[b] == t[m];
                assert(after[b].id == p);
            }
        }
    }
}

} // verus!
