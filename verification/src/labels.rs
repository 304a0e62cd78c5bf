//! Label lists of repositories and sessions: always sorted, never repeating,
//! changed by first removing and then adding entries.
use vstd::prelude::*;

use crate::text::{
    lemma_seq_lt_irreflexive, lemma_seq_lt_transitive, lemma_seq_lt_trichotomy, seq_lt, trim,
    views,
};

verus! {

/// Each entry is before the next one: sorted, and no entry occurs twice.
pub open spec fn strictly_sorted(s: Seq<Seq<char>>) -> bool {
    forall|i: int, j: int| 0 <= i < j < s.len() ==> seq_lt(#[trigger] s[i], #[trigger] s[j])
}

/// `l` is the trimmed form of a non-blank entry among the first `n` of `add`.
pub open spec fn added_within(add: Seq<Seq<char>>, n: int, l: Seq<char>) -> bool {
    l.len() > 0 && exists|i: int| 0 <= i < n && #[trigger] trim(add[i]) == l
}

/// `l` is one of the first `n` entries of `s`.
pub open spec fn within(s: Seq<Seq<char>>, n: int, l: Seq<char>) -> bool {
    exists|i: int| 0 <= i < n && #[trigger] s[i] == l
}

/// Membership after the change: labels of `current` not named in `remove`,
/// and the trimmed non-blank entries of `add`.
pub open spec fn in_changed(
    current: Seq<Seq<char>>,
    add: Seq<Seq<char>>,
    remove: Seq<Seq<char>>,
    l: Seq<char>,
) -> bool {
    (current.contains(l) && !remove.contains(l)) || added_within(add, add.len() as int, l)
}

proof fn lemma_within_step(s: Seq<Seq<char>>, n: int, l: Seq<char>)
    requires
        0 <= n < s.len(),
    ensures
        within(s, n + 1, l) <==> (within(s, n, l) || s[n] == l),
{
    if within(s, n + 1, l) {
        let k = choose|k: int| 0 <= k < n + 1 && #[trigger] s[k] == l;
        if k < n {
            assert(within(s, n, l));
        }
    }
    if within(s, n, l) {
        let k = choose|k: int| 0 <= k < n && #[trigger] s[k] == l;
        assert(within(s, n + 1, l));
    }
    if s[n] == l {
        assert(within(s, n + 1, l));
    }
}

proof fn lemma_within_all(s: Seq<Seq<char>>, l: Seq<char>)
    ensures
        within(s, s.len() as int, l) <==> s.contains(l),
{
    if within(s, s.len() as int, l) {
        let k = choose|k: int| 0 <= k < s.len() && #[trigger] s[k] == l;
        assert(s.contains(l));
    }
    if s.contains(l) {
        let k = choose|k: int| 0 <= k < s.len() && s[k] == l;
        assert(within(s, s.len() as int, l));
    }
}

proof fn lemma_added_step(add: Seq<Seq<char>>, n: int, l: Seq<char>)
    requires
        0 <= n < add.len(),
    ensures
        added_within(add, n + 1, l) <==> (added_within(add, n, l) || (l.len() > 0 && trim(
            add[n],
        ) == l)),
{
    if added_within(add, n + 1, l) {
        let k = choose|k: int| 0 <= k < n + 1 && #[trigger] trim(add[k]) == l;
        if k < n {
            assert(added_within(add, n, l));
        }
    }
    if added_within(add, n, l) {
        let k = choose|k: int| 0 <= k < n && #[trigger] trim(add[k]) == l;
        assert(added_within(add, n + 1, l));
    }
    if l.len() > 0 && trim(add[n]) == l {
        assert(added_within(add, n + 1, l));
    }
}

/// A label list that is sorted and free of repeats holds exactly one list
/// for each set of labels.
pub proof fn lemma_sorted_unique(a: Seq<Seq<char>>, b: Seq<Seq<char>>)
    requires
        strictly_sorted(a),
        strictly_sorted(b),
        forall|l: Seq<char>| a.contains(l) <==> b.contains(l),
    ensures
        a == b,
    decreases a.len() + b.len(),
{
    if a.len() == 0 || b.len() == 0 {
        if a.len() > 0 {
            assert(a.contains(a[0]));
        }
        if b.len() > 0 {
            assert(b.contains(b[0]));
        }
        assert(a =~= b);
    } else {
        // The least entries agree.
        assert(a.contains(a[0]));
        assert(b.contains(b[0]));
        let ia = choose|i: int| 0 <= i < b.len() && b[i] == a[0];
        let ib = choose|i: int| 0 <= i < a.len() && a[i] == b[0];
        if ia > 0 {
            assert(seq_lt(b[0], b[ia]));
            if ib > 0 {
                assert(seq_lt(a[0], a[ib]));
                lemma_seq_lt_trichotomy(a[0], b[0]);
            } else {
                lemma_seq_lt_irreflexive(a[0]);
            }
        }
        if ib > 0 && ia == 0 {
            assert(seq_lt(a[0], a[ib]));
            lemma_seq_lt_irreflexive(b[0]);
        }
        assert(a[0] == b[0]);
        let ta = a.drop_first();
        let tb = b.drop_first();
        assert forall|l: Seq<char>| ta.contains(l) <==> tb.contains(l) by {
            if ta.contains(l) {
                let k = choose|k: int| 0 <= k < ta.len() && ta[k] == l;
                assert(a[k + 1] == l);
                assert(seq_lt(a[0], a[k + 1]));
                assert(b.contains(l));
                let m = choose|m: int| 0 <= m < b.len() && b[m] == l;
                if m == 0 {
                    lemma_seq_lt_irreflexive(l);
                }
                assert(tb[m - 1] == l);
            }
            if tb.contains(l) {
                let k = choose|k: int| 0 <= k < tb.len() && tb[k] == l;
                assert(b[k + 1] == l);
                assert(seq_lt(b[0], b[k + 1]));
                assert(a.contains(l));
                let m = choose|m: int| 0 <= m < a.len() && a[m] == l;
                if m == 0 {
                    lemma_seq_lt_irreflexive(l);
                }
                assert(ta[m - 1] == l);
            }
        }
        assert(strictly_sorted(ta)) by {
            assert forall|i: int, j: int| 0 <= i < j < ta.len() implies seq_lt(
                #[trigger] ta[i],
                #[trigger] ta[j],
            ) by {
                assert(ta[i] == a[i + 1] && ta[j] == a[j + 1]);
            }
        }
        assert(strictly_sorted(tb)) by {
            assert forall|i: int, j: int| 0 <= i < j < tb.len() implies seq_lt(
                #[trigger] tb[i],
                #[trigger] tb[j],
            ) by {
                assert(tb[i] == b[i + 1] && tb[j] == b[j + 1]);
            }
        }
        lemma_sorted_unique(ta, tb);
        assert(a =~= seq![a[0]] + ta);
        assert(b =~= seq![b[0]] + tb);
    }
}

/// `r` is a label list that the change yields from `current`: sorted,
/// without repeats, holding exactly the labels the change keeps or adds.
pub open spec fn is_label_change(
    current: Seq<Seq<char>>,
    add: Seq<Seq<char>>,
    remove: Seq<Seq<char>>,
    r: Seq<Seq<char>>,
) -> bool {
    strictly_sorted(r) && forall|l: Seq<char>| r.contains(l) <==> in_changed(current, add, remove, l)
}

/// The outcome of a label change depends only on which labels the current
/// list holds, not on their order or repeats: two lists with the same labels
/// give the same result.
pub proof fn law_label_change_depends_on_members(
    current1: Seq<Seq<char>>,
    current2: Seq<Seq<char>>,
    add: Seq<Seq<char>>,
    remove: Seq<Seq<char>>,
    r1: Seq<Seq<char>>,
    r2: Seq<Seq<char>>,
)
    requires
        forall|l: Seq<char>| current1.contains(l) <==> current2.contains(l),
        is_label_change(current1, add, remove, r1),
        is_label_change(current2, add, remove, r2),
    ensures
        r1 == r2,
{
    assert forall|l: Seq<char>| r1.contains(l) <==> r2.contains(l) by {
        assert(in_changed(current1, add, remove, l) == in_changed(current2, add, remove, l));
    }
    lemma_sorted_unique(r1, r2);
}

/// Applying the same label change a second time changes nothing.
pub proof fn law_label_change_idempotent(
    current: Seq<Seq<char>>,
    add: Seq<Seq<char>>,
    remove: Seq<Seq<char>>,
    once: Seq<Seq<char>>,
    twice: Seq<Seq<char>>,
)
    requires
        is_label_change(current, add, remove, once),
        is_label_change(once, add, remove, twice),
    ensures
        twice == once,
{
    assert forall|l: Seq<char>| twice.contains(l) <==> once.contains(l) by {
        assert(twice.contains(l) <==> in_changed(once, add, remove, l));
        assert(once.contains(l) <==> in_changed(current, add, remove, l));
    }
    lemma_sorted_unique(twice, once);
}

/// A change that adds the labels it removes leaves them in, and a label
/// that the change neither adds nor removes stays exactly as it was.
pub proof fn law_label_change_add_wins(
    current: Seq<Seq<char>>,
    add: Seq<Seq<char>>,
    remove: Seq<Seq<char>>,
    r: Seq<Seq<char>>,
    l: Seq<char>,
)
    requires
        is_label_change(current, add, remove, r),
    ensures
        added_within(add, add.len() as int, l) ==> r.contains(l),
        (!added_within(add, add.len() as int, l) && !remove.contains(l)) ==> (r.contains(l)
            == current.contains(l)),
        (!added_within(add, add.len() as int, l) && remove.contains(l)) ==> !r.contains(l),
{
}

/// Puts `x` into a sorted list, unless it is there already.
fn insert_sorted(v: &mut Vec<String>, x: String)
    requires
        strictly_sorted(views(old(v)@)),
    ensures
        strictly_sorted(views(final(v)@)),
        forall|l: Seq<char>|
            views(final(v)@).contains(l) <==> (views(old(v)@).contains(l) || l == x@),
{
    let ghost xv = x@;
    let ghost old_s = views(v@);
    let mut i: usize = 0;
    while i < v.len() && crate::text::str_lt(v[i].as_str(), x.as_str())
        invariant
            i <= v@.len(),
            views(v@) == old_s,
            xv == x@,
            strictly_sorted(old_s),
            forall|j: int| 0 <= j < i ==> seq_lt(#[trigger] old_s[j], xv),
        decreases v.len() - i,
    {
        i += 1;
    }
    if i < v.len() && crate::text::str_eq(v[i].as_str(), x.as_str()) {
        assert(old_s[i as int] == xv);
        return;
    }
    v.insert(i, x);
    proof {
        let new_s = views(v@);
        assert(new_s =~= old_s.insert(i as int, xv));
        if i < old_s.len() {
            lemma_seq_lt_trichotomy(old_s[i as int], xv);
            assert(seq_lt(xv, old_s[i as int]));
        }
        assert forall|p: int, q: int| 0 <= p < q < new_s.len() implies seq_lt(
            #[trigger] new_s[p],
            #[trigger] new_s[q],
        ) by {
            if q < i {
                assert(seq_lt(old_s[p], old_s[q]));
            } else if q == i {
                assert(seq_lt(old_s[p], xv));
            } else if p == i {
                if q - 1 > i {
                    assert(seq_lt(old_s[i as int], old_s[q - 1]));
                    lemma_seq_lt_transitive(xv, old_s[i as int], old_s[q - 1]);
                }
            } else if p < i {
                assert(seq_lt(old_s[p], old_s[q - 1]));
            } else {
                assert(seq_lt(old_s[p - 1], old_s[q - 1]));
            }
        }
        assert forall|l: Seq<char>| new_s.contains(l) <==> (old_s.contains(l) || l == xv) by {
            if new_s.contains(l) {
                let k = choose|k: int| 0 <= k < new_s.len() && new_s[k] == l;
                if k < i {
                    assert(old_s[k] == l);
                } else if k > i {
                    assert(old_s[k - 1] == l);
                }
            }
            if old_s.contains(l) {
                let k = choose|k: int| 0 <= k < old_s.len() && old_s[k] == l;
                if k < i {
                    assert(new_s[k] == l);
                } else {
                    assert(new_s[k + 1] == l);
                }
            }
            if l == xv {
                assert(new_s[i as int] == l);
            }
        }
    }
}

/// Takes `x` out of a sorted list, if it is there.
fn remove_sorted(v: &mut Vec<String>, x: &str)
    requires
        strictly_sorted(views(old(v)@)),
    ensures
        strictly_sorted(views(final(v)@)),
        forall|l: Seq<char>|
            views(final(v)@).contains(l) <==> (views(old(v)@).contains(l) && l != x@),
{
    let ghost old_s = views(v@);
    let mut i: usize = 0;
    while i < v.len() && !crate::text::str_eq(v[i].as_str(), x)
        invariant
            i <= v@.len(),
            views(v@) == old_s,
            forall|j: int| 0 <= j < i ==> #[trigger] old_s[j] != x@,
        decreases v.len() - i,
    {
        i += 1;
    }
    if i < v.len() {
        assert(old_s[i as int] == x@);
        v.remove(i);
        proof {
            let new_s = views(v@);
            assert(new_s =~= old_s.remove(i as int));
            assert forall|p: int, q: int| 0 <= p < q < new_s.len() implies seq_lt(
                #[trigger] new_s[p],
                #[trigger] new_s[q],
            ) by {
                if q < i {
                    assert(seq_lt(old_s[p], old_s[q]));
                } else if p < i {
                    assert(seq_lt(old_s[p], old_s[q + 1]));
                } else {
                    assert(seq_lt(old_s[p + 1], old_s[q + 1]));
                }
            }
            assert forall|l: Seq<char>| new_s.contains(l) <==> (old_s.contains(l) && l != x@) by {
                if new_s.contains(l) {
                    let k = choose|k: int| 0 <= k < new_s.len() && new_s[k] == l;
                    if k < i {
                        assert(old_s[k] == l);
                        if l == x@ {
                            assert(seq_lt(old_s[k], old_s[i as int]));
                            lemma_seq_lt_irreflexive(l);
                        }
                    } else {
                        assert(old_s[k + 1] == l);
                        if l == x@ {
                            assert(seq_lt(old_s[i as int], old_s[k + 1]));
                            lemma_seq_lt_irreflexive(l);
                        }
                    }
                }
                if old_s.contains(l) && l != x@ {
                    let k = choose|k: int| 0 <= k < old_s.len() && old_s[k] == l;
                    if k < i {
                        assert(new_s[k] == l);
                    } else {
                        assert(k != i);
                        assert(new_s[k - 1] == l);
                    }
                }
            }
        }
    } else {
        assert forall|l: Seq<char>| old_s.contains(l) implies l != x@ by {
            let k = choose|k: int| 0 <= k < old_s.len() && old_s[k] == l;
            assert(old_s[k] != x@);
        }
    }
}

/// The label list after the change: the labels of `current`, without those
/// named in `remove`, with each non-blank entry of `add` (trimmed), sorted
/// and without repeats.
pub fn apply_label_changes(current: &Vec<String>, add: &[String], remove: &[String]) -> (r: Vec<
    String,
>)
    ensures
        strictly_sorted(views(r@)),
        forall|l: Seq<char>|
            views(r@).contains(l) <==> in_changed(
                views(current@),
                views(add@),
                views(remove@),
                l,
            ),
{
    let ghost cur = views(current@);
    let ghost adds = views(add@);
    let ghost rems = views(remove@);
    let mut out: Vec<String> = Vec::new();
    assert(views(out@) =~= Seq::<Seq<char>>::empty());
    let mut i: usize = 0;
    while i < current.len()
        invariant
            i <= current@.len(),
            cur == views(current@),
            strictly_sorted(views(out@)),
            forall|l: Seq<char>| views(out@).contains(l) <==> within(cur, i as int, l),
        decreases current.len() - i,
    {
        let c = current[i].clone();
        let ghost before = views(out@);
        assert(cur[i as int] == current@[i as int]@);
        insert_sorted(&mut out, c);
        i += 1;
        assert forall|l: Seq<char>| views(out@).contains(l) <==> within(cur, i as int, l) by {
            assert(before.contains(l) <==> within(cur, i - 1, l));
            lemma_within_step(cur, i - 1, l);
        }
    }
    assert forall|l: Seq<char>| views(out@).contains(l) <==> (cur.contains(l) && !within(
        rems,
        0,
        l,
    )) by {
        assert(views(out@).contains(l) <==> within(cur, i as int, l));
        assert(i as int == cur.len());
        lemma_within_all(cur, l);
    }
    let mut j: usize = 0;
    while j < remove.len()
        invariant
            j <= remove@.len(),
            cur == views(current@),
            rems == views(remove@),
            strictly_sorted(views(out@)),
            forall|l: Seq<char>|
                views(out@).contains(l) <==> (cur.contains(l) && !within(rems, j as int, l)),
        decreases remove.len() - j,
    {
        let ghost before = views(out@);
        let ghost j0 = j as int;
        assert(forall|l: Seq<char>| before.contains(l) <==> (cur.contains(l) && !within(rems, j0, l)));
        assert(rems[j as int] == remove@[j as int]@);
        remove_sorted(&mut out, remove[j].as_str());
        j += 1;
        assert forall|l: Seq<char>|
            views(out@).contains(l) <==> (cur.contains(l) && !within(rems, j as int, l)) by {
            assert(before.contains(l) <==> (cur.contains(l) && !within(rems, j0, l)));
            lemma_within_step(rems, j0, l);
        }
    }
    assert forall|l: Seq<char>|
        views(out@).contains(l) <==> ((cur.contains(l) && !within(rems, rems.len() as int, l))
            || added_within(adds, 0, l)) by {
        assert(views(out@).contains(l) <==> (cur.contains(l) && !within(rems, j as int, l)));
        assert(j as int == rems.len());
    }
    let mut k: usize = 0;
    while k < add.len()
        invariant
            k <= add@.len(),
            cur == views(current@),
            rems == views(remove@),
            adds == views(add@),
            strictly_sorted(views(out@)),
            forall|l: Seq<char>|
                views(out@).contains(l) <==> ((cur.contains(l) && !within(
                    rems,
                    rems.len() as int,
                    l,
                )) || added_within(adds, k as int, l)),
        decreases add.len() - k,
    {
        let t = crate::text::trimmed(add[k].as_str());
        let ghost before = views(out@);
        let ghost k0 = k as int;
        assert(forall|l: Seq<char>|
            before.contains(l) <==> ((cur.contains(l) && !within(rems, rems.len() as int, l))
                || added_within(adds, k0, l)));
        let ghost tv = t@;
        assert(adds[k as int] == add@[k as int]@);
        assert(tv == trim(adds[k as int]));
        if t.as_str().unicode_len() > 0 {
            insert_sorted(&mut out, t);
        }
        k += 1;
        assert forall|l: Seq<char>|
            views(out@).contains(l) <==> ((cur.contains(l) && !within(
                rems,
                rems.len() as int,
                l,
            )) || added_within(adds, k as int, l)) by {
            assert(before.contains(l) <==> ((cur.contains(l) && !within(
                rems,
                rems.len() as int,
                l,
            )) || added_within(adds, k0, l)));
            lemma_added_step(adds, k0, l);
        }
    }
    assert forall|l: Seq<char>| views(out@).contains(l) <==> in_changed(cur, adds, rems, l) by {
        assert(views(out@).contains(l) <==> ((cur.contains(l) && !within(
            rems,
            rems.len() as int,
            l,
        )) || added_within(adds, k as int, l)));
        assert(k as int == adds.len());
        lemma_within_all(rems, l);
    }
    out
}

} // verus!
