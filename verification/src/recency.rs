//! Ordering by last access: most recent first, never-accessed last.
//!
//! Access stamps are RFC 3339 text and compare as text, the way the stored
//! strings are compared.
use vstd::prelude::*;
use crate::session::model::opt_view;
use crate::text::{seq_lt, str_lt, lemma_seq_lt_irreflexive, lemma_seq_lt_trichotomy, lemma_seq_lt_transitive};

verus! {

/// `a` is strictly more recent than `b`: a later stamp, or any stamp against none.
pub open spec fn newer(a: Option<Seq<char>>, b: Option<Seq<char>>) -> bool {
    match a {
        Some(x) => match b {
            Some(y) => seq_lt(y, x),
            None => true,
        },
        None => false,
    }
}

/// Stamped entries by the views of their stamps.
pub open spec fn keyed<T>(v: Seq<(Option<String>, T)>) -> Seq<(Option<Seq<char>>, T)> {
    v.map_values(|p: (Option<String>, T)| (opt_view(p.0), p.1))
}

/// Where an entry stamped `key` goes in `s`: just before the first entry it is
/// strictly more recent than.
pub open spec fn slot<T>(s: Seq<(Option<Seq<char>>, T)>, key: Option<Seq<char>>) -> nat
    decreases s.len(),
{
    if s.len() == 0 {
        0
    } else if newer(key, s[0].0) {
        0
    } else {
        1 + slot(s.drop_first(), key)
    }
}

/// The stable sort of `s`, most recent first: each entry in turn is placed
/// after every entry that is not older than it.
pub open spec fn recent_first<T>(s: Seq<(Option<Seq<char>>, T)>) -> Seq<(Option<Seq<char>>, T)>
    decreases s.len(),
{
    if s.len() == 0 {
        s
    } else {
        let r = recent_first(s.drop_last());
        r.insert(slot(r, s.last().0) as int, s.last())
    }
}

/// No entry of `s` is strictly more recent than an entry before it.
pub open spec fn recent_sorted<T>(s: Seq<(Option<Seq<char>>, T)>) -> bool {
    forall|i: int, j: int| 0 <= i < j < s.len() ==> !newer(#[trigger] s[j].0, #[trigger] s[i].0)
}

/// The more recent of two stamps; the first on a tie.
pub open spec fn later_of(m: Option<Seq<char>>, t: Option<Seq<char>>) -> Option<Seq<char>> {
    if newer(t, m) {
        t
    } else {
        m
    }
}

/// The most recent of `acc` and the stamps `xs`, taken left to right.
pub open spec fn latest(acc: Option<Seq<char>>, xs: Seq<Option<Seq<char>>>) -> Option<Seq<char>>
    decreases xs.len(),
{
    if xs.len() == 0 {
        acc
    } else {
        latest(later_of(acc, xs[0]), xs.drop_first())
    }
}

pub proof fn lemma_newer_irreflexive(a: Option<Seq<char>>)
    ensures
        !newer(a, a),
{
    if let Some(x) = a {
        lemma_seq_lt_irreflexive(x);
    }
}

pub proof fn lemma_newer_transitive(a: Option<Seq<char>>, b: Option<Seq<char>>, c: Option<Seq<char>>)
    requires
        newer(a, b),
        newer(b, c),
    ensures
        newer(a, c),
{
    if let (Some(x), Some(y)) = (a, b) {
        if let Some(z) = c {
            lemma_seq_lt_transitive(z, y, x);
        }
    }
}

/// Two stamps neither of which is newer than the other are equal.
pub proof fn lemma_newer_total(a: Option<Seq<char>>, b: Option<Seq<char>>)
    ensures
        a == b || newer(a, b) || newer(b, a),
        !(newer(a, b) && newer(b, a)),
{
    if let (Some(x), Some(y)) = (a, b) {
        lemma_seq_lt_trichotomy(x, y);
    }
}

pub proof fn lemma_slot<T>(s: Seq<(Option<Seq<char>>, T)>, key: Option<Seq<char>>)
    ensures
        slot(s, key) <= s.len(),
        forall|i: int| 0 <= i < slot(s, key) ==> !newer(key, #[trigger] s[i].0),
        slot(s, key) < s.len() ==> newer(key, s[slot(s, key) as int].0),
    decreases s.len(),
{
    if s.len() > 0 && !newer(key, s[0].0) {
        lemma_slot(s.drop_first(), key);
        assert forall|i: int| 0 <= i < slot(s, key) implies !newer(key, #[trigger] s[i].0) by {
            if i > 0 {
                assert(s[i] == s.drop_first()[i - 1]);
            }
        }
        if slot(s, key) < s.len() {
            assert(s[slot(s, key) as int] == s.drop_first()[slot(s.drop_first(), key) as int]);
        }
    }
}

/// Sorting most recent first keeps every entry and puts no entry after one
/// that is older.
pub proof fn law_recent_first_sorted<T>(s: Seq<(Option<Seq<char>>, T)>)
    ensures
        recent_sorted(recent_first(s)),
        recent_first(s).len() == s.len(),
        recent_first(s).to_multiset() == s.to_multiset(),
    decreases s.len(),
{
    if s.len() > 0 {
        let r = recent_first(s.drop_last());
        let x = s.last();
        law_recent_first_sorted(s.drop_last());
        lemma_slot(r, x.0);
        let p = slot(r, x.0) as int;
        let out = r.insert(p, x);
        assert forall|i: int, j: int| 0 <= i < j < out.len() implies !newer(
            #[trigger] out[j].0,
            #[trigger] out[i].0,
        ) by {
            if j < p {
                assert(out[i] == r[i] && out[j] == r[j]);
            } else if j == p {
                assert(out[i] == r[i]);
            } else if i == p {
                assert(out[j] == r[j - 1]);
                if newer(r[j - 1].0, x.0) {
                    if j - 1 == p {
                        lemma_newer_total(r[p].0, x.0);
                    } else {
                        assert(!newer(r[j - 1].0, r[p].0));
                        lemma_newer_transitive(r[j - 1].0, x.0, r[p].0);
                    }
                }
            } else if i < p {
                assert(out[i] == r[i] && out[j] == r[j - 1]);
            } else {
                assert(out[i] == r[i - 1] && out[j] == r[j - 1]);
            }
        }
        assert(out =~= r.subrange(0, p) + seq![x] + r.subrange(p, r.len() as int));
        assert(r =~= r.subrange(0, p) + r.subrange(p, r.len() as int));
        vstd::seq_lib::lemma_multiset_commutative(r.subrange(0, p), seq![x]);
        vstd::seq_lib::lemma_multiset_commutative(r.subrange(0, p) + seq![x], r.subrange(p, r.len() as int));
        vstd::seq_lib::lemma_multiset_commutative(r.subrange(0, p), r.subrange(p, r.len() as int));
        assert(s =~= s.drop_last() + seq![x]);
        vstd::seq_lib::lemma_multiset_commutative(s.drop_last(), seq![x]);
    }
}

/// The position of an entry depends on the stamps only: sorting entries and
/// then changing their payloads is sorting the changed entries.
pub proof fn lemma_recent_first_map<T, U>(s: Seq<(Option<Seq<char>>, T)>, f: spec_fn(T) -> U)
    ensures
        recent_first(s).map_values(|p: (Option<Seq<char>>, T)| (p.0, f(p.1))) == recent_first(
            s.map_values(|p: (Option<Seq<char>>, T)| (p.0, f(p.1))),
        ),
    decreases s.len(),
{
    let g = |p: (Option<Seq<char>>, T)| (p.0, f(p.1));
    if s.len() > 0 {
        let r = recent_first(s.drop_last());
        lemma_recent_first_map(s.drop_last(), f);
        assert(s.map_values(g).drop_last() =~= s.drop_last().map_values(g));
        lemma_slot_map(r, f, s.last().0);
        lemma_slot(r, s.last().0);
        let p = slot(r, s.last().0) as int;
        let a = r.insert(p, s.last()).map_values(g);
        let b = r.map_values(g).insert(p, g(s.last()));
        assert forall|i: int| 0 <= i < a.len() implies a[i] == b[i] by {
            if i < p {
                assert(a[i] == g(r[i]));
            } else if i > p {
                assert(a[i] == g(r[i - 1]));
            }
        }
        assert(a =~= b);
    }
}

proof fn lemma_slot_map<T, U>(s: Seq<(Option<Seq<char>>, T)>, f: spec_fn(T) -> U, key: Option<Seq<char>>)
    ensures
        slot(s.map_values(|p: (Option<Seq<char>>, T)| (p.0, f(p.1))), key) == slot(s, key),
    decreases s.len(),
{
    let g = |p: (Option<Seq<char>>, T)| (p.0, f(p.1));
    if s.len() > 0 {
        assert(s.map_values(g).drop_first() =~= s.drop_first().map_values(g));
        lemma_slot_map(s.drop_first(), f, key);
    }
}

/// The most recent stamp is not older than any stamp it was taken from.
pub proof fn law_latest_is_newest(acc: Option<Seq<char>>, xs: Seq<Option<Seq<char>>>)
    ensures
        !newer(acc, latest(acc, xs)),
        forall|i: int| 0 <= i < xs.len() ==> !newer(#[trigger] xs[i], latest(acc, xs)),
        latest(acc, xs) == acc || exists|i: int| 0 <= i < xs.len() && latest(acc, xs) == #[trigger] xs[i],
    decreases xs.len(),
{
    if xs.len() > 0 {
        let m = later_of(acc, xs[0]);
        law_latest_is_newest(m, xs.drop_first());
        let l = latest(acc, xs);
        lemma_newer_total(acc, xs[0]);
        lemma_newer_irreflexive(acc);
        lemma_newer_irreflexive(xs[0]);
        // acc and xs[0] are each not newer than m
        assert(!newer(acc, m));
        assert(!newer(xs[0], m));
        if newer(acc, l) {
            lemma_newer_total(m, l);
            if m != l {
                lemma_newer_transitive(acc, l, m);
            }
        }
        assert forall|i: int| 0 <= i < xs.len() implies !newer(#[trigger] xs[i], l) by {
            if i > 0 {
                assert(xs[i] == xs.drop_first()[i - 1]);
            } else if newer(xs[0], l) {
                lemma_newer_total(m, l);
                if m != l {
                    lemma_newer_transitive(xs[0], l, m);
                }
            }
        }
        if l != acc {
            if l == m {
                assert(l == xs[0]);
            } else {
                let k = choose|k: int| 0 <= k < xs.drop_first().len() && l == #[trigger] xs.drop_first()[k];
                assert(xs[k + 1] == xs.drop_first()[k]);
            }
        }
    } else {
        lemma_newer_irreflexive(acc);
    }
}

/// The views of optional stamps.
pub open spec fn stamp_views(v: Seq<Option<String>>) -> Seq<Option<Seq<char>>> {
    v.map_values(|o: Option<String>| opt_view(o))
}

/// Whether stamp `a` is strictly more recent than stamp `b`.
pub fn is_newer(a: &Option<String>, b: &Option<String>) -> (r: bool)
    ensures
        r == newer(opt_view(*a), opt_view(*b)),
{
    match a {
        Some(x) => match b {
            Some(y) => str_lt(y.as_str(), x.as_str()),
            None => true,
        },
        None => false,
    }
}

/// Sort stamped entries most recent first; entries with no stamp go last and
/// entries with equal stamps keep their order.
pub fn sort_recent_first<T>(items: Vec<(Option<String>, T)>) -> (r: Vec<(Option<String>, T)>)
    ensures
        keyed(r@) == recent_first(keyed(items@)),
{
    let ghost all = keyed(items@);
    let len0 = items.len();
    let ghost n = len0 as nat;
    let mut rest = items;
    let mut out: Vec<(Option<String>, T)> = Vec::new();
    let mut k: usize = 0;
    assert(all.subrange(0, 0) =~= Seq::<(Option<Seq<char>>, T)>::empty());
    while rest.len() > 0
        invariant
            k + rest@.len() == n,
            n <= usize::MAX,
            all.len() == n,
            keyed(rest@) == all.subrange(k as int, n as int),
            keyed(out@) == recent_first(all.subrange(0, k as int)),
        decreases rest.len(),
    {
        let ghost old_rest = rest@;
        let x = rest.remove(0);
        let ghost kx = opt_view(x.0);
        assert(keyed(old_rest)[0] == (kx, x.1));
        assert(all[k as int] == keyed(old_rest)[0]);
        assert(keyed(rest@) =~= keyed(old_rest).subrange(1, keyed(old_rest).len() as int));
        assert(keyed(rest@) =~= all.subrange(k + 1, n as int));
        let ghost ko = keyed(out@);
        let mut pos: usize = 0;
        assert(ko.subrange(0, ko.len() as int) =~= ko);
        loop
            invariant
                pos <= out@.len(),
                ko == keyed(out@),
                ko.len() == out@.len(),
                kx == opt_view(x.0),
                slot(ko, kx) == pos + slot(ko.subrange(pos as int, ko.len() as int), kx),
            ensures
                pos <= out@.len(),
                slot(ko, kx) == pos,
            decreases out@.len() - pos,
        {
            if pos == out.len() {
                assert(slot(ko.subrange(pos as int, ko.len() as int), kx) == 0);
                break;
            }
            let ghost sub = ko.subrange(pos as int, ko.len() as int);
            assert(sub[0] == ko[pos as int]);
            assert(ko[pos as int].0 == opt_view(out@[pos as int].0));
            if is_newer(&x.0, &out[pos].0) {
                assert(slot(sub, kx) == 0);
                break;
            }
            assert(sub.drop_first() =~= ko.subrange(pos + 1, ko.len() as int));
            assert(slot(sub, kx) == 1 + slot(sub.drop_first(), kx));
            pos += 1;
        }
        let ghost before = out@;
        out.insert(pos, x);
        proof {
            let s = all.subrange(0, k + 1);
            assert(s.drop_last() =~= all.subrange(0, k as int));
            assert(s.last() == (kx, x.1));
            assert(keyed(out@) =~= keyed(before).insert(pos as int, (kx, x.1)));
        }
        k += 1;
    }
    assert(all.subrange(0, n as int) =~= all);
    out
}

/// The most recent of a list of stamps, starting from `acc`.
pub fn latest_stamp(acc: Option<String>, xs: &Vec<Option<String>>) -> (r: Option<String>)
    ensures
        opt_view(r) == latest(opt_view(acc), stamp_views(xs@)),
{
    let ghost all = stamp_views(xs@);
    let mut m = acc;
    let mut i: usize = 0;
    assert(all.subrange(0, all.len() as int) =~= all);
    while i < xs.len()
        invariant
            i <= xs@.len(),
            all == stamp_views(xs@),
            latest(opt_view(m), all.subrange(i as int, all.len() as int)) == latest(opt_view(acc), all),
        decreases xs.len() - i,
    {
        let ghost sub = all.subrange(i as int, all.len() as int);
        assert(sub[0] == opt_view(xs@[i as int]));
        assert(sub.drop_first() =~= all.subrange(i + 1, all.len() as int));
        if is_newer(&xs[i], &m) {
            m = match &xs[i] {
                Some(t) => Some(t.clone()),
                None => None,
            };
        }
        i += 1;
    }
    assert(all.subrange(i as int, all.len() as int) =~= Seq::<Option<Seq<char>>>::empty());
    assert(all.subrange(0, all.len() as int) =~= all);
    m
}

} // verus!
