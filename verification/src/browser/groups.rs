//! Grouping the browser's items by owner or label: one group per distinct
//! key, keys in order, items in the order given.
use vstd::prelude::*;

use crate::labels::strictly_sorted;
use crate::repo::model::{owner_of_url, RepoEntry};
use crate::session::model::opt_view;
use crate::text::{lemma_seq_lt_irreflexive, lemma_seq_lt_transitive, lemma_seq_lt_trichotomy, seq_lt, views};

verus! {

/// The positions among the first `n` keys that hold `k`, ascending.
pub open spec fn positions_of(keys: Seq<Seq<char>>, k: Seq<char>, n: int) -> Seq<usize>
    decreases n,
{
    if n <= 0 {
        Seq::empty()
    } else {
        let prev = positions_of(keys, k, n - 1);
        if keys[n - 1] == k {
            prev.push((n - 1) as usize)
        } else {
            prev
        }
    }
}

/// The keys of the groups.
pub open spec fn group_keys(g: Seq<(String, Vec<usize>)>) -> Seq<Seq<char>> {
    g.map_values(|x: (String, Vec<usize>)| x.0@)
}

/// Groups of the first `n` keys: sorted distinct keys, exactly those among
/// the first `n`, each with the positions that hold it.
pub open spec fn grouped(keys: Seq<Seq<char>>, n: int, g: Seq<(String, Vec<usize>)>) -> bool {
    &&& strictly_sorted(group_keys(g))
    &&& forall|l: Seq<char>|
        group_keys(g).contains(l) <==> (exists|i: int| 0 <= i < n && #[trigger] keys[i] == l)
    &&& forall|j: int| 0 <= j < g.len() ==> (#[trigger] g[j]).1@ == positions_of(keys, g[j].0@, n)
}

proof fn lemma_positions_none(keys: Seq<Seq<char>>, k: Seq<char>, n: int)
    requires
        forall|i: int| 0 <= i < n ==> keys[i] != k,
    ensures
        positions_of(keys, k, n) == Seq::<usize>::empty(),
    decreases n,
{
    if n > 0 {
        lemma_positions_none(keys, k, n - 1);
    }
}

/// Group positions by their key (the grouping a `BTreeMap` from key to
/// items gives): the distinct keys in order, each with the positions that
/// hold it, ascending.
pub fn group_by_key(keys: &Vec<String>) -> (r: Vec<(String, Vec<usize>)>)
    ensures
        grouped(views(keys@), keys@.len() as int, r@),
{
    let ghost ks = views(keys@);
    let mut groups: Vec<(String, Vec<usize>)> = Vec::new();
    let mut i: usize = 0;
    assert(group_keys(groups@) =~= Seq::<Seq<char>>::empty());
    while i < keys.len()
        invariant
            i <= keys@.len(),
            ks == views(keys@),
            grouped(ks, i as int, groups@),
        decreases keys.len() - i,
    {
        let k = &keys[i];
        assert(ks[i as int] == k@);
        let ghost gk = group_keys(groups@);
        let mut j: usize = 0;
        while j < groups.len() && crate::text::str_lt(groups[j].0.as_str(), k.as_str())
            invariant
                j <= groups@.len(),
                gk == group_keys(groups@),
                forall|m: int| 0 <= m < j ==> seq_lt(#[trigger] gk[m], k@),
            decreases groups.len() - j,
        {
            assert(gk[j as int] == groups@[j as int].0@);
            j += 1;
        }
        let ghost old_g = groups@;
        if j < groups.len() && crate::text::str_eq(groups[j].0.as_str(), k.as_str()) {
            let mut v = groups[j].1.clone();
            v.push(i);
            let key = groups[j].0.clone();
            groups.set(j, (key, v));
            proof {
                assert(gk[j as int] == k@);
                assert(group_keys(groups@) =~= gk);
                assert forall|m: int| 0 <= m < groups@.len() implies (#[trigger] groups@[m]).1@
                    == positions_of(ks, groups@[m].0@, i + 1) by {
                    if m != j {
                        assert(groups@[m] == old_g[m]);
                        assert(gk[m] != k@) by {
                            if gk[m] == k@ {
                                if m < j {
                                    lemma_seq_lt_transitive(gk[m], gk[j as int], gk[m]);
                                    lemma_seq_lt_irreflexive(gk[m]);
                                } else {
                                    lemma_seq_lt_irreflexive(gk[m]);
                                }
                            }
                        }
                    }
                }
                assert forall|l: Seq<char>| group_keys(groups@).contains(l) <==> (exists|p: int|
                    0 <= p < i + 1 && #[trigger] ks[p] == l) by {
                    if exists|p: int| 0 <= p < i + 1 && #[trigger] ks[p] == l {
                        let p = choose|p: int| 0 <= p < i + 1 && #[trigger] ks[p] == l;
                        if p == i {
                            assert(gk[j as int] == l);
                        }
                    }
                }
            }
        } else {
            let mut v: Vec<usize> = Vec::new();
            v.push(i);
            groups.insert(j, (k.clone(), v));
            proof {
                let ng = group_keys(groups@);
                assert(ng =~= gk.insert(j as int, k@));
                if j < gk.len() {
                    lemma_seq_lt_trichotomy(gk[j as int], k@);
                }
                // k is new: no earlier key equals it.
                assert(!gk.contains(k@)) by {
                    if gk.contains(k@) {
                        let m = choose|m: int| 0 <= m < gk.len() && gk[m] == k@;
                        if m < j {
                            lemma_seq_lt_irreflexive(k@);
                        } else if m > j {
                            assert(seq_lt(gk[j as int], gk[m]));
                            lemma_seq_lt_trichotomy(gk[j as int], k@);
                        }
                    }
                }
                assert forall|p: int| 0 <= p < i implies ks[p] != k@ by {
                    if ks[p] == k@ {
                        assert(exists|q: int| 0 <= q < i && #[trigger] ks[q] == k@);
                    }
                }
                lemma_positions_none(ks, k@, i as int);
                assert forall|a: int, b: int| 0 <= a < b < ng.len() implies seq_lt(
                    #[trigger] ng[a],
                    #[trigger] ng[b],
                ) by {
                    if b < j {
                        assert(seq_lt(gk[a], gk[b]));
                    } else if b == j {
                        assert(seq_lt(gk[a], k@));
                    } else if a == j {
                        if b - 1 > j {
                            assert(seq_lt(gk[j as int], gk[b - 1]));
                            lemma_seq_lt_transitive(k@, gk[j as int], gk[b - 1]);
                        }
                    } else if a < j {
                        assert(seq_lt(gk[a], gk[b - 1]));
                    } else {
                        assert(seq_lt(gk[a - 1], gk[b - 1]));
                    }
                }
                assert forall|m: int| 0 <= m < groups@.len() implies (#[trigger] groups@[m]).1@
                    == positions_of(ks, groups@[m].0@, i + 1) by {
                    if m < j {
                        assert(groups@[m] == old_g[m]);
                        assert(gk[m] != k@);
                    } else if m > j {
                        assert(groups@[m] == old_g[m - 1]);
                        assert(gk[m - 1] != k@);
                    } else {
                        assert(groups@[m].1@ =~= Seq::<usize>::empty().push(i));
                    }
                }
                assert forall|l: Seq<char>| ng.contains(l) <==> (exists|p: int|
                    0 <= p < i + 1 && #[trigger] ks[p] == l) by {
                    if ng.contains(l) {
                        let m = choose|m: int| 0 <= m < ng.len() && ng[m] == l;
                        if m < j {
                            assert(gk[m] == l);
                            assert(gk.contains(l));
                        } else if m > j {
                            assert(gk[m - 1] == l);
                            assert(gk.contains(l));
                        } else {
                            assert(ks[i as int] == l);
                        }
                    }
                    if exists|p: int| 0 <= p < i + 1 && #[trigger] ks[p] == l {
                        let p = choose|p: int| 0 <= p < i + 1 && #[trigger] ks[p] == l;
                        if p == i {
                            assert(ng[j as int] == l);
                        } else {
                            assert(exists|q: int| 0 <= q < i && #[trigger] ks[q] == l);
                            assert(gk.contains(l));
                            let m = choose|m: int| 0 <= m < gk.len() && gk[m] == l;
                            if m < j {
                                assert(ng[m] == l);
                            } else {
                                assert(ng[m + 1] == l);
                            }
                        }
                    }
                }
            }
        }
        i += 1;
    }
    groups
}

/// The owner a repository is listed under: the owner in its remote URL,
/// else the name of the directory that holds it.
pub open spec fn repo_owner(path: Seq<char>, remote_url: Option<Seq<char>>) -> Option<Seq<char>> {
    match remote_url {
        Some(u) => match owner_of_url(u) {
            Some(o) => Some(o),
            None => crate::paths::parent_name(path),
        },
        None => crate::paths::parent_name(path),
    }
}

/// The owner a repository is listed under, from its remote URL (as its
/// metadata records it) or its directory.
pub fn owner_for_repo(entry: &RepoEntry, remote_url: Option<&str>) -> (r: Option<String>)
    ensures
        opt_view(r) == repo_owner(
            entry.path@,
            match remote_url {
                Some(u) => Some(u@),
                None => None,
            },
        ),
{
    match remote_url {
        Some(u) => match crate::repo::model::parse_owner(u) {
            Some(o) => {
                return Some(o);
            },
            None => {},
        },
        None => {},
    }
    crate::paths::parent_name_of(entry.path.as_str())
}

/// `(n item)` or `(n items)`.
pub fn count_text(n: usize, noun: &str) -> (r: String)
    ensures
        r@ == "("@ + crate::text::decimal(n as nat) + " "@ + noun@ + (if n == 1 {
            ""@
        } else {
            "s"@
        }) + ")"@,
{
    let mut s = crate::text::concat("(", crate::text::decimal_string(n as u128).as_str());
    s.append(" ");
    s.append(noun);
    if n != 1 {
        s.append("s");
    }
    s.append(")");
    proof {
        reveal_strlit("");
    }
    s
}

} // verus!
