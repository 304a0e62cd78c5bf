//! The background refresher's choice of sessions whose PR status it
//! refreshes in one cycle.
use vstd::prelude::*;

use crate::recency::{keyed, lemma_recent_first_map, recent_first, sort_recent_first};
use crate::repo::model::RepoEntry;
use crate::session::env::{env_get, env_value};
use crate::session::model::{opt_view, SessionTree, SessionView};
use crate::session::pr::CandidateStep;

verus! {

/// Maximum number of sessions refreshed per cycle.
pub const MAX_CANDIDATES: usize = 20;

/// How often the refresher runs a cycle, in seconds.
pub const POLL_INTERVAL_SECS: u64 = 300;

/// A session with `ez_pr_number` set, eligible for a PR status refresh.
#[derive(Debug)]
pub struct Candidate {
    pub repo_id: String,
    pub session_id: String,
    pub session_name: String,
    pub last_accessed: Option<String>,
}

/// The value of a candidate.
pub struct CandidateView {
    pub repo_id: Seq<char>,
    pub session_id: Seq<char>,
    pub session_name: Seq<char>,
    pub last_accessed: Option<Seq<char>>,
}

impl View for Candidate {
    type V = CandidateView;

    open spec fn view(&self) -> CandidateView {
        CandidateView {
            repo_id: self.repo_id@,
            session_id: self.session_id@,
            session_name: self.session_name@,
            last_accessed: opt_view(self.last_accessed),
        }
    }
}

/// Sessions with a PR recorded.
pub open spec fn has_pr() -> spec_fn(SessionView) -> bool {
    |s: SessionView| env_get(s.env, "ez_pr_number"@) is Some
}

/// The candidate for session `s` of repository `repo_id`, with its stamp.
pub open spec fn candidate_of(repo_id: Seq<char>, s: SessionView) -> (Option<Seq<char>>, CandidateView) {
    (
        s.last_accessed,
        CandidateView {
            repo_id: repo_id,
            session_id: s.id,
            session_name: s.name,
            last_accessed: s.last_accessed,
        },
    )
}

/// The candidates of one repository: its sessions with a PR, in tree order;
/// none unless it is a git repository.
pub open spec fn repo_candidates(e: RepoEntry, t: Seq<SessionView>) -> Seq<(Option<Seq<char>>, CandidateView)> {
    if e.is_git {
        t.filter(has_pr()).map_values(|s: SessionView| candidate_of(e.id@, s))
    } else {
        Seq::empty()
    }
}

/// The candidates of all repositories, repository by repository.
pub open spec fn all_candidates(repos: Seq<(RepoEntry, SessionTree)>) -> Seq<(Option<Seq<char>>, CandidateView)>
    decreases repos.len(),
{
    if repos.len() == 0 {
        Seq::empty()
    } else {
        all_candidates(repos.drop_last()) + repo_candidates(repos.last().0, repos.last().1@)
    }
}

/// The sessions refreshed in one cycle: the most recently used candidates
/// first (never-used last, ties in repository and tree order), at most
/// `MAX_CANDIDATES` of them.
pub open spec fn chosen_candidates(repos: Seq<(RepoEntry, SessionTree)>) -> Seq<CandidateView> {
    let sorted = recent_first(all_candidates(repos));
    let kept = if sorted.len() <= MAX_CANDIDATES {
        sorted
    } else {
        sorted.take(MAX_CANDIDATES as int)
    };
    kept.map_values(|p: (Option<Seq<char>>, CandidateView)| p.1)
}

/// Candidates by their views, with their stamps.
pub open spec fn cand_payloads(s: Seq<(Option<Seq<char>>, Candidate)>) -> Seq<(Option<Seq<char>>, CandidateView)> {
    s.map_values(|p: (Option<Seq<char>>, Candidate)| (p.0, p.1@))
}

/// The views of candidates.
pub open spec fn cand_views(s: Seq<Candidate>) -> Seq<CandidateView> {
    s.map_values(|c: Candidate| c@)
}

fn copy_opt(o: &Option<String>) -> (r: Option<String>)
    ensures
        r == *o,
{
    match o {
        Some(s) => Some(s.clone()),
        None => None,
    }
}

/// Choose the sessions whose PR status the background refresher updates in
/// one cycle, from the registered repositories whose sessions could be read.
pub fn pr_candidates(repos: &Vec<(RepoEntry, SessionTree)>) -> (r: Vec<Candidate>)
    ensures
        cand_views(r@) == chosen_candidates(repos@),
{
    let mut pairs: Vec<(Option<String>, Candidate)> = Vec::new();
    let mut i: usize = 0;
    while i < repos.len()
        invariant
            i <= repos@.len(),
            cand_payloads(keyed(pairs@)) == all_candidates(repos@.subrange(0, i as int)),
        decreases repos.len() - i,
    {
        let entry = &repos[i].0;
        let tree = &repos[i].1;
        let ghost base = cand_payloads(keyed(pairs@));
        assert(repos@.subrange(0, i + 1).drop_last() =~= repos@.subrange(0, i as int));
        if entry.is_git {
            let ghost t = tree@;
            let mut j: usize = 0;
            assert(t.subrange(0, 0).filter(has_pr()) =~= Seq::<SessionView>::empty());
            while j < tree.sessions.len()
                invariant
                    j <= tree.sessions@.len(),
                    t == tree@,
                    entry.is_git,
                    cand_payloads(keyed(pairs@)) == base + t.subrange(0, j as int).filter(has_pr()).map_values(
                        |s: SessionView| candidate_of(entry.id@, s),
                    ),
                decreases tree.sessions.len() - j,
            {
                let s = &tree.sessions[j];
                let ghost sv = t[j as int];
                assert(sv == s@);
                let ghost before = pairs@;
                assert(t.subrange(0, j + 1) =~= t.subrange(0, j as int).push(sv));
                proof {
                    crate::session::tree::lemma_filter_push(t.subrange(0, j as int), sv, has_pr());
                }
                if env_value(&s.env, "ez_pr_number").is_some() {
                    let c = Candidate {
                        repo_id: entry.id.clone(),
                        session_id: s.id.clone(),
                        session_name: s.name.clone(),
                        last_accessed: copy_opt(&s.last_accessed),
                    };
                    pairs.push((copy_opt(&s.last_accessed), c));
                    proof {
                        assert(cand_payloads(keyed(pairs@)) =~= cand_payloads(keyed(before)).push(
                            candidate_of(entry.id@, sv),
                        ));
                        let f = t.subrange(0, j as int).filter(has_pr());
                        assert(f.push(sv).map_values(|s: SessionView| candidate_of(entry.id@, s))
                            =~= f.map_values(|s: SessionView| candidate_of(entry.id@, s)).push(
                            candidate_of(entry.id@, sv),
                        ));
                    }
                }
                j += 1;
            }
            assert(t.subrange(0, j as int) =~= t);
        } else {
            assert(base =~= base + Seq::<(Option<Seq<char>>, CandidateView)>::empty());
        }
        i += 1;
    }
    assert(repos@.subrange(0, i as int) =~= repos@);
    let ghost kp = keyed(pairs@);
    let mut sorted = sort_recent_first(pairs);
    proof {
        let f = |c: Candidate| c@;
        lemma_recent_first_map(kp, f);
        assert(cand_payloads(kp) =~= kp.map_values(|p: (Option<Seq<char>>, Candidate)| (p.0, f(p.1))));
        let rk = recent_first(kp);
        assert(cand_payloads(rk) =~= rk.map_values(|p: (Option<Seq<char>>, Candidate)| (p.0, f(p.1))));
    }
    let ghost full = recent_first(all_candidates(repos@));
    sorted.truncate(MAX_CANDIDATES);
    let ghost kept = if full.len() <= MAX_CANDIDATES {
        full
    } else {
        full.take(MAX_CANDIDATES as int)
    };
    assert(cand_payloads(keyed(sorted@)) =~= kept);
    let ghost want = chosen_candidates(repos@);
    let mut out: Vec<Candidate> = Vec::new();
    let ghost n = sorted@.len();
    while sorted.len() > 0
        invariant
            out@.len() + sorted@.len() == n,
            want == kept.map_values(|p: (Option<Seq<char>>, CandidateView)| p.1),
            kept.len() == n,
            cand_payloads(keyed(sorted@)) == kept.subrange(out@.len() as int, n as int),
            cand_views(out@) == want.subrange(0, out@.len() as int),
        decreases sorted.len(),
    {
        let ghost old_sorted = sorted@;
        let ghost before = out@;
        let (_, c) = sorted.remove(0);
        proof {
            assert(cand_payloads(keyed(old_sorted))[0] == (opt_view(old_sorted[0].0), old_sorted[0].1@));
            assert(kept[before.len() as int] == cand_payloads(keyed(old_sorted))[0]);
            assert(cand_payloads(keyed(sorted@)) =~= cand_payloads(keyed(old_sorted)).subrange(
                1,
                old_sorted.len() as int,
            ));
        }
        out.push(c);
        proof {
            assert(cand_views(out@) =~= cand_views(before).push(c@));
            assert(want.subrange(0, out@.len() as int) =~= want.subrange(0, before.len() as int).push(
                want[before.len() as int],
            ));
        }
    }
    assert(want.subrange(0, n as int) =~= want);
    out
}

/// What became of one candidate in a cycle.
#[derive(Debug, Clone, Copy)]
pub enum ProcessOutcome {
    Refreshed,
    Skipped,
}

/// The outcome of a candidate: a session that is gone or belongs to another
/// host user is skipped; one whose status was still fresh is skipped too
/// (its lookup is not repeated); else it counts as refreshed.
pub fn candidate_outcome(step: &CandidateStep, was_stale: bool) -> (r: ProcessOutcome)
    ensures
        r == (if step is Refresh && was_stale {
            ProcessOutcome::Refreshed
        } else {
            ProcessOutcome::Skipped
        }),
{
    match step {
        CandidateStep::Refresh { .. } => if was_stale {
            ProcessOutcome::Refreshed
        } else {
            ProcessOutcome::Skipped
        },
        _ => ProcessOutcome::Skipped,
    }
}

/// The counts a cycle reports: refreshed and skipped candidates.
pub open spec fn counted(os: Seq<ProcessOutcome>) -> (nat, nat)
    decreases os.len(),
{
    if os.len() == 0 {
        (0, 0)
    } else {
        let (a, b) = counted(os.drop_last());
        match os.last() {
            ProcessOutcome::Refreshed => (a + 1, b),
            ProcessOutcome::Skipped => (a, b + 1),
        }
    }
}

proof fn lemma_counted_total(os: Seq<ProcessOutcome>)
    ensures
        counted(os).0 + counted(os).1 == os.len(),
    decreases os.len(),
{
    if os.len() > 0 {
        lemma_counted_total(os.drop_last());
    }
}

/// The counts of a cycle, from the outcomes of its candidates in turn. A
/// cycle that found no host user has no outcomes and counts nothing.
pub fn cycle_counts(outcomes: &Vec<ProcessOutcome>) -> (r: (usize, usize))
    ensures
        r.0 as nat == counted(outcomes@).0,
        r.1 as nat == counted(outcomes@).1,
        r.0 + r.1 == outcomes@.len(),
{
    let mut refreshed: usize = 0;
    let mut skipped: usize = 0;
    let mut i: usize = 0;
    while i < outcomes.len()
        invariant
            i <= outcomes@.len(),
            refreshed as nat == counted(outcomes@.subrange(0, i as int)).0,
            skipped as nat == counted(outcomes@.subrange(0, i as int)).1,
        decreases outcomes.len() - i,
    {
        proof {
            lemma_counted_total(outcomes@.subrange(0, i as int));
            assert(outcomes@.subrange(0, i + 1).drop_last() =~= outcomes@.subrange(0, i as int));
        }
        match outcomes[i] {
            ProcessOutcome::Refreshed => refreshed += 1,
            ProcessOutcome::Skipped => skipped += 1,
        }
        i += 1;
    }
    assert(outcomes@.subrange(0, i as int) =~= outcomes@);
    proof {
        lemma_counted_total(outcomes@);
    }
    (refreshed, skipped)
}

} // verus!
