//! Git worktrees that exist on disk, read from `git worktree list --porcelain`.
use vstd::prelude::*;

use crate::session::model::opt_view;
use crate::text::{has_prefix, lines, views};
use vstd::utf8::{decode_utf8, encode_utf8, is_char_boundary};

verus! {

broadcast use vstd::utf8::encode_utf8_decode_utf8;

/// A git worktree that exists on disk but is not tracked as a session.
#[derive(Debug)]
pub struct UnmanagedWorktree {
    pub path: String,
    pub branch: Option<String>,
}

/// The value of a worktree entry.
pub struct WorktreeView {
    pub path: Seq<char>,
    pub branch: Option<Seq<char>>,
}

impl View for UnmanagedWorktree {
    type V = WorktreeView;

    open spec fn view(&self) -> WorktreeView {
        WorktreeView { path: self.path@, branch: opt_view(self.branch) }
    }
}

/// The views of a sequence of worktree entries.
pub open spec fn wviews(s: Seq<UnmanagedWorktree>) -> Seq<WorktreeView> {
    s.map_values(|w: UnmanagedWorktree| w@)
}

/// A detached head is shown by its first seven bytes (all of it when shorter).
pub open spec fn short_sha(sha: Seq<char>) -> Seq<char> {
    if encode_utf8(sha).len() > 7 {
        decode_utf8(encode_utf8(sha).subrange(0, 7))
    } else {
        sha
    }
}

/// Cutting the head at its seventh byte splits no character.
pub open spec fn short_sha_ok(sha: Seq<char>) -> bool {
    encode_utf8(sha).len() <= 7 || is_char_boundary(encode_utf8(sha), 7)
}

/// What the parser has read so far.
pub struct PorcelainState {
    pub path: Option<Seq<char>>,
    pub branch: Option<Seq<char>>,
    pub detached: bool,
    pub head: Option<Seq<char>>,
    pub out: Seq<WorktreeView>,
    /// No detached head so far had to be cut inside a character.
    pub ok: bool,
}

pub open spec fn initial_state() -> PorcelainState {
    PorcelainState {
        path: None,
        branch: None,
        detached: false,
        head: None,
        out: Seq::empty(),
        ok: true,
    }
}

/// The end of a block: its worktree is recorded if it named a path, and the
/// block's fields are cleared.
pub open spec fn end_block(st: PorcelainState) -> PorcelainState {
    let (out, ok) = match st.path {
        Some(p) => {
            if st.detached {
                match st.head {
                    Some(sha) => (
                        st.out.push(WorktreeView { path: p, branch: Some(short_sha(sha)) }),
                        st.ok && short_sha_ok(sha),
                    ),
                    None => (st.out.push(WorktreeView { path: p, branch: None }), st.ok),
                }
            } else {
                (st.out.push(WorktreeView { path: p, branch: st.branch }), st.ok)
            }
        },
        None => (st.out, st.ok),
    };
    PorcelainState { path: None, branch: None, detached: false, head: None, out: out, ok: ok }
}

/// One line of porcelain output.
pub open spec fn read_line(st: PorcelainState, line: Seq<char>) -> PorcelainState {
    if line.len() == 0 {
        end_block(st)
    } else if has_prefix(line, "worktree "@) {
        PorcelainState { path: Some(line.subrange(9, line.len() as int)), ..st }
    } else if has_prefix(line, "HEAD "@) {
        PorcelainState { head: Some(line.subrange(5, line.len() as int)), ..st }
    } else if has_prefix(line, "branch "@) {
        let rest = line.subrange(7, line.len() as int);
        PorcelainState {
            branch: if has_prefix(rest, "refs/heads/"@) {
                Some(rest.subrange(11, rest.len() as int))
            } else {
                None
            },
            ..st
        }
    } else if line == "detached"@ {
        PorcelainState { detached: true, ..st }
    } else {
        st
    }
}

/// The state after reading the lines in order.
pub open spec fn read_lines(ls: Seq<Seq<char>>) -> PorcelainState
    decreases ls.len(),
{
    if ls.len() == 0 {
        initial_state()
    } else {
        read_line(read_lines(ls.drop_last()), ls.last())
    }
}

/// The whole output read, the last block ended even without a blank line.
pub open spec fn porcelain(output: Seq<char>) -> PorcelainState {
    end_block(read_lines(lines(output)))
}

fn short_head(sha: &str) -> (r: String)
    requires
        short_sha_ok(sha@),
    ensures
        r@ == short_sha(sha@),
{
    if sha.as_bytes().len() > 7 {
        let (a, _b) = sha.split_at(7);
        proof {
            assert(decode_utf8(encode_utf8(a@)) == a@);
        }
        crate::text::owned(a)
    } else {
        crate::text::owned(sha)
    }
}

fn copy_opt(o: &Option<String>) -> (r: Option<String>)
    ensures
        opt_view(r) == opt_view(*o),
{
    match o {
        Some(s) => Some(s.clone()),
        None => None,
    }
}

/// The block's worktree entry, if the block named a path.
fn finish_block(
    out: &mut Vec<UnmanagedWorktree>,
    path: &Option<String>,
    branch: &Option<String>,
    detached: bool,
    head: &Option<String>,
    ok: bool,
)
    requires
        ({
            let st = PorcelainState {
                path: opt_view(*path),
                branch: opt_view(*branch),
                detached: detached,
                head: opt_view(*head),
                out: wviews(old(out)@),
                ok: ok,
            };
            end_block(st).ok
        }),
    ensures
        ({
            let st = PorcelainState {
                path: opt_view(*path),
                branch: opt_view(*branch),
                detached: detached,
                head: opt_view(*head),
                out: wviews(old(out)@),
                ok: ok,
            };
            wviews(final(out)@) == end_block(st).out
        }),
{
    let ghost before = wviews(out@);
    if let Some(p) = path {
        let b = if detached {
            match head {
                Some(sha) => Some(short_head(sha.as_str())),
                None => None,
            }
        } else {
            copy_opt(branch)
        };
        let w = UnmanagedWorktree { path: p.clone(), branch: b };
        let ghost wv = w@;
        out.push(w);
        assert(wviews(out@) =~= before.push(wv));
    }
}

proof fn lemma_end_block_ok(st: PorcelainState)
    ensures
        end_block(st).ok ==> st.ok,
{
}

proof fn lemma_read_line_ok(st: PorcelainState, line: Seq<char>)
    ensures
        read_line(st, line).ok ==> st.ok,
{
}

proof fn lemma_ok_prefix(ls: Seq<Seq<char>>, j: int)
    requires
        0 <= j <= ls.len(),
        read_lines(ls).ok,
    ensures
        read_lines(ls.subrange(0, j)).ok,
    decreases ls.len(),
{
    if j < ls.len() {
        lemma_read_line_ok(read_lines(ls.drop_last()), ls.last());
        lemma_ok_prefix(ls.drop_last(), j);
        assert(ls.drop_last().subrange(0, j) =~= ls.subrange(0, j));
    } else {
        assert(ls.subrange(0, j) =~= ls);
    }
}

/// Parse `git worktree list --porcelain` output into worktree entries.
///
/// Each block is separated by a blank line and contains lines like:
///   worktree /path/to/wt
///   HEAD abc123...
///   branch refs/heads/feature
/// or:
///   worktree /path/to/wt
///   HEAD abc123...
///   detached
/// A detached worktree is shown by the first seven bytes of its head.
pub fn parse_worktree_list_porcelain(output: &str) -> (r: Vec<UnmanagedWorktree>)
    requires
        porcelain(output@).ok,
    ensures
        wviews(r@) == porcelain(output@).out,
{
    let ls = crate::text::lines_of(output);
    let ghost lv = views(ls@);
    let mut result: Vec<UnmanagedWorktree> = Vec::new();
    let mut current_path: Option<String> = None;
    let mut current_branch: Option<String> = None;
    let mut is_detached = false;
    let mut head_sha: Option<String> = None;
    assert(wviews(result@) =~= Seq::<WorktreeView>::empty());
    assert(lv.subrange(0, 0) =~= Seq::<Seq<char>>::empty());
    proof {
        lemma_end_block_ok(read_lines(lv));
        reveal_strlit("worktree ");
        reveal_strlit("HEAD ");
        reveal_strlit("branch ");
        reveal_strlit("refs/heads/");
    }
    let mut i: usize = 0;
    while i < ls.len()
        invariant
            i <= ls@.len(),
            lv == views(ls@),
            read_lines(lv).ok,
            "worktree "@.len() == 9,
            "HEAD "@.len() == 5,
            "branch "@.len() == 7,
            "refs/heads/"@.len() == 11,
            ({
                let st = read_lines(lv.subrange(0, i as int));
                &&& st.path == opt_view(current_path)
                &&& st.branch == opt_view(current_branch)
                &&& st.detached == is_detached
                &&& st.head == opt_view(head_sha)
                &&& st.out == wviews(result@)
                &&& st.ok
            }),
        decreases ls.len() - i,
    {
        let ghost st = read_lines(lv.subrange(0, i as int));
        proof {
            lemma_ok_prefix(lv, i + 1);
            assert(lv.subrange(0, i + 1).drop_last() =~= lv.subrange(0, i as int));
            assert(lv.subrange(0, i + 1).last() == ls@[i as int]@);
        }
        let l = ls[i].as_str();
        if l.unicode_len() == 0 {
            finish_block(&mut result, &current_path, &current_branch, is_detached, &head_sha, true);
            current_path = None;
            current_branch = None;
            is_detached = false;
            head_sha = None;
        } else if let Some(rest) = crate::text::strip_prefix(l, "worktree ") {
            current_path = Some(rest);
        } else if let Some(rest) = crate::text::strip_prefix(l, "HEAD ") {
            head_sha = Some(rest);
        } else if let Some(rest) = crate::text::strip_prefix(l, "branch ") {
            current_branch = crate::text::strip_prefix(rest.as_str(), "refs/heads/");
        } else if crate::text::str_eq(l, "detached") {
            is_detached = true;
        }
        i += 1;
    }
    assert(lv.subrange(0, i as int) =~= lv);
    finish_block(&mut result, &current_path, &current_branch, is_detached, &head_sha, true);
    result
}

fn head_cut_ok(sha: &str) -> (r: bool)
    ensures
        r == short_sha_ok(sha@),
{
    sha.as_bytes().len() <= 7 || sha.is_char_boundary(7)
}

fn block_ok(has_path: bool, detached: bool, head: &Option<String>) -> (r: bool)
    ensures
        r == (match head {
            Some(sha) => !(has_path && detached) || short_sha_ok(sha@),
            None => true,
        }),
{
    match head {
        Some(sha) => !(has_path && detached) || head_cut_ok(sha.as_str()),
        None => true,
    }
}

/// Whether `parse_worktree_list_porcelain` can read this output: no detached
/// worktree's head would be cut inside a character.
pub fn porcelain_ok(output: &str) -> (r: bool)
    ensures
        r == porcelain(output@).ok,
{
    let ls = crate::text::lines_of(output);
    let ghost lv = views(ls@);
    let mut has_path = false;
    let mut detached = false;
    let mut head: Option<String> = None;
    let mut ok = true;
    assert(lv.subrange(0, 0) =~= Seq::<Seq<char>>::empty());
    proof {
        reveal_strlit("worktree ");
        reveal_strlit("HEAD ");
        reveal_strlit("branch ");
    }
    let mut i: usize = 0;
    while i < ls.len()
        invariant
            i <= ls@.len(),
            lv == views(ls@),
            lv == lines(output@),
            "worktree "@.len() == 9,
            "HEAD "@.len() == 5,
            ({
                let st = read_lines(lv.subrange(0, i as int));
                &&& (st.path is Some) == has_path
                &&& st.detached == detached
                &&& st.head == opt_view(head)
                &&& st.ok == ok
            }),
        decreases ls.len() - i,
    {
        proof {
            assert(lv.subrange(0, i + 1).drop_last() =~= lv.subrange(0, i as int));
            assert(lv.subrange(0, i + 1).last() == ls@[i as int]@);
        }
        let l = ls[i].as_str();
        if l.unicode_len() == 0 {
            ok = ok && block_ok(has_path, detached, &head);
            has_path = false;
            detached = false;
            head = None;
        } else if let Some(_rest) = crate::text::strip_prefix(l, "worktree ") {
            has_path = true;
        } else if let Some(rest) = crate::text::strip_prefix(l, "HEAD ") {
            head = Some(rest);
        } else if crate::text::starts_with(l, "branch ") {
        } else if crate::text::str_eq(l, "detached") {
            detached = true;
        }
        i += 1;
    }
    assert(lv.subrange(0, i as int) =~= lv);
    ok && block_ok(has_path, detached, &head)
}

/// Whether a worktree is left unmanaged: it still exists (its resolved
/// path is known), and it is neither the repository itself, nor its git
/// common directory, nor a session's directory.
pub open spec fn unmanaged(
    resolved: Option<Seq<char>>,
    repo: Option<Seq<char>>,
    common: Option<Seq<char>>,
    managed: Seq<Seq<char>>,
) -> bool {
    match resolved {
        Some(c) => !(repo matches Some(rp) && crate::repo::model::same_path(rp, c)) && !(
        common matches Some(cp) && crate::repo::model::same_path(cp, c)) && !(exists|k: int|
            0 <= k < managed.len() && crate::repo::model::same_path(#[trigger] managed[k], c)),
        None => false,
    }
}

/// The worktrees not tracked as sessions. `resolved` gives each worktree's
/// path as the filesystem resolves it (none when it is gone); `repo`,
/// `common` and `managed` are the resolved repository, git common directory
/// and session directories.
pub fn unmanaged_worktrees(
    worktrees: &Vec<UnmanagedWorktree>,
    resolved: &Vec<Option<String>>,
    repo: Option<&str>,
    common: Option<&str>,
    managed: &Vec<String>,
) -> (r: Vec<UnmanagedWorktree>)
    requires
        resolved@.len() == worktrees@.len(),
    ensures
        wviews(r@) == kept_worktrees(
            wviews(worktrees@),
            unmanaged_flags(
                resolved@,
                match repo {
                    Some(p) => Some(p@),
                    None => None,
                },
                match common {
                    Some(p) => Some(p@),
                    None => None,
                },
                views(managed@),
            ),
            worktrees@.len() as int,
        ),
{
    let ghost rv = match repo {
        Some(p) => Some(p@),
        None => None::<Seq<char>>,
    };
    let ghost cv = match common {
        Some(p) => Some(p@),
        None => None::<Seq<char>>,
    };
    let ghost flags = unmanaged_flags(resolved@, rv, cv, views(managed@));
    let mut out: Vec<UnmanagedWorktree> = Vec::new();
    let mut i: usize = 0;
    assert(wviews(out@) =~= Seq::<WorktreeView>::empty());
    while i < worktrees.len()
        invariant
            i <= worktrees@.len(),
            resolved@.len() == worktrees@.len(),
            flags == unmanaged_flags(resolved@, rv, cv, views(managed@)),
            rv == match repo {
                Some(p) => Some(p@),
                None => None::<Seq<char>>,
            },
            cv == match common {
                Some(p) => Some(p@),
                None => None::<Seq<char>>,
            },
            wviews(out@) == kept_worktrees(wviews(worktrees@), flags, i as int),
        decreases worktrees.len() - i,
    {
        let keep = match &resolved[i] {
            Some(c) => {
                let not_repo = match repo {
                    Some(p) => !crate::repo::model::paths_equal(p, c.as_str()),
                    None => true,
                };
                let not_common = match common {
                    Some(p) => !crate::repo::model::paths_equal(p, c.as_str()),
                    None => true,
                };
                let mut in_managed = false;
                let mut k: usize = 0;
                while k < managed.len() && !in_managed
                    invariant
                        k <= managed@.len(),
                        in_managed ==> exists|m: int|
                            0 <= m < managed@.len() && crate::repo::model::same_path(
                                #[trigger] views(managed@)[m],
                                c@,
                            ),
                        !in_managed ==> forall|m: int|
                            0 <= m < k ==> !crate::repo::model::same_path(
                                #[trigger] views(managed@)[m],
                                c@,
                            ),
                    decreases managed.len() - k,
                {
                    assert(views(managed@)[k as int] == managed@[k as int]@);
                    if crate::repo::model::paths_equal(managed[k].as_str(), c.as_str()) {
                        in_managed = true;
                    }
                    k += 1;
                }
                not_repo && not_common && !in_managed
            },
            None => false,
        };
        assert(keep == flags[i as int]);
        if keep {
            let w = UnmanagedWorktree { path: worktrees[i].path.clone(), branch: copy_opt(&worktrees[i].branch) };
            let ghost prev = wviews(out@);
            let ghost wv = w@;
            out.push(w);
            assert(wviews(out@) =~= prev.push(wv));
        }
        i += 1;
    }
    out
}

/// For each worktree, whether it is left unmanaged.
pub open spec fn unmanaged_flags(
    resolved: Seq<Option<String>>,
    repo: Option<Seq<char>>,
    common: Option<Seq<char>>,
    managed: Seq<Seq<char>>,
) -> Seq<bool> {
    Seq::new(resolved.len(), |i: int| unmanaged(opt_view(resolved[i]), repo, common, managed))
}

/// The entries among the first `n` whose flag is set, in order.
pub open spec fn kept_worktrees(ws: Seq<WorktreeView>, flags: Seq<bool>, n: int) -> Seq<WorktreeView>
    decreases n,
{
    if n <= 0 {
        Seq::empty()
    } else {
        let prev = kept_worktrees(ws, flags, n - 1);
        if flags[n - 1] {
            prev.push(ws[n - 1])
        } else {
            prev
        }
    }
}

/// The entry at `x` of the kept ones is an entry with a set flag.
pub open spec fn kept_from(ws: Seq<WorktreeView>, flags: Seq<bool>, kept: Seq<WorktreeView>, x: int) -> bool {
    exists|k: int| 0 <= k < ws.len() && k < flags.len() && flags[k] && kept[x] == #[trigger] ws[k]
}

proof fn lemma_kept(ws: Seq<WorktreeView>, flags: Seq<bool>, n: int)
    requires
        0 <= n <= ws.len(),
        n <= flags.len(),
    ensures
        forall|x: int|
            0 <= x < kept_worktrees(ws, flags, n).len() ==> #[trigger] kept_from(
                ws,
                flags,
                kept_worktrees(ws, flags, n),
                x,
            ),
        forall|k: int| 0 <= k < n && flags[k] ==> kept_worktrees(ws, flags, n).contains(#[trigger] ws[k]),
    decreases n,
{
    if n > 0 {
        lemma_kept(ws, flags, n - 1);
        let prev = kept_worktrees(ws, flags, n - 1);
        let cur = kept_worktrees(ws, flags, n);
        assert forall|x: int| 0 <= x < cur.len() implies #[trigger] kept_from(ws, flags, cur, x) by {
            if x < prev.len() {
                assert(kept_from(ws, flags, prev, x));
                let k = choose|k: int| 0 <= k < ws.len() && k < flags.len() && flags[k] && prev[x] == #[trigger] ws[k];
                assert(cur[x] == prev[x]);
                assert(cur[x] == ws[k]);
            } else {
                assert(cur[x] == ws[n - 1]);
            }
        }
        assert forall|k: int| 0 <= k < n && flags[k] implies cur.contains(#[trigger] ws[k]) by {
            if k < n - 1 {
                let x = choose|x: int| 0 <= x < prev.len() && prev[x] == ws[k];
                assert(cur[x] == prev[x]);
            } else {
                assert(cur[cur.len() - 1] == ws[n - 1]);
            }
        }
    }
}

/// A worktree directory that still exists (`resolved` is known) and is the
/// same path as none of the session directories, nor the repository, nor
/// its git common directory.
pub open spec fn left_unmanaged(
    resolved: Option<Seq<char>>,
    repo: Option<Seq<char>>,
    common: Option<Seq<char>>,
    managed: Seq<Seq<char>>,
) -> bool {
    &&& resolved is Some
    &&& forall|i: int|
        0 <= i < managed.len() ==> !crate::repo::model::same_path(#[trigger] managed[i], resolved->0)
    &&& !(repo matches Some(rp) && crate::repo::model::same_path(rp, resolved->0))
    &&& !(common matches Some(cp) && crate::repo::model::same_path(cp, resolved->0))
}

proof fn lemma_left_unmanaged(
    resolved: Option<Seq<char>>,
    repo: Option<Seq<char>>,
    common: Option<Seq<char>>,
    managed: Seq<Seq<char>>,
)
    ensures
        unmanaged(resolved, repo, common, managed) == left_unmanaged(resolved, repo, common, managed),
{
    if let Some(c) = resolved {
        if exists|k: int| 0 <= k < managed.len() && crate::repo::model::same_path(#[trigger] managed[k], c) {
            let k = choose|k: int| 0 <= k < managed.len() && crate::repo::model::same_path(#[trigger] managed[k], c);
            assert(!(forall|i: int|
                0 <= i < managed.len() ==> !crate::repo::model::same_path(#[trigger] managed[i], c)));
        }
    }
}

/// `w` is one of the worktrees whose directory is left unmanaged.
pub open spec fn from_unmanaged(
    ws: Seq<WorktreeView>,
    resolved: Seq<Option<String>>,
    repo: Option<Seq<char>>,
    common: Option<Seq<char>>,
    managed: Seq<Seq<char>>,
    w: WorktreeView,
) -> bool {
    exists|k: int|
        0 <= k < ws.len() && w == #[trigger] ws[k] && left_unmanaged(
            opt_view(resolved[k]),
            repo,
            common,
            managed,
        )
}

/// The worktrees listed as unmanaged are exactly those whose directory
/// still exists and is neither the repository, nor its git common
/// directory, nor any session's directory: nothing listed is a session's
/// own worktree, and every worktree that is none of these is listed.
pub proof fn law_unmanaged_excludes_sessions(
    ws: Seq<WorktreeView>,
    resolved: Seq<Option<String>>,
    repo: Option<Seq<char>>,
    common: Option<Seq<char>>,
    managed: Seq<Seq<char>>,
)
    requires
        resolved.len() == ws.len(),
    ensures
        ({
            let listed = kept_worktrees(
                ws,
                unmanaged_flags(resolved, repo, common, managed),
                ws.len() as int,
            );
            &&& forall|x: int|
                0 <= x < listed.len() ==> from_unmanaged(
                    ws,
                    resolved,
                    repo,
                    common,
                    managed,
                    #[trigger] listed[x],
                )
            &&& forall|k: int|
                0 <= k < ws.len() && left_unmanaged(opt_view(resolved[k]), repo, common, managed)
                    ==> listed.contains(#[trigger] ws[k])
        }),
{
    let flags = unmanaged_flags(resolved, repo, common, managed);
    lemma_kept(ws, flags, ws.len() as int);
    let r = kept_worktrees(ws, flags, ws.len() as int);
    assert forall|x: int| 0 <= x < r.len() implies from_unmanaged(
        ws,
        resolved,
        repo,
        common,
        managed,
        #[trigger] r[x],
    ) by {
        assert(kept_from(ws, flags, r, x));
        let k = choose|k: int| 0 <= k < ws.len() && k < flags.len() && flags[k] && r[x] == #[trigger] ws[k];
        assert(flags[k] == unmanaged(opt_view(resolved[k]), repo, common, managed));
        lemma_left_unmanaged(opt_view(resolved[k]), repo, common, managed);
    }
    assert forall|k: int|
        0 <= k < ws.len() && left_unmanaged(opt_view(resolved[k]), repo, common, managed) implies r.contains(
        #[trigger] ws[k],
    ) by {
        assert(flags[k] == unmanaged(opt_view(resolved[k]), repo, common, managed));
        lemma_left_unmanaged(opt_view(resolved[k]), repo, common, managed);
    }
}

} // verus!
