//! Registering a git worktree that already exists as a session of its
//! repository (`ez session register`).
use vstd::prelude::*;

use super::model::{pairs_view, Session, SessionTree, SessionView};
use super::ops::{new_session_id, now_rfc3339};
use super::tree::{default_flag, name_is};
use crate::error::EzError;
use crate::search::{find_first, first_match, lemma_first_match};
use crate::text::{decimal, lemma_decimal_injective, trim};

verus! {

/// The TOML encoding of a string value (`toml::Value::String`), as text.
pub uninterp spec fn toml_string_text(s: Seq<char>) -> Seq<char>;

/// `toml::Value::String(s).to_string()`: a string as a TOML value (quoted
/// and escaped). The text is named by `toml_string_text`, a function of the
/// string alone.
#[verifier::external_body]
pub(crate) fn toml_string(s: &str) -> (r: String)
    ensures
        r@ == toml_string_text(s@),
{
    toml::Value::String(s.to_string()).to_string()
}

/// The name a registered worktree's session gets: the given name, trimmed;
/// else the worktree's branch.
pub open spec fn registered_name(name: Option<Seq<char>>, branch: Option<Seq<char>>) -> Result<Seq<char>, Seq<char>> {
    match name {
        Some(n) => if trim(n).len() > 0 {
            Ok(trim(n))
        } else {
            Err("session name cannot be empty when registering a worktree"@)
        },
        None => match branch {
            Some(b) => Ok(b),
            None => Err("could not detect a branch for this worktree; pass --name explicitly"@),
        },
    }
}

/// The canonical path of session `j`, when it could be read.
pub open spec fn canon_at(canon: Seq<Option<Seq<char>>>, j: int) -> Option<Seq<char>> {
    if 0 <= j < canon.len() {
        canon[j]
    } else {
        None
    }
}

/// For each of the `n` sessions, whether its canonical path is `path`.
pub open spec fn path_hits(n: nat, canon: Seq<Option<Seq<char>>>, path: Seq<char>) -> Seq<bool> {
    Seq::new(n, |j: int| canon_at(canon, j) == Some(path))
}

/// Set flags.
pub open spec fn is_set() -> spec_fn(bool) -> bool {
    |b: bool| b
}

/// The plugin state of a registered worktree session.
pub open spec fn worktree_state(path: Seq<char>, branch: Option<Seq<char>>) -> Seq<(Seq<char>, Seq<char>)> {
    let s = seq![("worktree_path"@, toml_string_text(path))];
    match branch {
        Some(b) => s.push(("branch"@, toml_string_text(b))),
        None => s,
    }
}

/// The session a registered worktree becomes.
pub open spec fn registered_session(
    id: Seq<char>,
    name: Seq<char>,
    parent_id: Option<Seq<char>>,
    path: Seq<char>,
    branch: Option<Seq<char>>,
    created_at: Seq<char>,
) -> SessionView {
    SessionView {
        id: id,
        name: name,
        parent_id: parent_id,
        path: Some(path),
        env: Seq::empty(),
        plugin_state: worktree_state(path, branch),
        labels: Seq::empty(),
        created_at: created_at,
        is_default: false,
        bare: false,
        last_accessed: None,
    }
}

/// The parent a registered worktree session gets: the named session, else
/// the default session, else none.
pub open spec fn registered_parent(t: Seq<SessionView>, parent: Option<Seq<char>>) -> Result<Option<Seq<char>>, Seq<char>> {
    match parent {
        Some(p) => match find_first(t, name_is(p)) {
            Some(s) => Ok(Some(s.id)),
            None => Err(p),
        },
        None => match find_first(t, default_flag()) {
            Some(s) => Ok(Some(s.id)),
            None => Ok(None),
        },
    }
}

proof fn lemma_found_id(t: Seq<SessionView>, p: spec_fn(SessionView) -> bool)
    requires
        find_first(t, p) is Some,
    ensures
        find_first(t, crate::session::tree::id_is(find_first(t, p).unwrap().id)) is Some,
{
    lemma_first_match(t, p);
    let k = first_match(t, p);
    let id = t[k].id;
    lemma_first_match(t, crate::session::tree::id_is(id));
    if first_match(t, crate::session::tree::id_is(id)) >= t.len() {
        assert((crate::session::tree::id_is(id))(t[k]));
    }
}

/// The views of optional texts.
pub open spec fn opt_views(v: Seq<Option<String>>) -> Seq<Option<Seq<char>>> {
    v.map_values(|o: Option<String>| crate::session::model::opt_view(o))
}

fn position_at_path(tree: &SessionTree, canonical: &Vec<Option<String>>, path: &str) -> (r: usize)
    ensures
        r == first_match(path_hits(tree@.len(), opt_views(canonical@), path@), is_set()),
        r <= tree@.len(),
{
    let ghost hits = path_hits(tree@.len(), opt_views(canonical@), path@);
    let mut j: usize = 0;
    while j < tree.sessions.len()
        invariant
            j <= tree@.len(),
            hits == path_hits(tree@.len(), opt_views(canonical@), path@),
            forall|i: int| 0 <= i < j ==> !(is_set())(#[trigger] hits[i]),
        decreases tree.sessions.len() - j,
    {
        if j < canonical.len() {
            match &canonical[j] {
                Some(c) => {
                    if crate::text::str_eq(c.as_str(), path) {
                        assert(opt_views(canonical@)[j as int] == Some(c@));
                        assert((is_set())(hits[j as int]));
                        proof {
                            crate::search::lemma_first_match_is(hits, is_set(), j as int);
                        }
                        return j;
                    }
                    assert(opt_views(canonical@)[j as int] == Some(c@));
                },
                None => {
                    assert(opt_views(canonical@)[j as int] == None::<Seq<char>>);
                },
            }
        }
        assert(!(is_set())(hits[j as int]));
        j += 1;
    }
    proof {
        crate::search::lemma_first_match_is(hits, is_set(), j as int);
    }
    j
}

/// The view of an optional text argument.
pub open spec fn str_opt(o: Option<&str>) -> Option<Seq<char>> {
    match o {
        Some(x) => Some(x@),
        None => None,
    }
}

/// What registering a worktree does, given the fresh ID and creation time:
/// the checks in order (a usable name, a name not taken, no session at the
/// path, the named parent), each error with the tree `t0` unchanged in `t1`,
/// else the new session appended and its name returned.
pub open spec fn registration(
    t0: Seq<SessionView>,
    name: Option<Seq<char>>,
    branch: Option<Seq<char>>,
    path: Seq<char>,
    canonical: Seq<Option<Seq<char>>>,
    parent: Option<Seq<char>>,
    id: Seq<char>,
    created_at: Seq<char>,
    r: Result<String, EzError>,
    t1: Seq<SessionView>,
) -> bool {
    let nm = registered_name(name, branch);
    let at = first_match(path_hits(t0.len(), canonical, path), is_set());
    match nm {
        Err(m) => (r matches Err(EzError::Config(x)) && x@ == m) && t1 == t0,
        Ok(n) => if find_first(t0, name_is(n)) is Some {
            (r matches Err(EzError::SessionAlreadyExists(x)) && x@ == n) && t1 == t0
        } else if at < t0.len() {
            (r matches Err(EzError::Config(x)) && x@ == "worktree '"@ + path
                + "' is already registered as session '"@ + t0[at].name + "'"@)
                && t1 == t0
        } else {
            match registered_parent(t0, parent) {
                Err(p) => (r matches Err(EzError::SessionNotFound(x)) && x@ == p) && t1 == t0,
                Ok(pid) => (r matches Ok(x) && x@ == n) && t1 == t0.push(
                    registered_session(id, n, pid, path, branch, created_at),
                ),
            }
        },
    }
}

/// Register an existing worktree at canonical `worktree_path` as a session,
/// given the session's canonical paths (`canonical[j]` for session `j`, when
/// it could be resolved), a fresh ID and the creation time. The checks, in
/// order: a usable name (see `registered_name`), a name not taken, no
/// session already at the path, and the named parent. On an error the tree
/// is unchanged. Returns the session's name.
pub fn register_worktree_with(
    tree: &mut SessionTree,
    name: Option<&str>,
    branch: Option<&str>,
    worktree_path: &str,
    canonical: &Vec<Option<String>>,
    parent: Option<&str>,
    id: String,
    created_at: String,
) -> (r: Result<String, EzError>)
    ensures
        registration(
            old(tree)@,
            match name {
                Some(n) => Some(n@),
                None => None,
            },
            match branch {
                Some(b) => Some(b@),
                None => None,
            },
            worktree_path@,
            opt_views(canonical@),
            match parent {
                Some(p) => Some(p@),
                None => None,
            },
            id@,
            created_at@,
            r,
            final(tree)@,
        ),
{
    let session_name = match name {
        Some(n) => {
            let t = crate::text::trimmed(n);
            if t.as_str().is_empty() {
                return Err(EzError::Config(crate::text::owned("session name cannot be empty when registering a worktree")));
            }
            t
        },
        None => match branch {
            Some(b) => crate::text::owned(b),
            None => {
                return Err(EzError::Config(crate::text::owned("could not detect a branch for this worktree; pass --name explicitly")));
            },
        },
    };
    if tree.find_by_name(session_name.as_str()).is_some() {
        return Err(EzError::SessionAlreadyExists(session_name));
    }
    let at = position_at_path(tree, canonical, worktree_path);
    if at < tree.sessions.len() {
        let mut m = crate::text::concat3("worktree '", worktree_path, "' is already registered as session '");
        m.append(tree.sessions[at].name.as_str());
        m.append("'");
        return Err(EzError::Config(m));
    }
    let parent_id = match parent {
        Some(p) => match tree.find_by_name(p) {
            Some(s) => {
                proof {
                    lemma_found_id(tree@, name_is(p@));
                }
                Some(s.id.clone())
            },
            None => return Err(EzError::SessionNotFound(crate::text::owned(p))),
        },
        None => match tree.find_default() {
            Some(s) => {
                proof {
                    lemma_found_id(tree@, default_flag());
                }
                Some(s.id.clone())
            },
            None => None,
        },
    };
    let mut state: Vec<(String, String)> = Vec::new();
    state.push((crate::text::owned("worktree_path"), toml_string(worktree_path)));
    match branch {
        Some(b) => state.push((crate::text::owned("branch"), toml_string(b))),
        None => {},
    }
    let session = Session {
        id,
        name: session_name.clone(),
        parent_id,
        path: Some(crate::text::owned(worktree_path)),
        env: Vec::new(),
        plugin_state: state,
        labels: Vec::new(),
        created_at,
        is_default: false,
        bare: false,
        last_accessed: None,
    };
    let ghost sv = session@;
    assert(sv.env =~= Seq::<(Seq<char>, Seq<char>)>::empty());
    assert(sv.labels =~= Seq::<Seq<char>>::empty());
    assert(sv.plugin_state =~= worktree_state(
        worktree_path@,
        match branch {
            Some(b) => Some(b@),
            None => None,
        },
    ));
    match tree.add(session) {
        Ok(()) => Ok(session_name),
        Err(e) => Err(e),
    }
}

/// Register an existing worktree as a session with a fresh ID and the
/// current time: the checks and outcome of `registration`, whatever ID and
/// time were drawn.
pub fn register_worktree(
    tree: &mut SessionTree,
    name: Option<&str>,
    branch: Option<&str>,
    worktree_path: &str,
    canonical: &Vec<Option<String>>,
    parent: Option<&str>,
) -> (r: Result<String, EzError>)
    ensures
        exists|id: Seq<char>, created_at: Seq<char>|
            #[trigger] registration(
                old(tree)@,
                str_opt(name),
                str_opt(branch),
                worktree_path@,
                opt_views(canonical@),
                str_opt(parent),
                id,
                created_at,
                r,
                final(tree)@,
            ),
{
    let id = new_session_id();
    let now = now_rfc3339();
    let ghost idv = id@;
    let ghost nowv = now@;
    let r = register_worktree_with(tree, name, branch, worktree_path, canonical, parent, id, now);
    assert(registration(
        old(tree)@,
        str_opt(name),
        str_opt(branch),
        worktree_path@,
        opt_views(canonical@),
        str_opt(parent),
        idv,
        nowv,
        r,
        tree@,
    ));
    r
}

/// `base-k`.
pub open spec fn suffixed(base: Seq<char>, k: nat) -> Seq<char> {
    base + "-"@ + decimal(k)
}

/// No session has the name `n`.
pub open spec fn name_free(t: Seq<SessionView>, n: Seq<char>) -> bool {
    find_first(t, name_is(n)) is None
}

/// `r` is the name a new session with stem `base` gets: `base` itself when
/// free, else `base-k` for the least `k >= 2` that is free.
pub open spec fn is_unique_name(t: Seq<SessionView>, base: Seq<char>, r: Seq<char>) -> bool {
    if name_free(t, base) {
        r == base
    } else {
        exists|k: nat|
            #![trigger suffixed(base, k)]
            k >= 2 && r == suffixed(base, k) && name_free(t, r) && forall|j: nat|
                2 <= j < k ==> !name_free(t, #[trigger] suffixed(base, j))
    }
}

proof fn lemma_suffixed_injective(base: Seq<char>, a: nat, b: nat)
    requires
        suffixed(base, a) == suffixed(base, b),
    ensures
        a == b,
{
    let p = base + "-"@;
    assert(suffixed(base, a).subrange(p.len() as int, suffixed(base, a).len() as int) =~= decimal(a));
    assert(suffixed(base, b).subrange(p.len() as int, suffixed(base, b).len() as int) =~= decimal(b));
    lemma_decimal_injective(a, b);
}

/// Among `base-2` to `base-(n+2)`, with `n` sessions, one name is free.
proof fn lemma_some_suffix_free(t: Seq<SessionView>, base: Seq<char>)
    ensures
        exists|k: nat| 2 <= k <= t.len() + 2 && #[trigger] name_free(t, suffixed(base, k)),
{
    if !exists|k: nat| 2 <= k <= t.len() + 2 && #[trigger] name_free(t, suffixed(base, k)) {
        broadcast use vstd::seq_lib::seq_to_set_is_finite;
        let n: int = t.len() as int;
        let x = vstd::set_lib::set_int_range(2, n + 3);
        let f = |k: int| suffixed(base, k as nat);
        vstd::set_lib::lemma_int_range(2, n + 3);
        assert forall|a: int, b: int| x.contains(a) && x.contains(b) && #[trigger] f(a) == #[trigger] f(b) implies a == b by {
            lemma_suffixed_injective(base, a as nat, b as nat);
        }
        let y = x.map(f);
        vstd::set_lib::lemma_map_size(x, y, f);
        let names = t.map_values(|s: SessionView| s.name);
        let ns = names.to_set();
        names.lemma_cardinality_of_set();
        assert forall|c: Seq<char>| y.contains(c) implies ns.contains(c) by {
            let k = choose|k: int| x.contains(k) && f(k) == c;
            assert(!name_free(t, suffixed(base, k as nat)));
            lemma_first_match(t, name_is(c));
            let i = first_match(t, name_is(c));
            assert(names[i] == c);
        }
        vstd::set_lib::lemma_len_subset(y, ns);
    }
}

/// The name a worktree registered from the browser gets: the branch, else
/// the worktree directory's name, else `worktree`, made unique (see
/// `is_unique_name`).
pub fn unique_session_name(tree: &SessionTree, base: &str) -> (r: String)
    ensures
        is_unique_name(tree@, base@, r@),
{
    if tree.find_by_name(base).is_none() {
        return crate::text::owned(base);
    }
    proof {
        lemma_some_suffix_free(tree@, base@);
    }
    let n = tree.sessions.len();
    let mut k: u128 = 2;
    loop
        invariant
            2 <= k <= n as int + 2,
            n == tree@.len(),
            !name_free(tree@, base@),
            exists|m: nat| 2 <= m <= tree@.len() + 2 && #[trigger] name_free(tree@, suffixed(base@, m)),
            forall|j: nat| 2 <= j < k ==> !name_free(tree@, #[trigger] suffixed(base@, j)),
        decreases n as int + 2 - k,
    {
        let mut c = crate::text::concat(base, "-");
        let digits = crate::text::decimal_string(k);
        c.append(digits.as_str());
        assert(c@ == suffixed(base@, k as nat));
        if tree.find_by_name(c.as_str()).is_none() {
            assert(is_unique_name(tree@, base@, c@));
            return c;
        }
        proof {
            if k == n + 2 {
                let m = choose|m: nat| 2 <= m <= tree@.len() + 2 && #[trigger] name_free(tree@, suffixed(base@, m));
                if m < k {
                    assert(!name_free(tree@, suffixed(base@, m)));
                }
            }
        }
        k += 1;
    }
}

/// The stem of a worktree session's name: the branch, else the name of the
/// worktree directory, else `worktree`.
pub open spec fn worktree_stem(branch: Option<Seq<char>>, dir_name: Option<Seq<char>>) -> Seq<char> {
    match branch {
        Some(b) => b,
        None => match dir_name {
            Some(d) => d,
            None => "worktree"@,
        },
    }
}

/// Register a worktree found from the browser as a session, without
/// running hooks: a unique name from its branch or directory (see
/// `worktree_stem`), under the default session when there is one. Returns
/// the session as recorded.
pub fn register_worktree_inline_with(
    tree: &mut SessionTree,
    worktree_path: &str,
    branch: Option<&str>,
    id: String,
    created_at: String,
) -> (r: Session)
    ensures
        ({
            let b = match branch {
                Some(x) => Some(x@),
                None => None,
            };
            let stem = worktree_stem(b, crate::paths::file_name(worktree_path@));
            let parent = match find_first(old(tree)@, default_flag()) {
                Some(d) => Some(d.id),
                None => None,
            };
            &&& is_unique_name(old(tree)@, stem, r@.name)
            &&& r@ == registered_session(id@, r@.name, parent, worktree_path@, b, created_at@)
            &&& final(tree)@ == old(tree)@.push(r@)
        }),
{
    let base = match branch {
        Some(b) => crate::text::owned(b),
        None => match crate::paths::file_name_of(worktree_path) {
            Some(d) => d,
            None => crate::text::owned("worktree"),
        },
    };
    let name = unique_session_name(tree, base.as_str());
    let parent_id = match tree.find_default() {
        Some(s) => {
            proof {
                lemma_found_id(tree@, default_flag());
            }
            Some(s.id.clone())
        },
        None => None,
    };
    let mut state: Vec<(String, String)> = Vec::new();
    state.push((crate::text::owned("worktree_path"), toml_string(worktree_path)));
    match branch {
        Some(b) => state.push((crate::text::owned("branch"), toml_string(b))),
        None => {},
    }
    let session = Session {
        id,
        name,
        parent_id,
        path: Some(crate::text::owned(worktree_path)),
        env: Vec::new(),
        plugin_state: state,
        labels: Vec::new(),
        created_at,
        is_default: false,
        bare: false,
        last_accessed: None,
    };
    let ghost sv = session@;
    assert(sv.env =~= Seq::<(Seq<char>, Seq<char>)>::empty());
    assert(sv.labels =~= Seq::<Seq<char>>::empty());
    assert(sv.plugin_state =~= worktree_state(
        worktree_path@,
        match branch {
            Some(b) => Some(b@),
            None => None,
        },
    ));
    let created = session.copy();
    match tree.add(session) {
        Ok(()) => {},
        Err(_) => {},
    }
    created
}

/// Register a worktree found from the browser with a fresh ID and the
/// current time (see `register_worktree_inline_with`).
pub fn register_worktree_inline(tree: &mut SessionTree, worktree_path: &str, branch: Option<&str>) -> (r: Session)
    ensures
        final(tree)@ == old(tree)@.push(r@),
        r@.path == Some(worktree_path@),
        !r@.is_default && !r@.bare,
        is_unique_name(
            old(tree)@,
            worktree_stem(
                match branch {
                    Some(x) => Some(x@),
                    None => None,
                },
                crate::paths::file_name(worktree_path@),
            ),
            r@.name,
        ),
{
    let id = new_session_id();
    let now = now_rfc3339();
    register_worktree_inline_with(tree, worktree_path, branch, id, now)
}

/// The name a new session gets is not taken by any session of the tree.
pub proof fn law_unique_name_is_free(t: Seq<SessionView>, base: Seq<char>, r: Seq<char>)
    requires
        is_unique_name(t, base, r),
    ensures
        name_free(t, r),
{
}

} // verus!
