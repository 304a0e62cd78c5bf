//! Registered repositories, their metadata, and the owner segment of a git
//! remote URL.
use vstd::prelude::*;

use crate::search::{find_first, first_match, lemma_first_match_is};
use crate::text::{first_index, has_prefix, trim};

verus! {

/// A single registered repository.
#[derive(Debug)]
pub struct RepoEntry {
    /// Unique slug derived from path (e.g. "personal-my-repo")
    pub id: String,
    /// Absolute path to repo root
    pub path: String,
    /// Display name (directory name by default)
    pub name: String,
    /// When the repo was registered (RFC 3339)
    pub registered_at: String,
    /// Whether the directory is a git repository (non-git directories are
    /// tracked as plain bookmarks)
    pub is_git: bool,
}

/// Global index of all registered repos.
#[derive(Debug)]
pub struct RepoIndex {
    pub repos: Vec<RepoEntry>,
}

/// Per-repo metadata stored alongside sessions.
#[derive(Debug)]
pub struct RepoMeta {
    /// Remote URL if known
    pub remote_url: Option<String>,
    /// Default branch name
    pub default_branch: Option<String>,
    /// User-defined labels for grouping/filtering
    pub labels: Vec<String>,
    /// Plugin-specific per-repo state (TOML-encoded values)
    pub plugin_state: Vec<(String, String)>,
    /// When the repo was last browsed into (RFC 3339)
    pub last_accessed: Option<String>,
}

/// A path is "." or starts with "./" (a leading `CurDir` component).
pub open spec fn leading_dot(p: Seq<char>) -> bool {
    p == "."@ || has_prefix(p, "./"@)
}

/// `Path == Path`: the same components.
pub open spec fn same_path(a: Seq<char>, b: Seq<char>) -> bool {
    has_prefix(a, "/"@) == has_prefix(b, "/"@) && leading_dot(a) == leading_dot(b)
        && crate::paths::segments(a) == crate::paths::segments(b)
}

/// `Path == Path`.
pub fn paths_equal(a: &str, b: &str) -> (r: bool)
    ensures
        r == same_path(a@, b@),
{
    let a_dot = crate::text::str_eq(a, ".");
    let a_dot_slash = crate::text::starts_with(a, "./");
    let b_dot = crate::text::str_eq(b, ".");
    let b_dot_slash = crate::text::starts_with(b, "./");
    let a_root = crate::text::starts_with(a, "/");
    let b_root = crate::text::starts_with(b, "/");
    if a_root != b_root || (a_dot || a_dot_slash) != (b_dot || b_dot_slash) {
        return false;
    }
    let x = crate::paths::path_segments(a);
    let y = crate::paths::path_segments(b);
    if x.len() != y.len() {
        assert(crate::text::views(x@).len() != crate::text::views(y@).len());
        return false;
    }
    let mut i: usize = 0;
    while i < x.len()
        invariant
            x@.len() == y@.len(),
            i <= x@.len(),
            crate::text::views(x@) == crate::paths::segments(a@),
            crate::text::views(y@) == crate::paths::segments(b@),
            a_root == b_root,
            (a_dot || a_dot_slash) == (b_dot || b_dot_slash),
            a_root == has_prefix(a@, "/"@),
            b_root == has_prefix(b@, "/"@),
            (a_dot || a_dot_slash) == leading_dot(a@),
            (b_dot || b_dot_slash) == leading_dot(b@),
            forall|j: int| 0 <= j < i ==> x@[j]@ == y@[j]@,
        decreases x.len() - i,
    {
        if !(x[i] == y[i]) {
            assert(crate::text::views(x@)[i as int] != crate::text::views(y@)[i as int]);
            return false;
        }
        i += 1;
    }
    assert(crate::text::views(x@) =~= crate::text::views(y@));
    true
}

/// Repos at this path.
pub open spec fn path_is(p: Seq<char>) -> spec_fn(RepoEntry) -> bool {
    |r: RepoEntry| same_path(r.path@, p)
}

/// Repos with this ID or name.
pub open spec fn named(q: Seq<char>) -> spec_fn(RepoEntry) -> bool {
    |r: RepoEntry| r.id@ == q || r.name@ == q
}

/// Repos with this ID.
pub open spec fn repo_id_is(q: Seq<char>) -> spec_fn(RepoEntry) -> bool {
    |r: RepoEntry| r.id@ == q
}

impl RepoEntry {
    /// A field-for-field copy.
    pub fn copy(&self) -> (r: RepoEntry)
        ensures
            r == *self,
    {
        RepoEntry {
            id: self.id.clone(),
            path: self.path.clone(),
            name: self.name.clone(),
            registered_at: self.registered_at.clone(),
            is_git: self.is_git,
        }
    }
}

impl RepoIndex {
    /// The first repo registered at `path`.
    pub fn find_by_path(&self, path: &str) -> (r: Option<&RepoEntry>)
        ensures
            r == match find_first(self.repos@, path_is(path@)) {
                Some(e) => Some(&e),
                None => None::<&RepoEntry>,
            },
    {
        let mut i: usize = 0;
        while i < self.repos.len()
            invariant
                i <= self.repos@.len(),
                forall|j: int| 0 <= j < i ==> !path_is(path@)(#[trigger] self.repos@[j]),
            decreases self.repos.len() - i,
        {
            if paths_equal(self.repos[i].path.as_str(), path) {
                proof {
                    lemma_first_match_is(self.repos@, path_is(path@), i as int);
                }
                return Some(&self.repos[i]);
            }
            i += 1;
        }
        proof {
            lemma_first_match_is(self.repos@, path_is(path@), i as int);
        }
        None
    }

    /// The first repo whose ID or name is `query`.
    pub fn find_by_name_or_id(&self, query: &str) -> (r: Option<&RepoEntry>)
        ensures
            r == match find_first(self.repos@, named(query@)) {
                Some(e) => Some(&e),
                None => None::<&RepoEntry>,
            },
    {
        let mut i: usize = 0;
        while i < self.repos.len()
            invariant
                i <= self.repos@.len(),
                forall|j: int| 0 <= j < i ==> !named(query@)(#[trigger] self.repos@[j]),
            decreases self.repos.len() - i,
        {
            if crate::text::str_eq(self.repos[i].id.as_str(), query) || crate::text::str_eq(
                self.repos[i].name.as_str(),
                query,
            ) {
                proof {
                    lemma_first_match_is(self.repos@, named(query@), i as int);
                }
                return Some(&self.repos[i]);
            }
            i += 1;
        }
        proof {
            lemma_first_match_is(self.repos@, named(query@), i as int);
        }
        None
    }

    /// Remove the first repo with this ID and return it.
    pub fn remove_by_id(&mut self, id: &str) -> (r: Option<RepoEntry>)
        ensures
            ({
                let k = first_match(old(self).repos@, repo_id_is(id@));
                if k < old(self).repos@.len() {
                    r == Some(old(self).repos@[k]) && final(self).repos@ == old(
                        self,
                    ).repos@.remove(k)
                } else {
                    r is None && final(self).repos@ == old(self).repos@
                }
            }),
    {
        let mut i: usize = 0;
        while i < self.repos.len()
            invariant
                i <= self.repos@.len(),
                self.repos@ == old(self).repos@,
                forall|j: int| 0 <= j < i ==> !repo_id_is(id@)(#[trigger] self.repos@[j]),
            decreases self.repos.len() - i,
        {
            if crate::text::str_eq(self.repos[i].id.as_str(), id) {
                proof {
                    lemma_first_match_is(self.repos@, repo_id_is(id@), i as int);
                }
                return Some(self.repos.remove(i));
            }
            i += 1;
        }
        proof {
            lemma_first_match_is(self.repos@, repo_id_is(id@), i as int);
        }
        None
    }
}

/// `s` with every leading `c` removed (`trim_start_matches(c)`).
pub open spec fn skip_leading(s: Seq<char>, c: char) -> Seq<char>
    decreases s.len(),
{
    if s.len() > 0 && s[0] == c {
        skip_leading(s.drop_first(), c)
    } else {
        s
    }
}

/// The owner segment of a path `OWNER/repo...`: leading slashes dropped, the
/// text before the next slash, trimmed; both it and the trimmed rest after
/// the slash must be non-empty.
pub open spec fn owner_of_path(path: Seq<char>) -> Option<Seq<char>> {
    let t = skip_leading(path, '/');
    let i = first_index(t, '/');
    if i >= t.len() {
        None
    } else {
        let owner = trim(t.subrange(0, i as int));
        let repo = trim(t.subrange(i + 1int, t.len() as int));
        if owner.len() == 0 || repo.len() == 0 {
            None
        } else {
            Some(owner)
        }
    }
}

/// The URL schemes `parse_owner` understands after the SSH shorthand.
pub open spec fn schemes() -> Seq<Seq<char>> {
    seq!["https://"@, "http://"@, "ssh://"@, "git://"@]
}

/// The owner of `url` by the first of `schemes()[k..]` that yields one.
pub open spec fn owner_by_scheme(url: Seq<char>, k: nat) -> Option<Seq<char>>
    decreases 4 - k,
{
    if k >= 4 {
        None
    } else {
        let scheme = schemes()[k as int];
        if has_prefix(url, scheme) {
            let rest = url.subrange(scheme.len() as int, url.len() as int);
            let at = first_index(rest, '@');
            let without_user = if at < rest.len() {
                rest.subrange(at + 1int, rest.len() as int)
            } else {
                rest
            };
            let slash = first_index(without_user, '/');
            if slash < without_user.len() {
                owner_of_path(without_user.subrange(slash + 1int, without_user.len() as int))
            } else {
                owner_by_scheme(url, k + 1)
            }
        } else {
            owner_by_scheme(url, k + 1)
        }
    }
}

/// The "owner" portion of a git remote URL:
/// - `git@<host>:OWNER/repo(.git)?`
/// - `https://<host>/OWNER/repo(.git)?` (also `http://`, `ssh://git@…`, `git://`)
pub open spec fn owner_of_url(remote_url: Seq<char>) -> Option<Seq<char>> {
    let url = trim(remote_url);
    if url.len() == 0 {
        None
    } else {
        let after_at = url.subrange(4, url.len() as int);
        let colon = first_index(after_at, ':');
        if has_prefix(url, "git@"@) && colon < after_at.len() {
            owner_of_path(after_at.subrange(colon + 1int, after_at.len() as int))
        } else {
            owner_by_scheme(url, 0)
        }
    }
}

proof fn lemma_skip_leading_at(s: Seq<char>, c: char, i: int)
    requires
        0 <= i <= s.len(),
        forall|j: int| 0 <= j < i ==> s[j] == c,
        i < s.len() ==> s[i] != c,
    ensures
        skip_leading(s, c) == s.subrange(i, s.len() as int),
    decreases i,
{
    if i > 0 {
        assert forall|j: int| 0 <= j < i - 1 implies s.drop_first()[j] == c by {
            assert(s.drop_first()[j] == s[j + 1]);
        }
        lemma_skip_leading_at(s.drop_first(), c, i - 1);
        assert(s.drop_first().subrange(i - 1, s.len() - 1) =~= s.subrange(i, s.len() as int));
    } else {
        assert(s.subrange(0, s.len() as int) =~= s);
    }
}

/// `owner_of_path` of `cs[from..to]`.
fn owner_from_chars(cs: &[char], from: usize, to: usize) -> (r: Option<String>)
    requires
        from <= to <= cs@.len(),
    ensures
        crate::session::model::opt_view(r) == owner_of_path(cs@.subrange(from as int, to as int)),
{
    let ghost s = cs@.subrange(from as int, to as int);
    let mut a = from;
    while a < to && cs[a] == '/'
        invariant
            from <= a <= to <= cs@.len(),
            forall|j: int| from <= j < a ==> cs@[j] == '/',
        decreases to - a,
    {
        a += 1;
    }
    proof {
        lemma_skip_leading_at(s, '/', a - from);
        assert(s.subrange(a - from, s.len() as int) =~= cs@.subrange(a as int, to as int));
    }
    let ghost t = cs@.subrange(a as int, to as int);
    let i = crate::text::find_char(cs, a, to, '/');
    if i >= to {
        return None;
    }
    let (oa, ob) = crate::text::trim_bounds(cs, a, i);
    let (ra, rb) = crate::text::trim_bounds(cs, i + 1, to);
    proof {
        assert(t.subrange(0, i - a) =~= cs@.subrange(a as int, i as int));
        assert(t.subrange(i - a + 1, t.len() as int) =~= cs@.subrange(i + 1, to as int));
    }
    if ob == oa || rb == ra {
        return None;
    }
    Some(crate::text::string_of(cs, oa, ob))
}

/// Parse the "owner" portion of a git remote URL.
///
/// Supports:
/// - `https://<host>/OWNER/repo(.git)?`
/// - `git@<host>:OWNER/repo(.git)?`
/// - `ssh://git@<host>/OWNER/repo(.git)?`
/// - `git://<host>/OWNER/repo(.git)?`
///
/// Returns `None` when no owner segment can be extracted.
pub fn parse_owner(remote_url: &str) -> (r: Option<String>)
    ensures
        crate::session::model::opt_view(r) == owner_of_url(remote_url@),
{
    let raw = crate::text::to_chars(remote_url);
    let (ua, ub) = crate::text::trim_bounds(raw.as_slice(), 0, raw.len());
    assert(raw@.subrange(0, raw@.len() as int) =~= remote_url@);
    let ghost url = raw@.subrange(ua as int, ub as int);
    if ua == ub {
        return None;
    }
    let cs = crate::text::to_chars(crate::text::string_of(raw.as_slice(), ua, ub).as_str());
    let n = cs.len();
    assert(cs@ == url);
    let full = crate::text::string_of(cs.as_slice(), 0, n);
    assert(cs@.subrange(0, n as int) =~= cs@);
    let git = crate::text::starts_with(full.as_str(), "git@");
    if git {
        proof {
            reveal_strlit("git@");
        }
        let colon = crate::text::find_char(cs.as_slice(), 4, n, ':');
        if colon < n {
            proof {
                let after_at = url.subrange(4, url.len() as int);
                assert(after_at =~= cs@.subrange(4, n as int));
                assert(after_at.subrange(colon - 4 + 1, after_at.len() as int) =~= cs@.subrange(
                    colon + 1,
                    n as int,
                ));
            }
            return owner_from_chars(cs.as_slice(), colon + 1, n);
        }
    }
    proof {
        reveal_strlit("https://");
        reveal_strlit("http://");
        reveal_strlit("ssh://");
        reveal_strlit("git://");
        reveal_strlit("git@");
        if has_prefix(url, "git@"@) {
            assert(url.subrange(4, url.len() as int) =~= cs@.subrange(4, n as int));
        }
    }
    let mut k: usize = 0;
    while k < 4
        invariant
            k <= 4,
            cs@ == url,
            n == cs@.len(),
            full@ == url,
            url.len() > 0,
            owner_by_scheme(url, 0) == owner_by_scheme(url, k as nat),
            owner_of_url(remote_url@) == owner_by_scheme(url, 0),
        decreases 4 - k,
    {
        let scheme = if k == 0 {
            "https://"
        } else if k == 1 {
            "http://"
        } else if k == 2 {
            "ssh://"
        } else {
            "git://"
        };
        assert(scheme@ == schemes()[k as int]);
        let m = scheme.unicode_len();
        assert(m == schemes()[k as int].len());
        if crate::text::starts_with(full.as_str(), scheme) {
            let at = crate::text::find_char(cs.as_slice(), m, n, '@');
            let start = if at < n {
                at + 1
            } else {
                m
            };
            let slash = crate::text::find_char(cs.as_slice(), start, n, '/');
            proof {
                let rest = url.subrange(m as int, url.len() as int);
                assert(rest =~= cs@.subrange(m as int, n as int));
                if at < n {
                    assert(rest.subrange(at - m + 1, rest.len() as int) =~= cs@.subrange(
                        start as int,
                        n as int,
                    ));
                }
                let wu = cs@.subrange(start as int, n as int);
                if slash < n {
                    assert(wu.subrange(slash - start + 1, wu.len() as int) =~= cs@.subrange(
                        slash + 1,
                        n as int,
                    ));
                }
            }
            if slash < n {
                return owner_from_chars(cs.as_slice(), slash + 1, n);
            }
        }
        k += 1;
    }
    None
}

/// The two parts of a path `OWNER/REPO...`: leading slashes dropped, the
/// text before the next slash and the text after it, each trimmed.
pub open spec fn path_parts(path: Seq<char>) -> Option<(Seq<char>, Seq<char>)> {
    let t = skip_leading(path, '/');
    let i = first_index(t, '/');
    if i >= t.len() {
        None
    } else {
        Some((trim(t.subrange(0, i as int)), trim(t.subrange(i + 1int, t.len() as int))))
    }
}

/// The URL ends with a path whose owner part is `o` and whose repository
/// part is not empty.
pub open spec fn ends_with_owner_repo(url: Seq<char>, o: Seq<char>) -> bool {
    exists|k: int|
        0 <= k <= url.len() && (#[trigger] path_parts(url.subrange(k, url.len() as int)) matches Some(
            (o2, repo),
        ) && o2 == o && repo.len() > 0)
}

proof fn lemma_owner_at(url: Seq<char>, k: int)
    requires
        0 <= k <= url.len(),
        owner_of_path(url.subrange(k, url.len() as int)) is Some,
    ensures
        ends_with_owner_repo(url, owner_of_path(url.subrange(k, url.len() as int))->0),
{
    let p = url.subrange(k, url.len() as int);
    assert(path_parts(p) is Some);
}

/// An owner the path parser gives is non-empty, trimmed, and holds no `/`.
proof fn lemma_owner_of_path_shape(path: Seq<char>)
    ensures
        owner_of_path(path) matches Some(o) ==> o.len() > 0 && trim(o) == o && !o.contains('/'),
{
    let t = skip_leading(path, '/');
    let i = first_index(t, '/');
    crate::text::lemma_first_index_bound(t, '/');
    if i < t.len() {
        let x = t.subrange(0, i as int);
        let (a, b) = crate::text::lemma_trim_shape(x);
        let o = trim(x);
        if o.contains('/') {
            let j = choose|j: int| 0 <= j < o.len() && o[j] == '/';
            assert(o[j] == x[a + j]);
            assert(x[a + j] == t[a + j]);
        }
    }
}

proof fn lemma_owner_by_scheme_shape(url: Seq<char>, k: nat)
    ensures
        owner_by_scheme(url, k) matches Some(o) ==> o.len() > 0 && trim(o) == o && !o.contains(
            '/',
        ),
        owner_by_scheme(url, k) is Some ==> exists|j: int|
            k <= j < 4 && has_prefix(url, #[trigger] schemes()[j]),
        owner_by_scheme(url, k) matches Some(o) ==> ends_with_owner_repo(url, o),
    decreases 4 - k,
{
    if k < 4 {
        let scheme = schemes()[k as int];
        lemma_owner_by_scheme_shape(url, k + 1);
        if has_prefix(url, scheme) {
            let rest = url.subrange(scheme.len() as int, url.len() as int);
            let at = first_index(rest, '@');
            let without_user = if at < rest.len() {
                rest.subrange(at + 1int, rest.len() as int)
            } else {
                rest
            };
            let slash = first_index(without_user, '/');
            lemma_owner_of_path_shape(without_user.subrange(slash + 1int, without_user.len() as int));
            crate::text::lemma_first_index_bound(rest, '@');
            crate::text::lemma_first_index_bound(without_user, '/');
            let base = if at < rest.len() {
                (scheme.len() + at + 1) as int
            } else {
                scheme.len() as int
            };
            assert(without_user =~= url.subrange(base, url.len() as int));
            if slash < without_user.len() {
                assert(without_user.subrange(slash + 1int, without_user.len() as int) =~= url.subrange(
                    base + slash + 1,
                    url.len() as int,
                ));
                if owner_by_scheme(url, k) is Some {
                    lemma_owner_at(url, base + slash + 1);
                }
            }
        }
    }
}

/// What the owner parser gives depends only on the trimmed URL; an owner
/// it gives is non-empty, trimmed, and holds no `/`; the URL ends with a
/// path `OWNER/REPO` with that owner and a non-empty repository part; and
/// it gives one only for a URL that starts with `git@` or with one of the
/// schemes it knows.
pub proof fn law_owner_shape(remote_url: Seq<char>)
    ensures
        owner_of_url(remote_url) == owner_of_url(trim(remote_url)),
        owner_of_url(remote_url) matches Some(o) ==> o.len() > 0 && trim(o) == o && !o.contains(
            '/',
        ),
        owner_of_url(remote_url) is Some ==> has_prefix(trim(remote_url), "git@"@) || exists|j: int|
            0 <= j < 4 && has_prefix(trim(remote_url), #[trigger] schemes()[j]),
        owner_of_url(remote_url) matches Some(o) ==> ends_with_owner_repo(trim(remote_url), o),
{
    crate::text::lemma_trim_shape(remote_url);
    let url = trim(remote_url);
    if url.len() > 0 {
        let after_at = url.subrange(4, url.len() as int);
        let colon = first_index(after_at, ':');
        if has_prefix(url, "git@"@) && colon < after_at.len() {
            lemma_owner_of_path_shape(after_at.subrange(colon + 1int, after_at.len() as int));
            reveal_strlit("git@");
            assert(url.len() >= 4);
            assert(after_at.subrange(colon + 1int, after_at.len() as int) =~= url.subrange(
                colon + 5int,
                url.len() as int,
            ));
            if owner_of_url(remote_url) is Some {
                lemma_owner_at(url, colon + 5int);
            }
        } else {
            lemma_owner_by_scheme_shape(url, 0);
        }
    }
}

} // verus!
