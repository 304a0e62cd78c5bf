//! Registered repositories.
pub mod model;

use vstd::prelude::*;

use crate::labels::{apply_label_changes, in_changed, strictly_sorted};
use crate::text::views;
use crate::error::EzError;
use model::{RepoEntry, RepoIndex, RepoMeta};

verus! {

/// Apply add/remove label changes to a repo's metadata and return the new
/// label list (sorted, without repeats); the other fields stay as they are.
pub fn set_repo_labels(meta: &mut RepoMeta, add: &[String], remove: &[String]) -> (r: Vec<String>)
    ensures
        strictly_sorted(views(r@)),
        forall|l: Seq<char>|
            views(r@).contains(l) <==> in_changed(
                views(old(meta).labels@),
                views(add@),
                views(remove@),
                l,
            ),
        views(final(meta).labels@) == views(r@),
        final(meta).remote_url == old(meta).remote_url,
        final(meta).default_branch == old(meta).default_branch,
        final(meta).plugin_state == old(meta).plugin_state,
        final(meta).last_accessed == old(meta).last_accessed,
{
    let sorted = apply_label_changes(&meta.labels, add, remove);
    let copy = sorted.clone();
    assert(views(copy@) =~= views(sorted@));
    meta.labels = copy;
    sorted
}

/// `s` ends with `.git`.
pub open spec fn ends_with_git(s: Seq<char>) -> bool {
    s.len() >= 4 && s[s.len() - 4] == '.' && s[s.len() - 3] == 'g' && s[s.len() - 2] == 'i'
        && s[s.len() - 1] == 't'
}

/// `s` with every trailing `.git` removed (`trim_end_matches(".git")`).
pub open spec fn without_git_suffix(s: Seq<char>) -> Seq<char>
    decreases s.len(),
{
    if ends_with_git(s) {
        without_git_suffix(s.subrange(0, s.len() - 4))
    } else {
        s
    }
}

/// The directory a clone goes into: the URL's last `/`-separated piece
/// without its `.git` suffixes.
pub open spec fn clone_dir_name(url: Seq<char>) -> Seq<char> {
    let pieces = crate::text::split(url, '/');
    without_git_suffix(pieces.last())
}

proof fn lemma_split_nonempty(s: Seq<char>, c: char)
    ensures
        crate::text::split(s, c).len() >= 1,
    decreases s.len(),
{
    crate::text::lemma_first_index_bound(s, c);
    let i = crate::text::first_index(s, c);
    if i < s.len() {
        lemma_split_nonempty(s.subrange(i + 1int, s.len() as int), c);
    }
}

/// The directory name a clone of `url` gets.
pub fn clone_target_name(url: &str) -> (r: String)
    ensures
        r@ == clone_dir_name(url@),
{
    let pieces = crate::text::split_char(url, '/');
    proof {
        lemma_split_nonempty(url@, '/');
    }
    let last = &pieces[pieces.len() - 1];
    assert(last@ == crate::text::split(url@, '/').last());
    let cs = crate::text::to_chars(last.as_str());
    let mut end = cs.len();
    assert(cs@.subrange(0, end as int) =~= last@);
    while end >= 4 && cs[end - 4] == '.' && cs[end - 3] == 'g' && cs[end - 2] == 'i' && cs[end - 1] == 't'
        invariant
            end <= cs@.len(),
            without_git_suffix(cs@.subrange(0, end as int)) == without_git_suffix(last@),
        decreases end,
    {
        proof {
            let t = cs@.subrange(0, end as int);
            assert(ends_with_git(t));
            assert(t.subrange(0, t.len() - 4) =~= cs@.subrange(0, end - 4));
        }
        end -= 4;
    }
    crate::text::string_of(cs.as_slice(), 0, end)
}

/// The characters of `.git`, by position.
pub open spec fn git_char(i: int) -> char {
    if i == 0 {
        '.'
    } else if i == 1 {
        'g'
    } else if i == 2 {
        'i'
    } else {
        't'
    }
}

proof fn lemma_split_last(s: Seq<char>, c: char) -> (k: int)
    ensures
        0 <= k <= s.len(),
        crate::text::split(s, c).last() == s.subrange(k, s.len() as int),
        k == 0 || s[k - 1] == c,
        forall|j: int| k <= j < s.len() ==> s[j] != c,
    decreases s.len(),
{
    crate::text::lemma_first_index_bound(s, c);
    let i = crate::text::first_index(s, c);
    if i >= s.len() {
        assert(s.subrange(0, s.len() as int) =~= s);
        0
    } else {
        let rest = s.subrange(i + 1int, s.len() as int);
        let k2 = lemma_split_last(rest, c);
        lemma_split_nonempty(rest, c);
        let sp = crate::text::split(s, c);
        assert(sp == seq![s.subrange(0, i as int)] + crate::text::split(rest, c));
        assert(sp.last() == crate::text::split(rest, c).last());
        assert(rest.subrange(k2, rest.len() as int) =~= s.subrange(i + 1 + k2, s.len() as int));
        assert forall|j: int| i + 1 + k2 <= j < s.len() implies s[j] != c by {
            assert(s[j] == rest[j - i - 1]);
        }
        if k2 > 0 {
            assert(s[i + k2] == rest[k2 - 1]);
        }
        i + 1 + k2
    }
}

proof fn lemma_strip_git(x: Seq<char>) -> (m: int)
    ensures
        0 <= m <= x.len(),
        without_git_suffix(x) == x.subrange(0, m),
        !ends_with_git(x.subrange(0, m)),
        (x.len() - m) % 4 == 0,
        forall|j: int| m <= j < x.len() ==> x[j] == git_char((j - m) % 4),
    decreases x.len(),
{
    if ends_with_git(x) {
        let y = x.subrange(0, x.len() - 4);
        let m = lemma_strip_git(y);
        assert(y.subrange(0, m) =~= x.subrange(0, m));
        assert forall|j: int| m <= j < x.len() implies x[j] == git_char((j - m) % 4) by {
            if j < x.len() - 4 {
                assert(x[j] == y[j]);
            } else {
                assert((j - m) % 4 == j - (x.len() - 4)) by {
                    assert((x.len() - 4 - m) % 4 == 0);
                }
            }
        }
        m
    } else {
        assert(x.subrange(0, x.len() as int) =~= x);
        x.len() as int
    }
}

/// The directory a clone goes into never ends with `.git` and holds no
/// `/`: it is the URL's text after its last `/` (all of it when there is
/// none) with the trailing `.git` suffixes, and only those, cut off.
pub proof fn law_clone_dir_name(url: Seq<char>)
    ensures
        !ends_with_git(clone_dir_name(url)),
        forall|j: int| 0 <= j < clone_dir_name(url).len() ==> clone_dir_name(url)[j] != '/',
        exists|k: int, m: int|
            0 <= k <= m <= url.len() && (k == 0 || url[k - 1] == '/') && (forall|j: int|
                k <= j < url.len() ==> url[j] != '/') && (url.len() - m) % 4 == 0 && (forall|j: int|
                m <= j < url.len() ==> url[j] == git_char((j - m) % 4)) && clone_dir_name(url)
                == #[trigger] url.subrange(k, m),
{
    let k = lemma_split_last(url, '/');
    let last = url.subrange(k, url.len() as int);
    let m = lemma_strip_git(last);
    assert(last.subrange(0, m) =~= url.subrange(k, k + m));
    assert forall|j: int| k + m <= j < url.len() implies url[j] == git_char((j - (k + m)) % 4) by {
        assert(url[j] == last[j - k]);
    }
    assert forall|j: int| 0 <= j < clone_dir_name(url).len() implies clone_dir_name(url)[j] != '/' by {
        assert(clone_dir_name(url)[j] == url[k + j]);
    }
    assert(clone_dir_name(url) == url.subrange(k, k + m));
}

/// Register a repository at `path` (as given, already resolved): an error
/// when one is registered at that path; else a new entry with its derived
/// ID and its directory name (or `unknown`) joins the end of the index.
pub fn register_repo(index: &mut RepoIndex, path: &str, registered_at: String, is_git: bool) -> (r: Result<
    (),
    EzError,
>)
    ensures
        crate::search::find_first(old(index).repos@, model::path_is(path@)) is Some ==> (r matches Err(
            EzError::RepoAlreadyRegistered(m),
        ) && m@ == path@) && final(index).repos@ == old(index).repos@,
        crate::search::find_first(old(index).repos@, model::path_is(path@)) is None ==> r is Ok
            && final(index).repos@.len() == old(index).repos@.len() + 1 && final(index).repos@.subrange(
            0,
            old(index).repos@.len() as int,
        ) == old(index).repos@ && ({
            let e = final(index).repos@.last();
            &&& e.id@ == crate::paths::repo_id(path@)
            &&& e.path@ == path@
            &&& e.name@ == match crate::paths::file_name(path@) {
                Some(n) => n,
                None => "unknown"@,
            }
            &&& e.registered_at@ == registered_at@
            &&& e.is_git == is_git
        }),
{
    if index.find_by_path(path).is_some() {
        return Err(EzError::RepoAlreadyRegistered(crate::text::owned(path)));
    }
    let name = match crate::paths::file_name_of(path) {
        Some(n) => n,
        None => crate::text::owned("unknown"),
    };
    let entry = RepoEntry {
        id: crate::paths::repo_id_from_path(path),
        path: crate::text::owned(path),
        name,
        registered_at,
        is_git,
    };
    let ghost before = index.repos@;
    index.repos.push(entry);
    assert(index.repos@.subrange(0, before.len() as int) =~= before);
    Ok(())
}

/// Repositories that contain the directory `cwd`.
pub open spec fn contains_dir(cwd: Seq<char>) -> spec_fn(RepoEntry) -> bool {
    |e: RepoEntry| crate::paths::path_starts_with(cwd, e.path@)
}

/// Which repository the user means: the one named (by ID or name) when a
/// name is given, else the first that contains the current directory `cwd`.
pub fn resolve_repo_in(index: &RepoIndex, repo_arg: Option<&str>, cwd: &str) -> (r: Result<RepoEntry, EzError>)
    ensures
        match repo_arg {
            Some(q) => match crate::search::find_first(index.repos@, model::named(q@)) {
                Some(e) => r == Ok::<RepoEntry, EzError>(e),
                None => r matches Err(EzError::RepoNotFound(m)) && m@ == q@,
            },
            None => match crate::search::find_first(index.repos@, contains_dir(cwd@)) {
                Some(e) => r == Ok::<RepoEntry, EzError>(e),
                None => r matches Err(EzError::RepoNotFound(m)) && m@
                    == "Could not detect repo from current directory. Use --repo to specify."@,
            },
        },
{
    match repo_arg {
        Some(q) => match index.find_by_name_or_id(q) {
            Some(e) => Ok(e.copy()),
            None => Err(EzError::RepoNotFound(crate::text::owned(q))),
        },
        None => {
            let mut i: usize = 0;
            while i < index.repos.len()
                invariant
                    i <= index.repos@.len(),
                    repo_arg is None,
                    forall|j: int| 0 <= j < i ==> !contains_dir(cwd@)(#[trigger] index.repos@[j]),
                decreases index.repos.len() - i,
            {
                if crate::paths::starts_with_path(cwd, index.repos[i].path.as_str()) {
                    proof {
                        crate::search::lemma_first_match_is(index.repos@, contains_dir(cwd@), i as int);
                    }
                    return Ok(index.repos[i].copy());
                }
                i += 1;
            }
            proof {
                crate::search::lemma_first_match_is(index.repos@, contains_dir(cwd@), i as int);
            }
            Err(EzError::RepoNotFound(crate::text::owned("Could not detect repo from current directory. Use --repo to specify.")))
        },
    }
}

/// Unregister the repository named `name` (by ID or name) and return its
/// entry; an error, with the index unchanged, when none is.
pub fn remove_repo_in(index: &mut RepoIndex, name: &str) -> (r: Result<RepoEntry, EzError>)
    ensures
        match crate::search::find_first(old(index).repos@, model::named(name@)) {
            Some(e) => r == Ok::<RepoEntry, EzError>(e) && final(index).repos@ == old(index).repos@.remove(
                crate::search::first_match(old(index).repos@, model::repo_id_is(e.id@)),
            ),
            None => (r matches Err(EzError::RepoNotFound(m)) && m@ == name@) && final(index).repos@
                == old(index).repos@,
        },
{
    let entry = match index.find_by_name_or_id(name) {
        Some(e) => e.copy(),
        None => return Err(EzError::RepoNotFound(crate::text::owned(name))),
    };
    proof {
        crate::search::lemma_first_match(old(index).repos@, model::named(name@));
        let k = crate::search::first_match(old(index).repos@, model::named(name@));
        crate::search::lemma_first_match(old(index).repos@, model::repo_id_is(entry.id@));
        assert(model::repo_id_is(entry.id@)(old(index).repos@[k]));
    }
    index.remove_by_id(entry.id.as_str());
    Ok(entry)
}

} // verus!
