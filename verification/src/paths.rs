//! Where ez keeps its files, and the path arithmetic (joining, components,
//! tilde expansion, repo ID slugs) that the rest of the library uses.
//! Paths are Unix path text.
use vstd::prelude::*;
use vstd::string::StrSliceExecFns;
use vstd::string::StringExecFns;

use crate::error::EzError;
use crate::text::{has_prefix, split, views};

verus! {

/// `PathBuf::join` on Unix: an absolute `rel` replaces `base`; otherwise a `/`
/// is put between them unless `base` is empty or already ends with one.
pub open spec fn join(base: Seq<char>, rel: Seq<char>) -> Seq<char> {
    if rel.len() > 0 && rel[0] == '/' {
        rel
    } else if base.len() == 0 || base.last() == '/' {
        base + rel
    } else {
        base + "/"@ + rel
    }
}

/// The pieces between `/` that name something: empty pieces and `.` are not
/// components; `..` is one.
pub open spec fn segments(p: Seq<char>) -> Seq<Seq<char>> {
    split(p, '/').filter(segment_pred())
}

/// A piece between slashes that names something.
pub open spec fn segment_pred() -> spec_fn(Seq<char>) -> bool {
    |c: Seq<char>| c.len() > 0 && c != "."@
}

/// `Component::Normal` components: segments other than `..`.
pub open spec fn normal_components(p: Seq<char>) -> Seq<Seq<char>> {
    segments(p).filter(|c: Seq<char>| c != ".."@)
}

/// `Path::file_name`: the last segment, unless there is none or it is `..`.
pub open spec fn file_name(p: Seq<char>) -> Option<Seq<char>> {
    let s = segments(p);
    if s.len() > 0 && s.last() != ".."@ {
        Some(s.last())
    } else {
        None
    }
}

/// `path.parent().and_then(|p| p.file_name())`: the segment before the last.
pub open spec fn parent_name(p: Seq<char>) -> Option<Seq<char>> {
    let s = segments(p);
    if s.len() >= 2 && s[s.len() - 2] != ".."@ {
        Some(s[s.len() - 2])
    } else {
        None
    }
}

/// `Path::starts_with`: the components of `base` are a prefix of those of `p`,
/// and both are absolute or both relative.
pub open spec fn path_starts_with(p: Seq<char>, base: Seq<char>) -> bool {
    let a = segments(p);
    let b = segments(base);
    (has_prefix(p, "/"@) == has_prefix(base, "/"@)) && b.len() <= a.len() && a.subrange(
        0,
        b.len() as int,
    ) == b
}

/// `PathBuf::join`.
pub fn join_path(base: &str, rel: &str) -> (r: String)
    ensures
        r@ == join(base@, rel@),
{
    let rel_abs = rel.unicode_len() > 0 && rel.get_char(0) == '/';
    if rel_abs {
        return crate::text::owned(rel);
    }
    let n = base.unicode_len();
    let mut out = crate::text::owned(base);
    if n > 0 && base.get_char(n - 1) != '/' {
        out.append("/");
    }
    out.append(rel);
    out
}

/// The segments of `p` (see `segments`).
pub fn path_segments(p: &str) -> (r: Vec<String>)
    ensures
        views(r@) == segments(p@),
{
    let pieces = crate::text::split_char(p, '/');
    let ghost pred = segment_pred();
    let mut out: Vec<String> = Vec::new();
    let mut i: usize = 0;
    let dot = crate::text::owned(".");
    proof {
        reveal_strlit(".");
    }
    while i < pieces.len()
        invariant
            i <= pieces@.len(),
            views(pieces@) == split(p@, '/'),
            dot@ == "."@,
            pred == segment_pred(),
            views(out@) == views(pieces@).subrange(0, i as int).filter(pred),
        decreases pieces.len() - i,
    {
        let keep = pieces[i].unicode_len() > 0 && !(pieces[i] == dot);
        proof {
            assert(views(pieces@).subrange(0, i + 1) =~= views(pieces@).subrange(0, i as int).push(
                pieces@[i as int]@,
            ));
            crate::session::tree::lemma_filter_push(
                views(pieces@).subrange(0, i as int),
                pieces@[i as int]@,
                pred,
            );
        }
        if keep {
            let ghost before = out@;
            out.push(pieces[i].clone());
            assert(views(out@) =~= views(before).push(pieces@[i as int]@));
        }
        i += 1;
    }
    assert(views(pieces@).subrange(0, i as int) =~= views(pieces@));
    out
}

/// The base config directory of the platform (`dirs::config_dir`), as text.
/// Whether there is one and where depends on the environment, so nothing is
/// claimed of the result.
#[verifier::external_body]
fn platform_config_dir() -> Option<String> {
    dirs::config_dir().map(|p| p.to_string_lossy().into_owned())
}

/// The user's home directory (`dirs::home_dir`), as text. It depends on the
/// environment, so nothing is claimed of the result.
#[verifier::external_body]
pub(crate) fn home_dir() -> Option<String> {
    dirs::home_dir().map(|p| p.to_string_lossy().into_owned())
}

/// `<config>/ez` for some platform config directory `<config>`.
pub open spec fn is_ez_dir(d: Seq<char>) -> bool {
    exists|base: Seq<char>| d == join(base, "ez"@)
}

/// Returns the base config directory: ~/.config/ez/
pub fn config_dir() -> (r: Result<String, EzError>)
    ensures
        r matches Ok(d) ==> is_ez_dir(d@),
        r matches Err(e) ==> e is Path,
{
    match platform_config_dir() {
        Some(base) => {
            let d = join_path(base.as_str(), "ez");
            assert(d@ == join(base@, "ez"@));
            Ok(d)
        },
        None => Err(EzError::Path(crate::text::owned("Could not determine config directory"))),
    }
}

/// Returns the path to the global config file: ~/.config/ez/config.toml
pub fn config_file() -> (r: Result<String, EzError>)
    ensures
        r matches Ok(p) ==> exists|d: Seq<char>| is_ez_dir(d) && p@ == join(d, "config.toml"@),
        r matches Err(e) ==> e is Path,
{
    let d = config_dir()?;
    Ok(join_path(d.as_str(), "config.toml"))
}

/// Returns the repos index directory: ~/.config/ez/repos/
pub fn repos_dir() -> (r: Result<String, EzError>)
    ensures
        r matches Ok(p) ==> exists|d: Seq<char>| is_ez_dir(d) && p@ == join(d, "repos"@),
        r matches Err(e) ==> e is Path,
{
    let d = config_dir()?;
    Ok(join_path(d.as_str(), "repos"))
}

/// Returns the repos index file: ~/.config/ez/repos/index.toml
pub fn repos_index_file() -> (r: Result<String, EzError>)
    ensures
        r matches Ok(p) ==> exists|d: Seq<char>|
            is_ez_dir(d) && p@ == join(join(d, "repos"@), "index.toml"@),
        r matches Err(e) ==> e is Path,
{
    let d = repos_dir()?;
    Ok(join_path(d.as_str(), "index.toml"))
}

/// Returns the directory for a specific repo's metadata: ~/.config/ez/repos/<id>/
pub fn repo_meta_dir(repo_id: &str) -> (r: Result<String, EzError>)
    ensures
        r matches Ok(p) ==> exists|d: Seq<char>|
            is_ez_dir(d) && p@ == join(join(d, "repos"@), repo_id@),
        r matches Err(e) ==> e is Path,
{
    let d = repos_dir()?;
    Ok(join_path(d.as_str(), repo_id))
}

/// Returns the repo metadata file: ~/.config/ez/repos/<id>/repo.toml
pub fn repo_meta_file(repo_id: &str) -> (r: Result<String, EzError>)
    ensures
        r matches Ok(p) ==> exists|d: Seq<char>|
            is_ez_dir(d) && p@ == join(join(join(d, "repos"@), repo_id@), "repo.toml"@),
        r matches Err(e) ==> e is Path,
{
    let d = repo_meta_dir(repo_id)?;
    Ok(join_path(d.as_str(), "repo.toml"))
}

/// Returns the sessions file for a repo: ~/.config/ez/repos/<id>/sessions.toml
pub fn sessions_file(repo_id: &str) -> (r: Result<String, EzError>)
    ensures
        r matches Ok(p) ==> exists|d: Seq<char>|
            is_ez_dir(d) && p@ == join(join(join(d, "repos"@), repo_id@), "sessions.toml"@),
        r matches Err(e) ==> e is Path,
{
    let d = repo_meta_dir(repo_id)?;
    Ok(join_path(d.as_str(), "sessions.toml"))
}

/// Returns the plugins directory: ~/.config/ez/plugins/
pub fn plugins_dir() -> (r: Result<String, EzError>)
    ensures
        r matches Ok(p) ==> exists|d: Seq<char>| is_ez_dir(d) && p@ == join(d, "plugins"@),
        r matches Err(e) ==> e is Path,
{
    let d = config_dir()?;
    Ok(join_path(d.as_str(), "plugins"))
}

/// `expand_tilde` for a known home directory: `~/rest` becomes `home/rest`
/// when there is a home; anything else is unchanged.
pub open spec fn expanded(path: Seq<char>, home: Option<Seq<char>>) -> Seq<char> {
    if has_prefix(path, "~/"@) && home is Some {
        join(home->0, path.subrange(2, path.len() as int))
    } else {
        path
    }
}

/// `expand_tilde` with the home directory given.
pub fn expand_tilde_with(path: &str, home: Option<&str>) -> (r: String)
    ensures
        r@ == expanded(path@, match home {
            Some(h) => Some(h@),
            None => None,
        }),
{
    proof {
        reveal_strlit("~/");
    }
    match crate::text::strip_prefix(path, "~/") {
        Some(rest) => match home {
            Some(h) => join_path(h, rest.as_str()),
            None => crate::text::owned(path),
        },
        None => crate::text::owned(path),
    }
}

/// Expand ~ to the user's home directory.
pub fn expand_tilde(path: &str) -> (r: String)
    ensures
        r@ == path@ || exists|h: Seq<char>| r@ == expanded(path@, Some(h)),
{
    match home_dir() {
        Some(h) => expand_tilde_with(path, Some(h.as_str())),
        None => expand_tilde_with(path, None),
    }
}

/// `collapse_tilde` for a known home directory: the home directory itself
/// becomes `~`, and a path inside it (the home directory followed by `/`)
/// gets `~` in its place; any other path is left as it is.
pub open spec fn collapsed(path: Seq<char>, home: Option<Seq<char>>) -> Seq<char> {
    match home {
        Some(h) => if path == h {
            "~"@
        } else if has_prefix(path, h + "/"@) {
            "~"@ + path.subrange(h.len() as int, path.len() as int)
        } else {
            path
        },
        None => path,
    }
}

/// `collapse_tilde` with the home directory given.
pub fn collapse_tilde_with(path: &str, home: Option<&str>) -> (r: String)
    ensures
        r@ == collapsed(path@, match home {
            Some(h) => Some(h@),
            None => None,
        }),
{
    match home {
        Some(h) => {
            if crate::text::str_eq(path, h) {
                return crate::text::owned("~");
            }
            let dir = crate::text::concat(h, "/");
            match crate::text::strip_prefix(path, dir.as_str()) {
                Some(rest) => {
                    proof {
                        reveal_strlit("/");
                        assert(dir@ == h@ + "/"@);
                        assert(dir@.len() == h@.len() + 1);
                        assert(path@.subrange(0, dir@.len() as int) == dir@);
                        assert(path@[h@.len() as int] == path@.subrange(0, dir@.len() as int)[h@.len() as int]);
                        assert(path@.subrange(h@.len() as int, path@.len() as int) =~= "/"@ + rest@);
                    }
                    let mut r = crate::text::owned("~/");
                    r.append(rest.as_str());
                    proof {
                        reveal_strlit("~/");
                        reveal_strlit("~");
                        assert(r@ =~= "~"@ + path@.subrange(h@.len() as int, path@.len() as int));
                    }
                    r
                },
                None => crate::text::owned(path),
            }
        },
        None => crate::text::owned(path),
    }
}

/// Collapse the home directory prefix back to ~/
pub fn collapse_tilde(path: &str) -> (r: String)
    ensures
        r@ == path@ || exists|h: Seq<char>| r@ == collapsed(path@, Some(h)),
{
    match home_dir() {
        Some(h) => collapse_tilde_with(path, Some(h.as_str())),
        None => collapse_tilde_with(path, None),
    }
}

/// `sep` between the parts (`[&str]::join`).
pub open spec fn join_with(parts: Seq<Seq<char>>, sep: Seq<char>) -> Seq<char>
    decreases parts.len(),
{
    if parts.len() == 0 {
        Seq::empty()
    } else if parts.len() == 1 {
        parts[0]
    } else {
        join_with(parts.drop_last(), sep) + sep + parts.last()
    }
}

/// Every `a` replaced by `b`.
pub open spec fn replace_char(s: Seq<char>, a: char, b: char) -> Seq<char> {
    s.map_values(|c: char| if c == a { b } else { c })
}

/// What `str::to_lowercase` returns for a string (Unicode lowercase mapping).
pub uninterp spec fn unicode_lowercase(s: Seq<char>) -> Seq<char>;

/// Every character is ASCII.
pub open spec fn all_ascii(s: Seq<char>) -> bool {
    forall|i: int| 0 <= i < s.len() ==> (#[trigger] s[i] as u32) < 128
}

/// `str::to_lowercase`. Its result is named: the Unicode lowercase mapping
/// of the argument, a function of the argument alone. On ASCII text, as
/// std documents, it maps `A`–`Z` to `a`–`z` and keeps everything else.
#[verifier::external_body]
pub(crate) fn to_lowercase(s: &str) -> (r: String)
    ensures
        r@ == unicode_lowercase(s@),
        all_ascii(s@) ==> r@ == crate::text::ascii_lower(s@),
{
    s.to_lowercase()
}

/// Generate a repo ID slug from a path: the last two normal components joined
/// with `-`, lowercased, spaces turned into `-`.
/// e.g. /home/user/workspace/personal/my-repo -> personal-my-repo
pub open spec fn repo_id(p: Seq<char>) -> Seq<char> {
    let c = normal_components(p);
    let last2 = if c.len() >= 2 {
        c.subrange(c.len() - 2, c.len() as int)
    } else {
        c
    };
    replace_char(unicode_lowercase(join_with(last2, "-"@)), ' ', '-')
}

/// `sep` between the strings.
pub fn join_strings(parts: &Vec<String>, sep: &str) -> (r: String)
    ensures
        r@ == join_with(views(parts@), sep@),
{
    let mut out = String::new();
    let mut i: usize = 0;
    while i < parts.len()
        invariant
            i <= parts@.len(),
            out@ == join_with(views(parts@).subrange(0, i as int), sep@),
        decreases parts.len() - i,
    {
        let ghost before = views(parts@).subrange(0, i as int);
        if i > 0 {
            out.append(sep);
        }
        out.append(parts[i].as_str());
        proof {
            let after = views(parts@).subrange(0, i + 1);
            assert(after.drop_last() =~= before);
            if i == 0 {
                assert(after.len() == 1);
                assert(out@ =~= after[0]);
            }
        }
        i += 1;
    }
    assert(views(parts@).subrange(0, i as int) =~= views(parts@));
    out
}

/// Every `a` in `s` replaced by `b`.
pub fn replace_all(s: &str, a: char, b: char) -> (r: String)
    ensures
        r@ == replace_char(s@, a, b),
{
    let cs = crate::text::to_chars(s);
    let mut out = String::new();
    let mut i: usize = 0;
    while i < cs.len()
        invariant
            i <= cs@.len(),
            cs@ == s@,
            out@ == replace_char(s@.subrange(0, i as int), a, b),
        decreases cs.len() - i,
    {
        let c = if cs[i] == a { b } else { cs[i] };
        crate::text::push_char(&mut out, c);
        i += 1;
        assert(out@ =~= replace_char(s@.subrange(0, i as int), a, b));
    }
    assert(s@.subrange(0, i as int) =~= s@);
    out
}

/// The normal components of `p` (see `normal_components`).
pub fn path_normal_components(p: &str) -> (r: Vec<String>)
    ensures
        views(r@) == normal_components(p@),
{
    let segs = path_segments(p);
    let ghost pred = |c: Seq<char>| c != ".."@;
    let dots = crate::text::owned("..");
    let mut out: Vec<String> = Vec::new();
    let mut i: usize = 0;
    while i < segs.len()
        invariant
            i <= segs@.len(),
            views(segs@) == segments(p@),
            dots@ == ".."@,
            pred == (|c: Seq<char>| c != ".."@),
            views(out@) == views(segs@).subrange(0, i as int).filter(pred),
        decreases segs.len() - i,
    {
        proof {
            assert(views(segs@).subrange(0, i + 1) =~= views(segs@).subrange(0, i as int).push(
                segs@[i as int]@,
            ));
            crate::session::tree::lemma_filter_push(
                views(segs@).subrange(0, i as int),
                segs@[i as int]@,
                pred,
            );
        }
        if !(segs[i] == dots) {
            let ghost before = out@;
            out.push(segs[i].clone());
            assert(views(out@) =~= views(before).push(segs@[i as int]@));
        }
        i += 1;
    }
    assert(views(segs@).subrange(0, i as int) =~= views(segs@));
    out
}

/// Generate a repo ID slug from a path.
/// e.g. /home/user/workspace/personal/my-repo -> personal-my-repo
pub fn repo_id_from_path(path: &str) -> (r: String)
    ensures
        r@ == repo_id(path@),
{
    let comps = path_normal_components(path);
    let n = comps.len();
    let mut last2: Vec<String> = Vec::new();
    let mut i: usize = if n >= 2 { n - 2 } else { 0 };
    let start = i;
    while i < n
        invariant
            start <= i <= n,
            n == comps@.len(),
            views(last2@) == views(comps@).subrange(start as int, i as int),
        decreases n - i,
    {
        let ghost before = last2@;
        let c = comps[i].clone();
        assert(c@ == comps@[i as int]@);
        last2.push(c);
        assert(views(last2@) =~= views(before).push(comps@[i as int]@));
        i += 1;
        assert(views(last2@) =~= views(comps@).subrange(start as int, i as int));
    }
    proof {
        let c = normal_components(path@);
        if c.len() < 2 {
            assert(views(comps@).subrange(0, n as int) =~= c);
        }
    }
    let joined = join_strings(&last2, "-");
    let lower = to_lowercase(joined.as_str());
    replace_all(lower.as_str(), ' ', '-')
}

/// `Path::file_name`.
pub fn file_name_of(p: &str) -> (r: Option<String>)
    ensures
        crate::session::model::opt_view(r) == file_name(p@),
{
    let segs = path_segments(p);
    let n = segs.len();
    if n > 0 && !(segs[n - 1] == crate::text::owned("..")) {
        proof {
            reveal_strlit("..");
        }
        Some(segs[n - 1].clone())
    } else {
        None
    }
}

/// `path.parent().and_then(|p| p.file_name())`.
pub fn parent_name_of(p: &str) -> (r: Option<String>)
    ensures
        crate::session::model::opt_view(r) == parent_name(p@),
{
    let segs = path_segments(p);
    let n = segs.len();
    if n >= 2 && !(segs[n - 2] == crate::text::owned("..")) {
        Some(segs[n - 2].clone())
    } else {
        None
    }
}

/// `Path::starts_with` (component-wise prefix).
pub fn starts_with_path(p: &str, base: &str) -> (r: bool)
    ensures
        r == path_starts_with(p@, base@),
{
    let a = path_segments(p);
    let b = path_segments(base);
    if crate::text::starts_with(p, "/") != crate::text::starts_with(base, "/") {
        return false;
    }
    if b.len() > a.len() {
        return false;
    }
    let mut i: usize = 0;
    while i < b.len()
        invariant
            i <= b@.len(),
            b@.len() <= a@.len(),
            views(a@) == segments(p@),
            views(b@) == segments(base@),
            forall|j: int| 0 <= j < i ==> a@[j]@ == b@[j]@,
        decreases b.len() - i,
    {
        if !(a[i] == b[i]) {
            assert(views(a@).subrange(0, b@.len() as int)[i as int] != views(b@)[i as int]);
            return false;
        }
        i += 1;
    }
    assert(views(a@).subrange(0, b@.len() as int) =~= views(b@));
    true
}

} // verus!
