//! Which session the user is in: multiplexer session names, and matching the
//! current directory against session paths.
use vstd::prelude::*;

use crate::error::EzError;
use crate::paths::{file_name, path_starts_with, segments};
use crate::repo::model::{leading_dot, same_path, RepoEntry};
use crate::text::{has_prefix, views};
use vstd::utf8::encode_utf8;

verus! {

/// A byte the multiplexer name keeps: `[A-Za-z0-9_-]`.
pub open spec fn mux_safe(b: u8) -> bool {
    (48 <= b <= 57) || (65 <= b <= 90) || (97 <= b <= 122) || b == 95 || b == 45
}

/// Every UTF-8 byte of `s` outside `[A-Za-z0-9_-]` replaced by `_`.
pub open spec fn mux_part(s: Seq<char>) -> Seq<char> {
    encode_utf8(s).map_values(|b: u8| if mux_safe(b) { b as char } else { '_' })
}

/// The multiplexer session name of a repo/session pair.
pub open spec fn encoded_mux_name(repo_basename: Seq<char>, session_name: Seq<char>) -> Seq<char> {
    mux_part(repo_basename) + "__"@ + mux_part(session_name)
}

/// Encode one part of a multiplexer session name, byte by byte.
pub fn encode_mux_part(part: &str) -> (r: String)
    ensures
        r@ == mux_part(part@),
{
    let bytes = part.as_bytes();
    let ghost bs = encode_utf8(part@);
    let mut out = String::new();
    let mut i: usize = 0;
    while i < bytes.len()
        invariant
            bytes@ == bs,
            i <= bs.len(),
            out@ == bs.subrange(0, i as int).map_values(
                |b: u8| if mux_safe(b) { b as char } else { '_' },
            ),
        decreases bytes.len() - i,
    {
        let b = bytes[i];
        let safe = (48 <= b && b <= 57) || (65 <= b && b <= 90) || (97 <= b && b <= 122) || b == 95
            || b == 45;
        let c = if safe {
            b as char
        } else {
            '_'
        };
        crate::text::push_char(&mut out, c);
        i += 1;
        assert(out@ =~= bs.subrange(0, i as int).map_values(
            |b: u8| if mux_safe(b) { b as char } else { '_' },
        ));
    }
    assert(bs.subrange(0, bs.len() as int) =~= bs);
    out
}

/// Encode a repo/session pair into a multiplexer session name.
///
/// Every byte outside `[A-Za-z0-9_-]` becomes `_`, and the two parts are joined
/// with `__`. The encoding is deterministic, so every program that encodes a
/// pair the same way agrees on a session's identity without any persisted
/// state. It substitutes per byte rather than per char: a multi-byte
/// character maps to one `_` per byte.
pub fn encode_mux_name(repo_basename: &str, session_name: &str) -> (r: String)
    ensures
        r@ == encoded_mux_name(repo_basename@, session_name@),
{
    let a = encode_mux_part(repo_basename);
    let b = encode_mux_part(session_name);
    crate::text::concat3(a.as_str(), "__", b.as_str())
}

/// No encoded name holds a `/` (a multiplexer rejects session names with one).
pub proof fn law_mux_name_has_no_slash(repo_basename: Seq<char>, session_name: Seq<char>)
    ensures
        !encoded_mux_name(repo_basename, session_name).contains('/'),
{
    let n = encoded_mux_name(repo_basename, session_name);
    let a = mux_part(repo_basename);
    let b = mux_part(session_name);
    reveal_strlit("__");
    assert forall|i: int| 0 <= i < n.len() implies n[i] != '/' by {
        if i < a.len() {
            assert(n[i] == a[i]);
        } else if i < a.len() + 2 {
            assert(n[i] == '_');
        } else {
            assert(n[i] == b[i - a.len() - 2]);
        }
    }
}

/// An encoded part holds only characters of `[A-Za-z0-9_-]`.
pub proof fn law_mux_part_is_safe(s: Seq<char>, i: int)
    requires
        0 <= i < mux_part(s).len(),
    ensures
        mux_safe(mux_part(s)[i] as u8),
        (mux_part(s)[i] as u8) as char == mux_part(s)[i],
{
}

/// What `md5::compute` returns for these bytes: the 16 bytes of their MD5
/// digest.
pub uninterp spec fn md5_digest(data: Seq<u8>) -> Seq<u8>;

/// `md5::compute`, its digest given as a vector of its 16 bytes. The digest
/// is named by `md5_digest`, a function of the bytes alone; that it has 16
/// bytes is the type `[u8; 16]` of `md5::Digest`'s field.
#[verifier::external_body]
fn md5_bytes(data: &[u8]) -> (r: Vec<u8>)
    ensures
        r@ == md5_digest(data@),
        r@.len() == 16,
{
    md5::compute(data).0.to_vec()
}

/// The lower-case hex digit for `d < 16`.
pub open spec fn hex_char(d: nat) -> char {
    seq!['0', '1', '2', '3', '4', '5', '6', '7', '8', '9', 'a', 'b', 'c', 'd', 'e', 'f'][d as int]
}

/// Two lower-case hex digits per byte (`{:02x}` of each byte in turn).
pub open spec fn hex_lower(bs: Seq<u8>) -> Seq<char>
    decreases bs.len(),
{
    if bs.len() == 0 {
        Seq::empty()
    } else {
        hex_lower(bs.drop_last()) + seq![
            hex_char((bs.last() / 16) as nat),
            hex_char((bs.last() % 16) as nat),
        ]
    }
}

proof fn lemma_hex_len(bs: Seq<u8>)
    ensures
        hex_lower(bs).len() == 2 * bs.len(),
    decreases bs.len(),
{
    if bs.len() > 0 {
        lemma_hex_len(bs.drop_last());
    }
}

fn hex_digit(d: u8) -> (r: char)
    requires
        d < 16,
    ensures
        r == hex_char(d as nat),
{
    let digits = ['0', '1', '2', '3', '4', '5', '6', '7', '8', '9', 'a', 'b', 'c', 'd', 'e', 'f'];
    assert(digits@ =~= seq![
        '0',
        '1',
        '2',
        '3',
        '4',
        '5',
        '6',
        '7',
        '8',
        '9',
        'a',
        'b',
        'c',
        'd',
        'e',
        'f',
    ]);
    digits[d as usize]
}

/// Lower-case hex of the bytes.
pub fn to_hex(bs: &[u8]) -> (r: String)
    ensures
        r@ == hex_lower(bs@),
{
    let mut out = String::new();
    let mut i: usize = 0;
    while i < bs.len()
        invariant
            i <= bs@.len(),
            out@ == hex_lower(bs@.subrange(0, i as int)),
        decreases bs.len() - i,
    {
        let b = bs[i];
        crate::text::push_char(&mut out, hex_digit(b / 16));
        crate::text::push_char(&mut out, hex_digit(b % 16));
        proof {
            let pre = bs@.subrange(0, i + 1);
            assert(pre.drop_last() =~= bs@.subrange(0, i as int));
            assert(pre.last() == b);
        }
        i += 1;
        assert(out@ =~= hex_lower(bs@.subrange(0, i as int)));
    }
    assert(bs@.subrange(0, bs@.len() as int) =~= bs@);
    out
}

/// The MD5 digest of the bytes, in lower-case hex (`format!("{:x}", md5::compute(..))`).
pub fn md5_hex(data: &[u8]) -> (r: String)
    ensures
        r@ == hex_lower(md5_digest(data@)),
        r@.len() == 32,
{
    let d = md5_bytes(data);
    proof {
        lemma_hex_len(d@);
    }
    to_hex(d.as_slice())
}

/// Index of the last `c` in `s`; -1 when there is none.
pub open spec fn last_index(s: Seq<char>, c: char) -> int
    decreases s.len(),
{
    if s.len() == 0 {
        -1
    } else if s.last() == c {
        s.len() - 1
    } else {
        last_index(s.drop_last(), c)
    }
}

proof fn lemma_last_index(s: Seq<char>, c: char, i: int)
    requires
        -1 <= i < s.len(),
        i >= 0 ==> s[i] == c,
        forall|j: int| i < j < s.len() ==> s[j] != c,
    ensures
        last_index(s, c) == i,
    decreases s.len(),
{
    if s.len() > 0 && i < s.len() - 1 {
        assert forall|j: int| i < j < s.len() - 1 implies s.drop_last()[j] != c by {
            assert(s.drop_last()[j] == s[j]);
        }
        lemma_last_index(s.drop_last(), c, i);
    }
}

/// Number of hex digits of the digest a shortened session name carries.
pub const MUX_DIGEST_LEN: usize = 4;

/// Whether `mux` names the multiplexer session of this repo/session pair:
/// either its full encoding, or a shortened `<prefix>_<digest>` where the
/// prefix starts the encoded session name and the digest is the first four
/// hex digits of the MD5 of the full encoding (four bytes long).
pub open spec fn mux_matches(repo_basename: Seq<char>, session_name: Seq<char>, mux: Seq<char>) -> bool {
    let full = encoded_mux_name(repo_basename, session_name);
    if mux == full {
        true
    } else {
        let k = last_index(mux, '_');
        if k < 0 {
            false
        } else {
            let visible = mux.subrange(0, k);
            let digest = mux.subrange(k + 1, mux.len() as int);
            encode_utf8(digest).len() == 4 && has_prefix(mux_part(session_name), visible) && digest
                == hex_lower(md5_digest(encode_utf8(full))).subrange(0, 4)
        }
    }
}

/// Does `mux_name` name the multiplexer session belonging to this
/// repo/session pair?
///
/// A session name too long for the multiplexer is shortened to
/// `<encoded-session-prefix>_<digest>`, where the digest is the first four hex
/// digits of the MD5 of the *full* encoded name. Any prefix of the encoded
/// session name that carries the right digest is accepted, whatever budget
/// decided how much of the name survived.
pub fn mux_name_matches(repo_basename: &str, session_name: &str, mux_name: &str) -> (r: bool)
    ensures
        r == mux_matches(repo_basename@, session_name@, mux_name@),
{
    let full = encode_mux_name(repo_basename, session_name);
    if crate::text::str_eq(mux_name, full.as_str()) {
        return true;
    }
    let cs = crate::text::to_chars(mux_name);
    let n = cs.len();
    let mut k = n;
    while k > 0 && cs[k - 1] != '_'
        invariant
            k <= n,
            n == cs@.len(),
            cs@ == mux_name@,
            forall|j: int| k <= j < n ==> cs@[j] != '_',
        decreases k,
    {
        k -= 1;
    }
    proof {
        lemma_last_index(mux_name@, '_', k - 1);
    }
    if k == 0 {
        return false;
    }
    let visible = crate::text::string_of(cs.as_slice(), 0, k - 1);
    let digest = crate::text::string_of(cs.as_slice(), k, n);
    if digest.as_str().as_bytes().len() != MUX_DIGEST_LEN {
        return false;
    }
    let part = encode_mux_part(session_name);
    if !crate::text::starts_with(part.as_str(), visible.as_str()) {
        return false;
    }
    let fb = full.as_str().as_bytes();
    assert(fb@ == encode_utf8(encoded_mux_name(repo_basename@, session_name@)));
    let expected = md5_hex(fb);
    let ec = crate::text::to_chars(expected.as_str());
    let head = crate::text::string_of(ec.as_slice(), 0, MUX_DIGEST_LEN);
    assert(head@ == hex_lower(md5_digest(encode_utf8(encoded_mux_name(repo_basename@, session_name@)))).subrange(0, 4));
    assert(visible@ == mux_name@.subrange(0, k - 1));
    assert(digest@ == mux_name@.subrange(k as int, mux_name@.len() as int));
    assert(encode_utf8(digest@).len() == 4);
    assert(has_prefix(mux_part(session_name@), visible@));
    crate::text::str_eq(digest.as_str(), head.as_str())
}

/// A session's directory: its own path, or for the default session the
/// repo's path.
pub open spec fn session_dir(path: Option<Seq<char>>, is_default: bool, repo_path: Seq<char>) -> Option<Seq<char>> {
    match path {
        Some(p) => Some(p),
        None => if is_default {
            Some(repo_path)
        } else {
            None
        },
    }
}

/// The directory of a session of this repo.
pub fn session_path(session: &super::model::Session, repo_entry: &RepoEntry) -> (r: Option<String>)
    ensures
        crate::session::model::opt_view(r) == session_dir(
            session@.path,
            session.is_default,
            repo_entry.path@,
        ),
{
    match &session.path {
        Some(p) => Some(p.clone()),
        None => if session.is_default {
            Some(repo_entry.path.clone())
        } else {
            None
        },
    }
}

/// The current directory is the session's directory or lies inside it.
pub open spec fn path_matches(current: Seq<char>, session: Seq<char>) -> bool {
    same_path(current, session) || path_starts_with(current, session)
}

/// Whether `current_path` is `session_path` or lies below it (by whole
/// components).
pub fn path_matches_current(current_path: &str, session_path: &str) -> (r: bool)
    ensures
        r == path_matches(current_path@, session_path@),
{
    crate::repo::model::paths_equal(current_path, session_path) || crate::paths::starts_with_path(
        current_path,
        session_path,
    )
}

/// Number of components of a path (`Path::components().count()`): the root,
/// a leading `.`, and the named segments.
pub open spec fn component_count(p: Seq<char>) -> nat {
    (if has_prefix(p, "/"@) {
        1nat
    } else {
        0nat
    }) + (if leading_dot(p) {
        1nat
    } else {
        0nat
    }) + segments(p).len()
}

/// `Path::components().count()`.
pub fn count_components(p: &str) -> (r: u128)
    ensures
        r == component_count(p@),
{
    let segs = crate::paths::path_segments(p);
    let mut n: u128 = segs.len() as u128;
    assert(n == segments(p@).len());
    if crate::text::starts_with(p, "/") {
        n = n + 1;
    }
    if crate::text::str_eq(p, ".") || crate::text::starts_with(p, "./") {
        n = n + 1;
    }
    n
}

/// The last component of a repo path, or empty.
pub fn repo_basename(path: &str) -> (r: String)
    ensures
        r@ == (match file_name(path@) {
            Some(n) => n,
            None => Seq::empty(),
        }),
{
    match crate::paths::file_name_of(path) {
        Some(n) => n,
        None => String::new(),
    }
}

/// A registered repository with its sessions, and the directory of each
/// session (its path, or the repo's for the default session) as the
/// filesystem resolves it, where it has one.
#[derive(Debug)]
pub struct LoadedRepo {
    pub entry: RepoEntry,
    pub tree: super::model::SessionTree,
    pub dirs: Vec<Option<String>>,
}

/// Each repo has one directory entry per session.
pub open spec fn loaded_ok(repos: Seq<LoadedRepo>) -> bool {
    forall|i: int| 0 <= i < repos.len() ==> (#[trigger] repos[i]).dirs@.len() == repos[i].tree.sessions@.len()
}

/// Repos with this ID holding a session of this name.
pub open spec fn holds_named(repo_id: Seq<char>, name: Seq<char>) -> spec_fn(LoadedRepo) -> bool {
    |r: LoadedRepo|
        r.entry.id@ == repo_id && crate::search::find_first(
            r.tree@,
            super::tree::name_is(name),
        ) is Some
}

/// The first session of this name in the first repo with this ID that has
/// one, by position.
pub open spec fn named_hit(repos: Seq<LoadedRepo>, repo_id: Seq<char>, name: Seq<char>) -> Option<(int, int)> {
    let i = crate::search::first_match(repos, holds_named(repo_id, name));
    if i < repos.len() {
        Some((i, crate::search::first_match(repos[i].tree@, super::tree::name_is(name))))
    } else {
        None
    }
}

/// Find a session by repo ID and session name.
pub fn find_session_by_name(repos: &Vec<LoadedRepo>, repo_id: &str, session_name: &str) -> (r: Option<
    (usize, usize),
>)
    ensures
        match named_hit(repos@, repo_id@, session_name@) {
            Some((i, j)) => r matches Some((x, y)) && x as int == i && y as int == j,
            None => r is None,
        },
        r matches Some((i, j)) ==> i < repos@.len() && j < repos@[i as int].tree.sessions@.len(),
{
    let ghost p = holds_named(repo_id@, session_name@);
    let mut i: usize = 0;
    while i < repos.len()
        invariant
            i <= repos@.len(),
            p == holds_named(repo_id@, session_name@),
            forall|k: int| 0 <= k < i ==> !p(#[trigger] repos@[k]),
        decreases repos.len() - i,
    {
        if crate::text::str_eq(repos[i].entry.id.as_str(), repo_id) {
            let j = repos[i].tree.index_of_name(session_name);
            proof {
                crate::search::lemma_first_match(repos@[i as int].tree@, super::tree::name_is(session_name@));
            }
            if j < repos[i].tree.sessions.len() {
                proof {
                    crate::search::lemma_first_match_is(repos@, p, i as int);
                }
                return Some((i, j));
            }
        }
        i += 1;
    }
    proof {
        crate::search::lemma_first_match_is(repos@, p, i as int);
    }
    None
}

/// The repo's last path component, or empty.
pub open spec fn basename(path: Seq<char>) -> Seq<char> {
    match file_name(path) {
        Some(n) => n,
        None => Seq::empty(),
    }
}

/// Sessions of a repo that a multiplexer session name names.
pub open spec fn mux_names(repo_path: Seq<char>, mux: Seq<char>) -> spec_fn(super::model::SessionView) -> bool {
    |s: super::model::SessionView| mux_matches(basename(repo_path), s.name, mux)
}

/// Repos with a session that a multiplexer session name names.
pub open spec fn holds_mux(mux: Seq<char>) -> spec_fn(LoadedRepo) -> bool {
    |r: LoadedRepo| crate::search::find_first(r.tree@, mux_names(r.entry.path@, mux)) is Some
}

/// The first session, in registry order, that a multiplexer session name
/// names (the encoding is lossy; the first match wins).
pub open spec fn mux_hit(repos: Seq<LoadedRepo>, mux: Seq<char>) -> Option<(int, int)> {
    let i = crate::search::first_match(repos, holds_mux(mux));
    if i < repos.len() {
        Some((i, crate::search::first_match(repos[i].tree@, mux_names(repos[i].entry.path@, mux))))
    } else {
        None
    }
}

/// Find the session whose multiplexer name is `mux_name`, in either the
/// full or the shortened encoding.
pub fn find_session_by_mux_name(repos: &Vec<LoadedRepo>, mux_name: &str) -> (r: Option<(usize, usize)>)
    ensures
        match mux_hit(repos@, mux_name@) {
            Some((i, j)) => r matches Some((x, y)) && x as int == i && y as int == j,
            None => r is None,
        },
        r matches Some((i, j)) ==> i < repos@.len() && j < repos@[i as int].tree.sessions@.len(),
{
    let ghost p = holds_mux(mux_name@);
    let mut i: usize = 0;
    while i < repos.len()
        invariant
            i <= repos@.len(),
            p == holds_mux(mux_name@),
            forall|k: int| 0 <= k < i ==> !p(#[trigger] repos@[k]),
        decreases repos.len() - i,
    {
        let bn = repo_basename(repos[i].entry.path.as_str());
        let ghost q = mux_names(repos@[i as int].entry.path@, mux_name@);
        let t = &repos[i].tree.sessions;
        let mut j: usize = 0;
        while j < t.len()
            invariant
                j <= t@.len(),
                i < repos@.len(),
                p == holds_mux(mux_name@),
                forall|k: int| 0 <= k < i ==> !p(#[trigger] repos@[k]),
                *t == repos@[i as int].tree.sessions,
                bn@ == basename(repos@[i as int].entry.path@),
                q == mux_names(repos@[i as int].entry.path@, mux_name@),
                forall|k: int| 0 <= k < j ==> !q(#[trigger] repos@[i as int].tree@[k]),
            decreases t.len() - j,
        {
            if mux_name_matches(bn.as_str(), t[j].name.as_str(), mux_name) {
                proof {
                    crate::search::lemma_first_match_is(repos@[i as int].tree@, q, j as int);
                    crate::search::lemma_first_match_is(repos@, p, i as int);
                }
                return Some((i, j));
            }
            j += 1;
        }
        proof {
            crate::search::lemma_first_match_is(repos@[i as int].tree@, q, j as int);
        }
        i += 1;
    }
    proof {
        crate::search::lemma_first_match_is(repos@, p, i as int);
    }
    None
}

/// The views of the directories of a repo's sessions.
pub open spec fn dir_views(d: Seq<Option<String>>) -> Seq<Option<Seq<char>>> {
    d.map_values(|o: Option<String>| crate::session::model::opt_view(o))
}

/// The depth of the best match so far.
pub open spec fn depth_of(a: Option<(int, int, nat)>) -> nat {
    match a {
        Some((_, _, d)) => d,
        None => 0,
    }
}

/// The deepest session directory among the first `m` of one repo that the
/// current directory is in or at, after `acc`; a later one wins only when
/// strictly deeper.
pub open spec fn best_in(dirs: Seq<Option<Seq<char>>>, i: int, cur: Seq<char>, m: int, acc: Option<(int, int, nat)>) -> Option<
    (int, int, nat),
>
    decreases m,
{
    if m <= 0 {
        acc
    } else {
        let a = best_in(dirs, i, cur, m - 1, acc);
        match dirs[m - 1] {
            Some(d) => if path_matches(cur, d) && (a is None || component_count(d) > depth_of(a)) {
                Some((i, m - 1, component_count(d)))
            } else {
                a
            },
            None => a,
        }
    }
}

/// The deepest matching session directory among the first `n` repos.
pub open spec fn best_path(repos: Seq<LoadedRepo>, cur: Seq<char>, n: int) -> Option<(int, int, nat)>
    decreases n,
{
    if n <= 0 {
        None
    } else {
        let d = dir_views(repos[n - 1].dirs@);
        best_in(d, n - 1, cur, d.len() as int, best_path(repos, cur, n - 1))
    }
}

/// The session directory at `j` holds the current directory.
pub open spec fn holds_current(dirs: Seq<Option<Seq<char>>>, cur: Seq<char>, j: int) -> bool {
    dirs[j] matches Some(d) && path_matches(cur, d)
}

/// The depth of the session directory at `j` (0 when it has none).
pub open spec fn dir_depth(dirs: Seq<Option<Seq<char>>>, j: int) -> nat {
    match dirs[j] {
        Some(d) => component_count(d),
        None => 0,
    }
}

proof fn lemma_best_in(
    dirs: Seq<Option<Seq<char>>>,
    i: int,
    cur: Seq<char>,
    m: int,
    acc: Option<(int, int, nat)>,
)
    requires
        0 <= m <= dirs.len(),
    ensures
        ({
            let r = best_in(dirs, i, cur, m, acc);
            &&& acc is Some ==> r is Some
            &&& depth_of(acc) <= depth_of(r)
            &&& forall|j: int|
                0 <= j < m && #[trigger] holds_current(dirs, cur, j) ==> r is Some && dir_depth(dirs, j)
                    <= depth_of(r)
            &&& r is Some && r != acc ==> (r matches Some((ri, rj, rd)) && ri == i && 0 <= rj < m
                && holds_current(dirs, cur, rj) && dir_depth(dirs, rj) == rd)
        }),
    decreases m,
{
    if m > 0 {
        lemma_best_in(dirs, i, cur, m - 1, acc);
        let a = best_in(dirs, i, cur, m - 1, acc);
        let r = best_in(dirs, i, cur, m, acc);
        assert forall|j: int|
            0 <= j < m && #[trigger] holds_current(dirs, cur, j) implies r is Some && dir_depth(dirs, j)
                <= depth_of(r) by {
            if j < m - 1 {
                assert(holds_current(dirs, cur, j));
            }
        }
    }
}

/// The deepest session directory wins: when a session is found, its
/// directory holds the current directory and no session directory that
/// holds it (in any repo) has more path components; when none is found, no
/// session directory holds it.
pub proof fn law_deepest_session_dir_wins(repos: Seq<LoadedRepo>, cur: Seq<char>)
    ensures
        match best_path(repos, cur, repos.len() as int) {
            Some((i, j, _)) => 0 <= i < repos.len() && 0 <= j < repos[i].dirs@.len() && holds_current(
                dir_views(repos[i].dirs@),
                cur,
                j,
            ) && forall|i2: int, j2: int|
                0 <= i2 < repos.len() && 0 <= j2 < repos[i2].dirs@.len() && #[trigger] holds_current(
                    dir_views(repos[i2].dirs@),
                    cur,
                    j2,
                ) ==> dir_depth(dir_views(repos[i2].dirs@), j2) <= dir_depth(
                    dir_views(repos[i].dirs@),
                    j,
                ),
            None => forall|i2: int, j2: int|
                0 <= i2 < repos.len() && 0 <= j2 < repos[i2].dirs@.len() ==> !#[trigger] holds_current(
                    dir_views(repos[i2].dirs@),
                    cur,
                    j2,
                ),
        },
{
    lemma_best_path(repos, cur, repos.len() as int);
}

proof fn lemma_best_path(repos: Seq<LoadedRepo>, cur: Seq<char>, n: int)
    requires
        0 <= n <= repos.len(),
    ensures
        ({
            let r = best_path(repos, cur, n);
            &&& forall|i2: int, j2: int|
                0 <= i2 < n && 0 <= j2 < repos[i2].dirs@.len() && #[trigger] holds_current(
                    dir_views(repos[i2].dirs@),
                    cur,
                    j2,
                ) ==> r is Some && dir_depth(dir_views(repos[i2].dirs@), j2) <= depth_of(r)
            &&& r matches Some((ri, rj, rd)) ==> 0 <= ri < n && 0 <= rj < repos[ri].dirs@.len()
                && holds_current(dir_views(repos[ri].dirs@), cur, rj) && dir_depth(
                dir_views(repos[ri].dirs@),
                rj,
            ) == rd
        }),
    decreases n,
{
    if n > 0 {
        lemma_best_path(repos, cur, n - 1);
        let prev = best_path(repos, cur, n - 1);
        let d = dir_views(repos[n - 1].dirs@);
        lemma_best_in(d, n - 1, cur, d.len() as int, prev);
        let r = best_path(repos, cur, n);
        assert forall|i2: int, j2: int|
            0 <= i2 < n && 0 <= j2 < repos[i2].dirs@.len() && #[trigger] holds_current(
                dir_views(repos[i2].dirs@),
                cur,
                j2,
            ) implies r is Some && dir_depth(dir_views(repos[i2].dirs@), j2) <= depth_of(r) by {
            if i2 < n - 1 {
                assert(holds_current(dir_views(repos[i2].dirs@), cur, j2));
            } else {
                assert(holds_current(d, cur, j2));
            }
        }
    }
}

/// Find the session whose directory holds the current directory (both as
/// the filesystem resolves them); the deepest such directory wins, the
/// first of equally deep ones.
pub fn find_session_by_path(repos: &Vec<LoadedRepo>, current: &str) -> (r: Option<(usize, usize)>)
    ensures
        match best_path(repos@, current@, repos@.len() as int) {
            Some((i, j, _)) => r matches Some((x, y)) && x as int == i && y as int == j,
            None => r is None,
        },
        r matches Some((i, j)) ==> i < repos@.len() && j < repos@[i as int].dirs@.len(),
{
    let mut best: Option<(usize, usize, u128)> = None;
    let mut i: usize = 0;
    while i < repos.len()
        invariant
            i <= repos@.len(),
            match best_path(repos@, current@, i as int) {
                Some((a, b, d)) => best matches Some((x, y, e)) && x as int == a && y as int == b
                    && e as int == d,
                None => best is None,
            },
            best matches Some((a, b, _)) ==> a < i && b < repos@[a as int].dirs@.len(),
        decreases repos.len() - i,
    {
        let dirs = &repos[i].dirs;
        let ghost dv = dir_views(dirs@);
        let ghost acc0 = best_path(repos@, current@, i as int);
        let mut j: usize = 0;
        while j < dirs.len()
            invariant
                j <= dirs@.len(),
                i < repos@.len(),
                *dirs == repos@[i as int].dirs,
                dv == dir_views(dirs@),
                acc0 == best_path(repos@, current@, i as int),
                match best_in(dv, i as int, current@, j as int, acc0) {
                    Some((a, b, d)) => best matches Some((x, y, e)) && x as int == a && y as int
                        == b && e as int == d,
                    None => best is None,
                },
                best matches Some((a, b, _)) ==> a <= i && b < repos@[a as int].dirs@.len(),
            decreases dirs.len() - j,
        {
            assert(dv[j as int] == crate::session::model::opt_view(dirs@[j as int]));
            match &dirs[j] {
                Some(d) => {
                    if path_matches_current(current, d.as_str()) {
                        let depth = count_components(d.as_str());
                        let better = match best {
                            None => true,
                            Some((_, _, bd)) => depth > bd,
                        };
                        if better {
                            best = Some((i, j, depth));
                        }
                    }
                },
                None => {},
            }
            j += 1;
        }
        i += 1;
    }
    match best {
        Some((a, b, _)) => Some((a, b)),
        None => None,
    }
}

/// How the current session was recognised, and the path that matched.
#[derive(Debug)]
pub enum CurrentSessionSource {
    Tmux(String),
    Zellij(String),
    Worktree(String),
}

impl CurrentSessionSource {
    /// What recognised the session.
    pub fn label(&self) -> (r: &'static str)
        ensures
            r@ == match self {
                CurrentSessionSource::Tmux(_) => "tmux @ez_session_path"@,
                CurrentSessionSource::Zellij(_) => "zellij session name"@,
                CurrentSessionSource::Worktree(_) => "current directory"@,
            },
    {
        match self {
            CurrentSessionSource::Tmux(_) => "tmux @ez_session_path",
            CurrentSessionSource::Zellij(_) => "zellij session name",
            CurrentSessionSource::Worktree(_) => "current directory",
        }
    }

    /// The path that matched.
    pub fn path(&self) -> (r: &str)
        ensures
            r@ == match self {
                CurrentSessionSource::Tmux(p) => p@,
                CurrentSessionSource::Zellij(p) => p@,
                CurrentSessionSource::Worktree(p) => p@,
            },
    {
        match self {
            CurrentSessionSource::Tmux(p) => p.as_str(),
            CurrentSessionSource::Zellij(p) => p.as_str(),
            CurrentSessionSource::Worktree(p) => p.as_str(),
        }
    }
}

/// The session the user is in, its repo, and how it was recognised.
#[derive(Debug)]
pub struct CurrentSessionTarget {
    pub repo_entry: RepoEntry,
    pub session: super::model::Session,
    pub source: CurrentSessionSource,
}

/// A path as given and as the filesystem resolves it.
pub struct SeenPath<'a> {
    pub raw: &'a str,
    pub resolved: &'a str,
}

/// The directory of a found session: its own path, else the repo's.
pub open spec fn found_dir(repos: Seq<LoadedRepo>, i: int, j: int) -> Seq<char> {
    match repos[i].tree@[j].path {
        Some(p) => p,
        None => repos[i].entry.path@,
    }
}

/// Which session is current and how it is recognised, in order: the tmux
/// repo ID and session name; the tmux session path; the zellij session
/// name; the current directory. The source kind is 0 for tmux, 1 for
/// zellij, 2 for the directory.
pub open spec fn resolution(
    repos: Seq<LoadedRepo>,
    tmux_id: Option<Seq<char>>,
    tmux_name: Option<Seq<char>>,
    tmux_path: Option<(Seq<char>, Seq<char>)>,
    zellij: Option<Seq<char>>,
    cwd: (Seq<char>, Seq<char>),
) -> Option<(int, int, int, Seq<char>)> {
    let by_name = match (tmux_id, tmux_name) {
        (Some(a), Some(b)) => named_hit(repos, a, b),
        _ => None,
    };
    let by_tmux_path = match tmux_path {
        Some((_, n)) => best_path(repos, n, repos.len() as int),
        None => None,
    };
    let by_mux = match zellij {
        Some(z) => mux_hit(repos, z),
        None => None,
    };
    let by_cwd = best_path(repos, cwd.1, repos.len() as int);
    if by_name is Some {
        let (i, j) = by_name->0;
        Some((i, j, 0, found_dir(repos, i, j)))
    } else if by_tmux_path is Some {
        let (i, j, _) = by_tmux_path->0;
        let (raw, _resolved) = tmux_path->0;
        Some((i, j, 0, raw))
    } else if by_mux is Some {
        let (i, j) = by_mux->0;
        Some((i, j, 1, found_dir(repos, i, j)))
    } else if by_cwd is Some {
        let (i, j, _) = by_cwd->0;
        Some((i, j, 2, cwd.0))
    } else {
        None
    }
}

/// The source of this kind with this path.
pub open spec fn source_is(s: CurrentSessionSource, kind: int, p: Seq<char>) -> bool {
    match s {
        CurrentSessionSource::Tmux(x) => kind == 0 && x@ == p,
        CurrentSessionSource::Zellij(x) => kind == 1 && x@ == p,
        CurrentSessionSource::Worktree(x) => kind == 2 && x@ == p,
    }
}

fn target_at(repos: &Vec<LoadedRepo>, i: usize, j: usize, kind: u8, path: String) -> (r: CurrentSessionTarget)
    requires
        loaded_ok(repos@),
        i < repos@.len(),
        j < repos@[i as int].tree.sessions@.len(),
        kind <= 2,
    ensures
        r.repo_entry.id@ == repos@[i as int].entry.id@,
        r.repo_entry.path@ == repos@[i as int].entry.path@,
        r.repo_entry.name@ == repos@[i as int].entry.name@,
        r.session@ == repos@[i as int].tree@[j as int],
        source_is(r.source, kind as int, path@),
{
    let source = if kind == 0 {
        CurrentSessionSource::Tmux(path)
    } else if kind == 1 {
        CurrentSessionSource::Zellij(path)
    } else {
        CurrentSessionSource::Worktree(path)
    };
    CurrentSessionTarget {
        repo_entry: repos[i].entry.copy(),
        session: repos[i].tree.sessions[j].copy(),
        source,
    }
}

fn found_path(repos: &Vec<LoadedRepo>, i: usize, j: usize) -> (r: String)
    requires
        i < repos@.len(),
        j < repos@[i as int].tree.sessions@.len(),
    ensures
        r@ == found_dir(repos@, i as int, j as int),
{
    match &repos[i].tree.sessions[j].path {
        Some(p) => p.clone(),
        None => repos[i].entry.path.clone(),
    }
}

/// Resolve the session the user is in from what the terminal multiplexers
/// and the current directory say (paths both as given and as resolved);
/// an error when nothing matches a registered session.
pub fn resolve_current_session(
    repos: &Vec<LoadedRepo>,
    tmux_repo_id: Option<&str>,
    tmux_session_name: Option<&str>,
    tmux_session_path: Option<SeenPath>,
    zellij_name: Option<&str>,
    cwd: SeenPath,
) -> (r: Result<CurrentSessionTarget, EzError>)
    requires
        loaded_ok(repos@),
    ensures
        match resolution(
            repos@,
            match tmux_repo_id {
                Some(a) => Some(a@),
                None => None,
            },
            match tmux_session_name {
                Some(b) => Some(b@),
                None => None,
            },
            match tmux_session_path {
                Some(p) => Some((p.raw@, p.resolved@)),
                None => None,
            },
            match zellij_name {
                Some(z) => Some(z@),
                None => None,
            },
            (cwd.raw@, cwd.resolved@),
        ) {
            Some((i, j, kind, p)) => r matches Ok(t) && t.repo_entry.id@ == repos@[i].entry.id@
                && t.repo_entry.path@ == repos@[i].entry.path@ && t.session@ == repos@[i].tree@[j]
                && source_is(t.source, kind, p),
            None => r matches Err(EzError::SessionNotFound(m)) && m@
                == "current session (tmux user options, zellij session name, and current directory did not match any registered session)"@,
        },
{
    if let (Some(a), Some(b)) = (tmux_repo_id, tmux_session_name) {
        if let Some((i, j)) = find_session_by_name(repos, a, b) {
            proof {
                crate::search::lemma_first_match(repos@, holds_named(a@, b@));
                let hi = crate::search::first_match(repos@, holds_named(a@, b@));
                crate::search::lemma_first_match(repos@[hi].tree@, super::tree::name_is(b@));
            }
            let p = found_path(repos, i, j);
            return Ok(target_at(repos, i, j, 0, p));
        }
    }
    if let Some(tp) = &tmux_session_path {
        if let Some((i, j)) = find_session_by_path(repos, tp.resolved) {
            proof {
                lemma_best_path_bounds(repos@, tp.resolved@, repos@.len() as int);
            }
            return Ok(target_at(repos, i, j, 0, crate::text::owned(tp.raw)));
        }
    }
    if let Some(z) = zellij_name {
        if let Some((i, j)) = find_session_by_mux_name(repos, z) {
            proof {
                crate::search::lemma_first_match(repos@, holds_mux(z@));
                let hi = crate::search::first_match(repos@, holds_mux(z@));
                crate::search::lemma_first_match(
                    repos@[hi].tree@,
                    mux_names(repos@[hi].entry.path@, z@),
                );
            }
            let p = found_path(repos, i, j);
            return Ok(target_at(repos, i, j, 1, p));
        }
    }
    if let Some((i, j)) = find_session_by_path(repos, cwd.resolved) {
        proof {
            lemma_best_path_bounds(repos@, cwd.resolved@, repos@.len() as int);
        }
        return Ok(target_at(repos, i, j, 2, crate::text::owned(cwd.raw)));
    }
    Err(
        EzError::SessionNotFound(
            crate::text::owned(
                "current session (tmux user options, zellij session name, and current directory did not match any registered session)",
            ),
        ),
    )
}

proof fn lemma_best_in_bounds(dirs: Seq<Option<Seq<char>>>, i: int, cur: Seq<char>, m: int, acc: Option<(int, int, nat)>)
    requires
        m <= dirs.len(),
    ensures
        match best_in(dirs, i, cur, m, acc) {
            Some((a, b, _)) => best_in(dirs, i, cur, m, acc) == acc || (a == i && 0 <= b < m),
            None => true,
        },
    decreases m,
{
    if m > 0 {
        lemma_best_in_bounds(dirs, i, cur, m - 1, acc);
    }
}

proof fn lemma_best_path_bounds(repos: Seq<LoadedRepo>, cur: Seq<char>, n: int)
    requires
        loaded_ok(repos),
        n <= repos.len(),
    ensures
        best_path(repos, cur, n) matches Some((i, j, _)) ==> 0 <= i < n && 0 <= j
            < repos[i].tree.sessions@.len(),
    decreases n,
{
    if n > 0 {
        lemma_best_path_bounds(repos, cur, n - 1);
        let d = dir_views(repos[n - 1].dirs@);
        lemma_best_in_bounds(d, n - 1, cur, d.len() as int, best_path(repos, cur, n - 1));
    }
}

} // verus!
