//! Names under which the Cursor editor keeps a workspace's conversations.
use vstd::prelude::*;

use super::current::{hex_lower, md5_digest};
use vstd::utf8::encode_utf8;

verus! {

/// What `char::is_alphanumeric` returns for `c` (Unicode `Alphabetic` or
/// `Numeric`).
pub uninterp spec fn unicode_alphanumeric(c: char) -> bool;

/// An ASCII letter or digit.
pub open spec fn ascii_alphanumeric(c: char) -> bool {
    ('a' <= c && c <= 'z') || ('A' <= c && c <= 'Z') || ('0' <= c && c <= '9')
}

/// `char::is_alphanumeric`. Its result is named: the Unicode property of the
/// character, a function of the character alone. On ASCII, as std
/// documents, exactly the letters and digits are alphanumeric.
#[verifier::external_body]
fn is_alphanumeric(c: char) -> (r: bool)
    ensures
        r == unicode_alphanumeric(c),
        (c as u32) < 128 ==> (r <==> ascii_alphanumeric(c)),
{
    c.is_alphanumeric()
}

/// Alphanumeric characters kept, every other character a dash.
pub open spec fn dashed(s: Seq<char>) -> Seq<char> {
    s.map_values(|c: char| if unicode_alphanumeric(c) { c } else { '-' })
}

/// Runs of dashes collapsed into one.
pub open spec fn collapse_dashes(s: Seq<char>) -> Seq<char>
    decreases s.len(),
{
    if s.len() == 0 {
        Seq::empty()
    } else {
        let prev = collapse_dashes(s.drop_last());
        if s.last() == '-' && prev.len() > 0 && prev.last() == '-' {
            prev
        } else {
            prev.push(s.last())
        }
    }
}

/// `s` without its leading and trailing dashes (`trim_matches('-')`).
pub open spec fn trim_dashes(s: Seq<char>) -> Seq<char>
    decreases s.len(),
{
    if s.len() > 0 && s[0] == '-' {
        trim_dashes(s.drop_first())
    } else if s.len() > 0 && s.last() == '-' {
        trim_dashes(s.drop_last())
    } else {
        s
    }
}

/// The Cursor workspace slug of a path.
pub open spec fn slug(path: Seq<char>) -> Seq<char> {
    trim_dashes(collapse_dashes(dashed(path)))
}

proof fn lemma_trim_dashes(s: Seq<char>, a: int, b: int)
    requires
        0 <= a <= b <= s.len(),
        forall|j: int| 0 <= j < a ==> s[j] == '-',
        forall|j: int| b <= j < s.len() ==> s[j] == '-',
        a < b ==> s[a] != '-' && s[b - 1] != '-',
        a == b ==> b == s.len(),
    ensures
        trim_dashes(s) == s.subrange(a, b),
    decreases s.len(),
{
    if s.len() > 0 && s[0] == '-' {
        assert forall|j: int| 0 <= j < a - 1 implies s.drop_first()[j] == '-' by {
            assert(s.drop_first()[j] == s[j + 1]);
        }
        if a == 0 {
            assert(a == b);
            lemma_trim_dashes(s.drop_first(), 0, 0);
            assert(s.subrange(0, 0) =~= s.drop_first().subrange(0, 0));
        } else {
            lemma_trim_dashes(s.drop_first(), a - 1, b - 1);
            assert(s.drop_first().subrange(a - 1, b - 1) =~= s.subrange(a, b));
        }
    } else if s.len() > 0 && s.last() == '-' {
        if a == b {
            assert(a == 0);
            assert(false);
        }
        assert(b < s.len());
        lemma_trim_dashes(s.drop_last(), a, b);
        assert(s.drop_last().subrange(a, b) =~= s.subrange(a, b));
    } else {
        if s.len() > 0 {
            assert(a == 0 && b == s.len());
        }
        assert(s.subrange(a, b) =~= s);
    }
}

/// Compute the Cursor workspace slug for a given path: non-alphanumeric
/// characters become dashes, runs of dashes collapse into one, and leading
/// and trailing dashes are dropped.
pub fn cursor_slug(path: &str) -> (r: String)
    ensures
        r@ == slug(path@),
{
    let cs = crate::text::to_chars(path);
    let mut collapsed: Vec<char> = Vec::new();
    let mut i: usize = 0;
    while i < cs.len()
        invariant
            i <= cs@.len(),
            cs@ == path@,
            collapsed@ == collapse_dashes(dashed(path@.subrange(0, i as int))),
        decreases cs.len() - i,
    {
        let c = if is_alphanumeric(cs[i]) {
            cs[i]
        } else {
            '-'
        };
        let ghost before = dashed(path@.subrange(0, i as int));
        proof {
            assert(dashed(path@.subrange(0, i + 1)) =~= before.push(c));
            assert(before.push(c).drop_last() =~= before);
        }
        let n = collapsed.len();
        if !(c == '-' && n > 0 && collapsed[n - 1] == '-') {
            collapsed.push(c);
        }
        i += 1;
    }
    assert(path@.subrange(0, path@.len() as int) =~= path@);
    let n = collapsed.len();
    let mut a: usize = 0;
    while a < n && collapsed[a] == '-'
        invariant
            a <= n,
            n == collapsed@.len(),
            forall|j: int| 0 <= j < a ==> collapsed@[j] == '-',
        decreases n - a,
    {
        a += 1;
    }
    let mut b: usize = n;
    while b > a && collapsed[b - 1] == '-'
        invariant
            a <= b <= n,
            n == collapsed@.len(),
            forall|j: int| b <= j < n ==> collapsed@[j] == '-',
        decreases b,
    {
        b -= 1;
    }
    proof {
        if a == b && b < n {
            assert(collapsed@[b as int] == '-');
            assert forall|j: int| 0 <= j < n implies collapsed@[j] == '-' by {}
        }
        if a == b {
            lemma_trim_dashes(collapsed@, n as int, n as int);
            assert(collapsed@.subrange(n as int, n as int) =~= collapsed@.subrange(a as int, b as int));
        } else {
            lemma_trim_dashes(collapsed@, a as int, b as int);
        }
    }
    crate::text::string_of(collapsed.as_slice(), a, b)
}

/// The Cursor chat hash of a workspace path, given already resolved to its
/// real path: the lower-case hex MD5 of the path's UTF-8 bytes.
pub fn cursor_chat_hash(real_path: &str) -> (r: String)
    ensures
        r@ == hex_lower(md5_digest(encode_utf8(real_path@))),
        r@.len() == 32,
{
    super::current::md5_hex(real_path.as_bytes())
}

/// Every character is alphanumeric or a dash.
pub open spec fn slug_chars(s: Seq<char>) -> bool {
    forall|i: int| 0 <= i < s.len() ==> unicode_alphanumeric(#[trigger] s[i]) || s[i] == '-'
}

/// No two dashes stand side by side.
pub open spec fn no_double_dash(s: Seq<char>) -> bool {
    forall|i: int| 0 <= i < s.len() - 1 ==> !(#[trigger] s[i] == '-' && s[i + 1] == '-')
}

proof fn lemma_collapse_shape(s: Seq<char>)
    ensures
        slug_chars(s) ==> slug_chars(collapse_dashes(s)),
        no_double_dash(collapse_dashes(s)),
        no_double_dash(s) ==> collapse_dashes(s) == s,
    decreases s.len(),
{
    if s.len() > 0 {
        let prev = collapse_dashes(s.drop_last());
        lemma_collapse_shape(s.drop_last());
        if slug_chars(s) {
            assert forall|i: int| 0 <= i < s.drop_last().len() implies unicode_alphanumeric(
                #[trigger] s.drop_last()[i],
            ) || s.drop_last()[i] == '-' by {
                assert(s.drop_last()[i] == s[i]);
            }
            assert(unicode_alphanumeric(s[s.len() - 1]) || s[s.len() - 1] == '-');
        }
        if no_double_dash(s) {
            assert forall|i: int| 0 <= i < s.drop_last().len() - 1 implies !(
            #[trigger] s.drop_last()[i] == '-' && s.drop_last()[i + 1] == '-') by {
                assert(s.drop_last()[i] == s[i] && s.drop_last()[i + 1] == s[i + 1]);
            }
            assert(prev == s.drop_last());
            if s.last() == '-' && prev.len() > 0 && prev.last() == '-' {
                assert(s[s.len() - 2] == '-');
                assert(!(s[s.len() - 2] == '-' && s[s.len() - 2 + 1] == '-'));
            }
            assert(prev.push(s.last()) =~= s);
        }
        if !(s.last() == '-' && prev.len() > 0 && prev.last() == '-') {
            let q = prev.push(s.last());
            assert forall|i: int| 0 <= i < q.len() - 1 implies !(#[trigger] q[i] == '-' && q[i + 1]
                == '-') by {
                if i < prev.len() - 1 {
                    assert(q[i] == prev[i] && q[i + 1] == prev[i + 1]);
                }
            }
        }
    }
}

proof fn lemma_trim_shape(s: Seq<char>) -> (ab: (int, int))
    ensures
        0 <= ab.0 <= ab.1 <= s.len(),
        trim_dashes(s) == s.subrange(ab.0, ab.1),
        trim_dashes(s).len() > 0 ==> trim_dashes(s)[0] != '-' && trim_dashes(s).last() != '-',
        s.len() > 0 && s[0] != '-' && s.last() != '-' ==> trim_dashes(s) == s,
        s.len() == 0 ==> trim_dashes(s) == s,
    decreases s.len(),
{
    if s.len() > 0 && s[0] == '-' {
        let (a, b) = lemma_trim_shape(s.drop_first());
        assert(s.drop_first().subrange(a, b) =~= s.subrange(a + 1, b + 1));
        (a + 1, b + 1)
    } else if s.len() > 0 && s.last() == '-' {
        let (a, b) = lemma_trim_shape(s.drop_last());
        assert(s.drop_last().subrange(a, b) =~= s.subrange(a, b));
        (a, b)
    } else {
        assert(s.subrange(0, s.len() as int) =~= s);
        (0, s.len() as int)
    }
}

/// A slug is made of alphanumeric characters and single dashes, and it
/// neither starts nor ends with a dash.
pub proof fn law_slug_shape(path: Seq<char>)
    ensures
        slug_chars(slug(path)),
        no_double_dash(slug(path)),
        slug(path).len() > 0 ==> slug(path)[0] != '-' && slug(path).last() != '-',
{
    let d = dashed(path);
    assert(slug_chars(d)) by {
        assert forall|i: int| 0 <= i < d.len() implies unicode_alphanumeric(#[trigger] d[i])
            || d[i] == '-' by {
            assert(d[i] == (if unicode_alphanumeric(path[i]) { path[i] } else { '-' }));
        }
    }
    lemma_collapse_shape(d);
    let c = collapse_dashes(d);
    let (a, b) = lemma_trim_shape(c);
    let t = slug(path);
    assert(t == c.subrange(a, b));
    assert forall|i: int| 0 <= i < t.len() implies unicode_alphanumeric(#[trigger] t[i]) || t[i]
        == '-' by {
        assert(t[i] == c[a + i]);
    }
    assert forall|i: int| 0 <= i < t.len() - 1 implies !(#[trigger] t[i] == '-' && t[i + 1] == '-') by {
        assert(t[i] == c[a + i] && t[i + 1] == c[a + i + 1]);
    }
}

/// A slug is its own slug: once the dash is not alphanumeric (as
/// `char::is_alphanumeric` has it), making a slug of a slug changes nothing.
pub proof fn law_slug_idempotent(path: Seq<char>)
    requires
        !unicode_alphanumeric('-'),
    ensures
        slug(slug(path)) == slug(path),
{
    let t = slug(path);
    law_slug_shape(path);
    assert(dashed(t) =~= t) by {
        assert forall|i: int| 0 <= i < t.len() implies dashed(t)[i] == t[i] by {
            assert(unicode_alphanumeric(t[i]) || t[i] == '-');
        }
    }
    lemma_collapse_shape(t);
    lemma_trim_shape(t);
}

/// Not a dash.
pub open spec fn not_dash() -> spec_fn(char) -> bool {
    |c: char| c != '-'
}

/// Alphanumeric, and not a dash.
pub open spec fn kept_char() -> spec_fn(char) -> bool {
    |c: char| unicode_alphanumeric(c) && c != '-'
}

proof fn lemma_dashed_filter(s: Seq<char>)
    ensures
        dashed(s).filter(not_dash()) == s.filter(kept_char()),
    decreases s.len(),
{
    if s.len() > 0 {
        let t = s.drop_last();
        lemma_dashed_filter(t);
        assert(s == t.push(s.last()));
        assert(dashed(s) =~= dashed(t).push(dashed(s).last()));
        crate::session::tree::lemma_filter_push(dashed(t), dashed(s).last(), not_dash());
        crate::session::tree::lemma_filter_push(t, s.last(), kept_char());
    } else {
        assert(dashed(s) =~= Seq::<char>::empty());
        reveal(Seq::filter);
    }
}

proof fn lemma_collapse_filter(s: Seq<char>)
    ensures
        collapse_dashes(s).filter(not_dash()) == s.filter(not_dash()),
    decreases s.len(),
{
    if s.len() > 0 {
        let t = s.drop_last();
        lemma_collapse_filter(t);
        assert(s == t.push(s.last()));
        crate::session::tree::lemma_filter_push(t, s.last(), not_dash());
        crate::session::tree::lemma_filter_push(collapse_dashes(t), s.last(), not_dash());
    } else {
        reveal(Seq::filter);
    }
}

proof fn lemma_trim_filter(s: Seq<char>)
    ensures
        trim_dashes(s).filter(not_dash()) == s.filter(not_dash()),
    decreases s.len(),
{
    if s.len() > 0 && s[0] == '-' {
        lemma_trim_filter(s.drop_first());
        assert(s =~= seq![s[0]] + s.drop_first());
        s.drop_first().lemma_filter_prepend(s[0], not_dash());
        assert(s.filter(not_dash()) =~= s.drop_first().filter(not_dash()));
    } else if s.len() > 0 && s.last() == '-' {
        lemma_trim_filter(s.drop_last());
        assert(s == s.drop_last().push(s.last()));
        crate::session::tree::lemma_filter_push(s.drop_last(), s.last(), not_dash());
    }
}

/// Without its dashes, a slug is the path's alphanumeric characters (other
/// than dashes), in order.
pub proof fn law_slug_keeps_alphanumerics(path: Seq<char>)
    ensures
        slug(path).filter(not_dash()) == path.filter(kept_char()),
{
    lemma_dashed_filter(path);
    lemma_collapse_filter(dashed(path));
    lemma_trim_filter(collapse_dashes(dashed(path)));
}

} // verus!
