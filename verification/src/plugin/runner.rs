//! What the library decides around running a plugin: where its JSON reply
//! starts and ends in its output, and how a failed run is reported.
use vstd::prelude::*;

use super::protocol::HookResponse;
use crate::error::EzError;
use crate::search::{first_match, lemma_first_match, lemma_first_match_is};
use crate::text::{to_chars, trim, trimmed};

verus! {

/// Opening braces minus closing braces in `t`.
pub open spec fn brace_depth(t: Seq<char>) -> int
    decreases t.len(),
{
    if t.len() == 0 {
        0
    } else {
        brace_depth(t.drop_last()) + if t.last() == '{' {
            1int
        } else if t.last() == '}' {
            -1int
        } else {
            0int
        }
    }
}

/// Opening braces.
pub open spec fn is_open_brace() -> spec_fn(char) -> bool {
    |c: char| c == '{'
}

/// `t[start..start+k]` is the first balanced stretch from `start`: its
/// braces balance, and those of no shorter non-empty stretch do.
pub open spec fn first_balanced(t: Seq<char>, start: int, k: int) -> bool {
    &&& 0 < k
    &&& start + k <= t.len()
    &&& brace_depth(t.subrange(start, start + k)) == 0
    &&& forall|m: int| 0 < m < k ==> brace_depth(#[trigger] t.subrange(start, start + m)) != 0
}

/// The first JSON object in `s`: from its first `{` to the brace that
/// balances it; none when `s` has no `{` or the braces never balance.
pub open spec fn json_object_in(s: Seq<char>) -> Option<Seq<char>> {
    let start = first_match(s, is_open_brace());
    if start < s.len() && exists|k: int| first_balanced(s, start, k) {
        let k = choose|k: int| first_balanced(s, start, k);
        Some(s.subrange(start, start + k))
    } else {
        None
    }
}

proof fn lemma_first_balanced_unique(t: Seq<char>, start: int, a: int, b: int)
    requires
        first_balanced(t, start, a),
        first_balanced(t, start, b),
    ensures
        a == b,
{
    if a < b {
        assert(brace_depth(t.subrange(start, start + a)) != 0);
    } else if b < a {
        assert(brace_depth(t.subrange(start, start + b)) != 0);
    }
}

/// Extract the first JSON object from a plugin's output, which may carry
/// other text (such as progress lines) before it.
pub fn extract_json(s: &str) -> (r: Option<String>)
    ensures
        match r {
            Some(x) => json_object_in(s@) == Some(x@),
            None => json_object_in(s@) is None,
        },
{
    let cs = to_chars(s);
    let ghost t = s@;
    proof {
        lemma_first_match(t, is_open_brace());
    }
    let mut start: usize = 0;
    while start < cs.len() && cs[start] != '{'
        invariant
            cs@ == t,
            t == s@,
            start <= t.len(),
            forall|j: int| 0 <= j < start ==> !(is_open_brace())(#[trigger] t[j]),
        decreases cs.len() - start,
    {
        start += 1;
    }
    proof {
        lemma_first_match_is(t, is_open_brace(), start as int);
    }
    if start >= cs.len() {
        return None;
    }
    let mut depth: i128 = 0;
    let mut i: usize = start;
    assert(t.subrange(start as int, start as int) =~= Seq::<char>::empty());
    while i < cs.len()
        invariant
            cs@ == t,
            t == s@,
            t.len() <= usize::MAX,
            start < t.len(),
            first_match(t, is_open_brace()) == start,
            t[start as int] == '{',
            start <= i <= t.len(),
            depth == brace_depth(t.subrange(start as int, i as int)),
            0 <= depth <= i - start,
            i > start ==> depth > 0,
            forall|m: int| 0 < m <= i - start ==> brace_depth(#[trigger] t.subrange(start as int, start + m)) != 0,
        decreases cs.len() - i,
    {
        assert(t.subrange(start as int, i + 1).drop_last() =~= t.subrange(start as int, i as int));
        assert(t.subrange(start as int, i + 1).last() == cs@[i as int]);
        if cs[i] == '{' {
            depth = depth + 1;
        } else if cs[i] == '}' {
            depth = depth - 1;
            if depth == 0 {
                let mut out = String::new();
                let mut j: usize = start;
                while j <= i
                    invariant
                        cs@ == t,
                        t.len() <= usize::MAX,
                        start <= j <= i + 1,
                        i < t.len(),
                        out@ == t.subrange(start as int, j as int),
                    decreases i + 1 - j,
                {
                    crate::text::push_char(&mut out, cs[j]);
                    assert(out@ =~= t.subrange(start as int, j + 1));
                    j += 1;
                }
                proof {
                    let k = i + 1 - start;
                    assert(first_balanced(t, start as int, k));
                    assert forall|k2: int| first_balanced(t, start as int, k2) implies k2 == k by {
                        lemma_first_balanced_unique(t, start as int, k2, k);
                    }
                    assert(exists|k2: int| first_balanced(t, start as int, k2));
                    let kk = choose|k2: int| first_balanced(t, start as int, k2);
                    assert(kk == k);
                    assert(json_object_in(t) == Some(t.subrange(start as int, start + k)));
                }
                return Some(out);
            }
        } else {
        }
        assert(i + 1 > start ==> depth > 0) by {
            if i == start {
                assert(t.subrange(start as int, i + 1) =~= seq![t[start as int]]);
                assert(t.subrange(start as int, i + 1).drop_last() =~= Seq::<char>::empty());
            }
        }
        i += 1;
    }
    proof {
        assert forall|k: int| !first_balanced(t, start as int, k) by {
            if first_balanced(t, start as int, k) {
                assert(brace_depth(t.subrange(start as int, start + k)) != 0);
            }
        }
    }
    None
}

/// The detail of a plugin run that exited with failure: its exit status,
/// then its standard output and error (trimmed) when they are not empty.
pub open spec fn failure_detail_text(status: Seq<char>, stdout: Seq<char>, stderr: Seq<char>) -> Seq<char> {
    "exited with status "@ + status + (if stdout.len() > 0 {
        "\n  stdout: "@ + trim(stdout)
    } else {
        Seq::empty()
    }) + (if stderr.len() > 0 {
        "\n  stderr: "@ + trim(stderr)
    } else {
        Seq::empty()
    })
}

/// The error for a plugin run that exited with failure (`status` is the
/// exit status as the platform prints it).
pub fn run_failed(plugin: &str, status: &str, stdout: &str, stderr: &str) -> (r: EzError)
    ensures
        r matches EzError::PluginFailed(p, d) && p@ == plugin@ && d@ == failure_detail_text(
            status@,
            stdout@,
            stderr@,
        ),
{
    let mut detail = crate::text::concat("exited with status ", status);
    if !stdout.is_empty() {
        detail.append("\n  stdout: ");
        let t = trimmed(stdout);
        detail.append(t.as_str());
    }
    if !stderr.is_empty() {
        detail.append("\n  stderr: ");
        let t = trimmed(stderr);
        detail.append(t.as_str());
    }
    EzError::PluginFailed(crate::text::owned(plugin), detail)
}

/// The error for a plugin whose output holds no JSON object.
pub fn no_json_found(plugin: &str, stdout: &str) -> (r: EzError)
    ensures
        r matches EzError::PluginFailed(p, d) && p@ == plugin@ && d@ == "no JSON found in stdout:\n  "@
            + trim(stdout@),
{
    let t = trimmed(stdout);
    EzError::PluginFailed(crate::text::owned(plugin), crate::text::concat("no JSON found in stdout:\n  ", t.as_str()))
}

/// A plugin's reply as the caller gets it: a reply that reports failure
/// with a message becomes that error; any other reply is passed on.
pub fn checked_response(plugin: &str, response: HookResponse) -> (r: Result<HookResponse, EzError>)
    ensures
        match (response.success, response.error) {
            (false, Some(m)) => r matches Err(EzError::PluginFailed(p, d)) && p@ == plugin@ && d@ == m@,
            _ => r == Ok::<HookResponse, EzError>(response),
        },
{
    if !response.success {
        match &response.error {
            Some(m) => {
                return Err(EzError::PluginFailed(crate::text::owned(plugin), m.clone()));
            },
            None => {},
        }
    }
    Ok(response)
}

} // verus!
