//! The interactive browser's rules: sort modes, label edit input, and the
//! text of the badges shown next to sessions and repositories.
pub mod groups;
pub mod preview;
pub mod selector;
pub mod session_picker;
pub mod views;

use vstd::prelude::*;

use crate::session::model::lookup;
use crate::text::{ascii_lower, decimal, has_prefix, split, trim, views};

verus! {

/// Order of the session picker.
#[derive(Clone, Copy, Debug, PartialEq, Eq, Structural)]
pub enum SortMode {
    Alpha,
    Lru,
}

impl SortMode {
    /// The other mode.
    pub fn toggle(self) -> (r: Self)
        ensures
            r == (match self {
                SortMode::Alpha => SortMode::Lru,
                SortMode::Lru => SortMode::Alpha,
            }),
    {
        match self {
            SortMode::Alpha => SortMode::Lru,
            SortMode::Lru => SortMode::Alpha,
        }
    }

    /// The mode's name in the picker header.
    pub fn label(self) -> (r: &'static str)
        ensures
            r@ == (match self {
                SortMode::Alpha => "A-Z"@,
                SortMode::Lru => "LRU"@,
            }),
    {
        match self {
            SortMode::Alpha => "A-Z",
            SortMode::Lru => "LRU",
        }
    }

    /// `lru` in any ASCII case selects LRU order; anything else A-Z.
    pub fn from_config(s: &str) -> (r: Self)
        ensures
            r == (if ascii_lower(s@) == "lru"@ {
                SortMode::Lru
            } else {
                SortMode::Alpha
            }),
    {
        let lower = crate::text::to_ascii_lower(s);
        if crate::text::str_eq(lower.as_str(), "lru") {
            SortMode::Lru
        } else {
            SortMode::Alpha
        }
    }
}

/// Options of the bare `ez` command.
pub struct BrowseOptions<'a> {
    pub cd_file: Option<&'a str>,
    pub post_cmd_file: Option<&'a str>,
    pub workspace: Option<&'a str>,
    pub repo_flag: Option<&'a str>,
    pub select_by: Option<&'a str>,
    pub all: bool,
    pub on_enter: Option<&'a str>,
    pub on_create: Option<&'a str>,
}

/// Returns true if the `on_create` value means "do nothing" (skip navigation
/// after create).
pub fn on_create_is_noop(v: &str) -> (r: bool)
    ensures
        r == (v@.len() == 0 || v@ == "none"@),
{
    v.unicode_len() == 0 || crate::text::str_eq(v, "none")
}

/// The labels that a label edit adds: each comma-separated piece, trimmed,
/// that is not blank and does not start with `-`.
pub open spec fn label_adds(pieces: Seq<Seq<char>>) -> Seq<Seq<char>>
    decreases pieces.len(),
{
    if pieces.len() == 0 {
        Seq::empty()
    } else {
        let prev = label_adds(pieces.drop_last());
        let t = trim(pieces.last());
        if t.len() == 0 || t[0] == '-' {
            prev
        } else {
            prev.push(t)
        }
    }
}

/// The labels that a label edit removes: each piece `-name`, with `name`
/// trimmed and not blank.
pub open spec fn label_removes(pieces: Seq<Seq<char>>) -> Seq<Seq<char>>
    decreases pieces.len(),
{
    if pieces.len() == 0 {
        Seq::empty()
    } else {
        let prev = label_removes(pieces.drop_last());
        let t = trim(pieces.last());
        if t.len() > 0 && t[0] == '-' && trim(t.drop_first()).len() > 0 {
            prev.push(trim(t.drop_first()))
        } else {
            prev
        }
    }
}

/// Parse a comma-separated label edit string.
///
/// - `foo, bar` → add `foo`, `bar`
/// - `-foo` → remove `foo`
///
/// Returns `(to_add, to_remove)`.
pub fn parse_label_input(input: &str) -> (r: (Vec<String>, Vec<String>))
    ensures
        views(r.0@) == label_adds(split(input@, ',')),
        views(r.1@) == label_removes(split(input@, ',')),
{
    let pieces = crate::text::split_char(input, ',');
    let ghost ps = views(pieces@);
    let mut add: Vec<String> = Vec::new();
    let mut remove: Vec<String> = Vec::new();
    let mut i: usize = 0;
    assert(ps.subrange(0, 0) =~= Seq::<Seq<char>>::empty());
    assert(views(add@) =~= Seq::<Seq<char>>::empty());
    assert(views(remove@) =~= Seq::<Seq<char>>::empty());
    while i < pieces.len()
        invariant
            i <= pieces@.len(),
            ps == views(pieces@),
            views(add@) == label_adds(ps.subrange(0, i as int)),
            views(remove@) == label_removes(ps.subrange(0, i as int)),
        decreases pieces.len() - i,
    {
        let token = crate::text::trimmed(pieces[i].as_str());
        let ghost t = token@;
        proof {
            let pre = ps.subrange(0, i + 1);
            assert(pre.drop_last() =~= ps.subrange(0, i as int));
            assert(pre.last() == pieces@[i as int]@);
        }
        let n = token.as_str().unicode_len();
        if n > 0 {
            if token.as_str().get_char(0) == '-' {
                let cs = crate::text::to_chars(token.as_str());
                let rest = crate::text::string_of(cs.as_slice(), 1, n);
                assert(rest@ =~= t.drop_first());
                let name = crate::text::trimmed(rest.as_str());
                if name.as_str().unicode_len() > 0 {
                    let ghost prev = views(remove@);
                    remove.push(name);
                    assert(views(remove@) =~= prev.push(trim(t.drop_first())));
                }
            } else {
                let ghost prev = views(add@);
                add.push(token);
                assert(views(add@) =~= prev.push(t));
            }
        }
        i += 1;
    }
    assert(ps.subrange(0, i as int) =~= ps);
    (add, remove)
}

/// How the program around the library colors a piece of text.
#[derive(Clone, Copy, Debug, PartialEq, Eq, Structural)]
pub enum Tint {
    Green,
    Red,
    Magenta,
}

/// A piece of text with its color.
#[derive(Debug)]
pub struct Styled {
    pub text: String,
    pub tint: Tint,
}

/// The PR badge of a session from its `ez_pr_number` and `ez_pr_status`
/// variables: `[PR #n status]`, magenta when merged, red when closed, green
/// otherwise; `[PR #n]` in green without a status; nothing without a number.
pub open spec fn pr_badge(env: Seq<(String, String)>) -> Option<(Seq<char>, Tint)> {
    match (lookup(env, "ez_pr_number"@), lookup(env, "ez_pr_status"@)) {
        (Some(num), Some(status)) => Some(
            (
                "[PR #"@ + num@ + " "@ + status@ + "]"@,
                if status@ == "merged"@ {
                    Tint::Magenta
                } else if status@ == "closed"@ {
                    Tint::Red
                } else {
                    Tint::Green
                },
            ),
        ),
        (Some(num), None) => Some(("[PR #"@ + num@ + "]"@, Tint::Green)),
        _ => None,
    }
}

/// Format a PR status indicator for display in the session picker.
pub fn format_pr_indicator(env: &Vec<(String, String)>) -> (r: Option<Styled>)
    ensures
        match r {
            Some(s) => pr_badge(env@) == Some((s.text@, s.tint)),
            None => pr_badge(env@) is None,
        },
{
    let num = crate::session::model::get_value(env, "ez_pr_number");
    let status = crate::session::model::get_value(env, "ez_pr_status");
    match (num, status) {
        (Some(n), Some(st)) => {
            let mut text = crate::text::concat3("[PR #", n.as_str(), " ");
            text.append(st.as_str());
            text.append("]");
            let tint = if crate::text::str_eq(st.as_str(), "merged") {
                Tint::Magenta
            } else if crate::text::str_eq(st.as_str(), "closed") {
                Tint::Red
            } else {
                Tint::Green
            };
            Some(Styled { text, tint })
        },
        (Some(n), None) => Some(
            Styled { text: crate::text::concat3("[PR #", n.as_str(), "]"), tint: Tint::Green },
        ),
        _ => None,
    }
}

/// The age shown for a timestamp `ms` milliseconds in the past: seconds
/// below a minute (none for a time in the future), then minutes, hours,
/// days, each rounded down.
pub open spec fn age_text(ms: int) -> Seq<char> {
    if ms < 60000 {
        decimal(
            if ms < 0 {
                0
            } else {
                (ms / 1000) as nat
            },
        ) + "s ago"@
    } else if ms < 3600000 {
        decimal((ms / 60000) as nat) + "m ago"@
    } else if ms < 86400000 {
        decimal((ms / 3600000) as nat) + "h ago"@
    } else {
        decimal((ms / 86400000) as nat) + "d ago"@
    }
}

/// The age text at `now` of an instant `t`, both in milliseconds.
pub open spec fn age_at(now: int, t: int) -> Seq<char> {
    age_text(now - t)
}

/// The age text for an elapsed time in milliseconds.
pub fn format_age(ms: i128) -> (r: String)
    requires
        -0x1_0000_0000_0000_0000 <= ms <= 0x1_0000_0000_0000_0000,
    ensures
        r@ == age_text(ms as int),
{
    let (n, unit) = if ms < 60000 {
        (
            if ms < 0 {
                0u64
            } else {
                (ms / 1000) as u64
            },
            "s ago",
        )
    } else if ms < 3600000 {
        ((ms / 60000) as u64, "m ago")
    } else if ms < 86400000 {
        ((ms / 3600000) as u64, "h ago")
    } else {
        ((ms / 86400000) as u64, "d ago")
    };
    let mut s = crate::text::decimal_string(n as u128);
    s.append(unit);
    s
}

/// The instant an RFC 3339 timestamp denotes, in milliseconds since the Unix
/// epoch, as chrono reads it; `None` for text chrono does not accept.
pub uninterp spec fn rfc3339_millis(ts: Seq<char>) -> Option<int>;

/// `chrono::DateTime::parse_from_rfc3339`, then `timestamp_millis`. The
/// instant is named by `rfc3339_millis`, a function of the text alone.
#[verifier::external_body]
pub(crate) fn parse_rfc3339_millis(ts: &str) -> (r: Option<i64>)
    ensures
        match r {
            Some(m) => rfc3339_millis(ts@) == Some(m as int),
            None => rfc3339_millis(ts@) is None,
        },
{
    match chrono::DateTime::parse_from_rfc3339(ts) {
        Ok(dt) => Some(dt.timestamp_millis()),
        Err(_) => None,
    }
}

/// `chrono::Utc::now()` in milliseconds since the Unix epoch. It reads the
/// clock, so nothing is stated of the value.
#[verifier::external_body]
pub(crate) fn now_millis() -> (r: i64) {
    chrono::Utc::now().timestamp_millis()
}

/// What the session picker shows for a timestamp at the instant `now`: its
/// age, or the text itself when it is no RFC 3339 timestamp.
pub open spec fn last_accessed_text(ts: Seq<char>, now: int) -> Seq<char> {
    match rfc3339_millis(ts) {
        Some(t) => age_at(now, t),
        None => ts,
    }
}

/// The text for a timestamp seen at `now` (milliseconds since the epoch).
pub fn format_last_accessed_at(ts: &str, now: i64) -> (r: String)
    ensures
        r@ == last_accessed_text(ts@, now as int),
{
    match parse_rfc3339_millis(ts) {
        Some(t) => format_age((now as i128) - (t as i128)),
        None => crate::text::owned(ts),
    }
}

/// Format an RFC 3339 timestamp for display (e.g. "2h ago", "3d ago"); text
/// that is no timestamp is shown as it is. The age is taken at the current
/// time, which the clock gives.
pub fn format_last_accessed(ts: &str) -> (r: String)
    ensures
        exists|now: i64| r@ == #[trigger] last_accessed_text(ts@, now as int),
{
    let now = now_millis();
    let r = format_last_accessed_at(ts, now);
    assert(r@ == last_accessed_text(ts@, now as int));
    r
}

} // verus!
