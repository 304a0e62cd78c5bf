//! The session name builder: its modes, the staged name made of parts, and
//! names read from GitHub PR and Jira URLs.
//!
//! Each `choice`-kind stage shows a list of choices plus a `(none)` row. The
//! user can either pick an item, type a custom value, or pick `(none)` to
//! skip the part. `text`-kind stages use a free-text prompt. Ctrl-P goes back
//! to the previous stage. Parts are joined with "-"; `(none)` parts
//! contribute nothing. The final joined name must be non-empty.
use vstd::prelude::*;

use crate::browser::selector::{InteractiveSelector, SelectItem, StageOutcome};
use crate::error::EzError;
use crate::paths::join_with;
use crate::text::{trim, views};

verus! {

/// Result of running the name prompt.
#[derive(Debug)]
pub enum NamePromptResult {
    /// User completed all stages with a non-empty name.
    Done(String),
    /// User cancelled (Esc/Ctrl-C) — caller should abort the operation.
    Cancelled,
}

/// How a session name is entered.
#[derive(Clone, Copy, Debug, PartialEq, Eq, Structural)]
pub enum NameBuilderMode {
    FullName,
    BuildFromParts,
    GitHubPr,
    JiraUrl,
}

/// The row of a mode in the mode picker: what it shows and its value.
pub open spec fn mode_row(m: NameBuilderMode) -> (Seq<char>, Seq<char>) {
    match m {
        NameBuilderMode::FullName => ("Full name (type the whole name)"@, "full_name"@),
        NameBuilderMode::BuildFromParts => (
            "Build from parts (prefix → ticket → name)"@,
            "build_from_parts"@,
        ),
        NameBuilderMode::GitHubPr => ("From GitHub PR (paste PR URL)"@, "github_pr"@),
        NameBuilderMode::JiraUrl => ("From Jira URL (paste Jira link)"@, "jira_url"@),
    }
}

/// The picker rows of the configured modes, in order.
pub fn mode_items(modes: &Vec<NameBuilderMode>) -> (r: Vec<SelectItem>)
    ensures
        r@.len() == modes@.len(),
        forall|i: int|
            0 <= i < modes@.len() ==> (#[trigger] r@[i]).display@ == mode_row(modes@[i]).0
                && r@[i].value@ == mode_row(modes@[i]).1,
{
    let mut out: Vec<SelectItem> = Vec::new();
    let mut i: usize = 0;
    while i < modes.len()
        invariant
            i <= modes@.len(),
            out@.len() == i,
            forall|j: int|
                0 <= j < i ==> (#[trigger] out@[j]).display@ == mode_row(modes@[j]).0
                    && out@[j].value@ == mode_row(modes@[j]).1,
        decreases modes.len() - i,
    {
        let (display, value) = match modes[i] {
            NameBuilderMode::FullName => ("Full name (type the whole name)", "full_name"),
            NameBuilderMode::BuildFromParts => (
                "Build from parts (prefix → ticket → name)",
                "build_from_parts",
            ),
            NameBuilderMode::GitHubPr => ("From GitHub PR (paste PR URL)", "github_pr"),
            NameBuilderMode::JiraUrl => ("From Jira URL (paste Jira link)", "jira_url"),
        };
        out.push(
            SelectItem { display: crate::text::owned(display), value: crate::text::owned(value) },
        );
        i += 1;
    }
    out
}

/// What a staged part is entered with.
#[derive(Clone, Copy, Debug, PartialEq, Eq, Structural)]
pub enum StageKind {
    Choice,
    Text,
}

/// One configured stage of the staged name builder.
#[derive(Debug)]
pub struct NameStage {
    pub name: String,
    pub kind: StageKind,
    pub choices: Vec<String>,
}

/// What a picked or typed value means for its part.
#[derive(Debug)]
pub enum PickResolution {
    Use(String),
    Skip,
}

/// The meaning of a pick: a blank pick, or the `(none)` row of a choice
/// stage, skips the part; anything else is used, trimmed.
pub open spec fn pick_meaning(kind: StageKind, raw: Seq<char>) -> Option<Seq<char>> {
    let t = trim(raw);
    if t.len() == 0 || (kind == StageKind::Choice && t == "__none__"@) {
        None
    } else {
        Some(t)
    }
}

/// Resolve a picked or typed value.
pub fn handle_pick(kind: StageKind, raw: &str) -> (r: PickResolution)
    ensures
        match pick_meaning(kind, raw@) {
            Some(t) => r matches PickResolution::Use(s) && s@ == t,
            None => r is Skip,
        },
{
    let trimmed = crate::text::trimmed(raw);
    if trimmed.as_str().unicode_len() == 0 {
        return PickResolution::Skip;
    }
    if kind == StageKind::Choice && crate::text::str_eq(trimmed.as_str(), "__none__") {
        return PickResolution::Skip;
    }
    PickResolution::Use(trimmed)
}

/// The rows of a choice stage: each choice, then `(none)` when asked for.
pub fn build_items(choices: &Vec<String>, include_none: bool) -> (r: Vec<SelectItem>)
    ensures
        r@.len() == choices@.len() + (if include_none {
            1int
        } else {
            0int
        }),
        forall|i: int|
            0 <= i < choices@.len() ==> (#[trigger] r@[i]).display@ == choices@[i]@ && r@[i].value@
                == choices@[i]@,
        include_none ==> r@[choices@.len() as int].display@ == "(none)"@
            && r@[choices@.len() as int].value@ == "__none__"@,
{
    let mut items: Vec<SelectItem> = Vec::new();
    let mut i: usize = 0;
    while i < choices.len()
        invariant
            i <= choices@.len(),
            items@.len() == i,
            forall|j: int|
                0 <= j < i ==> (#[trigger] items@[j]).display@ == choices@[j]@ && items@[j].value@
                    == choices@[j]@,
        decreases choices.len() - i,
    {
        items.push(SelectItem { display: choices[i].clone(), value: choices[i].clone() });
        i += 1;
    }
    if include_none {
        items.push(
            SelectItem {
                display: crate::text::owned("(none)"),
                value: crate::text::owned("__none__"),
            },
        );
    }
    items
}

/// The non-blank parts, trimmed, in order.
pub open spec fn kept_parts(parts: Seq<Option<Seq<char>>>) -> Seq<Seq<char>>
    decreases parts.len(),
{
    if parts.len() == 0 {
        Seq::empty()
    } else {
        let prev = kept_parts(parts.drop_last());
        match parts.last() {
            Some(p) => if trim(p).len() > 0 {
                prev.push(trim(p))
            } else {
                prev
            },
            None => prev,
        }
    }
}

/// The views of optional parts.
pub open spec fn part_views(parts: Seq<Option<String>>) -> Seq<Option<Seq<char>>> {
    parts.map_values(|p: Option<String>| crate::session::model::opt_view(p))
}

/// The name the parts make: the non-blank ones, trimmed, joined by `-`.
pub fn join_parts(parts: &[Option<String>]) -> (r: String)
    ensures
        r@ == join_with(kept_parts(part_views(parts@)), "-"@),
{
    let ghost pv = part_views(parts@);
    let mut kept: Vec<String> = Vec::new();
    let mut i: usize = 0;
    assert(pv.subrange(0, 0) =~= Seq::<Option<Seq<char>>>::empty());
    assert(views(kept@) =~= Seq::<Seq<char>>::empty());
    while i < parts.len()
        invariant
            i <= parts@.len(),
            pv == part_views(parts@),
            views(kept@) == kept_parts(pv.subrange(0, i as int)),
        decreases parts.len() - i,
    {
        proof {
            let pre = pv.subrange(0, i + 1);
            assert(pre.drop_last() =~= pv.subrange(0, i as int));
            assert(pre.last() == crate::session::model::opt_view(parts@[i as int]));
        }
        match &parts[i] {
            Some(p) => {
                let t = crate::text::trimmed(p.as_str());
                if t.as_str().unicode_len() > 0 {
                    let ghost prev = views(kept@);
                    let ghost tv = t@;
                    kept.push(t);
                    assert(views(kept@) =~= prev.push(tv));
                }
            },
            None => {},
        }
        i += 1;
    }
    assert(pv.subrange(0, i as int) =~= pv);
    crate::paths::join_strings(&kept, "-")
}

/// Where the staged builder is: the stage shown and the parts entered so
/// far (one more part than stages: the final name part).
#[derive(Debug)]
pub struct StagedState {
    pub idx: usize,
    pub parts: Vec<Option<String>>,
}

/// What the staged builder does next.
#[derive(Debug)]
pub enum StagedStep {
    /// Show the stage at the new `idx`.
    Next,
    /// The name is complete.
    Done(String),
    /// The name came out empty; the final stage is shown again.
    Empty,
    /// The user cancelled.
    Cancelled,
}

/// A fresh staged builder for this many stages.
pub fn staged_start(n_stages: usize) -> (r: StagedState)
    requires
        n_stages < usize::MAX,
    ensures
        r.idx == 0,
        r.parts@.len() == n_stages + 1,
        forall|i: int| 0 <= i < r.parts@.len() ==> r.parts@[i] is None,
{
    let mut parts: Vec<Option<String>> = Vec::new();
    let mut i: usize = 0;
    while i <= n_stages
        invariant
            i <= n_stages + 1,
            n_stages < usize::MAX,
            parts@.len() == i,
            forall|j: int| 0 <= j < i ==> parts@[j] is None,
        decreases n_stages + 1 - i,
    {
        parts.push(None);
        i += 1;
    }
    StagedState { idx: 0, parts }
}

/// The step of the staged builder after the answer `outcome` to the stage
/// at `i` of `n` (the final stage when `i == n`), with the parts `before`
/// and `after` and the stage shown after it:
/// - a picked value that counts is stored; on the final stage the joined
///   name ends the builder, or when it is empty the final part is cleared
///   and the final stage asked again; else the next stage follows;
/// - a skipped part is cleared and the next stage follows, but on the final
///   stage the builder reports an empty name and asks again;
/// - back goes to the previous stage (staying at the first);
/// - cancel ends the builder.
pub open spec fn is_staged_step(
    i: int,
    n: int,
    before: Seq<Option<Seq<char>>>,
    kind: StageKind,
    outcome: StageOutcome,
    r: StagedStep,
    after: Seq<Option<Seq<char>>>,
    after_idx: int,
) -> bool {
    let is_final = i == n;
    match outcome {
        StageOutcome::Picked(raw) => match pick_meaning(kind, raw@) {
            Some(t) => {
                let filled = before.update(i, Some(t));
                if is_final {
                    let name = join_with(kept_parts(filled), "-"@);
                    if name.len() == 0 {
                        r is Empty && after == before.update(i, None) && after_idx == i
                    } else {
                        r matches StagedStep::Done(nm) && nm@ == name && after == filled
                    }
                } else {
                    r is Next && after == filled && after_idx == i + 1
                }
            },
            None => if is_final {
                r is Empty && after == before && after_idx == i
            } else {
                r is Next && after == before.update(i, None) && after_idx == i + 1
            },
        },
        StageOutcome::Back => r is Next && after == before && after_idx == (if i > 0 {
            i - 1
        } else {
            0
        }),
        StageOutcome::Cancel => r is Cancelled && after == before && after_idx == i,
    }
}

/// The step of the staged builder after the user answered the stage at
/// `idx` (the final stage when `idx` is the number of stages):
/// - a picked value that counts is stored; on the final stage the joined
///   name ends the builder, or when it is empty the final part is cleared
///   and the final stage asked again; else the next stage follows;
/// - a skipped part is cleared and the next stage follows, but on the final
///   stage the builder reports an empty name and asks again;
/// - back goes to the previous stage (staying at the first);
/// - cancel ends the builder.
pub fn staged_step(state: &mut StagedState, n_stages: usize, kind: StageKind, outcome: StageOutcome) -> (r:
    StagedStep)
    requires
        old(state).idx <= n_stages,
        old(state).parts@.len() == n_stages + 1,
    ensures
        final(state).parts@.len() == n_stages + 1,
        final(state).idx <= n_stages,
        is_staged_step(
            old(state).idx as int,
            n_stages as int,
            part_views(old(state).parts@),
            kind,
            outcome,
            r,
            part_views(final(state).parts@),
            final(state).idx as int,
        ),
{
    let i = state.idx;
    let is_final = i == n_stages;
    let ghost before = part_views(state.parts@);
    match outcome {
        StageOutcome::Picked(raw) => match handle_pick(kind, raw.as_str()) {
            PickResolution::Use(s) => {
                let ghost sv = s@;
                state.parts.set(i, Some(s));
                assert(part_views(state.parts@) =~= before.update(i as int, Some(sv)));
                if is_final {
                    let joined = join_parts(state.parts.as_slice());
                    if joined.as_str().unicode_len() == 0 {
                        state.parts.set(i, None);
                        assert(part_views(state.parts@) =~= before.update(i as int, None));
                        return StagedStep::Empty;
                    }
                    return StagedStep::Done(joined);
                }
                state.idx = i + 1;
                StagedStep::Next
            },
            PickResolution::Skip => {
                if is_final {
                    return StagedStep::Empty;
                }
                state.parts.set(i, None);
                assert(part_views(state.parts@) =~= before.update(i as int, None));
                state.idx = i + 1;
                StagedStep::Next
            },
        },
        StageOutcome::Back => {
            if i > 0 {
                state.idx = i - 1;
            }
            StagedStep::Next
        },
        StageOutcome::Cancel => StagedStep::Cancelled,
    }
}

/// The text shown before the answer of a stage: the name so far and a
/// dash, when there is a name so far.
pub fn stage_context(parts: &Vec<Option<String>>, idx: usize) -> (r: Option<String>)
    requires
        idx <= parts@.len(),
    ensures
        ({
            let so_far = join_with(kept_parts(part_views(parts@.subrange(0, idx as int))), "-"@);
            if so_far.len() == 0 {
                r is None
            } else {
                r matches Some(c) && c@ == so_far + "-"@
            }
        }),
{
    let so_far = join_parts(&parts.as_slice()[0..idx]);
    if so_far.as_str().unicode_len() == 0 {
        None
    } else {
        Some(crate::text::concat(so_far.as_str(), "-"))
    }
}

/// The outcome of the full-name prompt: a non-blank name (trimmed) is done,
/// cancel or back cancels, and a blank name is asked again (`None`).
pub fn full_name_outcome(outcome: StageOutcome) -> (r: Option<NamePromptResult>)
    ensures
        match outcome {
            StageOutcome::Picked(name) => if trim(name@).len() > 0 {
                r matches Some(NamePromptResult::Done(n)) && n@ == trim(name@)
            } else {
                r is None
            },
            _ => r matches Some(NamePromptResult::Cancelled),
        },
{
    match outcome {
        StageOutcome::Picked(name) => {
            let t = crate::text::trimmed(name.as_str());
            if t.as_str().unicode_len() > 0 {
                Some(NamePromptResult::Done(t))
            } else {
                None
            }
        },
        _ => Some(NamePromptResult::Cancelled),
    }
}

/// The pattern of a GitHub pull request URL; its group is the PR number.
pub const GITHUB_PR_PATTERN: &'static str = "github\\.com/[^/]+/[^/]+/pull/(\\d+)";

/// The pattern of a Jira ticket URL; its group is the ticket key.
pub const JIRA_TICKET_PATTERN: &'static str = "/browse/([A-Z][A-Z0-9]+-\\d+)";

/// The first capture group of the leftmost match of the regular expression
/// `pattern` in `text`, as the regex crate finds it; nothing when the
/// pattern does not compile, does not match, or its group took no part.
pub uninterp spec fn regex_first_capture(pattern: Seq<char>, text: Seq<char>) -> Option<Seq<char>>;

/// `regex::Regex::new(pattern)`, then `captures(text)`, group 1. Its result
/// is named, not described: a function of the pattern and the text alone.
#[verifier::external_body]
fn first_capture(pattern: &str, text: &str) -> (r: Option<String>)
    ensures
        crate::session::model::opt_view(r) == regex_first_capture(pattern@, text@),
{
    let re = match regex::Regex::new(pattern) {
        Ok(re) => re,
        Err(_) => return None,
    };
    match re.captures(text) {
        Some(c) => c.get(1).map(|m| m.as_str().to_string()),
        None => None,
    }
}

/// The number of the GitHub pull request a URL names.
pub open spec fn github_pr_number(text: Seq<char>) -> Option<Seq<char>> {
    regex_first_capture(GITHUB_PR_PATTERN@, text)
}

/// The session name a GitHub PR URL suggests: `pr<number>` for the trimmed
/// URL, nothing when it names no PR.
pub fn github_pr_candidate(url: &str) -> (r: Option<String>)
    ensures
        match github_pr_number(trim(url@)) {
            Some(n) => r matches Some(c) && c@ == "pr"@ + n,
            None => r is None,
        },
{
    let u = crate::text::trimmed(url);
    match first_capture(GITHUB_PR_PATTERN, u.as_str()) {
        Some(n) => Some(crate::text::concat("pr", n.as_str())),
        None => None,
    }
}

/// The Jira ticket key a URL names.
pub open spec fn jira_ticket(text: Seq<char>) -> Option<Seq<char>> {
    regex_first_capture(JIRA_TICKET_PATTERN@, text)
}

/// What the Jira prompt does with the URL typed.
#[derive(Debug)]
pub enum JiraRead {
    /// Nothing typed: cancel.
    Cancelled,
    /// No ticket in it: ask again.
    NoTicket,
    /// The ticket key found.
    Ticket(String),
}

/// Read a Jira URL: blank cancels, a URL without a ticket is asked again.
pub fn read_jira_url(url: &str) -> (r: JiraRead)
    ensures
        if trim(url@).len() == 0 {
            r is Cancelled
        } else {
            match jira_ticket(trim(url@)) {
                Some(t) => r matches JiraRead::Ticket(k) && k@ == t,
                None => r is NoTicket,
            }
        },
{
    let u = crate::text::trimmed(url);
    if u.as_str().unicode_len() == 0 {
        return JiraRead::Cancelled;
    }
    match first_capture(JIRA_TICKET_PATTERN, u.as_str()) {
        Some(t) => JiraRead::Ticket(t),
        None => JiraRead::NoTicket,
    }
}

/// The name from a Jira ticket and an optional suffix: `TICKET-suffix`, or
/// the ticket alone without a (non-empty) suffix.
pub fn jira_name(ticket: &str, suffix: Option<String>) -> (r: String)
    ensures
        r@ == match suffix {
            Some(s) => if s@.len() > 0 {
                ticket@ + "-"@ + s@
            } else {
                ticket@
            },
            None => ticket@,
        },
{
    match suffix {
        Some(s) => if s.as_str().unicode_len() > 0 {
            crate::text::concat3(ticket, "-", s.as_str())
        } else {
            crate::text::owned(ticket)
        },
        None => crate::text::owned(ticket),
    }
}

/// The suffix a final-suffix prompt gave: the trimmed text when not blank;
/// nothing on blank, cancel or back.
pub open spec fn suffix_of(outcome: StageOutcome) -> Option<Seq<char>> {
    match outcome {
        StageOutcome::Picked(text) => if trim(text@).len() > 0 {
            Some(trim(text@))
        } else {
            None
        },
        _ => None,
    }
}

/// The suffix a final-suffix prompt gave.
pub fn final_suffix(outcome: StageOutcome) -> (r: Option<String>)
    ensures
        crate::session::model::opt_view(r) == suffix_of(outcome),
{
    match outcome {
        StageOutcome::Picked(text) => {
            let t = crate::text::trimmed(text.as_str());
            if t.as_str().unicode_len() > 0 {
                Some(t)
            } else {
                None
            }
        },
        _ => None,
    }
}

/// Prompt for a final descriptive suffix, after the structured part of the
/// name is known: a free-text prompt `name` with no default and no back.
/// Returns the trimmed text, or nothing on cancel, back or an empty answer;
/// the selector's error as it came. (`context`, the name so far, is what
/// the prompt is about; the selector interface has no place to show it.)
/// What comes back is an answer the selector gives to that prompt;
/// `final_suffix` states what each answer gives.
pub fn prompt_final_suffix<S: InteractiveSelector>(selector: &S, context: Option<&str>) -> (r: Result<
    Option<String>,
    EzError,
>)
    ensures
        match r {
            Ok(v) => exists|o: StageOutcome|
                #[trigger] selector.answers("name"@, None, false, Ok(o))
                    && crate::session::model::opt_view(v) == suffix_of(o),
            Err(e) => selector.answers("name"@, None, false, Err(e)),
        },
{
    match selector.input_with_back("name", None, false) {
        Ok(o) => {
            let ghost ov = o;
            let v = final_suffix(o);
            assert(selector.answers("name"@, None, false, Ok(ov)));
            assert(suffix_of(ov) == crate::session::model::opt_view(v));
            Ok(v)
        },
        Err(e) => Err(e),
    }
}

/// The picker rows of the modes.
pub open spec fn mode_rows(modes: Seq<NameBuilderMode>) -> Seq<(Seq<char>, Seq<char>)> {
    modes.map_values(|m: NameBuilderMode| mode_row(m))
}

/// The mode a new session's name is entered with: none configured cancels
/// (`None`) and one is used, both without asking; otherwise the user picks
/// from the modes' rows under `naming mode`, a cancelled pick (or one past
/// the rows) giving `None`.
pub fn choose_name_mode<S: InteractiveSelector>(selector: &S, modes: &Vec<NameBuilderMode>) -> (r:
    Result<Option<NameBuilderMode>, EzError>)
    ensures
        modes@.len() == 0 ==> r == Ok::<Option<NameBuilderMode>, EzError>(None),
        modes@.len() == 1 ==> r == Ok::<Option<NameBuilderMode>, EzError>(Some(modes@[0])),
        modes@.len() > 1 ==> match r {
            Ok(Some(m)) => exists|k: usize|
                k < modes@.len() && m == modes@[k as int] && #[trigger] selector.picks_one(
                    mode_rows(modes@),
                    "naming mode"@,
                    Ok(Some(k)),
                ),
            Ok(None) => selector.picks_one(mode_rows(modes@), "naming mode"@, Ok(None)) || exists|
                k: usize,
            |
                k >= modes@.len() && #[trigger] selector.picks_one(
                    mode_rows(modes@),
                    "naming mode"@,
                    Ok(Some(k)),
                ),
            Err(e) => selector.picks_one(mode_rows(modes@), "naming mode"@, Err(e)),
        },
{
    if modes.len() == 0 {
        return Ok(None);
    }
    if modes.len() == 1 {
        return Ok(Some(modes[0]));
    }
    let items = mode_items(modes);
    assert(crate::browser::selector::item_views(items@) =~= mode_rows(modes@));
    match selector.select_one(items.as_slice(), "naming mode", None) {
        Ok(Some(k)) => {
            if k < modes.len() {
                Ok(Some(modes[k]))
            } else {
                Ok(None)
            }
        },
        Ok(None) => Ok(None),
        Err(e) => Err(e),
    }
}

/// What one answer to the full-name prompt gives: a non-blank name
/// (trimmed) is done, cancel or back cancels, a blank name asks again
/// (`None`).
pub open spec fn full_name_step(o: StageOutcome, x: Option<NamePromptResult>) -> bool {
    match o {
        StageOutcome::Picked(name) => if trim(name@).len() > 0 {
            x matches Some(NamePromptResult::Done(n)) && n@ == trim(name@)
        } else {
            x is None
        },
        _ => x matches Some(NamePromptResult::Cancelled),
    }
}

/// One round of the full-name mode: a free-text prompt `session name` with
/// no default and no back, and what its answer gives (`None`: ask again).
pub fn prompt_full_name_once<S: InteractiveSelector>(selector: &S) -> (r: Result<
    Option<NamePromptResult>,
    EzError,
>)
    ensures
        match r {
            Ok(x) => exists|o: StageOutcome|
                #[trigger] selector.answers("session name"@, None, false, Ok(o)) && full_name_step(o, x),
            Err(e) => selector.answers("session name"@, None, false, Err(e)),
        },
{
    match selector.input_with_back("session name", None, false) {
        Ok(o) => {
            let ghost ov = o;
            let x = full_name_outcome(o);
            assert(selector.answers("session name"@, None, false, Ok(ov)));
            assert(full_name_step(ov, x));
            Ok(x)
        },
        Err(e) => Err(e),
    }
}

/// What one round of the GitHub PR mode gives.
#[derive(Debug)]
pub enum PrNameStep {
    /// The URL names a pull request: its candidate name `pr<number>`, which
    /// a naming plugin may still replace.
    Candidate { url: String, candidate: String },
    /// No pull request in it: ask again.
    Again,
    /// Cancel or back.
    Cancelled,
}

/// What one answer to the GitHub PR prompt gives.
pub open spec fn pr_name_step(o: StageOutcome, x: PrNameStep) -> bool {
    match o {
        StageOutcome::Picked(url) => match github_pr_number(trim(url@)) {
            Some(n) => x matches PrNameStep::Candidate { url: u, candidate: c } && u@ == trim(url@)
                && c@ == "pr"@ + n,
            None => x is Again,
        },
        _ => x is Cancelled,
    }
}

/// One round of the GitHub PR mode: a free-text prompt `GitHub PR URL`
/// with no default and no back, and what its answer gives.
pub fn prompt_github_pr_once<S: InteractiveSelector>(selector: &S) -> (r: Result<PrNameStep, EzError>)
    ensures
        match r {
            Ok(x) => exists|o: StageOutcome|
                #[trigger] selector.answers("GitHub PR URL"@, None, false, Ok(o)) && pr_name_step(o, x),
            Err(e) => selector.answers("GitHub PR URL"@, None, false, Err(e)),
        },
{
    match selector.input_with_back("GitHub PR URL", None, false) {
        Ok(o) => {
            let ghost ov = o;
            assert(selector.answers("GitHub PR URL"@, None, false, Ok(ov)));
            match o {
                StageOutcome::Picked(url) => {
                    let u = crate::text::trimmed(url.as_str());
                    match github_pr_candidate(u.as_str()) {
                        Some(c) => {
                            proof {
                                crate::text::lemma_trim_shape(url@);
                            }
                            Ok(PrNameStep::Candidate { url: u, candidate: c })
                        },
                        None => {
                            proof {
                                crate::text::lemma_trim_shape(url@);
                            }
                            Ok(PrNameStep::Again)
                        },
                    }
                },
                _ => Ok(PrNameStep::Cancelled),
            }
        },
        Err(e) => Err(e),
    }
}

/// The Jira name from a ticket and the answer to the suffix prompt.
pub open spec fn jira_name_of(ticket: Seq<char>, o: StageOutcome) -> Seq<char> {
    match suffix_of(o) {
        Some(sfx) => ticket + "-"@ + sfx,
        None => ticket,
    }
}

/// One round of the Jira mode: a free-text prompt `Jira URL` with no
/// default and no back. A blank URL, cancel or back cancels; a URL without
/// a ticket asks again (`None`); a ticket is followed by the suffix prompt
/// and gives `TICKET-suffix`, or the ticket alone without a suffix.
pub fn prompt_jira_url_once<S: InteractiveSelector>(selector: &S) -> (r: Result<
    Option<NamePromptResult>,
    EzError,
>)
    ensures
        match r {
            Ok(x) => exists|o: StageOutcome|
                #[trigger] selector.answers("Jira URL"@, None, false, Ok(o)) && match o {
                    StageOutcome::Picked(url) => if trim(url@).len() == 0 {
                        x matches Some(NamePromptResult::Cancelled)
                    } else {
                        match jira_ticket(trim(url@)) {
                            Some(t) => x matches Some(NamePromptResult::Done(n)) && exists|
                                o2: StageOutcome,
                            |
                                #[trigger] selector.answers("name"@, None, false, Ok(o2)) && n@
                                    == jira_name_of(t, o2),
                            None => x is None,
                        }
                    },
                    _ => x matches Some(NamePromptResult::Cancelled),
                },
            Err(e) => selector.answers("Jira URL"@, None, false, Err(e)) || selector.answers(
                "name"@,
                None,
                false,
                Err(e),
            ),
        },
{
    match selector.input_with_back("Jira URL", None, false) {
        Ok(o) => {
            let ghost ov = o;
            assert(selector.answers("Jira URL"@, None, false, Ok(ov)));
            match o {
                StageOutcome::Picked(url) => match read_jira_url(url.as_str()) {
                    JiraRead::Cancelled => Ok(Some(NamePromptResult::Cancelled)),
                    JiraRead::NoTicket => Ok(None),
                    JiraRead::Ticket(t) => {
                        let ctx = crate::text::concat(t.as_str(), "-");
                        match prompt_final_suffix(selector, Some(ctx.as_str())) {
                            Ok(sfx) => {
                                let ghost sv = crate::session::model::opt_view(sfx);
                                let n = jira_name(t.as_str(), sfx);
                                proof {
                                    let o2 = choose|o2: StageOutcome|
                                        #[trigger] selector.answers("name"@, None, false, Ok(o2))
                                            && sv == suffix_of(o2);
                                    assert(n@ == jira_name_of(t@, o2));
                                }
                                Ok(Some(NamePromptResult::Done(n)))
                            },
                            Err(e) => Err(e),
                        }
                    },
                },
                _ => Ok(Some(NamePromptResult::Cancelled)),
            }
        },
        Err(e) => Err(e),
    }
}

/// The rows of a choice stage: each choice, then the `(none)` row.
pub open spec fn choice_rows(choices: Seq<String>) -> Seq<(Seq<char>, Seq<char>)> {
    choices.map_values(|c: String| (c@, c@)).push(("(none)"@, "__none__"@))
}

/// How the stage at `i` is entered: the final stage (`i` past the
/// configured stages) is the free-text name.
pub open spec fn kind_at(stages: Seq<NameStage>, i: int) -> StageKind {
    if i == stages.len() {
        StageKind::Text
    } else {
        stages[i].kind
    }
}

/// `out` is what the selector answered to the stage at `i`: the final
/// stage is the free-text prompt `name`; a choice stage lists its choices
/// and `(none)` under its name; a text stage is a free-text prompt under
/// its name; back is allowed after the first stage.
pub open spec fn stage_answer<S: InteractiveSelector>(
    selector: &S,
    stages: Seq<NameStage>,
    i: int,
    out: Result<StageOutcome, EzError>,
) -> bool {
    if i == stages.len() {
        selector.answers("name"@, None, i > 0, out)
    } else if stages[i].kind == StageKind::Choice {
        selector.answers_choice(stages[i].name@, choice_rows(stages[i].choices@), i > 0, out)
    } else {
        selector.answers(stages[i].name@, None, i > 0, out)
    }
}

/// One round of the build-from-parts mode: the stage at `state.idx` is
/// asked and its answer applied as `staged_step` does; a selector error
/// leaves the state as it was.
pub fn prompt_stage_once<S: InteractiveSelector>(
    selector: &S,
    stages: &Vec<NameStage>,
    state: &mut StagedState,
) -> (r: Result<StagedStep, EzError>)
    requires
        old(state).idx <= stages@.len(),
        old(state).parts@.len() == stages@.len() + 1,
    ensures
        final(state).parts@.len() == stages@.len() + 1,
        final(state).idx <= stages@.len(),
        match r {
            Ok(step) => exists|o: StageOutcome|
                #[trigger] stage_answer(selector, stages@, old(state).idx as int, Ok(o))
                    && is_staged_step(
                    old(state).idx as int,
                    stages@.len() as int,
                    part_views(old(state).parts@),
                    kind_at(stages@, old(state).idx as int),
                    o,
                    step,
                    part_views(final(state).parts@),
                    final(state).idx as int,
                ),
            Err(e) => stage_answer(selector, stages@, old(state).idx as int, Err(e)) && *final(state)
                == *old(state),
        },
{
    let i = state.idx;
    let n = stages.len();
    let allow_back = i > 0;
    let (answer, kind) = if i == n {
        (selector.input_with_back("name", None, allow_back), StageKind::Text)
    } else {
        let stage = &stages[i];
        match stage.kind {
            StageKind::Choice => {
                let items = build_items(&stage.choices, true);
                assert(crate::browser::selector::item_views(items@) =~= choice_rows(stage.choices@));
                (selector.select_with_back(stage.name.as_str(), items.as_slice(), allow_back), StageKind::Choice)
            },
            StageKind::Text => (selector.input_with_back(stage.name.as_str(), None, allow_back), StageKind::Text),
        }
    };
    match answer {
        Ok(o) => {
            let ghost ov = o;
            assert(stage_answer(selector, stages@, i as int, Ok(ov)));
            let step = staged_step(state, n, kind, o);
            Ok(step)
        },
        Err(e) => Err(e),
    }
}

} // verus!
