//! The interactive selector: the arguments fzf runs with, and what its exit
//! status and output mean.
use vstd::prelude::*;

use crate::config::model::FzfConfig;
use crate::error::EzError;
use crate::paths::{join_with, unicode_lowercase};
use crate::search::{first_match, lemma_first_match_is};
use crate::text::{before_tab, braces_to_first_field, line_at, lines, trim, views, words};

verus! {

/// An item presented in the interactive selector.
#[derive(Debug)]
pub struct SelectItem {
    /// What the user sees in the list
    pub display: String,
    /// Internal identifier
    pub value: String,
}

/// The items as text: `(display, value)` each.
pub open spec fn item_views(items: Seq<SelectItem>) -> Seq<(Seq<char>, Seq<char>)> {
    items.map_values(|i: SelectItem| (i.display@, i.value@))
}

/// Result of a selection with action keybinds.
#[derive(Debug)]
pub enum ActionResult {
    /// User pressed Enter — enter/select the item at index.
    Select(usize),
    /// User pressed a keybind — action key + selected index.
    Action(String, usize),
    /// User cancelled (Escape/Ctrl-C).
    Cancel,
}

/// Outcome of a back-aware selection prompt used by multi-stage flows.
/// Selection-only — free-text input is a separate `input` call.
#[derive(Debug)]
pub enum StageOutcome {
    /// User picked an item; the string is the SelectItem.value. Sentinel
    /// values like "(custom)" or "(none)" are matched by the caller.
    Picked(String),
    /// User asked to go back to the previous stage.
    Back,
    /// User cancelled the whole flow (Esc / Ctrl-C).
    Cancel,
}

/// Trait for interactive selection UIs. The program's default uses fzf;
/// implementors can swap in skim, dialoguer, or a TUI framework.
pub trait InteractiveSelector {
    /// `out` is an answer this selector may give when asked to pick one of
    /// the items (`(display, value)` each) under `prompt`. Every answer may
    /// come unless an implementation says less.
    open spec fn picks_one(
        &self,
        items: Seq<(Seq<char>, Seq<char>)>,
        prompt: Seq<char>,
        out: Result<Option<usize>, EzError>,
    ) -> bool {
        true
    }

    /// Present a list of items, return the selected item's index.
    fn select_one(&self, items: &[SelectItem], prompt: &str, preview_cmd: Option<&str>) -> (r: Result<
        Option<usize>,
        EzError,
    >)
        ensures
            self.picks_one(item_views(items@), prompt@, r),
    ;

    /// Present items and allow multiple selection (Tab to toggle in fzf).
    fn select_many(&self, items: &[SelectItem], prompt: &str) -> Result<Vec<usize>, EzError>;

    /// Prompt for free-text input with optional default.
    fn input(&self, prompt: &str, default: Option<&str>) -> Result<String, EzError>;

    /// Confirm yes/no.
    fn confirm(&self, prompt: &str, default: bool) -> Result<bool, EzError>;

    /// `out` is an answer this selector may give to a pick-or-go-back
    /// prompt over these items. Every answer may come unless an
    /// implementation says less.
    open spec fn answers_choice(
        &self,
        prompt: Seq<char>,
        items: Seq<(Seq<char>, Seq<char>)>,
        allow_back: bool,
        out: Result<StageOutcome, EzError>,
    ) -> bool {
        true
    }

    /// Selection-only prompt with optional Ctrl-P back keybind.
    fn select_with_back(&self, prompt: &str, items: &[SelectItem], allow_back: bool) -> (r: Result<
        StageOutcome,
        EzError,
    >)
        ensures
            self.answers_choice(prompt@, item_views(items@), allow_back, r),
    ;

    /// Free-text input with optional Ctrl-P back keybind.
    /// `out` is an answer this selector may give to a free-text prompt
    /// `prompt` with this default and back setting. Every answer may come
    /// unless an implementation says less; callers generic in the selector
    /// learn only that what they got is such an answer.
    open spec fn answers(
        &self,
        prompt: Seq<char>,
        default: Option<Seq<char>>,
        allow_back: bool,
        out: Result<StageOutcome, EzError>,
    ) -> bool {
        true
    }

    fn input_with_back(&self, prompt: &str, default: Option<&str>, allow_back: bool) -> (r: Result<
        StageOutcome,
        EzError,
    >)
        ensures
            self.answers(
                prompt@,
                match default {
                    Some(d) => Some(d@),
                    None => None,
                },
                allow_back,
                r,
            ),
    ;

    /// Present items with keybind actions. Returns which key was pressed +
    /// selected index.
    fn select_with_actions(
        &self,
        items: &[SelectItem],
        prompt: &str,
        preview_cmd: Option<&str>,
        expect_keys: &[String],
        header: Option<&str>,
    ) -> Result<ActionResult, EzError>;
}

/// fzf-based interactive selector: its settings.
#[derive(Debug)]
pub struct FzfSelector {
    pub height: String,
    pub extra_opts: Option<String>,
}

/// The program the fzf selector runs.
pub const FZF_PROGRAM: &'static str = "fzf";

/// Whether a program is found on the search path (`which::which`). It
/// depends on the environment, so nothing is stated of the answer.
#[verifier::external_body]
fn on_path(program: &str) -> (r: bool) {
    which::which(program).is_ok()
}

/// The words of the extra fzf options.
pub open spec fn extra_words(o: Option<String>) -> Seq<Seq<char>> {
    match o {
        Some(s) => words(s@),
        None => Seq::empty(),
    }
}

/// The arguments fzf's list-based prompts start with.
pub open spec fn list_args(prompt: Seq<char>, height: Seq<char>) -> Seq<Seq<char>> {
    seq!["--prompt"@, prompt + "> "@, "--height"@, height, "--layout"@, "reverse"@, "--ansi"@]
}

/// Show only the display part of `value<TAB>display` lines.
pub open spec fn value_prefix_args() -> Seq<Seq<char>> {
    seq!["--delimiter"@, "\t"@, "--with-nth"@, "2.."@]
}

/// A preview pane running `cmd` on the selected item's value.
pub open spec fn preview_args(cmd: Seq<char>) -> Seq<Seq<char>> {
    seq!["--preview"@, braces_to_first_field(cmd), "--preview-window"@, "right:50%"@]
}

fn push_str(v: &mut Vec<String>, s: &str)
    ensures
        views(final(v)@) == views(old(v)@).push(s@),
{
    let ghost before = views(v@);
    v.push(crate::text::owned(s));
    assert(views(v@) =~= before.push(s@));
}

fn push_string(v: &mut Vec<String>, s: String)
    ensures
        views(final(v)@) == views(old(v)@).push(s@),
{
    let ghost before = views(v@);
    let ghost sv = s@;
    v.push(s);
    assert(views(v@) =~= before.push(sv));
}

fn append_strings(v: &mut Vec<String>, w: Vec<String>)
    ensures
        views(final(v)@) == views(old(v)@) + views(w@),
{
    let ghost before = views(v@);
    let mut i: usize = 0;
    while i < w.len()
        invariant
            i <= w@.len(),
            views(v@) == before + views(w@).subrange(0, i as int),
        decreases w.len() - i,
    {
        let ghost prev = views(v@);
        v.push(w[i].clone());
        assert(views(v@) =~= prev.push(w@[i as int]@));
        i += 1;
        assert(views(v@) =~= before + views(w@).subrange(0, i as int));
    }
    assert(views(w@).subrange(0, i as int) =~= views(w@));
}

impl FzfSelector {
    /// A selector with the configured fzf settings; an error when fzf is not
    /// installed.
    pub fn new(fzf_config: &FzfConfig) -> (r: Result<Self, EzError>)
        ensures
            match r {
                Ok(s) => s.height@ == fzf_config.height@ && crate::session::model::opt_view(
                    s.extra_opts,
                ) == crate::session::model::opt_view(fzf_config.extra_opts),
                Err(e) => e matches EzError::SelectorUnavailable(m) && m@
                    == "fzf not found in PATH. Install fzf: https://github.com/junegunn/fzf"@,
            },
    {
        if !on_path(FZF_PROGRAM) {
            return Err(
                EzError::SelectorUnavailable(
                    crate::text::owned(
                        "fzf not found in PATH. Install fzf: https://github.com/junegunn/fzf",
                    ),
                ),
            );
        }
        Ok(FzfSelector { height: fzf_config.height.clone(), extra_opts: fzf_config.extra_opts.clone() })
    }

    fn extra(&self) -> (r: Vec<String>)
        ensures
            views(r@) == extra_words(self.extra_opts),
    {
        match &self.extra_opts {
            Some(o) => crate::text::split_whitespace(o.as_str()),
            None => {
                let v: Vec<String> = Vec::new();
                assert(views(v@) =~= Seq::<Seq<char>>::empty());
                v
            },
        }
    }

    fn list_start(&self, prompt: &str) -> (r: Vec<String>)
        ensures
            views(r@) == list_args(prompt@, self.height@),
    {
        let mut args: Vec<String> = Vec::new();
        push_str(&mut args, "--prompt");
        push_string(&mut args, crate::text::concat(prompt, "> "));
        push_str(&mut args, "--height");
        push_string(&mut args, self.height.clone());
        push_str(&mut args, "--layout");
        push_str(&mut args, "reverse");
        push_str(&mut args, "--ansi");
        assert(views(args@) =~= list_args(prompt@, self.height@));
        args
    }

    /// fzf's arguments for `select_one`. With a preview, lines carry the
    /// item's value before a tab and the preview runs on it.
    pub fn select_one_args(&self, prompt: &str, preview_cmd: Option<&str>) -> (r: Vec<String>)
        ensures
            views(r@) == list_args(prompt@, self.height@) + (match preview_cmd {
                Some(p) => value_prefix_args() + preview_args(p@),
                None => Seq::empty(),
            }) + extra_words(self.extra_opts),
    {
        let mut args = self.list_start(prompt);
        let ghost base = views(args@);
        match preview_cmd {
            Some(p) => {
                push_str(&mut args, "--delimiter");
                push_str(&mut args, "\t");
                push_str(&mut args, "--with-nth");
                push_str(&mut args, "2..");
                push_str(&mut args, "--preview");
                push_string(&mut args, crate::text::replace_braces(p));
                push_str(&mut args, "--preview-window");
                push_str(&mut args, "right:50%");
                assert(views(args@) =~= base + (value_prefix_args() + preview_args(p@)));
            },
            None => {
                assert(views(args@) =~= base + Seq::<Seq<char>>::empty());
            },
        }
        let ghost mid = views(args@);
        append_strings(&mut args, self.extra());
        args
    }

    /// fzf's arguments for `select_many`.
    pub fn select_many_args(&self, prompt: &str) -> (r: Vec<String>)
        ensures
            views(r@) == seq![
                "--prompt"@,
                prompt@ + "> "@,
                "--multi"@,
                "--height"@,
                self.height@,
                "--layout"@,
                "reverse"@,
                "--ansi"@,
            ] + extra_words(self.extra_opts),
    {
        let mut args: Vec<String> = Vec::new();
        push_str(&mut args, "--prompt");
        push_string(&mut args, crate::text::concat(prompt, "> "));
        push_str(&mut args, "--multi");
        push_str(&mut args, "--height");
        push_string(&mut args, self.height.clone());
        push_str(&mut args, "--layout");
        push_str(&mut args, "reverse");
        push_str(&mut args, "--ansi");
        append_strings(&mut args, self.extra());
        args
    }

    /// fzf's arguments for `select_with_back`: value-prefixed lines, the
    /// typed query printed, a hint header, and Ctrl-P when going back is
    /// allowed.
    pub fn select_with_back_args(&self, prompt: &str, allow_back: bool) -> (r: Vec<String>)
        ensures
            views(r@) == list_args(prompt@, self.height@) + value_prefix_args() + seq![
                "--print-query"@,
                "--header"@,
                if allow_back {
                    "Enter: pick or use typed value · Ctrl-P: back · Esc: cancel"@
                } else {
                    "Enter: pick or use typed value · Esc: cancel"@
                },
                "--header-first"@,
            ] + (if allow_back {
                seq!["--expect"@, "ctrl-p"@]
            } else {
                Seq::empty()
            }) + extra_words(self.extra_opts),
    {
        let mut args = self.list_start(prompt);
        push_str(&mut args, "--delimiter");
        push_str(&mut args, "\t");
        push_str(&mut args, "--with-nth");
        push_str(&mut args, "2..");
        push_str(&mut args, "--print-query");
        push_str(&mut args, "--header");
        if allow_back {
            push_str(&mut args, "Enter: pick or use typed value · Ctrl-P: back · Esc: cancel");
        } else {
            push_str(&mut args, "Enter: pick or use typed value · Esc: cancel");
        }
        push_str(&mut args, "--header-first");
        if allow_back {
            push_str(&mut args, "--expect");
            push_str(&mut args, "ctrl-p");
        }
        append_strings(&mut args, self.extra());
        args
    }

    /// fzf's arguments for `select_with_actions`: the expected keys, the
    /// header, value-prefixed lines and the preview.
    pub fn select_with_actions_args(
        &self,
        prompt: &str,
        preview_cmd: Option<&str>,
        expect_keys: &Vec<String>,
        header: Option<&str>,
    ) -> (r: Vec<String>)
        ensures
            views(r@) == list_args(prompt@, self.height@) + (if expect_keys@.len() > 0 {
                seq!["--expect"@, join_with(views(expect_keys@), ","@)]
            } else {
                Seq::empty()
            }) + (match header {
                Some(h) => seq!["--header"@, h@, "--header-first"@],
                None => Seq::empty(),
            }) + value_prefix_args() + (match preview_cmd {
                Some(p) => preview_args(p@),
                None => Seq::empty(),
            }) + extra_words(self.extra_opts),
    {
        let mut args = self.list_start(prompt);
        let ghost s0 = views(args@);
        if expect_keys.len() > 0 {
            push_str(&mut args, "--expect");
            push_string(&mut args, crate::paths::join_strings(expect_keys, ","));
        }
        let ghost s1 = views(args@);
        match header {
            Some(h) => {
                push_str(&mut args, "--header");
                push_str(&mut args, h);
                push_str(&mut args, "--header-first");
            },
            None => {},
        }
        let ghost s2 = views(args@);
        push_str(&mut args, "--delimiter");
        push_str(&mut args, "\t");
        push_str(&mut args, "--with-nth");
        push_str(&mut args, "2..");
        let ghost s3 = views(args@);
        match preview_cmd {
            Some(p) => {
                push_str(&mut args, "--preview");
                push_string(&mut args, crate::text::replace_braces(p));
                push_str(&mut args, "--preview-window");
                push_str(&mut args, "right:50%");
            },
            None => {},
        }
        let ghost s4 = views(args@);
        append_strings(&mut args, self.extra());
        proof {
            let e = if expect_keys@.len() > 0 {
                seq!["--expect"@, join_with(views(expect_keys@), ","@)]
            } else {
                Seq::<Seq<char>>::empty()
            };
            let h = match header {
                Some(h) => seq!["--header"@, h@, "--header-first"@],
                None => Seq::<Seq<char>>::empty(),
            };
            let pv = match preview_cmd {
                Some(p) => preview_args(p@),
                None => Seq::<Seq<char>>::empty(),
            };
            assert(s1 =~= s0 + e);
            assert(s2 =~= s1 + h);
            assert(s3 =~= s2 + value_prefix_args());
            assert(s4 =~= s3 + pv);
        }
        args
    }
}

/// fzf's arguments for `input`: a free-text prompt, prefilled with the
/// default.
pub fn input_args(prompt: &str, default: Option<&str>) -> (r: Vec<String>)
    ensures
        views(r@) == seq![
            "--prompt"@,
            prompt@ + ": "@,
            "--print-query"@,
            "--height"@,
            "~10%"@,
            "--layout"@,
            "reverse"@,
        ] + (match default {
            Some(d) => seq!["--query"@, d@],
            None => Seq::empty(),
        }),
{
    let mut args: Vec<String> = Vec::new();
    push_str(&mut args, "--prompt");
    push_string(&mut args, crate::text::concat(prompt, ": "));
    push_str(&mut args, "--print-query");
    push_str(&mut args, "--height");
    push_str(&mut args, "~10%");
    push_str(&mut args, "--layout");
    push_str(&mut args, "reverse");
    match default {
        Some(d) => {
            push_str(&mut args, "--query");
            push_str(&mut args, d);
        },
        None => {},
    }
    args
}

/// fzf's arguments for `input_with_back`.
pub fn input_with_back_args(prompt: &str, default: Option<&str>, allow_back: bool) -> (r: Vec<
    String,
>)
    ensures
        views(r@) == seq![
            "--prompt"@,
            prompt@ + ": "@,
            "--print-query"@,
            "--height"@,
            "~10%"@,
            "--layout"@,
            "reverse"@,
            "--header"@,
            if allow_back {
                "Enter: confirm · Ctrl-P: back · Esc: cancel"@
            } else {
                "Enter: confirm · Esc: cancel"@
            },
            "--header-first"@,
        ] + (if allow_back {
            seq!["--expect"@, "ctrl-p"@]
        } else {
            Seq::empty()
        }) + (match default {
            Some(d) => seq!["--query"@, d@],
            None => Seq::empty(),
        }),
{
    let mut args: Vec<String> = Vec::new();
    push_str(&mut args, "--prompt");
    push_string(&mut args, crate::text::concat(prompt, ": "));
    push_str(&mut args, "--print-query");
    push_str(&mut args, "--height");
    push_str(&mut args, "~10%");
    push_str(&mut args, "--layout");
    push_str(&mut args, "reverse");
    push_str(&mut args, "--header");
    if allow_back {
        push_str(&mut args, "Enter: confirm · Ctrl-P: back · Esc: cancel");
    } else {
        push_str(&mut args, "Enter: confirm · Esc: cancel");
    }
    push_str(&mut args, "--header-first");
    if allow_back {
        push_str(&mut args, "--expect");
        push_str(&mut args, "ctrl-p");
    }
    match default {
        Some(d) => {
            push_str(&mut args, "--query");
            push_str(&mut args, d);
        },
        None => {},
    }
    args
}

/// The line fzf is given for an item: `value<TAB>display`, or the display.
pub open spec fn item_line(display: Seq<char>, value: Seq<char>, with_value: bool) -> Seq<char> {
    if with_value {
        value + "\t"@ + display
    } else {
        display
    }
}

/// The lines fzf is given for the items.
pub fn item_lines(items: &[SelectItem], with_value: bool) -> (r: Vec<String>)
    ensures
        r@.len() == items@.len(),
        forall|i: int|
            0 <= i < items@.len() ==> #[trigger] r@[i]@ == item_line(
                items@[i].display@,
                items@[i].value@,
                with_value,
            ),
{
    let mut out: Vec<String> = Vec::new();
    let mut i: usize = 0;
    while i < items.len()
        invariant
            i <= items@.len(),
            out@.len() == i,
            forall|j: int|
                0 <= j < i ==> #[trigger] out@[j]@ == item_line(
                    items@[j].display@,
                    items@[j].value@,
                    with_value,
                ),
        decreases items.len() - i,
    {
        let line = if with_value {
            crate::text::concat3(items[i].value.as_str(), "\t", items[i].display.as_str())
        } else {
            items[i].display.clone()
        };
        out.push(line);
        i += 1;
    }
    out
}

/// Items whose value (or display) is this text.
pub open spec fn item_is(field: Seq<char>, on_value: bool) -> spec_fn(SelectItem) -> bool {
    |it: SelectItem|
        if on_value {
            it.value@ == field
        } else {
            it.display@ == field
        }
}

/// The first item whose value (or display) is `field`.
fn position_of(items: &[SelectItem], field: &str, on_value: bool) -> (r: usize)
    ensures
        r == first_match(items@, item_is(field@, on_value)),
{
    let ghost p = item_is(field@, on_value);
    let mut i: usize = 0;
    while i < items.len()
        invariant
            i <= items@.len(),
            p == item_is(field@, on_value),
            forall|j: int| 0 <= j < i ==> !p(#[trigger] items@[j]),
        decreases items.len() - i,
    {
        let hit = if on_value {
            crate::text::str_eq(items[i].value.as_str(), field)
        } else {
            crate::text::str_eq(items[i].display.as_str(), field)
        };
        if hit {
            proof {
                lemma_first_match_is(items@, p, i as int);
            }
            return i;
        }
        i += 1;
    }
    proof {
        lemma_first_match_is(items@, p, i as int);
    }
    i
}

/// What a `select_one` run chose: nothing when fzf failed, else the first
/// item whose value (with a preview) or display is the trimmed output (its
/// part before a tab, with a preview).
pub open spec fn chosen_one(items: Seq<SelectItem>, on_value: bool, success: bool, out: Seq<char>) -> Option<
    int,
> {
    if !success {
        None
    } else {
        let raw = trim(out);
        let field = if on_value {
            before_tab(raw)
        } else {
            raw
        };
        let k = first_match(items, item_is(field, on_value));
        if k < items.len() {
            Some(k)
        } else {
            None
        }
    }
}

/// The index `select_one` returns for fzf's exit status and output.
pub fn select_one_result(items: &[SelectItem], on_value: bool, success: bool, stdout: &str) -> (r:
    Option<usize>)
    ensures
        match r {
            Some(k) => chosen_one(items@, on_value, success, stdout@) == Some(k as int),
            None => chosen_one(items@, on_value, success, stdout@) is None,
        },
{
    if !success {
        return None;
    }
    let raw = crate::text::trimmed(stdout);
    let field = if on_value {
        crate::text::first_field(raw.as_str())
    } else {
        raw
    };
    let k = position_of(items, field.as_str(), on_value);
    if k < items.len() {
        Some(k)
    } else {
        None
    }
}

/// The indices `select_many` returns for output lines: each non-blank
/// trimmed line that is some item's display gives that item's index.
pub open spec fn chosen_many(items: Seq<SelectItem>, ls: Seq<Seq<char>>) -> Seq<int>
    decreases ls.len(),
{
    if ls.len() == 0 {
        Seq::empty()
    } else {
        let prev = chosen_many(items, ls.drop_last());
        let t = trim(ls.last());
        let k = first_match(items, item_is(t, false));
        if t.len() > 0 && k < items.len() {
            prev.push(k)
        } else {
            prev
        }
    }
}

/// The indices `select_many` returns for fzf's exit status and output.
pub fn select_many_result(items: &[SelectItem], success: bool, stdout: &str) -> (r: Vec<usize>)
    ensures
        r@.map_values(|k: usize| k as int) == if success {
            chosen_many(items@, lines(stdout@))
        } else {
            Seq::empty()
        },
{
    let mut out: Vec<usize> = Vec::new();
    if !success {
        assert(out@.map_values(|k: usize| k as int) =~= Seq::<int>::empty());
        return out;
    }
    let ls = crate::text::lines_of(stdout);
    let ghost lv = views(ls@);
    let mut i: usize = 0;
    assert(lv.subrange(0, 0) =~= Seq::<Seq<char>>::empty());
    assert(out@.map_values(|k: usize| k as int) =~= Seq::<int>::empty());
    while i < ls.len()
        invariant
            i <= ls@.len(),
            lv == views(ls@),
            out@.map_values(|k: usize| k as int) == chosen_many(items@, lv.subrange(0, i as int)),
        decreases ls.len() - i,
    {
        let t = crate::text::trimmed(ls[i].as_str());
        proof {
            let pre = lv.subrange(0, i + 1);
            assert(pre.drop_last() =~= lv.subrange(0, i as int));
            assert(pre.last() == ls@[i as int]@);
        }
        if t.as_str().unicode_len() > 0 {
            let k = position_of(items, t.as_str(), false);
            if k < items.len() {
                let ghost prev = out@;
                out.push(k);
                assert(out@.map_values(|k: usize| k as int) =~= prev.map_values(
                    |k: usize| k as int,
                ).push(k as int));
            }
        }
        i += 1;
    }
    assert(lv.subrange(0, i as int) =~= lv);
    out
}

/// What `input` returns: the trimmed first output line, or the default when
/// that is empty.
pub open spec fn input_text(out: Seq<char>, default: Option<Seq<char>>) -> Seq<char> {
    let result = trim(line_at(out, 0));
    if result.len() == 0 && default is Some {
        default->0
    } else {
        result
    }
}

/// The text `input` returns for fzf's output.
pub fn input_result(stdout: &str, default: Option<&str>) -> (r: String)
    ensures
        r@ == input_text(
            stdout@,
            match default {
                Some(d) => Some(d@),
                None => None,
            },
        ),
{
    let first = crate::text::nth_line(stdout, 0);
    let result = crate::text::trimmed(first.as_str());
    if result.as_str().unicode_len() == 0 {
        match default {
            Some(d) => {
                return crate::text::owned(d);
            },
            None => {},
        }
    }
    result
}

/// The prompt shown for a yes/no question.
pub fn confirm_prompt_text(prompt: &str, default: bool) -> (r: String)
    ensures
        r@ == prompt@ + " ["@ + (if default {
            "Y/n"@
        } else {
            "y/N"@
        }) + "]: "@,
{
    let mut s = crate::text::concat(prompt, " [");
    s.append(
        if default {
            "Y/n"
        } else {
            "y/N"
        },
    );
    s.append("]: ");
    s
}

/// The answer to a yes/no question: the default for an empty answer, else
/// whether the lower-cased trimmed answer is `y` or `yes`.
pub open spec fn confirmed(answer: Seq<char>, default: bool) -> bool {
    let input = unicode_lowercase(trim(answer));
    if input.len() == 0 {
        default
    } else {
        input == "y"@ || input == "yes"@
    }
}

/// What `confirm` returns for the line the user typed.
pub fn confirm_result(answer: &str, default: bool) -> (r: bool)
    ensures
        r == confirmed(answer@, default),
{
    let t = crate::text::trimmed(answer);
    let input = crate::paths::to_lowercase(t.as_str());
    if input.as_str().unicode_len() == 0 {
        return default;
    }
    crate::text::str_eq(input.as_str(), "y") || crate::text::str_eq(input.as_str(), "yes")
}

/// A stage outcome of a picked text.
pub open spec fn picked(o: StageOutcome, s: Seq<char>) -> bool {
    o matches StageOutcome::Picked(x) && x@ == s
}

/// What `select_with_back` returns: cancel on exit status 130; back when
/// the expected key line is `ctrl-p`; else the chosen item's value, or the
/// typed query, or cancel when both are empty.
pub open spec fn stage_outcome(o: StageOutcome, code: i32, out: Seq<char>, allow_back: bool) -> bool {
    let query = trim(line_at(out, 0));
    let key = if allow_back {
        line_at(out, 1)
    } else {
        Seq::empty()
    };
    let selection = line_at(
        out,
        if allow_back {
            2
        } else {
            1
        },
    );
    let value = before_tab(selection);
    if code == 130 {
        o is Cancel
    } else if key == "ctrl-p"@ {
        o is Back
    } else if value.len() > 0 {
        picked(o, value)
    } else if query.len() > 0 {
        picked(o, query)
    } else {
        o is Cancel
    }
}

/// The outcome of a `select_with_back` run, from fzf's exit code (-1 when
/// it has none) and output.
pub fn select_with_back_result(code: i32, stdout: &str, allow_back: bool) -> (r: StageOutcome)
    ensures
        stage_outcome(r, code, stdout@, allow_back),
{
    if code == 130 {
        return StageOutcome::Cancel;
    }
    let query_line = crate::text::nth_line(stdout, 0);
    let key_line = if allow_back {
        crate::text::nth_line(stdout, 1)
    } else {
        String::new()
    };
    let selection_line = crate::text::nth_line(
        stdout,
        if allow_back {
            2
        } else {
            1
        },
    );
    if crate::text::str_eq(key_line.as_str(), "ctrl-p") {
        return StageOutcome::Back;
    }
    let value = crate::text::first_field(selection_line.as_str());
    let query = crate::text::trimmed(query_line.as_str());
    if value.as_str().unicode_len() > 0 {
        return StageOutcome::Picked(value);
    }
    if query.as_str().unicode_len() > 0 {
        return StageOutcome::Picked(query);
    }
    StageOutcome::Cancel
}

/// What `input_with_back` returns: cancel on exit status 130; back when the
/// expected key line is `ctrl-p`; else the first line as typed (maybe empty).
pub open spec fn input_stage_outcome(o: StageOutcome, code: i32, out: Seq<char>, allow_back: bool) -> bool {
    let key = if allow_back {
        line_at(out, 1)
    } else {
        Seq::empty()
    };
    if code == 130 {
        o is Cancel
    } else if key == "ctrl-p"@ {
        o is Back
    } else {
        picked(o, line_at(out, 0))
    }
}

/// The outcome of an `input_with_back` run.
pub fn input_with_back_result(code: i32, stdout: &str, allow_back: bool) -> (r: StageOutcome)
    ensures
        input_stage_outcome(r, code, stdout@, allow_back),
{
    if code == 130 {
        return StageOutcome::Cancel;
    }
    let query = crate::text::nth_line(stdout, 0);
    if allow_back {
        let key = crate::text::nth_line(stdout, 1);
        if crate::text::str_eq(key.as_str(), "ctrl-p") {
            return StageOutcome::Back;
        }
    } else {
        assert(!(Seq::<char>::empty() =~= "ctrl-p"@)) by {
            reveal_strlit("ctrl-p");
        }
    }
    StageOutcome::Picked(query)
}

/// What `select_with_actions` returns: cancel when fzf failed or the chosen
/// line's value is no item's; else the item's index, with the pressed key
/// when the first output line names one.
pub open spec fn action_outcome(o: ActionResult, items: Seq<SelectItem>, success: bool, out: Seq<char>) -> bool {
    let key = trim(line_at(out, 0));
    let selection = trim(line_at(out, 1));
    let k = first_match(items, item_is(before_tab(selection), true));
    if !success || k >= items.len() {
        o is Cancel
    } else if key.len() == 0 {
        o == ActionResult::Select(k as usize)
    } else {
        o matches ActionResult::Action(x, i) && x@ == key && i == k
    }
}

/// The outcome of a `select_with_actions` run.
pub fn select_with_actions_result(items: &[SelectItem], success: bool, stdout: &str) -> (r:
    ActionResult)
    ensures
        action_outcome(r, items@, success, stdout@),
{
    let first = crate::text::nth_line(stdout, 0);
    let second = crate::text::nth_line(stdout, 1);
    let key = crate::text::trimmed(first.as_str());
    let selection = crate::text::trimmed(second.as_str());
    let field = crate::text::first_field(selection.as_str());
    let k = position_of(items, field.as_str(), true);
    if !success || k >= items.len() {
        return ActionResult::Cancel;
    }
    if key.as_str().unicode_len() == 0 {
        ActionResult::Select(k)
    } else {
        ActionResult::Action(key, k)
    }
}

/// A pressed key is never dropped: when fzf succeeded and the chosen line
/// names an item, a non-empty first line (the key, trimmed) gives that key
/// as an action on the item; the item is entered (`Select`) only when no
/// key was pressed; and whatever comes back names an item of the list.
pub proof fn law_action_keeps_key(o: ActionResult, items: Seq<SelectItem>, success: bool, out: Seq<char>)
    requires
        action_outcome(o, items, success, out),
        items.len() <= usize::MAX,
    ensures
        o matches ActionResult::Select(i) ==> trim(line_at(out, 0)).len() == 0 && success && i
            < items.len() && items[i as int].value@ == before_tab(trim(line_at(out, 1))),
        o matches ActionResult::Action(x, i) ==> x@ == trim(line_at(out, 0)) && x@.len() > 0
            && success && i < items.len() && items[i as int].value@ == before_tab(
            trim(line_at(out, 1)),
        ),
        (success && trim(line_at(out, 0)).len() > 0 && exists|k: int|
            0 <= k < items.len() && (#[trigger] items[k]).value@ == before_tab(trim(line_at(out, 1))))
            ==> o is Action,
        !success ==> o is Cancel,
{
    let sel = before_tab(trim(line_at(out, 1)));
    crate::search::lemma_first_match(items, item_is(sel, true));
    let k0 = first_match(items, item_is(sel, true));
    if success && k0 < items.len() {
        assert((k0 as usize) as int == k0);
    }
    if exists|k: int| 0 <= k < items.len() && (#[trigger] items[k]).value@ == sel {
        let k = choose|k: int| 0 <= k < items.len() && (#[trigger] items[k]).value@ == sel;
        assert((item_is(sel, true))(items[k]));
    }
}

} // verus!
