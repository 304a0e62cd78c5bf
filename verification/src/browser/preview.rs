//! Layout of the keybind help in the browser's preview pane: a two-column
//! table whose cells are padded by their width on screen.
use vstd::prelude::*;

use crate::config::model::KeybindsConfig;
use crate::plugin::{bind_infos, view_infos, InfoView, PluginBindInfo, PluginViewInfo};

verus! {

/// The number of terminal columns a text takes, escape codes not counted.
pub uninterp spec fn display_width(s: Seq<char>) -> nat;

/// `console::measure_text_width`: the on-screen width of a text (ANSI
/// escape codes stripped). The width is named by `display_width`, a
/// function of the text alone.
#[verifier::external_body]
pub(crate) fn text_width(s: &str) -> (r: usize)
    ensures
        r == display_width(s@),
{
    console::measure_text_width(s)
}

/// Width of the key column of the keybind table.
pub const KEYBIND_KEY_W: usize = 8;

/// `n` spaces.
pub open spec fn spaces(n: nat) -> Seq<char> {
    Seq::new(n, |i: int| ' ')
}

/// `s` padded with spaces on the right to `width` columns.
pub open spec fn pad_to(s: Seq<char>, width: nat) -> Seq<char> {
    if display_width(s) >= width {
        s
    } else {
        s + spaces((width - display_width(s)) as nat)
    }
}

/// `s` centred in `width` columns (padding on the left only).
pub open spec fn centred(s: Seq<char>, width: nat) -> Seq<char> {
    if display_width(s) >= width {
        s
    } else {
        spaces(((width - display_width(s)) / 2) as nat) + s
    }
}

fn push_spaces(s: &mut String, n: u128)
    ensures
        final(s)@ == old(s)@ + spaces(n as nat),
{
    let mut i: u128 = 0;
    while i < n
        invariant
            i <= n,
            s@ == old(s)@ + spaces(i as nat),
        decreases n - i,
    {
        crate::text::push_char(s, ' ');
        assert(spaces((i + 1) as nat) =~= spaces(i as nat).push(' '));
        i += 1;
    }
}

/// Pad a (possibly coloured) text to `width` columns.
pub fn ansi_pad(s: &str, width: u128) -> (r: String)
    ensures
        r@ == pad_to(s@, width as nat),
{
    let w = text_width(s) as u128;
    let mut r = crate::text::owned(s);
    if w < width {
        push_spaces(&mut r, width - w);
    }
    r
}

/// Centre a (possibly coloured) text in `width` columns.
pub fn center_in(text: &str, width: u128) -> (r: String)
    ensures
        r@ == centred(text@, width as nat),
{
    let w = text_width(text) as u128;
    if w >= width {
        return crate::text::owned(text);
    }
    let mut r = String::new();
    push_spaces(&mut r, (width - w) / 2);
    r.append(text);
    assert(r@ =~= spaces(((width - w) / 2) as nat) + text@);
    r
}

/// The widest row a column of (key, description) entries needs: two spaces,
/// the key column, a space and the description.
pub open spec fn widest_entry(entries: Seq<(Seq<char>, Seq<char>)>) -> nat
    decreases entries.len(),
{
    if entries.len() == 0 {
        0
    } else {
        let w = 2 + KEYBIND_KEY_W + 1 + display_width(entries.last().1);
        let m = widest_entry(entries.drop_last());
        if w > m {
            w as nat
        } else {
            m
        }
    }
}

/// The width of a column of the keybind table: its widest row (20 for an
/// empty column) and two more for breathing room.
pub open spec fn column_width(entries: Seq<(Seq<char>, Seq<char>)>) -> nat {
    if entries.len() == 0 {
        22
    } else {
        widest_entry(entries) + 2
    }
}

/// The width of a column of the keybind table.
pub fn keybind_col_width(entries: &Vec<(String, String)>) -> (r: u128)
    ensures
        r == column_width(crate::session::model::pairs_view(entries@)),
{
    let ghost pv = crate::session::model::pairs_view(entries@);
    let mut m: u128 = 0;
    let mut i: usize = 0;
    assert(pv.subrange(0, 0) =~= Seq::<(Seq<char>, Seq<char>)>::empty());
    while i < entries.len()
        invariant
            i <= entries@.len(),
            pv == crate::session::model::pairs_view(entries@),
            m == widest_entry(pv.subrange(0, i as int)),
            m <= usize::MAX + 11,
        decreases entries.len() - i,
    {
        let w = 11 + text_width(entries[i].1.as_str()) as u128;
        assert(pv.subrange(0, i + 1).drop_last() =~= pv.subrange(0, i as int));
        assert(pv.subrange(0, i + 1).last() == pv[i as int]);
        if w > m {
            m = w;
        }
        i += 1;
    }
    assert(pv.subrange(0, i as int) =~= pv);
    if entries.len() == 0 {
        22
    } else {
        m + 2
    }
}

/// The table's left cell for entry `e`.
pub open spec fn left_cell(e: (Seq<char>, Seq<char>)) -> Seq<char> {
    "  "@ + pad_to(e.0, KEYBIND_KEY_W as nat) + " "@ + e.1
}

/// The table's right cell for entry `e`.
pub open spec fn right_cell(e: (Seq<char>, Seq<char>)) -> Seq<char> {
    " "@ + pad_to(e.0, KEYBIND_KEY_W as nat) + " "@ + e.1
}

/// Row `i` of the table: the left cell padded to the column width, the
/// separator, the right cell; a missing cell is empty.
pub open spec fn table_row(
    left: Seq<(Seq<char>, Seq<char>)>,
    right: Seq<(Seq<char>, Seq<char>)>,
    sep: Seq<char>,
    col_w: nat,
    i: int,
) -> Seq<char> {
    let l = if i < left.len() {
        left_cell(left[i])
    } else {
        Seq::empty()
    };
    let r = if i < right.len() {
        right_cell(right[i])
    } else {
        Seq::empty()
    };
    pad_to(l, col_w) + sep + r
}

/// A laid-out keybind table: its header line, the width of each side of the
/// rule under it, and its rows.
pub struct KeybindTable {
    pub header: String,
    pub rule_width: u128,
    pub rows: Vec<String>,
}

/// Lay out the keybind table: both columns as wide as the left one needs;
/// the titles centred; as many rows as the longer column has entries.
/// Titles, keys and the separator may carry colour codes.
pub fn keybind_table(
    left_title: &str,
    right_title: &str,
    sep: &str,
    left: &Vec<(String, String)>,
    right: &Vec<(String, String)>,
) -> (r: KeybindTable)
    ensures
        ({
            let lv = crate::session::model::pairs_view(left@);
            let rv = crate::session::model::pairs_view(right@);
            let w = column_width(lv);
            &&& r.rule_width == w
            &&& r.header@ == pad_to(centred(left_title@, w), w) + sep@ + centred(right_title@, w)
            &&& r.rows@.len() == (if lv.len() >= rv.len() {
                lv.len()
            } else {
                rv.len()
            })
            &&& forall|i: int| 0 <= i < r.rows@.len() ==> #[trigger] r.rows@[i]@ == table_row(lv, rv, sep@, w, i)
        }),
{
    let ghost lv = crate::session::model::pairs_view(left@);
    let ghost rv = crate::session::model::pairs_view(right@);
    let col_w = keybind_col_width(left);
    let lh = center_in(left_title, col_w);
    let rh = center_in(right_title, col_w);
    let mut header = ansi_pad(lh.as_str(), col_w);
    header.append(sep);
    header.append(rh.as_str());
    let n = if left.len() >= right.len() {
        left.len()
    } else {
        right.len()
    };
    let mut rows: Vec<String> = Vec::new();
    let mut i: usize = 0;
    while i < n
        invariant
            i <= n,
            n == (if lv.len() >= rv.len() {
                lv.len()
            } else {
                rv.len()
            }),
            lv == crate::session::model::pairs_view(left@),
            rv == crate::session::model::pairs_view(right@),
            col_w == column_width(lv),
            rows@.len() == i,
            forall|j: int| 0 <= j < i ==> #[trigger] rows@[j]@ == table_row(lv, rv, sep@, col_w as nat, j),
        decreases n - i,
    {
        let mut lc = String::new();
        if i < left.len() {
            lc.append("  ");
            let k = ansi_pad(left[i].0.as_str(), KEYBIND_KEY_W as u128);
            lc.append(k.as_str());
            lc.append(" ");
            lc.append(left[i].1.as_str());
            assert(lv[i as int] == (left@[i as int].0@, left@[i as int].1@));
        }
        let mut rc = String::new();
        if i < right.len() {
            rc.append(" ");
            let k = ansi_pad(right[i].0.as_str(), KEYBIND_KEY_W as u128);
            rc.append(k.as_str());
            rc.append(" ");
            rc.append(right[i].1.as_str());
            assert(rv[i as int] == (right@[i as int].0@, right@[i as int].1@));
        }
        let mut row = ansi_pad(lc.as_str(), col_w);
        row.append(sep);
        row.append(rc.as_str());
        assert(row@ =~= table_row(lv, rv, sep@, col_w as nat, i as int));
        rows.push(row);
        i += 1;
    }
    KeybindTable { header, rule_width: col_w, rows }
}

/// A key as the help shows it: `alt-`, `ctrl-` and `shift-` capitalised.
pub open spec fn shown_key(k: Seq<char>) -> Seq<char> {
    crate::text::replace_all(
        crate::text::replace_all(crate::text::replace_all(k, "alt-"@, "Alt-"@), "ctrl-"@, "Ctrl-"@),
        "shift-"@,
        "Shift-"@,
    )
}

/// A key as the help shows it (`alt-` becomes `Alt-`, and so on).
pub fn fmt_key(k: &str) -> (r: String)
    ensures
        r@ == shown_key(k@),
{
    proof {
        reveal_strlit("alt-");
        reveal_strlit("ctrl-");
        reveal_strlit("shift-");
    }
    let a = crate::text::replace_str(k, "alt-", "Alt-");
    let b = crate::text::replace_str(a.as_str(), "ctrl-", "Ctrl-");
    crate::text::replace_str(b.as_str(), "shift-", "Shift-")
}

/// How a row of the keybind help is set off: accepting, an ordinary action,
/// a destructive one, label editing, a plugin's key, or leaving.
#[derive(Clone, Copy, Debug, PartialEq, Eq, Structural)]
pub enum KeyTone {
    Accept,
    Action,
    Danger,
    Labels,
    Plugin,
    Leave,
}

/// A row of the keybind help: the key as shown, what it does, its tone.
#[derive(Debug)]
pub struct KeyRow {
    pub key: String,
    pub label: String,
    pub tone: KeyTone,
}

/// The rows as text.
pub open spec fn krows(v: Seq<KeyRow>) -> Seq<(Seq<char>, Seq<char>, KeyTone)> {
    v.map_values(|r: KeyRow| (r.key@, r.label@, r.tone))
}

/// The rows of a plugin's binds: the key and the bind's label.
pub open spec fn bind_rows(binds: Seq<InfoView>) -> Seq<(Seq<char>, Seq<char>, KeyTone)> {
    binds.map_values(|b: InfoView| (shown_key(b.key), b.label, KeyTone::Plugin))
}

/// The rows of plugin views in the session list: the key and `<label> view`.
pub open spec fn session_view_rows(views: Seq<InfoView>) -> Seq<(Seq<char>, Seq<char>, KeyTone)> {
    views.map_values(|v: InfoView| (shown_key(v.key), v.label + " view"@, KeyTone::Plugin))
}

/// The rows of plugin views in the repository list: the key and the label.
pub open spec fn repo_view_rows(views: Seq<InfoView>) -> Seq<(Seq<char>, Seq<char>, KeyTone)> {
    views.map_values(|v: InfoView| (shown_key(v.key), v.label, KeyTone::Plugin))
}

/// The session list's help, left column: its core keys, then the plugin binds.
pub open spec fn session_left(kb: KeybindsConfig, binds: Seq<InfoView>) -> Seq<
    (Seq<char>, Seq<char>, KeyTone),
> {
    seq![
        ("Enter"@, "Enter session"@, KeyTone::Accept),
        (shown_key(kb.new_session@), "New child session"@, KeyTone::Action),
        (shown_key(kb.new_bare_session@), "New bare session"@, KeyTone::Action),
        (shown_key(kb.session_from_dirty@), "From dirty"@, KeyTone::Action),
        (shown_key(kb.rename_session@), "Rename"@, KeyTone::Action),
        (shown_key(kb.delete_session@), "Delete"@, KeyTone::Danger),
        (shown_key(kb.edit_labels@), "Edit labels"@, KeyTone::Labels),
        (shown_key(kb.cd_session@), "Cd into worktree"@, KeyTone::Action),
    ] + bind_rows(binds)
}

/// The session list's help, right column: sorting and leaving, then the
/// plugin views.
pub open spec fn session_right(kb: KeybindsConfig, views: Seq<InfoView>) -> Seq<
    (Seq<char>, Seq<char>, KeyTone),
> {
    seq![
        (shown_key(kb.sort_toggle@), "Toggle sort"@, KeyTone::Action),
        ("Esc"@, "Go back"@, KeyTone::Leave),
    ] + session_view_rows(views)
}

/// The repository list's help, left column.
pub open spec fn main_left(kb: KeybindsConfig) -> Seq<(Seq<char>, Seq<char>, KeyTone)> {
    seq![
        ("Enter"@, "Open sessions"@, KeyTone::Accept),
        (shown_key(kb.clone_repo@), "Clone repo"@, KeyTone::Action),
        (shown_key(kb.edit_labels@), "Edit labels"@, KeyTone::Labels),
        (shown_key(kb.sort_toggle@), "Toggle sort"@, KeyTone::Action),
        ("Esc"@, "Quit"@, KeyTone::Leave),
    ]
}

/// The repository list's help, right column: the views, then the plugin views.
pub open spec fn main_right(kb: KeybindsConfig, views: Seq<InfoView>) -> Seq<
    (Seq<char>, Seq<char>, KeyTone),
> {
    seq![
        (shown_key(kb.view_tree@), "Tree"@, KeyTone::Action),
        (shown_key(kb.view_workspace@), "Workspace"@, KeyTone::Action),
        (shown_key(kb.view_repo@), "Repo"@, KeyTone::Action),
        (shown_key(kb.view_owner@), "Owner"@, KeyTone::Action),
        (shown_key(kb.view_label@), "Label"@, KeyTone::Action),
    ] + repo_view_rows(views)
}

fn push_row(rows: &mut Vec<KeyRow>, key: String, label: String, tone: KeyTone)
    ensures
        krows(final(rows)@) == krows(old(rows)@).push((key@, label@, tone)),
{
    let ghost before = krows(rows@);
    rows.push(KeyRow { key, label, tone });
    assert(krows(rows@) =~= before.push((key@, label@, tone)));
}

fn push_bind_rows(rows: &mut Vec<KeyRow>, binds: &Vec<PluginBindInfo>)
    ensures
        krows(final(rows)@) == krows(old(rows)@) + bind_rows(bind_infos(binds@)),
{
    let ghost start = krows(rows@);
    let ghost all = bind_rows(bind_infos(binds@));
    let mut i: usize = 0;
    while i < binds.len()
        invariant
            i <= binds@.len(),
            all == bind_rows(bind_infos(binds@)),
            krows(rows@) == start + all.subrange(0, i as int),
        decreases binds.len() - i,
    {
        let ghost prev = krows(rows@);
        push_row(rows, fmt_key(binds[i].key.as_str()), binds[i].label.clone(), KeyTone::Plugin);
        assert(all[i as int] == (shown_key(binds@[i as int].key@), binds@[i as int].label@, KeyTone::Plugin));
        assert(start + all.subrange(0, i + 1) =~= (start + all.subrange(0, i as int)).push(all[i as int]));
        i += 1;
    }
    assert(all.subrange(0, i as int) =~= all);
}

fn push_view_rows(rows: &mut Vec<KeyRow>, views: &Vec<PluginViewInfo>, suffixed: bool)
    ensures
        krows(final(rows)@) == krows(old(rows)@) + if suffixed {
            session_view_rows(view_infos(views@))
        } else {
            repo_view_rows(view_infos(views@))
        },
{
    let ghost start = krows(rows@);
    let ghost all = if suffixed {
        session_view_rows(view_infos(views@))
    } else {
        repo_view_rows(view_infos(views@))
    };
    let mut i: usize = 0;
    while i < views.len()
        invariant
            i <= views@.len(),
            all == (if suffixed {
                session_view_rows(view_infos(views@))
            } else {
                repo_view_rows(view_infos(views@))
            }),
            krows(rows@) == start + all.subrange(0, i as int),
        decreases views.len() - i,
    {
        let label = if suffixed {
            crate::text::concat(views[i].label.as_str(), " view")
        } else {
            views[i].label.clone()
        };
        push_row(rows, fmt_key(views[i].key.as_str()), label, KeyTone::Plugin);
        assert(start + all.subrange(0, i + 1) =~= (start + all.subrange(0, i as int)).push(all[i as int]));
        i += 1;
    }
    assert(all.subrange(0, i as int) =~= all);
}

/// The rows of the session list's keybind help: the left column (core keys,
/// then the plugin binds) and the right one (sorting, leaving, then the
/// plugin views).
pub fn session_keybind_entries(
    kb: &KeybindsConfig,
    views: &Vec<PluginViewInfo>,
    binds: &Vec<PluginBindInfo>,
) -> (r: (Vec<KeyRow>, Vec<KeyRow>))
    ensures
        krows(r.0@) == session_left(*kb, bind_infos(binds@)),
        krows(r.1@) == session_right(*kb, view_infos(views@)),
{
    let mut left: Vec<KeyRow> = Vec::new();
    push_row(&mut left, crate::text::owned("Enter"), crate::text::owned("Enter session"), KeyTone::Accept);
    push_row(&mut left, fmt_key(kb.new_session.as_str()), crate::text::owned("New child session"), KeyTone::Action);
    push_row(&mut left, fmt_key(kb.new_bare_session.as_str()), crate::text::owned("New bare session"), KeyTone::Action);
    push_row(&mut left, fmt_key(kb.session_from_dirty.as_str()), crate::text::owned("From dirty"), KeyTone::Action);
    push_row(&mut left, fmt_key(kb.rename_session.as_str()), crate::text::owned("Rename"), KeyTone::Action);
    push_row(&mut left, fmt_key(kb.delete_session.as_str()), crate::text::owned("Delete"), KeyTone::Danger);
    push_row(&mut left, fmt_key(kb.edit_labels.as_str()), crate::text::owned("Edit labels"), KeyTone::Labels);
    push_row(&mut left, fmt_key(kb.cd_session.as_str()), crate::text::owned("Cd into worktree"), KeyTone::Action);
    push_bind_rows(&mut left, binds);
    let mut right: Vec<KeyRow> = Vec::new();
    push_row(&mut right, fmt_key(kb.sort_toggle.as_str()), crate::text::owned("Toggle sort"), KeyTone::Action);
    push_row(&mut right, crate::text::owned("Esc"), crate::text::owned("Go back"), KeyTone::Leave);
    push_view_rows(&mut right, views, true);
    assert(krows(left@) =~= session_left(*kb, bind_infos(binds@)));
    assert(krows(right@) =~= session_right(*kb, view_infos(views@)));
    (left, right)
}

/// The rows of the repository list's keybind help: the left column (open,
/// clone, labels, sort, quit) and the right one (the views, then the
/// plugin views).
pub fn main_keybind_entries(kb: &KeybindsConfig, views: &Vec<PluginViewInfo>) -> (r: (
    Vec<KeyRow>,
    Vec<KeyRow>,
))
    ensures
        krows(r.0@) == main_left(*kb),
        krows(r.1@) == main_right(*kb, view_infos(views@)),
{
    let mut left: Vec<KeyRow> = Vec::new();
    push_row(&mut left, crate::text::owned("Enter"), crate::text::owned("Open sessions"), KeyTone::Accept);
    push_row(&mut left, fmt_key(kb.clone_repo.as_str()), crate::text::owned("Clone repo"), KeyTone::Action);
    push_row(&mut left, fmt_key(kb.edit_labels.as_str()), crate::text::owned("Edit labels"), KeyTone::Labels);
    push_row(&mut left, fmt_key(kb.sort_toggle.as_str()), crate::text::owned("Toggle sort"), KeyTone::Action);
    push_row(&mut left, crate::text::owned("Esc"), crate::text::owned("Quit"), KeyTone::Leave);
    let mut right: Vec<KeyRow> = Vec::new();
    push_row(&mut right, fmt_key(kb.view_tree.as_str()), crate::text::owned("Tree"), KeyTone::Action);
    push_row(&mut right, fmt_key(kb.view_workspace.as_str()), crate::text::owned("Workspace"), KeyTone::Action);
    push_row(&mut right, fmt_key(kb.view_repo.as_str()), crate::text::owned("Repo"), KeyTone::Action);
    push_row(&mut right, fmt_key(kb.view_owner.as_str()), crate::text::owned("Owner"), KeyTone::Action);
    push_row(&mut right, fmt_key(kb.view_label.as_str()), crate::text::owned("Label"), KeyTone::Action);
    push_view_rows(&mut right, views, false);
    assert(krows(left@) =~= main_left(*kb));
    assert(krows(right@) =~= main_right(*kb, view_infos(views@)));
    (left, right)
}

} // verus!
