//! Configuration: the model and the edits the `config` command makes.
pub mod model;

use vstd::prelude::*;

use crate::browser::views::{core_mode, ViewMode};
use crate::error::EzError;
use crate::plugin::{all_views, view_named, LoadedPlugin};
use crate::search::find_first;
use crate::text::{decimal, views};
use model::{EzConfig, SelectorConfig};

verus! {

/// Add a workspace root unless it is configured already; says whether it
/// was added.
pub fn add_root(config: &mut EzConfig, path: &str) -> (r: bool)
    ensures
        r == !views(old(config).workspace_roots@).contains(path@),
        views(final(config).workspace_roots@) == if r {
            views(old(config).workspace_roots@).push(path@)
        } else {
            views(old(config).workspace_roots@)
        },
{
    if crate::text::contains_str(&config.workspace_roots, path) {
        return false;
    }
    let ghost before = views(config.workspace_roots@);
    config.workspace_roots.push(crate::text::owned(path));
    assert(views(config.workspace_roots@) =~= before.push(path@));
    true
}

/// Roots other than `path`.
pub open spec fn not_root(path: Seq<char>) -> spec_fn(Seq<char>) -> bool {
    |r: Seq<char>| r != path
}

/// Remove every occurrence of a workspace root; an error when there is none.
pub fn remove_root(config: &mut EzConfig, path: &str) -> (r: Result<(), EzError>)
    ensures
        views(old(config).workspace_roots@).contains(path@) ==> r is Ok && views(
            final(config).workspace_roots@,
        ) == views(old(config).workspace_roots@).filter(not_root(path@)),
        !views(old(config).workspace_roots@).contains(path@) ==> (r matches Err(
            EzError::Config(m),
        ) && m@ == "Root not found: "@ + path@),
{
    let ghost roots = views(config.workspace_roots@);
    let mut kept: Vec<String> = Vec::new();
    let mut i: usize = 0;
    assert(roots.subrange(0, 0) =~= Seq::<Seq<char>>::empty());
    assert(views(kept@) =~= Seq::<Seq<char>>::empty());
    while i < config.workspace_roots.len()
        invariant
            i <= config.workspace_roots@.len(),
            roots == views(config.workspace_roots@),
            views(kept@) == roots.subrange(0, i as int).filter(not_root(path@)),
        decreases config.workspace_roots.len() - i,
    {
        proof {
            crate::session::tree::lemma_filter_push(
                roots.subrange(0, i as int),
                roots[i as int],
                not_root(path@),
            );
            assert(roots.subrange(0, i + 1) =~= roots.subrange(0, i as int).push(roots[i as int]));
        }
        if !crate::text::str_eq(config.workspace_roots[i].as_str(), path) {
            let ghost prev = views(kept@);
            kept.push(config.workspace_roots[i].clone());
            assert(views(kept@) =~= prev.push(roots[i as int]));
        }
        i += 1;
    }
    assert(roots.subrange(0, i as int) =~= roots);
    if kept.len() == config.workspace_roots.len() {
        proof {
            if roots.contains(path@) {
                let j = choose|j: int| 0 <= j < roots.len() && roots[j] == path@;
                assert(roots.filter(not_root(path@)).len() < roots.len()) by {
                    lemma_filter_drops(roots, not_root(path@), j);
                }
            }
        }
        return Err(EzError::Config(crate::text::concat("Root not found: ", path)));
    }
    proof {
        if !roots.contains(path@) {
            lemma_filter_keeps_all(roots, not_root(path@));
        }
    }
    config.workspace_roots = kept;
    Ok(())
}

proof fn lemma_filter_keeps_all(s: Seq<Seq<char>>, p: spec_fn(Seq<char>) -> bool)
    requires
        forall|i: int| 0 <= i < s.len() ==> p(#[trigger] s[i]),
    ensures
        s.filter(p) == s,
    decreases s.len(),
{
    reveal(Seq::filter);
    if s.len() > 0 {
        lemma_filter_keeps_all(s.drop_last(), p);
        assert(s.drop_last().push(s.last()) =~= s);
    }
}

proof fn lemma_filter_len(s: Seq<Seq<char>>, p: spec_fn(Seq<char>) -> bool)
    ensures
        s.filter(p).len() <= s.len(),
    decreases s.len(),
{
    if s.len() > 0 {
        let t = s.drop_last();
        assert(s =~= t.push(s.last()));
        crate::session::tree::lemma_filter_push(t, s.last(), p);
        lemma_filter_len(t, p);
    } else {
        assert(s.filter(p) =~= s) by {
            reveal(Seq::filter);
        }
    }
}

proof fn lemma_filter_drops(s: Seq<Seq<char>>, p: spec_fn(Seq<char>) -> bool, j: int)
    requires
        0 <= j < s.len(),
        !p(s[j]),
    ensures
        s.filter(p).len() < s.len(),
    decreases s.len(),
{
    let t = s.drop_last();
    assert(s =~= t.push(s.last()));
    crate::session::tree::lemma_filter_push(t, s.last(), p);
    lemma_filter_len(t, p);
    if j < s.len() - 1 {
        assert(t[j] == s[j]);
        lemma_filter_drops(t, p, j);
    }
}

/// The value of a string of decimal digits.
pub open spec fn digits_value(s: Seq<char>) -> nat
    decreases s.len(),
{
    if s.len() == 0 {
        0
    } else {
        digits_value(s.drop_last()) * 10 + ((s.last() as int - '0' as int) as nat)
    }
}

/// All characters are ASCII digits.
pub open spec fn all_digits(s: Seq<char>) -> bool {
    forall|i: int| 0 <= i < s.len() ==> '0' <= #[trigger] s[i] <= '9'
}

/// What `str::parse::<u64>` gives: an optional `+`, then at least one digit
/// and nothing else, of a value that fits.
pub open spec fn parsed_u64(s: Seq<char>) -> Option<u64> {
    let d = if s.len() > 0 && s[0] == '+' {
        s.drop_first()
    } else {
        s
    };
    if d.len() > 0 && all_digits(d) && digits_value(d) <= u64::MAX {
        Some(digits_value(d) as u64)
    } else {
        None
    }
}

proof fn lemma_digits_value_grows(s: Seq<char>, c: char)
    requires
        '0' <= c <= '9',
    ensures
        digits_value(s.push(c)) >= digits_value(s),
        digits_value(s.push(c)) == digits_value(s) * 10 + (c as int - '0' as int),
{
    assert(s.push(c).drop_last() =~= s);
}

proof fn lemma_digits_prefix_bound(s: Seq<char>, i: int)
    requires
        0 <= i <= s.len(),
        all_digits(s),
    ensures
        digits_value(s.subrange(0, i)) <= digits_value(s),
    decreases s.len() - i,
{
    if i < s.len() {
        lemma_digits_prefix_bound(s, i + 1);
        assert(s.subrange(0, i + 1) =~= s.subrange(0, i).push(s[i]));
        lemma_digits_value_grows(s.subrange(0, i), s[i]);
    } else {
        assert(s.subrange(0, i) =~= s);
    }
}

/// `str::parse::<u64>`.
pub fn parse_u64(s: &str) -> (r: Option<u64>)
    ensures
        r == parsed_u64(s@),
{
    let cs = crate::text::to_chars(s);
    let start: usize = if cs.len() > 0 && cs[0] == '+' {
        1
    } else {
        0
    };
    let ghost d = cs@.subrange(start as int, cs@.len() as int);
    assert(d =~= (if s@.len() > 0 && s@[0] == '+' {
        s@.drop_first()
    } else {
        s@
    }));
    if start >= cs.len() {
        return None;
    }
    let mut value: u64 = 0;
    let mut i: usize = start;
    assert(d.subrange(0, 0) =~= Seq::<char>::empty());
    while i < cs.len()
        invariant
            start <= i <= cs@.len(),
            start < cs@.len(),
            cs@ == s@,
            d == cs@.subrange(start as int, cs@.len() as int),
            d == (if s@.len() > 0 && s@[0] == '+' {
                s@.drop_first()
            } else {
                s@
            }),
            all_digits(d.subrange(0, i - start)),
            value == digits_value(d.subrange(0, i - start)),
        decreases cs.len() - i,
    {
        let c = cs[i];
        if !('0' <= c && c <= '9') {
            assert(!all_digits(d)) by {
                assert(d[i - start] == c);
            }
            return None;
        }
        let digit = ((c as u32) - ('0' as u32)) as u64;
        proof {
            assert(d.subrange(0, i - start + 1) =~= d.subrange(0, i - start).push(c));
            lemma_digits_value_grows(d.subrange(0, i - start), c);
        }
        if value > (u64::MAX - digit) / 10 {
            proof {
                assert(digits_value(d.subrange(0, i - start + 1)) > u64::MAX) by (nonlinear_arith)
                    requires
                        value > (u64::MAX - digit) / 10,
                        digits_value(d.subrange(0, i - start + 1)) == value * 10 + digit,
                        digit <= 9,
                ;
                if all_digits(d) {
                    lemma_digits_prefix_bound(d, i - start + 1);
                }
            }
            return None;
        }
        assert(value * 10 + digit <= u64::MAX) by (nonlinear_arith)
            requires
                value <= (u64::MAX - digit) / 10,
                digit <= 9,
        ;
        value = value * 10 + digit;
        i += 1;
    }
    assert(d.subrange(0, i - start) =~= d);
    Some(value)
}

/// The text `format!("{:?}", ..)` gives for a list of strings.
pub uninterp spec fn debug_list(items: Seq<Seq<char>>) -> Seq<char>;

/// `format!("{:?}", v)` of a list of strings. Its text is named, not
/// described: the list's `Debug` form, a function of the strings alone.
#[verifier::external_body]
pub(crate) fn debug_strings(v: &Vec<String>) -> (r: String)
    ensures
        r@ == debug_list(views(v@)),
{
    format!("{:?}", v)
}

/// The message for a key `config get` and `config set` do not know.
pub open spec fn unknown_key(key: Seq<char>) -> Seq<char> {
    "Unknown key: "@ + key
}

/// The value of a configuration key, as `config get` prints it.
pub open spec fn config_value(c: EzConfig, key: Seq<char>) -> Option<Seq<char>> {
    if key == "workspace_roots"@ {
        Some(debug_list(views(c.workspace_roots@)))
    } else if key == "default_shell"@ {
        Some(
            match c.default_shell {
                Some(s) => s@,
                None => Seq::empty(),
            },
        )
    } else if key == "editor"@ {
        Some(
            match c.editor {
                Some(s) => s@,
                None => Seq::empty(),
            },
        )
    } else if key == "plugin_timeout"@ {
        Some(decimal(c.plugin_timeout as nat))
    } else if key == "default_select_by"@ {
        Some(c.default_select_by@)
    } else if key == "selector.backend"@ {
        Some(c.selector.backend@)
    } else if key == "selector.fzf_opts"@ {
        Some(
            match c.selector.fzf_opts {
                Some(s) => s@,
                None => Seq::empty(),
            },
        )
    } else if key == "plugins.enabled"@ {
        Some(debug_list(views(c.plugins.enabled@)))
    } else {
        None
    }
}

fn text_or_empty(o: &Option<String>) -> (r: String)
    ensures
        r@ == match o {
            Some(s) => s@,
            None => Seq::empty(),
        },
{
    match o {
        Some(s) => s.clone(),
        None => String::new(),
    }
}

/// The value of a configuration key (`config get`).
pub fn get_value(config: &EzConfig, key: &str) -> (r: Result<String, EzError>)
    ensures
        match config_value(*config, key@) {
            Some(v) => r matches Ok(s) && s@ == v,
            None => r matches Err(EzError::Config(m)) && m@ == unknown_key(key@),
        },
{
    if crate::text::str_eq(key, "workspace_roots") {
        Ok(debug_strings(&config.workspace_roots))
    } else if crate::text::str_eq(key, "default_shell") {
        Ok(text_or_empty(&config.default_shell))
    } else if crate::text::str_eq(key, "editor") {
        Ok(text_or_empty(&config.editor))
    } else if crate::text::str_eq(key, "plugin_timeout") {
        Ok(crate::text::decimal_string(config.plugin_timeout as u128))
    } else if crate::text::str_eq(key, "default_select_by") {
        Ok(config.default_select_by.clone())
    } else if crate::text::str_eq(key, "selector.backend") {
        Ok(config.selector.backend.clone())
    } else if crate::text::str_eq(key, "selector.fzf_opts") {
        Ok(text_or_empty(&config.selector.fzf_opts))
    } else if crate::text::str_eq(key, "plugins.enabled") {
        Ok(debug_strings(&config.plugins.enabled))
    } else {
        Err(EzError::Config(crate::text::concat("Unknown key: ", key)))
    }
}

/// Whether a `default_select_by` value names a view.
pub open spec fn names_view(value: Seq<char>, plugins: Seq<LoadedPlugin>) -> bool {
    let l = crate::text::ascii_lower(value);
    core_mode(l) is Some || find_first(all_views(plugins), view_named(l)) is Some
}

/// The keys `config get` and `config set` know are told apart by their
/// length and first letter.
proof fn lemma_key_literals()
    ensures
        "workspace_roots"@.len() == 15 && "workspace_roots"@[0] == 'w',
        "default_shell"@.len() == 13,
        "editor"@.len() == 6,
        "plugin_timeout"@.len() == 14,
        "default_select_by"@.len() == 17 && "default_select_by"@[0] == 'd',
        "selector.backend"@.len() == 16,
        "selector.fzf_opts"@.len() == 17 && "selector.fzf_opts"@[0] == 's',
        "plugins.enabled"@.len() == 15 && "plugins.enabled"@[0] == 'p',
{
    reveal_strlit("workspace_roots");
    reveal_strlit("default_shell");
    reveal_strlit("editor");
    reveal_strlit("plugin_timeout");
    reveal_strlit("default_select_by");
    reveal_strlit("selector.backend");
    reveal_strlit("selector.fzf_opts");
    reveal_strlit("plugins.enabled");
}

/// Set a configuration key (`config set`): the keys `config set` knows get
/// the value (a number for `plugin_timeout`, a view name for
/// `default_select_by`); anything else is an error and the configuration is
/// left as it is.
pub fn set_value(config: &mut EzConfig, key: &str, value: &str, plugins: &Vec<LoadedPlugin>) -> (r:
    Result<(), EzError>)
    ensures
        ({
            let c0 = *old(config);
            let c1 = *final(config);
            if key@ == "default_shell"@ {
                r is Ok && (c1.default_shell matches Some(s) && s@ == value@) && c1 == EzConfig {
                    default_shell: c1.default_shell,
                    ..c0
                }
            } else if key@ == "editor"@ {
                r is Ok && (c1.editor matches Some(s) && s@ == value@) && c1 == EzConfig {
                    editor: c1.editor,
                    ..c0
                }
            } else if key@ == "plugin_timeout"@ {
                match parsed_u64(value@) {
                    Some(n) => r is Ok && c1 == EzConfig { plugin_timeout: n, ..c0 },
                    None => (r matches Err(EzError::Config(m)) && m@ == "Invalid number: "@
                        + value@) && c1 == c0,
                }
            } else if key@ == "default_select_by"@ {
                if names_view(value@, plugins@) {
                    r is Ok && c1.default_select_by@ == value@ && c1 == EzConfig {
                        default_select_by: c1.default_select_by,
                        ..c0
                    }
                } else {
                    r is Err && c1 == c0
                }
            } else if key@ == "selector.backend"@ {
                r is Ok && c1.selector.backend@ == value@ && c1 == EzConfig {
                    selector: SelectorConfig { backend: c1.selector.backend, ..c0.selector },
                    ..c0
                }
            } else if key@ == "selector.fzf_opts"@ {
                r is Ok && (c1.selector.fzf_opts matches Some(s) && s@ == value@) && c1 == EzConfig {
                    selector: SelectorConfig { fzf_opts: c1.selector.fzf_opts, ..c0.selector },
                    ..c0
                }
            } else {
                (r matches Err(EzError::Config(m)) && m@ == unknown_key(key@)) && c1 == c0
            }
        }),
        r is Ok && key@ != "plugin_timeout"@ ==> config_value(*final(config), key@) == Some(value@),
        r is Ok && key@ == "plugin_timeout"@ ==> config_value(*final(config), key@) == Some(
            decimal(final(config).plugin_timeout as nat),
        ),
{
    proof {
        lemma_key_literals();
    }
    if crate::text::str_eq(key, "default_shell") {
        config.default_shell = Some(crate::text::owned(value));
        Ok(())
    } else if crate::text::str_eq(key, "editor") {
        config.editor = Some(crate::text::owned(value));
        Ok(())
    } else if crate::text::str_eq(key, "plugin_timeout") {
        match parse_u64(value) {
            Some(n) => {
                config.plugin_timeout = n;
                Ok(())
            },
            None => Err(EzError::Config(crate::text::concat("Invalid number: ", value))),
        }
    } else if crate::text::str_eq(key, "default_select_by") {
        match ViewMode::from_flag(value, plugins) {
            Ok(_) => {
                config.default_select_by = crate::text::owned(value);
                Ok(())
            },
            Err(e) => Err(e),
        }
    } else if crate::text::str_eq(key, "selector.backend") {
        config.selector.backend = crate::text::owned(value);
        Ok(())
    } else if crate::text::str_eq(key, "selector.fzf_opts") {
        config.selector.fzf_opts = Some(crate::text::owned(value));
        Ok(())
    } else {
        Err(EzError::Config(crate::text::concat("Unknown key: ", key)))
    }
}

} // verus!
