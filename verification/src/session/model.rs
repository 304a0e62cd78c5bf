//! Sessions: named, tree-structured units of work inside a repository.
use vstd::prelude::*;

verus! {

/// One session of a repository.
///
/// Paths are kept as text; environment variables and per-plugin state are
/// ordered key/value lists (a plugin state value is its TOML encoding);
/// timestamps are RFC 3339 text.
#[derive(Debug)]
pub struct Session {
    /// Unique session ID (UUID)
    pub id: String,
    /// User-facing name
    pub name: String,
    /// Parent session ID (None = root-level session)
    pub parent_id: Option<String>,
    /// Optional physical path (set by plugins, e.g. worktree path)
    pub path: Option<String>,
    /// Session-specific environment variables
    pub env: Vec<(String, String)>,
    /// Per-plugin state for this session
    pub plugin_state: Vec<(String, String)>,
    /// User-defined labels for grouping/filtering
    pub labels: Vec<String>,
    /// When the session was created
    pub created_at: String,
    /// Whether this is the auto-created default session
    pub is_default: bool,
    /// A bare session has no worktree and skips plugin hooks
    pub bare: bool,
    /// When the session was last entered
    pub last_accessed: Option<String>,
}

/// The full session collection for one repo.
#[derive(Debug)]
pub struct SessionTree {
    pub sessions: Vec<Session>,
}

/// The mathematical value of a session: every field by its view.
pub struct SessionView {
    pub id: Seq<char>,
    pub name: Seq<char>,
    pub parent_id: Option<Seq<char>>,
    pub path: Option<Seq<char>>,
    pub env: Seq<(Seq<char>, Seq<char>)>,
    pub plugin_state: Seq<(Seq<char>, Seq<char>)>,
    pub labels: Seq<Seq<char>>,
    pub created_at: Seq<char>,
    pub is_default: bool,
    pub bare: bool,
    pub last_accessed: Option<Seq<char>>,
}

/// The view of an optional string.
pub open spec fn opt_view(o: Option<String>) -> Option<Seq<char>> {
    match o {
        Some(s) => Some(s@),
        None => None,
    }
}

/// The view of a key/value list.
pub open spec fn pairs_view(v: Seq<(String, String)>) -> Seq<(Seq<char>, Seq<char>)> {
    v.map_values(|p: (String, String)| (p.0@, p.1@))
}

impl View for Session {
    type V = SessionView;

    open spec fn view(&self) -> SessionView {
        SessionView {
            id: self.id@,
            name: self.name@,
            parent_id: opt_view(self.parent_id),
            path: opt_view(self.path),
            env: pairs_view(self.env@),
            plugin_state: pairs_view(self.plugin_state@),
            labels: crate::text::views(self.labels@),
            created_at: self.created_at@,
            is_default: self.is_default,
            bare: self.bare,
            last_accessed: opt_view(self.last_accessed),
        }
    }
}

/// The views of a sequence of sessions.
pub open spec fn sviews(s: Seq<Session>) -> Seq<SessionView> {
    s.map_values(|x: Session| x@)
}

impl View for SessionTree {
    type V = Seq<SessionView>;

    open spec fn view(&self) -> Seq<SessionView> {
        sviews(self.sessions@)
    }
}

/// A copy of a key/value list.
pub fn copy_pairs(v: &Vec<(String, String)>) -> (r: Vec<(String, String)>)
    ensures
        r@ == v@,
{
    let mut out: Vec<(String, String)> = Vec::new();
    let mut i: usize = 0;
    while i < v.len()
        invariant
            i <= v@.len(),
            out@ == v@.subrange(0, i as int),
        decreases v.len() - i,
    {
        let k = v[i].0.clone();
        let x = v[i].1.clone();
        out.push((k, x));
        i += 1;
        assert(out@ =~= v@.subrange(0, i as int));
    }
    assert(v@.subrange(0, v@.len() as int) =~= v@);
    out
}

/// The value stored under `key` in a key/value list (first entry wins).
pub open spec fn lookup(v: Seq<(String, String)>, key: Seq<char>) -> Option<String>
    decreases v.len(),
{
    if v.len() == 0 {
        None
    } else if v[0].0@ == key {
        Some(v[0].1)
    } else {
        lookup(v.drop_first(), key)
    }
}

/// `lookup`, executable.
pub fn get_value<'a>(v: &'a Vec<(String, String)>, key: &str) -> (r: Option<&'a String>)
    ensures
        match r {
            Some(x) => lookup(v@, key@) == Some(*x),
            None => lookup(v@, key@) is None,
        },
{
    let mut i: usize = 0;
    assert(v@.subrange(0, v@.len() as int) =~= v@);
    while i < v.len()
        invariant
            i <= v@.len(),
            lookup(v@, key@) == lookup(v@.subrange(i as int, v@.len() as int), key@),
        decreases v.len() - i,
    {
        let ghost rest = v@.subrange(i as int, v@.len() as int);
        if crate::text::str_eq(v[i].0.as_str(), key) {
            assert(rest[0] == v@[i as int]);
            return Some(&v[i].1);
        }
        assert(rest.drop_first() =~= v@.subrange(i + 1, v@.len() as int));
        i += 1;
    }
    None
}

impl Session {
    /// A field-for-field copy.
    pub fn copy(&self) -> (r: Session)
        ensures
            r@ == self@,
    {
        let labels = self.labels.clone();
        assert(crate::text::views(labels@) =~= crate::text::views(self.labels@));
        Session {
            id: self.id.clone(),
            name: self.name.clone(),
            parent_id: self.parent_id.clone(),
            path: self.path.clone(),
            env: copy_pairs(&self.env),
            plugin_state: copy_pairs(&self.plugin_state),
            labels,
            created_at: self.created_at.clone(),
            is_default: self.is_default,
            bare: self.bare,
            last_accessed: self.last_accessed.clone(),
        }
    }
}

impl SessionTree {
    /// A tree with no sessions (`SessionTree::default()`).
    pub fn new() -> (r: SessionTree)
        ensures
            r@ == Seq::<SessionView>::empty(),
    {
        let r = SessionTree { sessions: Vec::new() };
        assert(r@ =~= Seq::<SessionView>::empty());
        r
    }

}

} // verus!
