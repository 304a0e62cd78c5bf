//! Tree queries and edits over a repository's sessions, and the layout of the
//! rendered tree with its box-drawing connectors.
use vstd::prelude::*;

use super::model::{sviews, Session, SessionTree, SessionView};
use crate::error::EzError;
use crate::search::{find_first, first_match, lemma_first_match, lemma_first_match_is};
use crate::recency::{keyed, latest, latest_stamp, lemma_recent_first_map, recent_first, sort_recent_first, stamp_views};
use super::model::opt_view;

verus! {

/// Sessions with this ID.
pub open spec fn id_is(id: Seq<char>) -> spec_fn(SessionView) -> bool {
    |s: SessionView| s.id == id
}

/// Sessions with this name.
pub open spec fn name_is(name: Seq<char>) -> spec_fn(SessionView) -> bool {
    |s: SessionView| s.name == name
}

/// The default session.
pub open spec fn default_flag() -> spec_fn(SessionView) -> bool {
    |s: SessionView| s.is_default
}

/// Root-level sessions.
pub open spec fn root_flag() -> spec_fn(SessionView) -> bool {
    |s: SessionView| s.parent_id is None
}

/// Direct children of the session with this ID.
pub open spec fn child_of(id: Seq<char>) -> spec_fn(SessionView) -> bool {
    |s: SessionView| s.parent_id == Some(id)
}

/// The views of a sequence of session references.
pub open spec fn rviews(s: Seq<&Session>) -> Seq<SessionView> {
    s.map_values(|x: &Session| x@)
}

pub proof fn lemma_filter_push<T>(s: Seq<T>, e: T, p: spec_fn(T) -> bool)
    ensures
        s.push(e).filter(p) == (if p(e) {
            s.filter(p).push(e)
        } else {
            s.filter(p)
        }),
{
    reveal(Seq::filter);
    assert(s.push(e).drop_last() =~= s);
}

proof fn lemma_sviews_push(s: Seq<Session>, i: int)
    requires
        0 <= i < s.len(),
    ensures
        sviews(s.subrange(0, i + 1)) == sviews(s.subrange(0, i)).push(s[i]@),
{
    assert(sviews(s.subrange(0, i + 1)) =~= sviews(s.subrange(0, i)).push(s[i]@));
}

/// Which sessions a filtered listing keeps.
enum Pick {
    Roots,
    ChildrenOf,
}

spec fn pick_pred(pick: Pick, key: Seq<char>) -> spec_fn(SessionView) -> bool {
    match pick {
        Pick::Roots => root_flag(),
        Pick::ChildrenOf => child_of(key),
    }
}

/// Sessions of `t` picked by `pick`, in order.
fn filter_sessions<'a>(t: &'a Vec<Session>, pick: Pick, key: &str) -> (r: Vec<&'a Session>)
    ensures
        ({
            let p = pick_pred(pick, key@);
            rviews(r@) == sviews(t@).filter(p)
        }),
        forall|j: int| 0 <= j < r@.len() ==> t@.contains(*#[trigger] r@[j]),
{
    let ghost p = pick_pred(pick, key@);
    let mut out: Vec<&Session> = Vec::new();
    let mut i: usize = 0;
    while i < t.len()
        invariant
            i <= t@.len(),
            p == pick_pred(pick, key@),
            rviews(out@) == sviews(t@.subrange(0, i as int)).filter(p),
            forall|j: int| 0 <= j < out@.len() ==> t@.contains(*#[trigger] out@[j]),
        decreases t.len() - i,
    {
        let s = &t[i];
        let keep = match pick {
            Pick::Roots => s.parent_id.is_none(),
            Pick::ChildrenOf => match &s.parent_id {
                Some(pid) => crate::text::str_eq(pid.as_str(), key),
                None => false,
            },
        };
        proof {
            lemma_sviews_push(t@, i as int);
            lemma_filter_push(sviews(t@.subrange(0, i as int)), t@[i as int]@, p);
        }
        if keep {
            let ghost prev = out@;
            out.push(s);
            assert(rviews(out@) =~= rviews(prev).push(t@[i as int]@));
        }
        i += 1;
    }
    assert(t@.subrange(0, t@.len() as int) =~= t@);
    out
}

spec fn key_pred(by_name: bool, key: Seq<char>) -> spec_fn(SessionView) -> bool {
    if by_name {
        name_is(key)
    } else {
        id_is(key)
    }
}

/// Position of the first session with this name (or ID).
fn position_where(t: &Vec<Session>, by_name: bool, key: &str) -> (r: usize)
    ensures
        r == first_match(sviews(t@), key_pred(by_name, key@)),
{
    let ghost p = key_pred(by_name, key@);
    let mut i: usize = 0;
    while i < t.len()
        invariant
            i <= t@.len(),
            p == key_pred(by_name, key@),
            forall|j: int| 0 <= j < i ==> !p(#[trigger] sviews(t@)[j]),
        decreases t.len() - i,
    {
        let hit = if by_name {
            crate::text::str_eq(t[i].name.as_str(), key)
        } else {
            crate::text::str_eq(t[i].id.as_str(), key)
        };
        if hit {
            proof {
                lemma_first_match_is(sviews(t@), p, i as int);
            }
            return i;
        }
        i += 1;
    }
    proof {
        lemma_first_match_is(sviews(t@), p, i as int);
    }
    i
}

/// Render box-drawing connectors for a tree node: one `│   ` or four spaces per
/// ancestor level, then `└── ` for a last sibling or `├── ` otherwise. Root nodes
/// (depth 0) get no prefix.
pub open spec fn tree_line(depth: nat, is_last: bool, anc: Seq<bool>) -> Seq<char> {
    if depth == 0 {
        Seq::empty()
    } else {
        connectors(anc) + (if is_last {
            "└── "@
        } else {
            "├── "@
        })
    }
}

/// The continuation columns for the ancestor levels.
pub open spec fn connectors(anc: Seq<bool>) -> Seq<char>
    decreases anc.len(),
{
    if anc.len() == 0 {
        Seq::empty()
    } else {
        connectors(anc.drop_last()) + (if anc.last() {
            "│   "@
        } else {
            "    "@
        })
    }
}


/// Strict descendants of `id` in the order the stack walk lists them: the
/// children of `id`, then each child's own listing, last child first. The
/// walk follows at most `fuel` levels.
pub open spec fn desc_walk(t: Seq<SessionView>, id: Seq<char>, fuel: nat) -> Seq<SessionView>
    decreases fuel, 0nat,
{
    if fuel == 0 {
        Seq::empty()
    } else {
        let ch = t.filter(child_of(id));
        ch + desc_walk_list(t, ch.reverse(), (fuel - 1) as nat)
    }
}

/// The listings of `cs`, one after the other.
pub open spec fn desc_walk_list(t: Seq<SessionView>, cs: Seq<SessionView>, fuel: nat) -> Seq<
    SessionView,
>
    decreases fuel, cs.len() + 1,
{
    if cs.len() == 0 {
        Seq::empty()
    } else {
        desc_walk(t, cs[0].id, fuel) + desc_walk_list(t, cs.drop_first(), fuel)
    }
}

pub proof fn lemma_desc_walk_list_push(t: Seq<SessionView>, cs: Seq<SessionView>, c: SessionView, fuel: nat)
    ensures
        desc_walk_list(t, cs.push(c), fuel) == desc_walk_list(t, cs, fuel) + desc_walk(t, c.id, fuel),
    decreases cs.len(),
{
    if cs.len() == 0 {
        assert(cs.push(c).drop_first() =~= Seq::<SessionView>::empty());
        assert(desc_walk_list(t, Seq::<SessionView>::empty(), fuel) == Seq::<SessionView>::empty());
        assert(desc_walk_list(t, cs.push(c), fuel) =~= desc_walk(t, c.id, fuel));
    } else {
        assert(cs.push(c).drop_first() =~= cs.drop_first().push(c));
        lemma_desc_walk_list_push(t, cs.drop_first(), c, fuel);
        assert(desc_walk_list(t, cs.push(c), fuel) =~= desc_walk(t, cs[0].id, fuel) + (
        desc_walk_list(t, cs.drop_first(), fuel) + desc_walk(t, c.id, fuel)));
    }
}

/// The chain of parents of `id`, nearest first, following at most `fuel` links.
pub open spec fn anc_walk(t: Seq<SessionView>, id: Seq<char>, fuel: nat) -> Seq<SessionView>
    decreases fuel,
{
    if fuel == 0 {
        Seq::empty()
    } else {
        match find_first(t, id_is(id)) {
            Some(s) => match s.parent_id {
                Some(pid) => match find_first(t, id_is(pid)) {
                    Some(p) => seq![p] + anc_walk(t, pid, (fuel - 1) as nat),
                    None => Seq::empty(),
                },
                None => Seq::empty(),
            },
            None => Seq::empty(),
        }
    }
}

/// The access stamp of the session `id` itself, if the tree holds it.
pub open spec fn own_stamp(t: Seq<SessionView>, id: Seq<char>) -> Option<Seq<char>> {
    match find_first(t, id_is(id)) {
        Some(s) => s.last_accessed,
        None => None,
    }
}

/// The access stamps of sessions, in order.
pub open spec fn stamps(s: Seq<SessionView>) -> Seq<Option<Seq<char>>> {
    s.map_values(|x: SessionView| x.last_accessed)
}

/// The most recent access in the subtree of `id`: the session itself and
/// all its descendants.
pub open spec fn subtree_stamp(t: Seq<SessionView>, id: Seq<char>) -> Option<Seq<char>> {
    latest(own_stamp(t, id), stamps(desc_walk(t, id, t.len())))
}

/// Stamped session references by the views of the sessions.
pub open spec fn ref_payloads(s: Seq<(Option<Seq<char>>, &Session)>) -> Seq<(Option<Seq<char>>, SessionView)> {
    s.map_values(|p: (Option<Seq<char>>, &Session)| (p.0, p.1@))
}

/// The root sessions, each with the most recent access in its subtree.
pub open spec fn stamped_roots(t: Seq<SessionView>) -> Seq<(Option<Seq<char>>, SessionView)> {
    t.filter(root_flag()).map_values(|s: SessionView| (subtree_stamp(t, s.id), s))
}

/// The root sessions, most recently used subtree first.
pub open spec fn lru_roots(t: Seq<SessionView>) -> Seq<SessionView> {
    recent_first(stamped_roots(t)).map_values(|p: (Option<Seq<char>>, SessionView)| p.1)
}

/// The value of a rendered node.
pub struct NodeView {
    pub depth: nat,
    pub session: SessionView,
    pub is_last: bool,
    pub anc: Seq<bool>,
}

/// Continuation flags handed to the children of a node.
pub open spec fn child_anc(anc: Seq<bool>, depth: nat, is_last: bool) -> Seq<bool> {
    if depth > 0 {
        anc.push(!is_last)
    } else {
        anc
    }
}

/// Depth-first rendering of `s` and, within `fuel` levels, its descendants.
pub open spec fn render_walk(
    t: Seq<SessionView>,
    s: SessionView,
    depth: nat,
    is_last: bool,
    anc: Seq<bool>,
    fuel: nat,
) -> Seq<NodeView>
    decreases fuel, 0nat,
{
    seq![NodeView { depth, session: s, is_last, anc }] + (if fuel == 0 {
        Seq::empty()
    } else {
        render_list(
            t,
            t.filter(child_of(s.id)),
            0,
            depth + 1,
            child_anc(anc, depth, is_last),
            (fuel - 1) as nat,
        )
    })
}

/// Renderings of the siblings `cs[k..]`, the last of them marked as last.
pub open spec fn render_list(
    t: Seq<SessionView>,
    cs: Seq<SessionView>,
    k: nat,
    depth: nat,
    anc: Seq<bool>,
    fuel: nat,
) -> Seq<NodeView>
    decreases fuel, cs.len() - k + 1,
{
    if k >= cs.len() {
        Seq::empty()
    } else {
        render_walk(t, cs[k as int], depth, k == cs.len() - 1, anc, fuel) + render_list(
            t,
            cs,
            k + 1,
            depth,
            anc,
            fuel,
        )
    }
}

/// The views of rendered nodes.
pub open spec fn nviews(v: Seq<TreeNode>) -> Seq<NodeView> {
    v.map_values(
        |n: TreeNode|
            NodeView {
                depth: n.depth as nat,
                session: n.session@,
                is_last: n.is_last_sibling,
                anc: n.ancestor_has_next@,
            },
    )
}

/// A node in the rendered tree, carrying layout metadata for tree-glyph rendering.
pub struct TreeNode<'a> {
    pub depth: usize,
    pub session: &'a Session,
    pub is_last_sibling: bool,
    /// For each ancestor depth level, whether a `│` continuation line is needed.
    pub ancestor_has_next: Vec<bool>,
}

/// Render box-drawing connectors for a tree node.
pub fn format_session_tree_line(node: &TreeNode<'_>) -> (r: String)
    ensures
        r@ == tree_line(node.depth as nat, node.is_last_sibling, node.ancestor_has_next@),
{
    if node.depth == 0 {
        let r = String::new();
        return r;
    }
    let mut prefix = String::new();
    let mut i: usize = 0;
    while i < node.ancestor_has_next.len()
        invariant
            i <= node.ancestor_has_next@.len(),
            prefix@ == connectors(node.ancestor_has_next@.subrange(0, i as int)),
        decreases node.ancestor_has_next.len() - i,
    {
        if node.ancestor_has_next[i] {
            prefix.append("│   ");
        } else {
            prefix.append("    ");
        }
        assert(node.ancestor_has_next@.subrange(0, i + 1).drop_last() =~= node.ancestor_has_next@.subrange(0, i as int));
        i += 1;
    }
    assert(node.ancestor_has_next@.subrange(0, i as int) =~= node.ancestor_has_next@);
    if node.is_last_sibling {
        prefix.append("└── ");
    } else {
        prefix.append("├── ");
    }
    prefix
}

impl SessionTree {
    /// Get root-level sessions (no parent), in order.
    pub fn roots(&self) -> (r: Vec<&Session>)
        ensures
            rviews(r@) == self@.filter(root_flag()),
    {
        filter_sessions(&self.sessions, Pick::Roots, "")
    }

    /// Get direct children of a session, in order.
    pub fn children(&self, parent_id: &str) -> (r: Vec<&Session>)
        ensures
            rviews(r@) == self@.filter(child_of(parent_id@)),
    {
        filter_sessions(&self.sessions, Pick::ChildrenOf, parent_id)
    }

    fn desc_rec<'a>(&'a self, id: &str, fuel: usize) -> (r: Vec<&'a Session>)
        ensures
            rviews(r@) == desc_walk(self@, id@, fuel as nat),
        decreases fuel,
    {
        if fuel == 0 {
            let r: Vec<&Session> = Vec::new();
            assert(rviews(r@) =~= Seq::<SessionView>::empty());
            return r;
        }
        let ch = self.children(id);
        let ghost cv = rviews(ch@);
        let mut out: Vec<&Session> = Vec::new();
        let mut k: usize = 0;
        while k < ch.len()
            invariant
                k <= ch@.len(),
                out@ == ch@.subrange(0, k as int),
            decreases ch.len() - k,
        {
            out.push(ch[k]);
            k += 1;
            assert(out@ =~= ch@.subrange(0, k as int));
        }
        assert(ch@.subrange(0, k as int) =~= ch@);
        let mut j = ch.len();
        assert(cv.reverse().subrange(0, 0) =~= Seq::<SessionView>::empty());
        while j > 0
            invariant
                j <= ch@.len(),
                fuel > 0,
                cv == rviews(ch@),
                cv == self@.filter(child_of(id@)),
                rviews(out@) == cv + desc_walk_list(
                    self@,
                    cv.reverse().subrange(0, ch@.len() - j),
                    (fuel - 1) as nat,
                ),
            decreases j,
        {
            j -= 1;
            let mut sub = self.desc_rec(ch[j].id.as_str(), fuel - 1);
            let ghost before = out@;
            let ghost subv = sub@;
            out.append(&mut sub);
            proof {
                let m = ch@.len() - j;
                assert(cv.reverse().subrange(0, m) =~= cv.reverse().subrange(0, m - 1).push(cv[j as int]));
                lemma_desc_walk_list_push(self@, cv.reverse().subrange(0, m - 1), cv[j as int], (fuel - 1) as nat);
                assert(rviews(out@) =~= rviews(before) + rviews(subv));
            }
        }
        assert(cv.reverse().subrange(0, ch@.len() as int) =~= cv.reverse());
        out
    }

    /// Get all descendants (for cascade delete): the children of the session,
    /// then the descendants of each child, last child first.
    pub fn descendants(&self, session_id: &str) -> (r: Vec<&Session>)
        ensures
            rviews(r@) == desc_walk(self@, session_id@, self@.len()),
    {
        self.desc_rec(session_id, self.sessions.len())
    }

    /// Get the ancestry chain (bottom-up, excluding self).
    pub fn ancestors(&self, session_id: &str) -> (r: Vec<&Session>)
        ensures
            rviews(r@) == anc_walk(self@, session_id@, self@.len()),
    {
        let mut result: Vec<&Session> = Vec::new();
        let mut current = crate::text::owned(session_id);
        let mut fuel = self.sessions.len();
        assert(rviews(result@) + anc_walk(self@, current@, fuel as nat) =~= anc_walk(self@, session_id@, self@.len()));
        while fuel > 0
            invariant
                rviews(result@) + anc_walk(self@, current@, fuel as nat) == anc_walk(self@, session_id@, self@.len()),
            decreases fuel,
        {
            let session = match self.find_by_id(current.as_str()) {
                Some(s) => s,
                None => {
                    assert(rviews(result@) =~= rviews(result@) + Seq::<SessionView>::empty());
                    return result;
                },
            };
            let pid = match &session.parent_id {
                Some(p) => p.clone(),
                None => {
                    assert(rviews(result@) =~= rviews(result@) + Seq::<SessionView>::empty());
                    return result;
                },
            };
            match self.find_by_id(pid.as_str()) {
                Some(parent) => {
                    let ghost before = result@;
                    result.push(parent);
                    assert(rviews(result@) =~= rviews(before).push(parent@));
                    assert(rviews(result@) + anc_walk(self@, pid@, (fuel - 1) as nat) =~= rviews(before) + (seq![parent@] + anc_walk(self@, pid@, (fuel - 1) as nat)));
                    current = pid;
                    fuel -= 1;
                },
                None => {
                    assert(rviews(result@) =~= rviews(result@) + Seq::<SessionView>::empty());
                    return result;
                },
            }
        }
        assert(rviews(result@) =~= rviews(result@) + Seq::<SessionView>::empty());
        result
    }

    fn render_subtree<'a>(
        &'a self,
        session: &'a Session,
        depth: usize,
        is_last_sibling: bool,
        ancestor_has_next: &Vec<bool>,
        result: &mut Vec<TreeNode<'a>>,
        fuel: usize,
    )
        requires
            depth + fuel <= usize::MAX,
        ensures
            nviews(final(result)@) == nviews(old(result)@) + render_walk(
                self@,
                session@,
                depth as nat,
                is_last_sibling,
                ancestor_has_next@,
                fuel as nat,
            ),
        decreases fuel, 0nat,
    {
        let ghost start = result@;
        result.push(
            TreeNode {
                depth,
                session,
                is_last_sibling,
                ancestor_has_next: ancestor_has_next.clone(),
            },
        );
        let ghost node = NodeView {
            depth: depth as nat,
            session: session@,
            is_last: is_last_sibling,
            anc: ancestor_has_next@,
        };
        assert(nviews(result@) =~= nviews(start).push(node));
        if fuel == 0 {
            assert(nviews(result@) =~= nviews(start) + render_walk(self@, session@, depth as nat, is_last_sibling, ancestor_has_next@, 0));
            return;
        }
        let children = self.children(session.id.as_str());
        let mut child_ancestor = ancestor_has_next.clone();
        if depth > 0 {
            child_ancestor.push(!is_last_sibling);
        }
        assert(child_ancestor@ == child_anc(ancestor_has_next@, depth as nat, is_last_sibling));
        self.render_siblings(&children, 0, depth + 1, &child_ancestor, result, fuel - 1);
        assert(nviews(result@) =~= nviews(start) + render_walk(self@, session@, depth as nat, is_last_sibling, ancestor_has_next@, fuel as nat));
    }

    fn render_siblings<'a>(
        &'a self,
        siblings: &Vec<&'a Session>,
        k: usize,
        depth: usize,
        ancestor_has_next: &Vec<bool>,
        result: &mut Vec<TreeNode<'a>>,
        fuel: usize,
    )
        requires
            depth + fuel <= usize::MAX,
            k <= siblings@.len(),
        ensures
            nviews(final(result)@) == nviews(old(result)@) + render_list(
                self@,
                rviews(siblings@),
                k as nat,
                depth as nat,
                ancestor_has_next@,
                fuel as nat,
            ),
        decreases fuel, siblings@.len() - k + 1,
    {
        let ghost start = result@;
        if k >= siblings.len() {
            assert(nviews(result@) =~= nviews(start) + Seq::<NodeView>::empty());
            return;
        }
        let is_last = k == siblings.len() - 1;
        self.render_subtree(siblings[k], depth, is_last, ancestor_has_next, result, fuel);
        let ghost mid = result@;
        self.render_siblings(siblings, k + 1, depth, ancestor_has_next, result, fuel);
        assert(nviews(result@) =~= nviews(start) + render_list(self@, rviews(siblings@), k as nat, depth as nat, ancestor_has_next@, fuel as nat));
    }

    /// Render as a depth-first tree with layout metadata for tree-glyph rendering.
    pub fn render_tree(&self) -> (r: Vec<TreeNode<'_>>)
        ensures
            nviews(r@) == render_list(self@, self@.filter(root_flag()), 0, 0, Seq::empty(), self@.len()),
    {
        let mut result: Vec<TreeNode> = Vec::new();
        let roots = self.roots();
        let none: Vec<bool> = Vec::new();
        assert(none@ =~= Seq::<bool>::empty());
        self.render_siblings(&roots, 0, 0, &none, &mut result, self.sessions.len());
        assert(nviews(result@) =~= render_list(self@, self@.filter(root_flag()), 0, 0, Seq::empty(), self@.len()));
        result
    }

    /// Render the tree with root sessions sorted by most-recently-accessed
    /// first; roots whose subtree was never entered come last, in tree order.
    pub fn render_tree_lru(&self) -> (r: Vec<TreeNode<'_>>)
        ensures
            nviews(r@) == render_list(self@, lru_roots(self@), 0, 0, Seq::empty(), self@.len()),
    {
        let roots = self.roots();
        let ghost st = stamped_roots(self@);
        let mut pairs: Vec<(Option<String>, &Session)> = Vec::new();
        let mut i: usize = 0;
        while i < roots.len()
            invariant
                i <= roots@.len(),
                rviews(roots@) == self@.filter(root_flag()),
                st == stamped_roots(self@),
                ref_payloads(keyed(pairs@)) == st.subrange(0, i as int),
            decreases roots.len() - i,
        {
            let stamp = self.subtree_max_accessed(roots[i].id.as_str());
            let ghost before = pairs@;
            pairs.push((stamp, roots[i]));
            proof {
                assert(rviews(roots@)[i as int] == roots@[i as int]@);
                assert(ref_payloads(keyed(pairs@)) =~= ref_payloads(keyed(before)).push(
                    (opt_view(stamp), roots@[i as int]@),
                ));
                assert(st.subrange(0, i + 1) =~= st.subrange(0, i as int).push(st[i as int]));
            }
            i += 1;
        }
        assert(st.subrange(0, st.len() as int) =~= st);
        let ghost kp = keyed(pairs@);
        let sorted = sort_recent_first(pairs);
        proof {
            let f = |x: &Session| x@;
            lemma_recent_first_map(kp, f);
            assert(ref_payloads(kp) =~= kp.map_values(|p: (Option<Seq<char>>, &Session)| (p.0, f(p.1))));
            let rk = recent_first(kp);
            assert(ref_payloads(rk) =~= rk.map_values(|p: (Option<Seq<char>>, &Session)| (p.0, f(p.1))));
        }
        let ghost want = lru_roots(self@);
        let mut order: Vec<&Session> = Vec::new();
        let mut j: usize = 0;
        while j < sorted.len()
            invariant
                j <= sorted@.len(),
                ref_payloads(keyed(sorted@)) == recent_first(st),
                want == lru_roots(self@),
                st == stamped_roots(self@),
                rviews(order@) == want.subrange(0, j as int),
            decreases sorted.len() - j,
        {
            let ghost before = order@;
            proof {
                assert(ref_payloads(keyed(sorted@))[j as int] == (opt_view(sorted@[j as int].0), sorted@[j as int].1@));
                assert(want[j as int] == recent_first(st)[j as int].1);
            }
            order.push(sorted[j].1);
            proof {
                assert(rviews(order@) =~= rviews(before).push(sorted@[j as int].1@));
                assert(want.subrange(0, j + 1) =~= want.subrange(0, j as int).push(want[j as int]));
            }
            j += 1;
        }
        assert(want.subrange(0, j as int) =~= want);
        let mut result: Vec<TreeNode> = Vec::new();
        let none: Vec<bool> = Vec::new();
        assert(none@ =~= Seq::<bool>::empty());
        self.render_siblings(&order, 0, 0, &none, &mut result, self.sessions.len());
        assert(nviews(result@) =~= render_list(self@, want, 0, 0, Seq::empty(), self@.len()));
        result
    }

    /// The most recent `last_accessed` across a session and all its descendants.
    pub fn subtree_max_accessed(&self, session_id: &str) -> (r: Option<String>)
        ensures
            opt_view(r) == subtree_stamp(self@, session_id@),
    {
        let own = match self.find_by_id(session_id) {
            Some(s) => match &s.last_accessed {
                Some(ts) => Some(ts.clone()),
                None => None,
            },
            None => None,
        };
        let desc = self.descendants(session_id);
        let ghost dv = rviews(desc@);
        let mut all: Vec<Option<String>> = Vec::new();
        let mut i: usize = 0;
        while i < desc.len()
            invariant
                i <= desc@.len(),
                dv == rviews(desc@),
                stamp_views(all@) == stamps(dv.subrange(0, i as int)),
            decreases desc.len() - i,
        {
            let stamp = match &desc[i].last_accessed {
                Some(ts) => Some(ts.clone()),
                None => None,
            };
            let ghost before = all@;
            all.push(stamp);
            proof {
                assert(dv[i as int] == desc@[i as int]@);
                assert(stamp_views(all@) =~= stamp_views(before).push(opt_view(stamp)));
                assert(stamps(dv.subrange(0, i + 1)) =~= stamps(dv.subrange(0, i as int)).push(dv[i as int].last_accessed));
            }
            i += 1;
        }
        assert(dv.subrange(0, dv.len() as int) =~= dv);
        latest_stamp(own, &all)
    }

    /// Find the default session (the first one with `is_default == true`).
    pub fn find_default(&self) -> (r: Option<&Session>)
        ensures
            match r {
                Some(s) => find_first(self@, default_flag()) == Some(s@),
                None => find_first(self@, default_flag()) is None,
            },
    {
        let mut i: usize = 0;
        while i < self.sessions.len()
            invariant
                i <= self.sessions@.len(),
                forall|j: int| 0 <= j < i ==> !default_flag()(#[trigger] self@[j]),
            decreases self.sessions.len() - i,
        {
            if self.sessions[i].is_default {
                proof {
                    lemma_first_match_is(self@, default_flag(), i as int);
                }
                return Some(&self.sessions[i]);
            }
            i += 1;
        }
        proof {
            lemma_first_match_is(self@, default_flag(), i as int);
        }
        None
    }

    /// Find a session by name (first match).
    pub fn find_by_name(&self, name: &str) -> (r: Option<&Session>)
        ensures
            match r {
                Some(s) => find_first(self@, name_is(name@)) == Some(s@),
                None => find_first(self@, name_is(name@)) is None,
            },
    {
        let k = position_where(&self.sessions, true, name);
        if k < self.sessions.len() {
            Some(&self.sessions[k])
        } else {
            None
        }
    }

    /// Position of the first session with this ID; the number of sessions
    /// when none has it.
    pub(crate) fn index_of_id(&self, id: &str) -> (r: usize)
        ensures
            r == first_match(self@, id_is(id@)),
    {
        position_where(&self.sessions, false, id)
    }

    /// Position of the first session with this name; the number of sessions
    /// when none has it.
    pub(crate) fn index_of_name(&self, name: &str) -> (r: usize)
        ensures
            r == first_match(self@, name_is(name@)),
    {
        position_where(&self.sessions, true, name)
    }

    /// Find a session by ID (first match).
    pub fn find_by_id(&self, id: &str) -> (r: Option<&Session>)
        ensures
            match r {
                Some(s) => find_first(self@, id_is(id@)) == Some(s@),
                None => find_first(self@, id_is(id@)) is None,
            },
    {
        let k = position_where(&self.sessions, false, id);
        if k < self.sessions.len() {
            Some(&self.sessions[k])
        } else {
            None
        }
    }

    /// Add a session. Errors if its name already exists, or if it names a
    /// parent ID that no session has; the tree is then unchanged.
    pub fn add(&mut self, session: Session) -> (r: Result<(), EzError>)
        ensures
            ({
                if find_first(old(self)@, name_is(session.name@)) is Some {
                    (r matches Err(EzError::SessionAlreadyExists(n)) && n@ == session.name@)
                        && final(self)@ == old(self)@
                } else {
                    match session.parent_id {
                        Some(pid) => if find_first(old(self)@, id_is(pid@)) is None {
                            (r matches Err(EzError::SessionNotFound(m)) && m@ == "parent session '"@
                                + pid@ + "' not found"@) && final(self)@ == old(self)@
                        } else {
                            r is Ok && final(self)@ == old(self)@.push(session@)
                        },
                        None => r is Ok && final(self)@ == old(self)@.push(session@),
                    }
                }
            }),
    {
        if self.find_by_name(session.name.as_str()).is_some() {
            return Err(EzError::SessionAlreadyExists(session.name));
        }
        if let Some(pid) = &session.parent_id {
            if self.find_by_id(pid.as_str()).is_none() {
                let msg = crate::text::concat3("parent session '", pid.as_str(), "' not found");
                return Err(EzError::SessionNotFound(msg));
            }
        }
        let ghost v = session@;
        self.sessions.push(session);
        assert(self@ =~= old(self)@.push(v));
        Ok(())
    }

    /// Remove the first session with this ID and return it.
    pub fn remove(&mut self, session_id: &str) -> (r: Result<Session, EzError>)
        ensures
            ({
                let k = first_match(old(self)@, id_is(session_id@));
                if k < old(self)@.len() {
                    r matches Ok(s) && s@ == old(self)@[k] && final(self)@ == old(self)@.remove(k)
                } else {
                    r matches Err(EzError::SessionNotFound(m)) && m@ == session_id@ && final(self)@ == old(self)@
                }
            }),
    {
        let k = position_where(&self.sessions, false, session_id);
        if k >= self.sessions.len() {
            return Err(EzError::SessionNotFound(crate::text::owned(session_id)));
        }
        let s = self.sessions.remove(k);
        assert(self@ =~= old(self)@.remove(k as int));
        Ok(s)
    }
}

/// No two sessions share a name.
pub open spec fn unique_names(t: Seq<SessionView>) -> bool {
    forall|i: int, j: int| 0 <= i < j < t.len() ==> (#[trigger] t[i]).name != (#[trigger] t[j]).name
}

/// A session that `add` accepted is found by its name afterwards.
pub proof fn law_add_then_find_by_name(t: Seq<SessionView>, s: SessionView)
    requires
        find_first(t, name_is(s.name)) is None,
    ensures
        find_first(t.push(s), name_is(s.name)) == Some(s),
{
    crate::search::lemma_first_match(t, name_is(s.name));
    crate::search::lemma_first_match_none(t, name_is(s.name));
    assert forall|j: int| 0 <= j < t.len() implies !name_is(s.name)(#[trigger] t.push(s)[j]) by {
        assert(t.push(s)[j] == t[j]);
        assert(!name_is(s.name)(t[j]));
    }
    lemma_first_match_is(t.push(s), name_is(s.name), t.len() as int);
}

/// Removing, by its ID, a session that was just added (with an ID no other
/// session has) gives back the tree as it was.
pub proof fn law_remove_undoes_add(t: Seq<SessionView>, s: SessionView)
    requires
        find_first(t, id_is(s.id)) is None,
    ensures
        first_match(t.push(s), id_is(s.id)) == t.len(),
        t.push(s).remove(t.len() as int) == t,
{
    crate::search::lemma_first_match(t, id_is(s.id));
    crate::search::lemma_first_match_none(t, id_is(s.id));
    assert forall|j: int| 0 <= j < t.len() implies !id_is(s.id)(#[trigger] t.push(s)[j]) by {
        assert(t.push(s)[j] == t[j]);
        assert(!id_is(s.id)(t[j]));
    }
    lemma_first_match_is(t.push(s), id_is(s.id), t.len() as int);
    assert(t.push(s).remove(t.len() as int) =~= t);
}

/// `add` keeps session names unique: it only appends a session whose name
/// no session has.
pub proof fn law_add_keeps_names_unique(t: Seq<SessionView>, s: SessionView)
    requires
        unique_names(t),
        find_first(t, name_is(s.name)) is None,
    ensures
        unique_names(t.push(s)),
{
    crate::search::lemma_first_match(t, name_is(s.name));
    crate::search::lemma_first_match_none(t, name_is(s.name));
    let u = t.push(s);
    assert forall|i: int, j: int| 0 <= i < j < u.len() implies (#[trigger] u[i]).name != (
    #[trigger] u[j]).name by {
        if j == t.len() {
            assert(!name_is(s.name)(t[i]));
            assert(u[i] == t[i]);
        } else {
            assert(u[i] == t[i] && u[j] == t[j]);
        }
    }
}

/// `remove` keeps session names unique.
pub proof fn law_remove_keeps_names_unique(t: Seq<SessionView>, k: int)
    requires
        unique_names(t),
        0 <= k < t.len(),
    ensures
        unique_names(t.remove(k)),
{
    let u = t.remove(k);
    assert forall|i: int, j: int| 0 <= i < j < u.len() implies (#[trigger] u[i]).name != (
    #[trigger] u[j]).name by {
        let a = if i < k {
            i
        } else {
            i + 1
        };
        let b = if j < k {
            j
        } else {
            j + 1
        };
        assert(u[i] == t[a] && u[j] == t[b]);
    }
}

/// Every session that names a parent names one the tree holds.
pub open spec fn parents_present(t: Seq<SessionView>) -> bool {
    forall|i: int|
        0 <= i < t.len() ==> match (#[trigger] t[i]).parent_id {
            Some(p) => exists|j: int| 0 <= j < t.len() && t[j].id == p,
            None => true,
        }
}

/// Adding a session as `add` accepts it (its parent, if any, is in the
/// tree) keeps every parent present.
pub proof fn law_add_keeps_parents_present(t: Seq<SessionView>, s: SessionView)
    requires
        parents_present(t),
        s.parent_id matches Some(p) ==> find_first(t, id_is(p)) is Some,
    ensures
        parents_present(t.push(s)),
{
    let u = t.push(s);
    assert forall|i: int| 0 <= i < u.len() implies match (#[trigger] u[i]).parent_id {
        Some(p) => exists|j: int| 0 <= j < u.len() && u[j].id == p,
        None => true,
    } by {
        if i < t.len() {
            assert(u[i] == t[i]);
            if let Some(p) = t[i].parent_id {
                let j = choose|j: int| 0 <= j < t.len() && t[j].id == p;
                assert(u[j] == t[j]);
            }
        } else if let Some(p) = s.parent_id {
            lemma_first_match(t, id_is(p));
            let j = first_match(t, id_is(p));
            assert(u[j] == t[j]);
        }
    }
}

} // verus!
