//! URL frontier of the spider.
//!
//! Every node is kept in one flat list after the root: the referrer relation is
//! only used by `push` to find the depth of the referring page. `pop` hands out
//! the first node that has not been visited yet, the root first and then the
//! other nodes in the order in which they were pushed.
use vstd::prelude::*;
use crate::text::{starts_with, str_starts_with};

verus! {

broadcast use vstd::string::group_string_axioms;

/// One page in the frontier.
#[derive(Debug)]
pub struct TreeNode {
    /// Referrer URL (`None` for the seed).
    pub key: Option<String>,
    /// This node's URL (the page to fetch).
    pub value: String,
    pub depth: i32,
    pub visited: bool,
}

/// The mathematical content of a node.
pub struct NodeSpec {
    pub key: Option<Seq<char>>,
    pub value: Seq<char>,
    pub depth: int,
    pub visited: bool,
}

pub open spec fn opt_string_view(o: Option<String>) -> Option<Seq<char>> {
    match o {
        Some(s) => Some(s@),
        None => None,
    }
}

impl View for TreeNode {
    type V = NodeSpec;

    open spec fn view(&self) -> NodeSpec {
        NodeSpec { key: opt_string_view(self.key), value: self.value@, depth: self.depth as int, visited: self.visited }
    }
}

pub(crate) fn clone_opt_string(o: &Option<String>) -> (r: Option<String>)
    ensures
        opt_string_view(r) == opt_string_view(*o),
{
    match o {
        Some(s) => Some(s.clone()),
        None => None,
    }
}

impl TreeNode {
    pub fn new(key: Option<String>, value: String, depth: i32) -> (n: Self)
        ensures
            n@ == (NodeSpec { key: opt_string_view(key), value: value@, depth: depth as int, visited: false }),
    {
        TreeNode { key, value, depth, visited: false }
    }
}

/// The frontier: a root node, the nodes pushed after it, and the depth limit.
#[derive(Debug)]
pub struct Tree {
    pub data: TreeNode,
    /// All frontier nodes after the root, in the order they were pushed.
    pub children: Vec<TreeNode>,
    pub max_depth: i32,
    pub debug: bool,
}

pub struct TreeSpec {
    pub root: NodeSpec,
    pub children: Seq<NodeSpec>,
    pub max_depth: int,
    pub debug: bool,
}

impl View for Tree {
    type V = TreeSpec;

    open spec fn view(&self) -> TreeSpec {
        TreeSpec {
            root: self.data@,
            children: self.children@.map_values(|n: TreeNode| n@),
            max_depth: self.max_depth as int,
            debug: self.debug,
        }
    }
}

/// The nodes in the order in which `pop` considers them: the root, then the others.
pub open spec fn all_nodes(t: TreeSpec) -> Seq<NodeSpec> {
    seq![t.root] + t.children
}

/// Index of the first unvisited node at or after `i`.
pub open spec fn first_unvisited_from(ns: Seq<NodeSpec>, i: int) -> Option<int>
    decreases ns.len() - i,
{
    if i < 0 || i >= ns.len() {
        None
    } else if !ns[i].visited {
        Some(i)
    } else {
        first_unvisited_from(ns, i + 1)
    }
}

pub open spec fn first_unvisited(t: TreeSpec) -> Option<int> {
    first_unvisited_from(all_nodes(t), 0)
}

/// No node is left to visit.
pub open spec fn tree_empty(t: TreeSpec) -> bool {
    forall|i: int| 0 <= i < all_nodes(t).len() ==> #[trigger] all_nodes(t)[i].visited
}

pub open spec fn visit_node(n: NodeSpec) -> NodeSpec {
    NodeSpec { visited: true, ..n }
}

/// The tree with the node at position `i` of `all_nodes` marked visited.
pub open spec fn mark_visited(t: TreeSpec, i: int) -> TreeSpec {
    if i == 0 {
        TreeSpec { root: visit_node(t.root), ..t }
    } else {
        TreeSpec { children: t.children.update(i - 1, visit_node(t.children[i - 1])), ..t }
    }
}

/// What `pop` leaves behind and hands out.
pub open spec fn pop_spec(t: TreeSpec) -> (TreeSpec, Option<(Option<Seq<char>>, Seq<char>)>) {
    match first_unvisited(t) {
        None => (t, None),
        Some(i) => (mark_visited(t, i), Some((all_nodes(t)[i].key, all_nodes(t)[i].value))),
    }
}

pub open spec fn is_mailto_link(url: Seq<char>) -> bool {
    starts_with(url, "mailto:"@)
}

/// Index of the first non-root node whose URL is `url`.
pub open spec fn find_child_from(cs: Seq<NodeSpec>, url: Seq<char>, i: int) -> Option<int>
    decreases cs.len() - i,
{
    if i < 0 || i >= cs.len() {
        None
    } else if cs[i].value == url {
        Some(i)
    } else {
        find_child_from(cs, url, i + 1)
    }
}

/// Depth of the node that `push` treats as the referrer `prior`.
pub open spec fn referrer_depth(t: TreeSpec, prior: Seq<char>) -> Option<int> {
    if prior == t.root.value {
        Some(t.root.depth)
    } else {
        match find_child_from(t.children, prior, 0) {
            Some(j) => Some(t.children[j].depth),
            None => None,
        }
    }
}

pub open spec fn new_node(key: Option<Seq<char>>, value: Seq<char>, depth: int) -> NodeSpec {
    NodeSpec { key, value, depth, visited: false }
}

/// The tree after `push(prior, next)`.
pub open spec fn push_spec(t: TreeSpec, prior: Option<Seq<char>>, next: Seq<char>) -> TreeSpec {
    match prior {
        None => TreeSpec { root: new_node(None, next, 0), ..t },
        Some(p) => if t.max_depth == 0 {
            t
        } else if p == t.root.value {
            TreeSpec { children: t.children.push(new_node(Some(p), next, t.root.depth + 1)), ..t }
        } else {
            match find_child_from(t.children, p, 0) {
                None => t,
                Some(j) => if is_mailto_link(next) || t.children[j].depth < t.max_depth {
                    TreeSpec {
                        children: t.children.push(new_node(Some(p), next, t.children[j].depth + 1)),
                        ..t
                    }
                } else {
                    t
                },
            }
        },
    }
}

/// The depth a pushed node would get does not overflow.
pub open spec fn push_fits(t: TreeSpec, prior: Option<Seq<char>>) -> bool {
    match prior {
        None => true,
        Some(p) => forall|d: int| referrer_depth(t, p) == Some(d) ==> d < i32::MAX,
    }
}


proof fn lemma_first_unvisited_from(ns: Seq<NodeSpec>, i: int)
    requires
        0 <= i,
    ensures
        first_unvisited_from(ns, i) is None <==> (forall|k: int| i <= k < ns.len() ==> #[trigger] ns[k].visited),
        first_unvisited_from(ns, i) matches Some(j) ==> i <= j < ns.len() && !ns[j].visited && (forall|k: int|
            i <= k < j ==> #[trigger] ns[k].visited),
    decreases ns.len() - i,
{
    if i < ns.len() && ns[i].visited {
        lemma_first_unvisited_from(ns, i + 1);
    }
}

/// `empty` holds exactly when `pop` has no node left to hand out.
pub proof fn lemma_empty_iff_pop_none(t: TreeSpec)
    ensures
        tree_empty(t) <==> pop_spec(t).1 is None,
{
    lemma_first_unvisited_from(all_nodes(t), 0);
}

/// `pop` hands out the first node not yet visited: every node before it has been
/// visited, and a second `pop` hands out a node that comes strictly later, so no
/// node is handed out twice.
pub proof fn lemma_pop_in_order(t: TreeSpec)
    ensures
        first_unvisited(t) matches Some(i) ==> {
            &&& forall|k: int| 0 <= k < i ==> #[trigger] all_nodes(t)[k].visited
            &&& !all_nodes(t)[i].visited
            &&& (first_unvisited(pop_spec(t).0) matches Some(j) ==> i < j)
        },
{
    let ns = all_nodes(t);
    lemma_first_unvisited_from(ns, 0);
    if let Some(i) = first_unvisited(t) {
        let t1 = mark_visited(t, i);
        let ns1 = all_nodes(t1);
        assert(ns1.len() == ns.len());
        assert forall|k: int| 0 <= k <= i implies #[trigger] ns1[k].visited by {
            if k == 0 {
                assert(ns1[0] == t1.root);
            } else {
                assert(ns1[k] == t1.children[k - 1]);
                assert(ns[k] == t.children[k - 1]);
            }
        }
        lemma_first_unvisited_from(ns1, 0);
    }
}

/// The visited nodes after the root form a prefix of the push order.
pub open spec fn visited_in_order(t: TreeSpec) -> bool {
    forall|a: int, b: int|
        0 <= a < b < t.children.len() && #[trigger] t.children[b].visited ==> #[trigger] t.children[a].visited
}

/// `push` keeps the visited nodes a prefix of the push order.
pub proof fn lemma_push_keeps_visit_order(t: TreeSpec, prior: Option<Seq<char>>, next: Seq<char>)
    requires
        visited_in_order(t),
    ensures
        visited_in_order(push_spec(t, prior, next)),
{
    let t1 = push_spec(t, prior, next);
    assert forall|a: int, b: int|
        0 <= a < b < t1.children.len() && #[trigger] t1.children[b].visited implies #[trigger] t1.children[a].visited by {
        if b < t.children.len() {
            assert(t1.children[b] == t.children[b]);
            assert(t1.children[a] == t.children[a]);
        }
    }
}

/// `pop` keeps the visited nodes a prefix of the push order.
pub proof fn lemma_pop_keeps_visit_order(t: TreeSpec)
    requires
        visited_in_order(t),
    ensures
        visited_in_order(pop_spec(t).0),
{
    let ns = all_nodes(t);
    lemma_first_unvisited_from(ns, 0);
    if let Some(i) = first_unvisited(t) {
        if i > 0 {
            let t1 = mark_visited(t, i);
            assert(ns[0] == t.root);
            assert forall|a: int, b: int|
                0 <= a < b < t1.children.len() && #[trigger] t1.children[b].visited implies #[trigger] t1.children[a].visited by {
                assert(ns[a + 1] == t.children[a]);
                if b != i - 1 {
                    assert(t1.children[b] == t.children[b]);
                }
            }
        }
    }
}

/// How many nodes are still to be visited.
pub open spec fn unvisited_count(ns: Seq<NodeSpec>) -> nat
    decreases ns.len(),
{
    if ns.len() == 0 {
        0
    } else {
        unvisited_count(ns.drop_last()) + if ns.last().visited {
            0nat
        } else {
            1nat
        }
    }
}

proof fn lemma_visit_one(ns: Seq<NodeSpec>, i: int)
    requires
        0 <= i < ns.len(),
        !ns[i].visited,
    ensures
        unvisited_count(ns.update(i, visit_node(ns[i]))) + 1 == unvisited_count(ns),
    decreases ns.len(),
{
    let u = ns.update(i, visit_node(ns[i]));
    if i < ns.len() - 1 {
        lemma_visit_one(ns.drop_last(), i);
        assert(u.drop_last() =~= ns.drop_last().update(i, visit_node(ns[i])));
    } else {
        assert(u.drop_last() =~= ns.drop_last());
    }
}

/// A `pop` that hands out a node leaves one node fewer to visit.
pub proof fn lemma_pop_shrinks(t: TreeSpec)
    ensures
        pop_spec(t).1 is Some ==> unvisited_count(all_nodes(pop_spec(t).0)) < unvisited_count(all_nodes(t)),
{
    let ns = all_nodes(t);
    lemma_first_unvisited_from(ns, 0);
    if let Some(i) = first_unvisited(t) {
        let t1 = mark_visited(t, i);
        assert(all_nodes(t1) =~= ns.update(i, visit_node(ns[i])));
        lemma_visit_one(ns, i);
    }
}

/// Every node other than the root and the `mailto:` links lies within the
/// depth limit, and the root lies under it (or the limit is 0).
pub open spec fn depths_within_limit(t: TreeSpec) -> bool {
    &&& 0 <= t.root.depth
    &&& (t.root.depth < t.max_depth || t.max_depth == 0)
    &&& forall|k: int|
        0 <= k < t.children.len() && !is_mailto_link(#[trigger] t.children[k].value) ==> t.children[k].depth
            <= t.max_depth
}

/// `push` never places a page beyond the depth limit (only `mailto:` links may
/// go deeper), once the seed lies under the limit.
pub proof fn lemma_push_respects_depth(t: TreeSpec, prior: Option<Seq<char>>, next: Seq<char>)
    requires
        depths_within_limit(t),
    ensures
        depths_within_limit(push_spec(t, prior, next)),
{
    let t1 = push_spec(t, prior, next);
    assert forall|k: int|
        0 <= k < t1.children.len() && !is_mailto_link(#[trigger] t1.children[k].value) implies t1.children[k].depth
            <= t1.max_depth by {
        if k < t.children.len() {
            assert(t1.children[k] == t.children[k]);
        }
    }
}

/// `pop` only marks a node visited, so it keeps the depths within the limit.
pub proof fn lemma_pop_keeps_depths(t: TreeSpec)
    requires
        depths_within_limit(t),
    ensures
        depths_within_limit(pop_spec(t).0),
{
    let ns = all_nodes(t);
    lemma_first_unvisited_from(ns, 0);
    if let Some(i) = first_unvisited(t) {
        let t1 = mark_visited(t, i);
        assert forall|k: int|
            0 <= k < t1.children.len() && !is_mailto_link(#[trigger] t1.children[k].value) implies t1.children[k].depth
                <= t1.max_depth by {
            assert(t1.children[k].value == t.children[k].value && t1.children[k].depth == t.children[k].depth);
        }
    }
}

/// The frontier's shape once seeded: the seed at depth 0; every other node at
/// least one link deep and, `mailto:` links aside, within the limit; no other
/// node at all under a limit of 0. (The other nodes are kept in one flat list
/// and have no nodes of their own.)
pub open spec fn tree_shape(t: TreeSpec) -> bool {
    &&& t.root.depth == 0
    &&& t.max_depth >= 0
    &&& (t.max_depth == 0 ==> t.children.len() == 0)
    &&& forall|k: int|
        0 <= k < t.children.len() ==> {
            &&& #[trigger] t.children[k].depth >= 1
            &&& (!is_mailto_link(t.children[k].value) ==> t.children[k].depth <= t.max_depth)
        }
}

/// A tree made with `new`, given a limit `m >= 0` and seeded with `push(None, seed)`, has the shape.
pub proof fn lemma_seeded_shape(key: Option<Seq<char>>, value: Seq<char>, depth: int, m: int, debug: bool, seed: Seq<char>)
    requires
        m >= 0,
    ensures
        tree_shape(
            push_spec(
                TreeSpec { root: new_node(key, value, depth), children: Seq::empty(), max_depth: m, debug },
                None,
                seed,
            ),
        ),
{
}

proof fn lemma_find_child_from(cs: Seq<NodeSpec>, url: Seq<char>, i: int)
    requires
        0 <= i,
    ensures
        find_child_from(cs, url, i) matches Some(j) ==> i <= j < cs.len() && cs[j].value == url,
    decreases cs.len() - i,
{
    if i < cs.len() && cs[i].value != url {
        lemma_find_child_from(cs, url, i + 1);
    }
}

/// `push` keeps the shape.
pub proof fn lemma_push_keeps_shape(t: TreeSpec, prior: Option<Seq<char>>, next: Seq<char>)
    requires
        tree_shape(t),
    ensures
        tree_shape(push_spec(t, prior, next)),
{
    let t1 = push_spec(t, prior, next);
    if let Some(p) = prior {
        lemma_find_child_from(t.children, p, 0);
    }
    assert forall|k: int| 0 <= k < t1.children.len() implies {
        &&& #[trigger] t1.children[k].depth >= 1
        &&& (!is_mailto_link(t1.children[k].value) ==> t1.children[k].depth <= t1.max_depth)
    } by {
        if k < t.children.len() {
            assert(t1.children[k] == t.children[k]);
        }
    }
}

/// `pop` keeps the shape.
pub proof fn lemma_pop_keeps_shape(t: TreeSpec)
    requires
        tree_shape(t),
    ensures
        tree_shape(pop_spec(t).0),
{
    let ns = all_nodes(t);
    lemma_first_unvisited_from(ns, 0);
    if let Some(i) = first_unvisited(t) {
        let t1 = mark_visited(t, i);
        assert forall|k: int| 0 <= k < t1.children.len() implies {
            &&& #[trigger] t1.children[k].depth >= 1
            &&& (!is_mailto_link(t1.children[k].value) ==> t1.children[k].depth <= t1.max_depth)
        } by {
            assert(t1.children[k].value == t.children[k].value && t1.children[k].depth == t.children[k].depth);
        }
    }
}

/// A push referred from a page at depth `d` appends the new page at depth
/// exactly `d + 1`, behind every earlier node, unless the limit is 0; from a
/// page other than the seed only while `d` is under the limit (a `mailto:`
/// link passes regardless). A referrer that is not in the frontier, or a
/// page at the limit, adds nothing. So a page `k` links from the seed sits at
/// depth `k`, and none more than the limit away is ever queued (`mailto:` aside).
pub proof fn lemma_push_depth(t: TreeSpec, p: Seq<char>, next: Seq<char>)
    ensures
        ({
            let t1 = push_spec(t, Some(p), next);
            &&& t1.root == t.root
            &&& t1.max_depth == t.max_depth
            &&& (t1.children.len() == t.children.len() ==> t1.children == t.children)
            &&& (t1.children.len() != t.children.len() ==> {
                &&& t1.children.len() == t.children.len() + 1
                &&& t1.children.take(t.children.len() as int) == t.children
                &&& referrer_depth(t, p) matches Some(d)
                &&& t1.children.last().depth == d + 1
                &&& t1.children.last().value == next
                &&& t1.children.last().key == Some(p)
                &&& !t1.children.last().visited
                &&& t.max_depth != 0
                &&& (p == t.root.value || is_mailto_link(next) || d < t.max_depth)
            })
            &&& (referrer_depth(t, p) matches Some(d) && t.max_depth != 0 && (p == t.root.value || is_mailto_link(next)
                || d < t.max_depth) ==> t1.children.len() == t.children.len() + 1)
        }),
{
    lemma_find_child_from(t.children, p, 0);
    let t1 = push_spec(t, Some(p), next);
    if t1.children.len() != t.children.len() {
        assert(t1.children.take(t.children.len() as int) =~= t.children);
    }
}

impl Tree {
    pub fn new(key: Option<String>, value: String, depth: i32, debug: bool) -> (t: Self)
        ensures
            t@ == (TreeSpec {
                root: new_node(opt_string_view(key), value@, depth as int),
                children: Seq::empty(),
                max_depth: 2,
                debug,
            }),
    {
        let t = Tree { data: TreeNode::new(key, value, depth), children: Vec::new(), max_depth: 2, debug };
        assert(t@.children =~= Seq::<NodeSpec>::empty());
        t
    }

    /// False while any unvisited node exists (checks the root and all other nodes).
    pub fn empty(&self) -> (b: bool)
        ensures
            b == tree_empty(self@),
    {
        let ghost ns = all_nodes(self@);
        if !self.data.visited {
            assert(!ns[0].visited);
            return false;
        }
        let mut i: usize = 0;
        while i < self.children.len()
            invariant
                ns == all_nodes(self@),
                self.data.visited,
                i <= self.children.len(),
                forall|k: int| 0 <= k <= i ==> #[trigger] ns[k].visited,
            decreases self.children.len() - i,
        {
            assert(ns[i + 1] == self.children@[i as int]@);
            if !self.children[i].visited {
                assert(!all_nodes(self@)[i as int + 1].visited);
                return false;
            }
            i += 1;
        }
        true
    }

    /// Hands out the first unvisited node as `(referrer, url)` and marks it visited.
    pub fn pop(&mut self) -> (r: Option<(Option<String>, String)>)
        ensures
            final(self)@ == pop_spec(old(self)@).0,
            match (r, pop_spec(old(self)@).1) {
                (None, None) => true,
                (Some((k, v)), Some((sk, sv))) => opt_string_view(k) == sk && v@ == sv,
                _ => false,
            },
    {
        let ghost ns = all_nodes(old(self)@);
        if !self.data.visited {
            self.data.visited = true;
            assert(first_unvisited(old(self)@) == Some(0int));
            assert(self@.children =~= old(self)@.children);
            return Some((clone_opt_string(&self.data.key), self.data.value.clone()));
        }
        let mut i: usize = 0;
        while i < self.children.len()
            invariant
                ns == all_nodes(old(self)@),
                self@ == old(self)@,
                self.data.visited,
                i <= self.children.len(),
                first_unvisited(old(self)@) == first_unvisited_from(ns, i + 1),
            decreases self.children.len() - i,
        {
            assert(ns[i + 1] == self.children@[i as int]@);
            if !self.children[i].visited {
                let n = TreeNode {
                    key: clone_opt_string(&self.children[i].key),
                    value: self.children[i].value.clone(),
                    depth: self.children[i].depth,
                    visited: true,
                };
                let r = (clone_opt_string(&n.key), n.value.clone());
                self.children.set(i, n);
                assert(self@.children =~= mark_visited(old(self)@, i + 1).children);
                return Some(r);
            }
            i += 1;
        }
        assert(first_unvisited(old(self)@) == None::<int>);
        None
    }

    /// Whether pushing a node referred from `prior` keeps its depth within `i32`.
    pub fn can_push(&self, prior_url: &Option<String>) -> (b: bool)
        ensures
            b == push_fits(self@, opt_string_view(*prior_url)),
    {
        match prior_url {
            None => true,
            Some(prior) => {
                if *prior == self.data.value {
                    let d = self.data.depth;
                    assert(referrer_depth(self@, prior@) == Some(d as int));
                    return d < i32::MAX;
                }
                let ghost cs = self@.children;
                let mut i: usize = 0;
                while i < self.children.len()
                    invariant
                        cs == self@.children,
                        i <= self.children.len(),
                        opt_string_view(*prior_url) == Some(prior@),
                        prior@ != self@.root.value,
                        find_child_from(cs, prior@, 0) == find_child_from(cs, prior@, i as int),
                    decreases self.children.len() - i,
                {
                    assert(cs[i as int] == self.children@[i as int]@);
                    if self.children[i].value == *prior {
                        assert(find_child_from(cs, prior@, i as int) == Some(i as int));
                        let d = self.children[i].depth;
                        assert(referrer_depth(self@, prior@) == Some(d as int));
                        if d < i32::MAX {
                            return true;
                        } else {
                            assert(!push_fits(self@, Some(prior@))) by {
                                assert(referrer_depth(self@, prior@) == Some(d as int) && !(d < i32::MAX));
                            }
                            return false;
                        }
                    }
                    i += 1;
                }
                true
            },
        }
    }

    /// Adds `next` to the frontier as referred from `prior`.
    ///
    /// `None` sets the root (the seed). Otherwise the node is appended when
    /// `prior` is the root URL, or when `prior` is the first other node with
    /// that URL and its depth is under the limit (a `mailto:` link passes
    /// regardless of depth). A limit of 0 refuses every referred node.
    pub fn push(&mut self, prior_url: Option<String>, next_url: String)
        requires
            push_fits(old(self)@, opt_string_view(prior_url)),
        ensures
            final(self)@ == push_spec(old(self)@, opt_string_view(prior_url), next_url@),
    {
        match prior_url {
            None => {
                self.data = TreeNode::new(None, next_url, 0);
                return;
            },
            Some(prior) => {
                if self.max_depth == 0 {
                    return;
                }
                let is_mailto = str_starts_with(next_url.as_str(), "mailto:");
                if prior == self.data.value {
                    let d = self.data.depth + 1;
                    let child = TreeNode::new(Some(prior), next_url, d);
                    self.children.push(child);
                    assert(self@.children =~= push_spec(old(self)@, opt_string_view(Some(prior)), next_url@).children);
                    return;
                }
                let ghost cs = old(self)@.children;
                let mut i: usize = 0;
                while i < self.children.len()
                    invariant
                        self@ == old(self)@,
                        cs == old(self)@.children,
                        i <= self.children.len(),
                        push_fits(old(self)@, Some(prior@)),
                        prior@ != old(self)@.root.value,
                        old(self)@.max_depth != 0,
                        is_mailto == is_mailto_link(next_url@),
                        opt_string_view(prior_url) == Some(prior@),
                        find_child_from(cs, prior@, 0) == find_child_from(cs, prior@, i as int),
                    decreases self.children.len() - i,
                {
                    assert(cs[i as int] == self.children@[i as int]@);
                    if self.children[i].value == prior {
                        assert(find_child_from(cs, prior@, i as int) == Some(i as int));
                        let d = self.children[i].depth;
                        if is_mailto || d < self.max_depth {
                            let child = TreeNode::new(Some(prior), next_url, d + 1);
                            self.children.push(child);
                            assert(self@.children =~= push_spec(old(self)@, opt_string_view(Some(prior)), next_url@).children);
                        }
                        return;
                    }
                    i += 1;
                }
            },
        }
    }
}

} // verus!
