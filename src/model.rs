//! The mathematical model of the dock tree, and what each edit does to it.

use vstd::prelude::*;
use crate::fixed::{MAX_RATIO, MIN_RATIO};
use crate::tree::{DockId, SplitDirection};

verus! {

/// A dock tree as values: panel names are character sequences.
pub enum NodeModel {
    /// A container of tabs.
    Panel { panels: Seq<Seq<char>>, active: nat, id: DockId },
    /// Two subtrees sharing space; `ratio` is the first one's share in millionths.
    Split {
        direction: SplitDirection,
        ratio: int,
        first: Box<NodeModel>,
        second: Box<NodeModel>,
        id: DockId,
    },
}

/// The tab that stays in front when a list shrinks to `len` tabs.
pub open spec fn active_after_removal(active: nat, len: nat) -> nat {
    if len == 0 {
        0
    } else if active >= len {
        (len - 1) as nat
    } else {
        active
    }
}

/// The front index names a tab whenever there is one.
pub open spec fn tabs_wf(panels: Seq<Seq<char>>, active: nat) -> bool {
    panels.len() > 0 ==> active < panels.len()
}

/// `i` is where `p` first occurs in `s`.
pub open spec fn is_first_index(s: Seq<Seq<char>>, p: Seq<char>, i: int) -> bool {
    &&& 0 <= i < s.len()
    &&& s[i] == p
    &&& forall|j: int| 0 <= j < i ==> s[j] != p
}

/// Where `p` first occurs in `s` (meaningful when it occurs).
pub open spec fn first_index(s: Seq<Seq<char>>, p: Seq<char>) -> int {
    s.index_of_first(p).unwrap()
}

/// The first occurrence is the one `first_index` names.
pub proof fn lemma_first_index(s: Seq<Seq<char>>, p: Seq<char>, i: int)
    requires
        is_first_index(s, p, i),
    ensures
        first_index(s, p) == i,
        s.contains(p),
{
    s.index_of_first_ensures(p);
    assert(s.contains(p));
    let k = s.index_of_first(p).unwrap();
    if k < i {
        assert(s[k] != p);
    } else if i < k {
        assert(s[i] != p);
    }
}

/// What `first_index` names, when `p` occurs.
pub proof fn lemma_first_index_valid(s: Seq<Seq<char>>, p: Seq<char>)
    requires
        s.contains(p),
    ensures
        is_first_index(s, p, first_index(s, p)),
{
    s.index_of_first_ensures(p);
}

impl NodeModel {
    /// Every panel of the subtree: containers in pre-order, tabs in order.
    pub open spec fn panel_view(self) -> Seq<Seq<char>>
        decreases self,
    {
        match self {
            NodeModel::Panel { panels, .. } => panels,
            NodeModel::Split { first, second, .. } => first.panel_view() + second.panel_view(),
        }
    }

    /// Some container of the subtree holds the panel `p`.
    pub open spec fn holds_panel(self, p: Seq<char>) -> bool
        decreases self,
    {
        match self {
            NodeModel::Panel { panels, .. } => panels.contains(p),
            NodeModel::Split { first, second, .. } => first.holds_panel(p) || second.holds_panel(p),
        }
    }

    /// The first container, in pre-order, that holds `p`.
    pub open spec fn container_of(self, p: Seq<char>) -> NodeModel
        decreases self,
    {
        match self {
            NodeModel::Panel { .. } => self,
            NodeModel::Split { first, second, .. } => if first.holds_panel(p) {
                first.container_of(p)
            } else {
                second.container_of(p)
            },
        }
    }

    /// The subtree with its first container, in pre-order, that holds `p`
    /// replaced by `x`.
    pub open spec fn with_container_of(self, p: Seq<char>, x: NodeModel) -> NodeModel
        decreases self,
    {
        match self {
            NodeModel::Panel { .. } => x,
            NodeModel::Split { direction, ratio, first, second, id } => if first.holds_panel(p) {
                NodeModel::Split {
                    direction,
                    ratio,
                    first: Box::new(first.with_container_of(p, x)),
                    second,
                    id,
                }
            } else {
                NodeModel::Split {
                    direction,
                    ratio,
                    first,
                    second: Box::new(second.with_container_of(p, x)),
                    id,
                }
            },
        }
    }

    /// The handles of every node of the subtree.
    pub open spec fn ids(self) -> Set<DockId>
        decreases self,
    {
        match self {
            NodeModel::Panel { id, .. } => set![id],
            NodeModel::Split { first, second, id, .. } => first.ids().union(second.ids()).insert(id),
        }
    }

    /// Some container (not a split) of the subtree has the handle `t`.
    pub open spec fn has_container(self, t: DockId) -> bool
        decreases self,
    {
        match self {
            NodeModel::Panel { id, .. } => id == t,
            NodeModel::Split { first, second, .. } => first.has_container(t) || second.has_container(
                t,
            ),
        }
    }

    /// No two nodes of the subtree share a handle.
    pub open spec fn unique_ids(self) -> bool
        decreases self,
    {
        match self {
            NodeModel::Panel { .. } => true,
            NodeModel::Split { first, second, id, .. } => {
                &&& first.unique_ids()
                &&& second.unique_ids()
                &&& first.ids().disjoint(second.ids())
                &&& !first.ids().contains(id)
                &&& !second.ids().contains(id)
            },
        }
    }

    /// Every front index names a tab when its container has any, and every
    /// ratio lies in `[MIN_RATIO, MAX_RATIO]`.
    pub open spec fn nodes_wf(self) -> bool
        decreases self,
    {
        match self {
            NodeModel::Panel { panels, active, .. } => tabs_wf(panels, active),
            NodeModel::Split { ratio, first, second, .. } => {
                &&& MIN_RATIO <= ratio <= MAX_RATIO
                &&& first.nodes_wf()
                &&& second.nodes_wf()
            },
        }
    }

    /// The subtree is well formed.
    pub open spec fn wf(self) -> bool {
        self.nodes_wf() && self.unique_ids()
    }

    /// `p` appended as the front tab of the first node, in pre-order, with
    /// handle `t`, if that node is a container; otherwise no change.
    pub open spec fn with_tab_added(self, t: DockId, p: Seq<char>) -> NodeModel
        decreases self,
    {
        match self {
            NodeModel::Panel { panels, active, id } => if id == t {
                NodeModel::Panel { panels: panels.push(p), active: panels.len(), id }
            } else {
                self
            },
            NodeModel::Split { direction, ratio, first, second, id } => if id == t {
                self
            } else if first.ids().contains(t) {
                NodeModel::Split {
                    direction,
                    ratio,
                    first: Box::new(first.with_tab_added(t, p)),
                    second,
                    id,
                }
            } else if second.ids().contains(t) {
                NodeModel::Split {
                    direction,
                    ratio,
                    first,
                    second: Box::new(second.with_tab_added(t, p)),
                    id,
                }
            } else {
                self
            },
        }
    }

    /// `p` taken out of the first container that holds it; that container's
    /// front index is kept if still in range, else moved to the last tab (or
    /// to 0 when no tab is left). The container stays, even when emptied.
    pub open spec fn without_panel(self, p: Seq<char>) -> NodeModel
        decreases self,
    {
        match self {
            NodeModel::Panel { panels, active, id } => if panels.contains(p) {
                NodeModel::Panel {
                    panels: panels.remove(first_index(panels, p)),
                    active: active_after_removal(active, (panels.len() - 1) as nat),
                    id,
                }
            } else {
                self
            },
            NodeModel::Split { direction, ratio, first, second, id } => if first.holds_panel(p) {
                NodeModel::Split {
                    direction,
                    ratio,
                    first: Box::new(first.without_panel(p)),
                    second,
                    id,
                }
            } else if second.holds_panel(p) {
                NodeModel::Split {
                    direction,
                    ratio,
                    first,
                    second: Box::new(second.without_panel(p)),
                    id,
                }
            } else {
                self
            },
        }
    }

    /// The first container, in pre-order, with handle `t` replaced by a split
    /// (handle `c`) of that container, re-keyed with handle `a`, and a new
    /// container (handle `b`) holding only `p`.
    pub open spec fn split_at(
        self,
        t: DockId,
        direction: SplitDirection,
        p: Seq<char>,
        ratio: int,
        a: DockId,
        b: DockId,
        c: DockId,
    ) -> NodeModel
        decreases self,
    {
        match self {
            NodeModel::Panel { panels, active, id } => if id == t {
                NodeModel::Split {
                    direction,
                    ratio,
                    first: Box::new(NodeModel::Panel { panels, active, id: a }),
                    second: Box::new(NodeModel::Panel { panels: seq![p], active: 0, id: b }),
                    id: c,
                }
            } else {
                self
            },
            NodeModel::Split { direction: d, ratio: r, first, second, id } => if first.has_container(
                t,
            ) {
                NodeModel::Split {
                    direction: d,
                    ratio: r,
                    first: Box::new(first.split_at(t, direction, p, ratio, a, b, c)),
                    second,
                    id,
                }
            } else if second.has_container(t) {
                NodeModel::Split {
                    direction: d,
                    ratio: r,
                    first,
                    second: Box::new(second.split_at(t, direction, p, ratio, a, b, c)),
                    id,
                }
            } else {
                self
            },
        }
    }

    /// Every split with handle `t` that no other such split encloses now has
    /// ratio `r`.
    pub open spec fn with_ratio(self, t: DockId, r: int) -> NodeModel
        decreases self,
    {
        match self {
            NodeModel::Panel { .. } => self,
            NodeModel::Split { direction, ratio, first, second, id } => if id == t {
                NodeModel::Split { direction, ratio: r, first, second, id }
            } else {
                NodeModel::Split {
                    direction,
                    ratio,
                    first: Box::new(first.with_ratio(t, r)),
                    second: Box::new(second.with_ratio(t, r)),
                    id,
                }
            },
        }
    }

    /// The ratio of the first split, in pre-order, with handle `t`.
    pub open spec fn ratio_of(self, t: DockId) -> Option<int>
        decreases self,
    {
        match self {
            NodeModel::Panel { .. } => None,
            NodeModel::Split { ratio, first, second, id, .. } => if id == t {
                Some(ratio)
            } else {
                match first.ratio_of(t) {
                    Some(r) => Some(r),
                    None => second.ratio_of(t),
                }
            },
        }
    }

    /// Every container with handle `t` that holds `p` brings `p`'s tab to the
    /// front.
    pub open spec fn with_front_tab(self, t: DockId, p: Seq<char>) -> NodeModel
        decreases self,
    {
        match self {
            NodeModel::Panel { panels, active, id } => if id == t && panels.contains(p) {
                NodeModel::Panel { panels, active: first_index(panels, p) as nat, id }
            } else {
                self
            },
            NodeModel::Split { direction, ratio, first, second, id } => NodeModel::Split {
                direction,
                ratio,
                first: Box::new(first.with_front_tab(t, p)),
                second: Box::new(second.with_front_tab(t, p)),
                id,
            },
        }
    }
}

/// Adding a tab keeps every handle and keeps the subtree well formed.
pub proof fn lemma_with_tab_added(n: NodeModel, t: DockId, p: Seq<char>)
    ensures
        n.with_tab_added(t, p).ids() == n.ids(),
        n.unique_ids() ==> n.with_tab_added(t, p).unique_ids(),
        n.nodes_wf() ==> n.with_tab_added(t, p).nodes_wf(),
        n.with_tab_added(t, p).panel_view().len() >= n.panel_view().len(),
    decreases n,
{
    match n {
        NodeModel::Panel { .. } => {},
        NodeModel::Split { first, second, .. } => {
            lemma_with_tab_added(*first, t, p);
            lemma_with_tab_added(*second, t, p);
        },
    }
}

/// Removing a panel keeps every handle and keeps the subtree well formed.
pub proof fn lemma_without_panel(n: NodeModel, p: Seq<char>)
    ensures
        n.without_panel(p).ids() == n.ids(),
        n.unique_ids() ==> n.without_panel(p).unique_ids(),
        n.nodes_wf() ==> n.without_panel(p).nodes_wf(),
    decreases n,
{
    match n {
        NodeModel::Panel { panels, active, .. } => {
            if panels.contains(p) {
                lemma_first_index_valid(panels, p);
            }
        },
        NodeModel::Split { first, second, .. } => {
            lemma_without_panel(*first, p);
            lemma_without_panel(*second, p);
        },
    }
}

/// Setting a ratio within bounds keeps every handle and keeps the subtree
/// well formed.
pub proof fn lemma_with_ratio(n: NodeModel, t: DockId, r: int)
    ensures
        n.with_ratio(t, r).ids() == n.ids(),
        n.unique_ids() ==> n.with_ratio(t, r).unique_ids(),
        n.nodes_wf() && MIN_RATIO <= r <= MAX_RATIO ==> n.with_ratio(t, r).nodes_wf(),
    decreases n,
{
    match n {
        NodeModel::Panel { .. } => {},
        NodeModel::Split { first, second, .. } => {
            lemma_with_ratio(*first, t, r);
            lemma_with_ratio(*second, t, r);
        },
    }
}

/// Bringing a tab to the front keeps every handle and keeps the subtree well
/// formed.
pub proof fn lemma_with_front_tab(n: NodeModel, t: DockId, p: Seq<char>)
    ensures
        n.with_front_tab(t, p).ids() == n.ids(),
        n.unique_ids() ==> n.with_front_tab(t, p).unique_ids(),
        n.nodes_wf() ==> n.with_front_tab(t, p).nodes_wf(),
    decreases n,
{
    match n {
        NodeModel::Panel { panels, .. } => {
            if panels.contains(p) {
                lemma_first_index_valid(panels, p);
            }
        },
        NodeModel::Split { first, second, .. } => {
            lemma_with_front_tab(*first, t, p);
            lemma_with_front_tab(*second, t, p);
        },
    }
}

/// A container's handle is among the subtree's handles.
pub proof fn lemma_container_id(n: NodeModel, t: DockId)
    requires
        n.has_container(t),
    ensures
        n.ids().contains(t),
    decreases n,
{
    match n {
        NodeModel::Panel { .. } => {},
        NodeModel::Split { first, second, .. } => {
            if first.has_container(t) {
                lemma_container_id(*first, t);
            } else {
                lemma_container_id(*second, t);
            }
        },
    }
}

/// Splitting a container with three new handles: the handles afterwards are
/// the old ones without the container's, and the three new ones; the
/// re-keyed container is a container of the result; the subtree stays well
/// formed.
pub proof fn lemma_split_at(
    n: NodeModel,
    t: DockId,
    direction: SplitDirection,
    p: Seq<char>,
    ratio: int,
    a: DockId,
    b: DockId,
    c: DockId,
)
    requires
        n.has_container(t),
        !n.ids().contains(a),
        !n.ids().contains(b),
        !n.ids().contains(c),
        a != b && b != c && a != c,
    ensures
        n.split_at(t, direction, p, ratio, a, b, c).has_container(a),
        n.unique_ids() ==> n.split_at(t, direction, p, ratio, a, b, c).unique_ids(),
        n.unique_ids() ==> n.split_at(t, direction, p, ratio, a, b, c).ids() == n.ids().remove(
            t,
        ).union(set![a, b, c]),
        n.nodes_wf() && MIN_RATIO <= ratio <= MAX_RATIO ==> n.split_at(
            t,
            direction,
            p,
            ratio,
            a,
            b,
            c,
        ).nodes_wf(),
    decreases n,
{
    let m = n.split_at(t, direction, p, ratio, a, b, c);
    match n {
        NodeModel::Panel { .. } => {
            assert(m->first.ids() == set![a]);
            assert(m->second.ids() == set![b]);
            assert(m.ids() =~= n.ids().remove(t).union(set![a, b, c]));
            assert(m->first.unique_ids() && m->second.unique_ids());
            assert(m->first.ids().disjoint(m->second.ids()));
            assert(n.nodes_wf() ==> m->first.nodes_wf());
            assert(m->second.nodes_wf());
            assert(m->first.has_container(a));
        },
        NodeModel::Split { first, second, .. } => {
            if first.has_container(t) {
                lemma_split_at(*first, t, direction, p, ratio, a, b, c);
                lemma_container_id(*first, t);
                if n.unique_ids() {
                    assert(!second.ids().contains(t));
                    assert(m.ids() =~= n.ids().remove(t).union(set![a, b, c]));
                    assert(m->first.ids().disjoint(second.ids()));
                }
            } else {
                lemma_split_at(*second, t, direction, p, ratio, a, b, c);
                lemma_container_id(*second, t);
                if n.unique_ids() {
                    assert(!first.ids().contains(t));
                    assert(m.ids() =~= n.ids().remove(t).union(set![a, b, c]));
                    assert(first.ids().disjoint(m->second.ids()));
                }
            }
        },
    }
}

impl NodeModel {
    /// The handles of the subtree in pre-order.
    pub open spec fn id_list(self) -> Seq<DockId>
        decreases self,
    {
        match self {
            NodeModel::Panel { id, .. } => seq![id],
            NodeModel::Split { first, second, id, .. } => seq![id] + first.id_list() + second.id_list(),
        }
    }
}

/// The handles in pre-order are the subtree's handles, and they are distinct
/// exactly when no two nodes share one.
pub proof fn lemma_id_list(n: NodeModel)
    ensures
        forall|i: DockId| n.id_list().contains(i) <==> n.ids().contains(i),
        n.id_list().no_duplicates() <==> n.unique_ids(),
    decreases n,
{
    match n {
        NodeModel::Panel { id, .. } => {
            assert(n.id_list() == seq![id]);
            assert forall|i: DockId| n.id_list().contains(i) <==> n.ids().contains(i) by {
                if i == id {
                    assert(n.id_list()[0] == i);
                }
            }
        },
        NodeModel::Split { first, second, id, .. } => {
            lemma_id_list(*first);
            lemma_id_list(*second);
            let f = first.id_list();
            let g = second.id_list();
            let l = n.id_list();
            assert(l == seq![id] + f + g);
            assert forall|i: DockId| l.contains(i) <==> n.ids().contains(i) by {
                if l.contains(i) {
                    let k = choose|k: int| 0 <= k < l.len() && l[k] == i;
                    if k == 0 {
                        assert(l[0] == id);
                    } else if k < 1 + f.len() {
                        assert(f[k - 1] == i);
                        assert(f.contains(i));
                        assert(first.ids().contains(i));
                    } else {
                        assert(g[k - 1 - f.len()] == i);
                        assert(g.contains(i));
                        assert(second.ids().contains(i));
                    }
                }
                if n.ids().contains(i) {
                    if i == id {
                        assert(l[0] == i);
                    } else if first.ids().contains(i) {
                        assert(f.contains(i));
                        let k = choose|k: int| 0 <= k < f.len() && f[k] == i;
                        assert(l[k + 1] == i);
                    } else {
                        assert(second.ids().contains(i));
                        assert(g.contains(i));
                        let k = choose|k: int| 0 <= k < g.len() && g[k] == i;
                        assert(l[k + 1 + f.len()] == i);
                    }
                }
            }
            if l.no_duplicates() {
                assert forall|a: int, b: int| 0 <= a < b < f.len() implies f[a] != f[b] by {
                    assert(l[a + 1] == f[a] && l[b + 1] == f[b]);
                }
                assert forall|a: int, b: int| 0 <= a < b < g.len() implies g[a] != g[b] by {
                    assert(l[a + 1 + f.len()] == g[a] && l[b + 1 + f.len()] == g[b]);
                }
                assert forall|i: DockId| !(first.ids().contains(i) && second.ids().contains(i)) by {
                    if first.ids().contains(i) && second.ids().contains(i) {
                        let a = choose|a: int| 0 <= a < f.len() && f[a] == i;
                        let b = choose|b: int| 0 <= b < g.len() && g[b] == i;
                        assert(l[a + 1] == l[b + 1 + f.len()]);
                    }
                }
                if first.ids().contains(id) {
                    let a = choose|a: int| 0 <= a < f.len() && f[a] == id;
                    assert(l[a + 1] == l[0]);
                }
                if second.ids().contains(id) {
                    let b = choose|b: int| 0 <= b < g.len() && g[b] == id;
                    assert(l[b + 1 + f.len()] == l[0]);
                }
            }
            if n.unique_ids() {
                assert forall|a: int, b: int| 0 <= a < l.len() && 0 <= b < l.len() && a != b implies l[a]
                    != l[b] by {
                    if a != 0 && b != 0 && a < 1 + f.len() && b < 1 + f.len() {
                        assert(l[a] == f[a - 1] && l[b] == f[b - 1]);
                    } else if a >= 1 + f.len() && b >= 1 + f.len() {
                        assert(l[a] == g[a - 1 - f.len()] && l[b] == g[b - 1 - f.len()]);
                    } else {
                        assert(l.contains(l[a]) && l.contains(l[b]));
                        if a == 0 {
                            if b < 1 + f.len() {
                                assert(f.contains(l[b]));
                            } else {
                                assert(g.contains(l[b]));
                            }
                        } else if b == 0 {
                            if a < 1 + f.len() {
                                assert(f.contains(l[a]));
                            } else {
                                assert(g.contains(l[a]));
                            }
                        } else if a < 1 + f.len() {
                            assert(f.contains(l[a]));
                            assert(g.contains(l[b]));
                        } else {
                            assert(g.contains(l[a]));
                            assert(f.contains(l[b]));
                        }
                    }
                }
            }
        },
    }
}

/// After setting the ratio of split `t`, the first such split holds `r`;
/// a tree without such a split still has none.
pub proof fn lemma_ratio_of_with_ratio(n: NodeModel, t: DockId, r: int)
    ensures
        n.ratio_of(t) is Some ==> n.with_ratio(t, r).ratio_of(t) == Some(r),
        n.ratio_of(t) is None ==> n.with_ratio(t, r).ratio_of(t) is None,
    decreases n,
{
    match n {
        NodeModel::Panel { .. } => {},
        NodeModel::Split { first, second, .. } => {
            lemma_ratio_of_with_ratio(*first, t, r);
            lemma_ratio_of_with_ratio(*second, t, r);
        },
    }
}

/// Taking a panel out leaves every container in place.
pub proof fn lemma_without_panel_containers(n: NodeModel, p: Seq<char>, t: DockId)
    ensures
        n.without_panel(p).has_container(t) == n.has_container(t),
    decreases n,
{
    match n {
        NodeModel::Panel { .. } => {},
        NodeModel::Split { first, second, .. } => {
            lemma_without_panel_containers(*first, p, t);
            lemma_without_panel_containers(*second, p, t);
        },
    }
}

impl NodeModel {
    /// The tabs of the first node, in pre-order, with handle `t`, if that
    /// node is a container.
    pub open spec fn tabs_at(self, t: DockId) -> Option<Seq<Seq<char>>>
        decreases self,
    {
        match self {
            NodeModel::Panel { panels, id, .. } => if id == t {
                Some(panels)
            } else {
                None
            },
            NodeModel::Split { first, second, id, .. } => if id == t {
                None
            } else if first.ids().contains(t) {
                first.tabs_at(t)
            } else if second.ids().contains(t) {
                second.tabs_at(t)
            } else {
                None
            },
        }
    }
}

/// Adding a tab to container `t` appends it to that container's tabs.
pub proof fn lemma_tabs_at_added(n: NodeModel, t: DockId, p: Seq<char>)
    requires
        n.tabs_at(t) is Some,
    ensures
        n.with_tab_added(t, p).tabs_at(t) == Some(n.tabs_at(t)->0.push(p)),
    decreases n,
{
    match n {
        NodeModel::Panel { .. } => {},
        NodeModel::Split { first, second, .. } => {
            lemma_with_tab_added(*first, t, p);
            lemma_with_tab_added(*second, t, p);
            if first.ids().contains(t) {
                lemma_tabs_at_added(*first, t, p);
            } else {
                lemma_tabs_at_added(*second, t, p);
            }
        },
    }
}

/// Taking out a panel that container `t` does not hold leaves its tabs as
/// they were.
pub proof fn lemma_tabs_at_removed(n: NodeModel, t: DockId, p: Seq<char>)
    requires
        n.tabs_at(t) is Some,
        !n.tabs_at(t)->0.contains(p),
    ensures
        n.without_panel(p).tabs_at(t) == n.tabs_at(t),
    decreases n,
{
    match n {
        NodeModel::Panel { .. } => {},
        NodeModel::Split { first, second, .. } => {
            lemma_without_panel(*first, p);
            lemma_without_panel(*second, p);
            if first.ids().contains(t) {
                lemma_tabs_at_removed(*first, t, p);
            } else {
                lemma_tabs_at_removed(*second, t, p);
            }
        },
    }
}

} // verus!
