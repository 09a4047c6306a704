//! The dock tree: containers of tabbed panels, and splits between two subtrees.

use vstd::prelude::*;
use crate::model::{NodeModel, first_index, is_first_index, lemma_first_index};

verus! {

/// A handle naming one node of the layout; no two live nodes share one.
#[derive(Debug, Clone, Copy, PartialEq, Eq, Hash, Structural)]
pub struct DockId(pub u64);

/// The axis along which a split divides its space.
#[derive(Debug, Clone, Copy, PartialEq, Eq, Structural)]
pub enum SplitDirection {
    /// Left and right, with a vertical divider.
    Horizontal,
    /// Top and bottom, with a horizontal divider.
    Vertical,
}

/// A node of the dock tree.
#[derive(Debug)]
pub enum DockNode {
    /// A container holding panels as tabs.
    Panel {
        /// Panel names in tab order.
        panels: Vec<String>,
        /// Index of the tab in front.
        active: usize,
        /// This container's handle.
        id: DockId,
    },
    /// Two subtrees sharing space along an axis.
    Split {
        /// The axis of the divider.
        direction: SplitDirection,
        /// The first child's share, in millionths.
        ratio: u32,
        /// The left or upper child.
        first: Box<DockNode>,
        /// The right or lower child.
        second: Box<DockNode>,
        /// This split's handle.
        id: DockId,
    },
}

/// The panel names of a tab list, as character sequences.
pub open spec fn names(v: Seq<String>) -> Seq<Seq<char>> {
    v.map_values(|s: String| s@)
}

impl DockNode {
    /// This subtree as values.
    pub open spec fn model(self) -> NodeModel
        decreases self,
    {
        match self {
            DockNode::Panel { panels, active, id } => NodeModel::Panel {
                panels: names(panels@),
                active: active as nat,
                id,
            },
            DockNode::Split { direction, ratio, first, second, id } => NodeModel::Split {
                direction,
                ratio: ratio as int,
                first: Box::new(first.model()),
                second: Box::new(second.model()),
                id,
            },
        }
    }
}

impl View for DockNode {
    type V = NodeModel;

    open spec fn view(&self) -> NodeModel {
        self.model()
    }
}

/// Where the panel `p` first stands in a tab list, if it is there.
pub fn tab_index(panels: &Vec<String>, p: &String) -> (r: Option<usize>)
    ensures
        match r {
            Some(i) => is_first_index(names(panels@), p@, i as int) && i as int == first_index(
                names(panels@),
                p@,
            ),
            None => !names(panels@).contains(p@),
        },
{
    let mut i: usize = 0;
    while i < panels.len()
        invariant
            i <= panels.len(),
            forall|j: int| 0 <= j < i ==> names(panels@)[j] != p@,
        decreases panels.len() - i,
    {
        if panels[i] == *p {
            proof {
                lemma_first_index(names(panels@), p@, i as int);
            }
            return Some(i);
        }
        i = i + 1;
    }
    None
}

impl DockNode {
    /// Whether some node of the subtree has the handle `t`.
    pub fn contains_id(&self, t: DockId) -> (r: bool)
        ensures
            r == self@.ids().contains(t),
        decreases self,
    {
        match self {
            DockNode::Panel { id, .. } => *id == t,
            DockNode::Split { first, second, id, .. } => *id == t || first.contains_id(t)
                || second.contains_id(t),
        }
    }

    pub(crate) fn add_tab(&mut self, t: DockId, p: String)
        ensures
            final(self)@ == old(self)@.with_tab_added(t, p@),
        decreases *old(self),
    {
        match self {
            DockNode::Panel { panels, active, id } => {
                if *id == t {
                    let ghost before = names(panels@);
                    panels.push(p);
                    *active = panels.len() - 1;
                    assert(names(panels@) =~= before.push(p@));
                }
            },
            DockNode::Split { first, second, id, .. } => {
                if *id == t {
                } else if first.contains_id(t) {
                    first.add_tab(t, p);
                } else if second.contains_id(t) {
                    second.add_tab(t, p);
                }
            },
        }
    }
}

impl DockNode {
    /// A container whose only tab is `panel`.
    pub fn single(panel: String, id: DockId) -> (n: DockNode)
        ensures
            n@ == (NodeModel::Panel { panels: seq![panel@], active: 0, id }),
    {
        let mut panels: Vec<String> = Vec::new();
        panels.push(panel);
        let n = DockNode::Panel { panels, active: 0, id };
        assert(names(panels@) =~= seq![panel@]);
        n
    }

    /// The starting arrangement: a viewport on the left (0.7 of the width),
    /// and on the right a hierarchy above an inspector, split evenly. Its
    /// handles are 0 to 4.
    pub fn default_layout() -> (n: DockNode)
        ensures
            n@.wf(),
            n@ == default_model(),
    {
        let viewport_name = String::from_str("Viewport");
        let hierarchy_name = String::from_str("Hierarchy");
        let inspector_name = String::from_str("Inspector");
        proof {
            reveal_strlit("Viewport");
            reveal_strlit("Hierarchy");
            reveal_strlit("Inspector");
            assert(viewport_name@ =~= seq!['V', 'i', 'e', 'w', 'p', 'o', 'r', 't']);
            assert(hierarchy_name@ =~= seq!['H', 'i', 'e', 'r', 'a', 'r', 'c', 'h', 'y']);
            assert(inspector_name@ =~= seq!['I', 'n', 's', 'p', 'e', 'c', 't', 'o', 'r']);
        }
        let viewport = DockNode::single(viewport_name, DockId(0));
        let hierarchy = DockNode::single(hierarchy_name, DockId(1));
        let inspector = DockNode::single(inspector_name, DockId(2));
        let sidebar = DockNode::Split {
            direction: SplitDirection::Vertical,
            ratio: 500_000,
            first: Box::new(hierarchy),
            second: Box::new(inspector),
            id: DockId(3),
        };
        let n = DockNode::Split {
            direction: SplitDirection::Horizontal,
            ratio: 700_000,
            first: Box::new(viewport),
            second: Box::new(sidebar),
            id: DockId(4),
        };
        proof {
            assert(viewport@ == default_model()->first);
            assert(sidebar@ == default_model()->second);
            assert(n@ == default_model());
            lemma_default_model_wf();
        }
        n
    }

    /// Every panel of the subtree: containers in pre-order, tabs in order.
    pub fn all_panels(&self) -> (r: Vec<String>)
        ensures
            names(r@) == self@.panel_view(),
        decreases self,
    {
        match self {
            DockNode::Panel { panels, .. } => {
                let mut r: Vec<String> = Vec::new();
                let mut i: usize = 0;
                while i < panels.len()
                    invariant
                        i <= panels.len(),
                        r@ == panels@.subrange(0, i as int),
                    decreases panels.len() - i,
                {
                    r.push(panels[i].clone());
                    i = i + 1;
                }
                assert(r@ =~= panels@);
                r
            },
            DockNode::Split { first, second, .. } => {
                let mut r = first.all_panels();
                let mut rest = second.all_panels();
                let ghost r0 = r@;
                let ghost rest0 = rest@;
                r.append(&mut rest);
                assert(names(r@) =~= names(r0) + names(rest0));
                r
            },
        }
    }

    /// The first container, in pre-order, that holds `panel_id`.
    pub fn find_container(&self, panel_id: &str) -> (r: Option<&DockNode>)
        ensures
            r.is_some() == self@.holds_panel(panel_id@),
            r matches Some(c) ==> c@ == self@.container_of(panel_id@),
    {
        let p = panel_id.to_owned();
        self.find_container_named(&p)
    }

    fn find_container_named(&self, p: &String) -> (r: Option<&DockNode>)
        ensures
            r.is_some() == self@.holds_panel(p@),
            r matches Some(c) ==> c@ == self@.container_of(p@),
        decreases self,
    {
        match self {
            DockNode::Panel { panels, .. } => {
                if tab_index(panels, p).is_some() {
                    Some(self)
                } else {
                    None
                }
            },
            DockNode::Split { first, second, .. } => {
                let r = first.find_container_named(p);
                if r.is_some() {
                    r
                } else {
                    second.find_container_named(p)
                }
            },
        }
    }

    /// The first container, in pre-order, that holds `panel_id`, to be edited
    /// in place: the tree afterwards is the tree with that container replaced
    /// by its edited value.
    pub fn find_container_mut(&mut self, panel_id: &str) -> (r: Option<&mut DockNode>)
        ensures
            r.is_some() == old(self)@.holds_panel(panel_id@),
            match r {
                Some(c) => {
                    &&& (*c)@ == old(self)@.container_of(panel_id@)
                    &&& final(self)@ == old(self)@.with_container_of(panel_id@, (*final(c))@)
                },
                None => *final(self) == *old(self),
            },
    {
        let p = panel_id.to_owned();
        self.find_named_mut(&p)
    }

    fn find_named_mut(&mut self, p: &String) -> (r: Option<&mut DockNode>)
        ensures
            r.is_some() == old(self)@.holds_panel(p@),
            match r {
                Some(c) => {
                    &&& (*c)@ == old(self)@.container_of(p@)
                    &&& final(self)@ == old(self)@.with_container_of(p@, (*final(c))@)
                },
                None => *final(self) == *old(self),
            },
        decreases *old(self),
    {
        let here = match self {
            DockNode::Panel { panels, .. } => tab_index(panels, p).is_some(),
            DockNode::Split { .. } => false,
        };
        if here {
            return Some(self);
        }
        match self {
            DockNode::Panel { .. } => None,
            DockNode::Split { first, second, .. } => {
                if first.holds(p) {
                    first.find_named_mut(p)
                } else {
                    second.find_named_mut(p)
                }
            },
        }
    }

    /// Whether some container of the subtree holds `p`.
    pub fn holds(&self, p: &String) -> (r: bool)
        ensures
            r == self@.holds_panel(p@),
        decreases self,
    {
        match self {
            DockNode::Panel { panels, .. } => tab_index(panels, p).is_some(),
            DockNode::Split { first, second, .. } => first.holds(p) || second.holds(p),
        }
    }

    /// Whether the first node, in pre-order, with handle `t` is a container.
    pub fn is_container(&self, t: DockId) -> (r: bool)
        ensures
            r == self@.tabs_at(t) is Some,
        decreases self,
    {
        match self {
            DockNode::Panel { id, .. } => *id == t,
            DockNode::Split { first, second, id, .. } => {
                if *id == t {
                    false
                } else if first.contains_id(t) {
                    first.is_container(t)
                } else if second.contains_id(t) {
                    second.is_container(t)
                } else {
                    false
                }
            },
        }
    }

    /// Whether some container (not a split) of the subtree has handle `t`.
    pub fn has_container(&self, t: DockId) -> (r: bool)
        ensures
            r == self@.has_container(t),
        decreases self,
    {
        match self {
            DockNode::Panel { id, .. } => *id == t,
            DockNode::Split { first, second, .. } => first.has_container(t) || second.has_container(
                t,
            ),
        }
    }

    pub(crate) fn remove_tab(&mut self, p: &String) -> (r: Option<String>)
        ensures
            final(self)@ == old(self)@.without_panel(p@),
            r.is_some() == old(self)@.holds_panel(p@),
            r matches Some(s) ==> s@ == p@,
        decreases *old(self),
    {
        match self {
            DockNode::Panel { panels, active, .. } => {
                match tab_index(panels, p) {
                    Some(i) => {
                        let ghost before = names(panels@);
                        let removed = panels.remove(i);
                        assert(names(panels@) =~= before.remove(i as int));
                        if panels.len() == 0 {
                            *active = 0;
                        } else if *active >= panels.len() {
                            *active = panels.len() - 1;
                        }
                        Some(removed)
                    },
                    None => None,
                }
            },
            DockNode::Split { first, second, .. } => {
                if first.holds(p) {
                    first.remove_tab(p)
                } else {
                    second.remove_tab(p)
                }
            },
        }
    }

    pub(crate) fn split_tab(
        &mut self,
        t: DockId,
        direction: SplitDirection,
        p: String,
        ratio: u32,
        a: DockId,
        b: DockId,
        c: DockId,
    )
        ensures
            final(self)@ == old(self)@.split_at(t, direction, p@, ratio as int, a, b, c),
        decreases *old(self),
    {
        let here = match self {
            DockNode::Panel { id, .. } => *id == t,
            DockNode::Split { .. } => false,
        };
        if here {
            let mut taken = DockNode::Panel { panels: Vec::new(), active: 0, id: a };
            core::mem::swap(self, &mut taken);
            assert(taken == *old(self));
            let kept = match taken {
                DockNode::Panel { panels, active, .. } => DockNode::Panel { panels, active, id: a },
                other => other,
            };
            assert(kept@ == (NodeModel::Panel {
                panels: old(self)@->panels,
                active: old(self)@->active,
                id: a,
            }));
            *self = DockNode::Split {
                direction,
                ratio,
                first: Box::new(kept),
                second: Box::new(DockNode::single(p, b)),
                id: c,
            };
        } else {
            match self {
                DockNode::Panel { .. } => {},
                DockNode::Split { first, second, .. } => {
                    if first.has_container(t) {
                        first.split_tab(t, direction, p, ratio, a, b, c);
                    } else if second.has_container(t) {
                        second.split_tab(t, direction, p, ratio, a, b, c);
                    }
                },
            }
        }
    }

    pub(crate) fn set_ratio(&mut self, t: DockId, r: u32)
        ensures
            final(self)@ == old(self)@.with_ratio(t, r as int),
        decreases *old(self),
    {
        match self {
            DockNode::Panel { .. } => {},
            DockNode::Split { ratio, first, second, id, .. } => {
                if *id == t {
                    *ratio = r;
                } else {
                    first.set_ratio(t, r);
                    second.set_ratio(t, r);
                }
            },
        }
    }

    pub(crate) fn set_front_tab(&mut self, t: DockId, p: &String)
        ensures
            final(self)@ == old(self)@.with_front_tab(t, p@),
        decreases *old(self),
    {
        match self {
            DockNode::Panel { panels, active, id } => {
                if *id == t {
                    match tab_index(panels, p) {
                        Some(i) => {
                            *active = i;
                        },
                        None => {},
                    }
                }
            },
            DockNode::Split { first, second, .. } => {
                first.set_front_tab(t, p);
                second.set_front_tab(t, p);
            },
        }
    }

    /// The ratio of the first split, in pre-order, with handle `t`.
    pub fn find_split_ratio(&self, t: DockId) -> (r: Option<u32>)
        ensures
            match r {
                Some(x) => self@.ratio_of(t) == Some(x as int),
                None => self@.ratio_of(t) is None,
            },
        decreases self,
    {
        match self {
            DockNode::Panel { .. } => None,
            DockNode::Split { ratio, first, second, id, .. } => {
                if *id == t {
                    Some(*ratio)
                } else {
                    match first.find_split_ratio(t) {
                        Some(x) => Some(x),
                        None => second.find_split_ratio(t),
                    }
                }
            },
        }
    }
}

/// The starting arrangement is well formed.
pub proof fn lemma_default_model_wf()
    ensures
        default_model().wf(),
        default_model().ids() == set![DockId(0), DockId(1), DockId(2), DockId(3), DockId(4)],
{
    let m = default_model();
    let side = *m->second;
    assert(m->first.ids() == set![DockId(0)]);
    assert(side->first.ids() == set![DockId(1)]);
    assert(side->second.ids() == set![DockId(2)]);
    assert(side.ids() =~= set![DockId(1), DockId(2), DockId(3)]);
    assert(m.ids() =~= set![DockId(0), DockId(1), DockId(2), DockId(3), DockId(4)]);
    assert(side->first.ids().disjoint(side->second.ids()));
    assert(side->first.unique_ids() && side->second.unique_ids());
    assert(side.unique_ids());
    assert(m->first.unique_ids());
    assert(side->first.nodes_wf() && side->second.nodes_wf());
    assert(side.nodes_wf() && m->first.nodes_wf());
    assert(m->first.ids().disjoint(side.ids()));
    assert(m.nodes_wf());
}

/// The starting arrangement as values.
pub open spec fn default_model() -> NodeModel {
    NodeModel::Split {
        direction: SplitDirection::Horizontal,
        ratio: 700_000,
        first: Box::new(
            NodeModel::Panel {
                panels: seq![seq!['V', 'i', 'e', 'w', 'p', 'o', 'r', 't']],
                active: 0,
                id: DockId(0),
            },
        ),
        second: Box::new(
            NodeModel::Split {
                direction: SplitDirection::Vertical,
                ratio: 500_000,
                first: Box::new(
                    NodeModel::Panel {
                        panels: seq![seq!['H', 'i', 'e', 'r', 'a', 'r', 'c', 'h', 'y']],
                        active: 0,
                        id: DockId(1),
                    },
                ),
                second: Box::new(
                    NodeModel::Panel {
                        panels: seq![seq!['I', 'n', 's', 'p', 'e', 'c', 't', 'o', 'r']],
                        active: 0,
                        id: DockId(2),
                    },
                ),
                id: DockId(3),
            },
        ),
        id: DockId(4),
    }
}

} // verus!
