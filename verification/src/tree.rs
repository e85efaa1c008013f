//! The window layout of a tab: a tree of splits whose leaves are windows.
use std::collections::BTreeMap;

use vstd::prelude::*;

use crate::rect::Rect;
use crate::window::{Window, WindowId};

verus! {

broadcast use {
    vstd::laws_cmp::group_laws_cmp,
    crate::window::Window::lemma_with_area,
    crate::window::Window::lemma_with_id,
    crate::window::Window::lemma_with_own_area,
    crate::window::Window::lemma_with_commute,
    crate::window::Window::lemma_with_area_twice,
};

/// A node of a layout: a window, or a split of several nodes.
#[derive(Debug, PartialEq, Eq, Hash)]
pub enum NodeValue {
    Window(WindowId),
    Split(Split),
}

/// Nodes laid out side by side or one above the other.
#[derive(Debug, PartialEq, Eq, Hash)]
pub struct Split {
    pub layout: Layout,
    pub nodes: Vec<NodeValue>,
    pub area: Rect,
}

/// What the caller of `Tree::close_window` has left to do.
#[derive(Debug, PartialEq, Eq, Structural, PartialOrd, Ord, Clone, Copy, Hash)]
pub enum CloseAction {
    NoAction,
    CloseTab,
}

/// How a split places its nodes: `Vertical` side by side, `Horizontal`
/// one above the other.
#[derive(Debug, PartialEq, Eq, Structural, PartialOrd, Ord, Clone, Copy, Hash)]
pub enum Layout {
    Vertical,
    Horizontal,
}

/// The windows at the leaves of a layout, left to right.
pub open spec fn leaves(node: NodeValue) -> Seq<usize>
    decreases node,
{
    match node {
        NodeValue::Window(id) => seq![id.id()],
        NodeValue::Split(split) => leaves_of(split.nodes@),
    }
}

/// The windows at the leaves of a row of nodes, left to right.
pub open spec fn leaves_of(nodes: Seq<NodeValue>) -> Seq<usize>
    decreases nodes,
{
    if nodes.len() == 0 {
        Seq::empty()
    } else {
        leaves_of(nodes.subrange(0, nodes.len() - 1)) + leaves(nodes[nodes.len() - 1])
    }
}

/// Every split of the layout has at least two nodes, and fewer than the
/// largest `u16`.
pub open spec fn shaped(node: NodeValue) -> bool
    decreases node,
{
    match node {
        NodeValue::Window(_) => true,
        NodeValue::Split(split) => shaped_of(split.nodes@) && 2 <= split.nodes@.len() < u16::MAX,
    }
}

/// Every node of the row is `shaped`.
pub open spec fn shaped_of(nodes: Seq<NodeValue>) -> bool
    decreases nodes,
{
    if nodes.len() == 0 {
        true
    } else {
        shaped_of(nodes.subrange(0, nodes.len() - 1)) && shaped(nodes[nodes.len() - 1])
    }
}

/// The leaves of two rows are those of the one, then those of the other.
pub proof fn lemma_leaves_concat(a: Seq<NodeValue>, b: Seq<NodeValue>)
    ensures
        leaves_of(a + b) == leaves_of(a) + leaves_of(b),
        shaped_of(a + b) == (shaped_of(a) && shaped_of(b)),
    decreases b.len(),
{
    if b.len() == 0 {
        assert(a + b == a);
        assert(leaves_of(a) + leaves_of(b) == leaves_of(a));
    } else {
        let c = b.subrange(0, b.len() - 1);
        lemma_leaves_concat(a, c);
        assert((a + b).subrange(0, (a + b).len() - 1) == a + c);
        assert((a + b)[(a + b).len() - 1] == b[b.len() - 1]);
        assert(leaves_of(a) + leaves_of(c) + leaves(b[b.len() - 1]) == leaves_of(a) + (leaves_of(c)
            + leaves(b[b.len() - 1])));
    }
}

/// The leaves of a row with one node.
pub proof fn lemma_leaves_single(n: NodeValue)
    ensures
        leaves_of(seq![n]) == leaves(n),
        shaped_of(seq![n]) == shaped(n),
{
    let e = Seq::<NodeValue>::empty();
    assert(seq![n].subrange(0, 0) == e);
    assert(seq![n][0] == n);
    assert(leaves_of(e) == Seq::<usize>::empty());
    assert(shaped_of(e));
    assert(Seq::<usize>::empty() + leaves(n) == leaves(n));
}

/// The leaves of a row split around its node `i`.
pub proof fn lemma_leaves_at(nodes: Seq<NodeValue>, i: int)
    requires
        0 <= i < nodes.len(),
    ensures
        leaves_of(nodes) == leaves_of(nodes.subrange(0, i)) + leaves(nodes[i]) + leaves_of(
            nodes.subrange(i + 1, nodes.len() as int),
        ),
        shaped_of(nodes) == (shaped_of(nodes.subrange(0, i)) && shaped(nodes[i]) && shaped_of(
            nodes.subrange(i + 1, nodes.len() as int),
        )),
{
    let pre = nodes.subrange(0, i);
    let post = nodes.subrange(i + 1, nodes.len() as int);
    assert(nodes == pre + seq![nodes[i]] + post);
    lemma_leaves_concat(pre + seq![nodes[i]], post);
    lemma_leaves_concat(pre, seq![nodes[i]]);
    lemma_leaves_single(nodes[i]);
}

/// A shaped node has a leaf, and a shaped row has at least a leaf per node.
pub proof fn lemma_leaves_count(node: NodeValue)
    requires
        shaped(node),
    ensures
        leaves(node).len() >= 1,
        node is Split ==> leaves(node).len() >= node->Split_0.nodes@.len(),
    decreases node, 1int,
{
    if let NodeValue::Split(split) = node {
        lemma_leaves_count_of(split.nodes@);
    }
}

/// Each node of a shaped row adds at least one leaf.
pub proof fn lemma_leaves_count_of(nodes: Seq<NodeValue>)
    requires
        shaped_of(nodes),
    ensures
        leaves_of(nodes).len() >= nodes.len(),
    decreases nodes, 0int,
{
    if nodes.len() > 0 {
        lemma_leaves_count_of(nodes.subrange(0, nodes.len() - 1));
        lemma_leaves_count(nodes[nodes.len() - 1]);
    }
}

/// The area of node `i` of the `n` nodes of a split over `area`: equal
/// columns from the left edge of the screen, or equal rows from its top.
pub open spec fn child_area(layout: Layout, area: Rect, n: int, i: int) -> Rect {
    match layout {
        Layout::Vertical => {
            let w = area.width as int / n;
            Rect { x: (w * i) as u16, y: area.y, width: w as u16, height: area.height }
        },
        Layout::Horizontal => {
            let h = area.height as int / n;
            Rect { x: area.x, y: (h * i) as u16, width: area.width, height: h as u16 }
        },
    }
}

/// The area each window of a layout over `area` gets.
pub open spec fn node_areas(node: NodeValue, area: Rect) -> Map<usize, Rect>
    decreases node,
{
    match node {
        NodeValue::Window(id) => map![id.id() => area],
        NodeValue::Split(split) => nodes_areas(
            split.nodes@,
            split.layout,
            area,
            split.nodes@.len() as int,
        ),
    }
}

/// The area each window of the first nodes of a split gets, the split
/// having `n` nodes in all.
pub open spec fn nodes_areas(nodes: Seq<NodeValue>, layout: Layout, area: Rect, n: int) -> Map<
    usize,
    Rect,
>
    decreases nodes,
{
    if nodes.len() == 0 {
        Map::empty()
    } else {
        let k = nodes.len() - 1;
        nodes_areas(nodes.subrange(0, k), layout, area, n).union_prefer_right(
            node_areas(nodes[k], child_area(layout, area, n, k)),
        )
    }
}

/// The windows, each one that `areas` names moved to its area there.
pub open spec fn with_areas(windows: Map<usize, Window>, areas: Map<usize, Rect>) -> Map<
    usize,
    Window,
> {
    Map::new(
        |k: usize| windows.contains_key(k),
        |k: usize|
            if areas.contains_key(k) {
                windows[k].with_area(areas[k])
            } else {
                windows[k]
            },
    )
}

/// Moving windows twice is moving them once, the second areas winning.
pub proof fn lemma_with_areas_twice(w: Map<usize, Window>, a: Map<usize, Rect>, b: Map<usize, Rect>)
    ensures
        with_areas(with_areas(w, a), b) == with_areas(w, a.union_prefer_right(b)),
{
    assert(with_areas(with_areas(w, a), b) =~= with_areas(w, a.union_prefer_right(b)));
}

/// Resizing a tab twice is resizing it once, to the second area: the
/// windows that `resize` lays out over the first area are laid out over the
/// second as if the first had never been.
pub proof fn law_resize_twice(windows: Map<usize, Window>, root: NodeValue, first: Rect, second: Rect)
    ensures
        with_areas(
            with_areas(windows, node_areas(root, Rect { height: (first.height - 2) as u16, ..first })),
            node_areas(root, Rect { height: (second.height - 2) as u16, ..second }),
        ) == with_areas(windows, node_areas(root, Rect { height: (second.height - 2) as u16, ..second })),
{
    let a = node_areas(root, Rect { height: (first.height - 2) as u16, ..first });
    let b = node_areas(root, Rect { height: (second.height - 2) as u16, ..second });
    lemma_with_areas_twice(windows, a, b);
    lemma_node_areas_dom(root, Rect { height: (first.height - 2) as u16, ..first });
    lemma_node_areas_dom(root, Rect { height: (second.height - 2) as u16, ..second });
    assert(a.union_prefer_right(b) =~= b);
}

/// Every window of the layout is one of `windows`.
pub open spec fn leaves_in(node: NodeValue, windows: Map<usize, Window>) -> bool {
    forall|j: int| 0 <= j < leaves(node).len() ==> windows.contains_key(#[trigger] leaves(node)[j])
}

/// What walks a layout: it looks at each window or split it is handed.
pub trait NodeVisitor: Sized {
    type Output;

    /// Whether the visitor can be handed `node`.
    spec fn can_visit(&self, node: NodeValue) -> bool;

    /// Visiting `node` leaves the visitor as `after` and the node as
    /// `node_after`, and returns `r`.
    spec fn visits(
        &self,
        node: NodeValue,
        after: Self,
        node_after: NodeValue,
        r: Option<Self::Output>,
    ) -> bool;

    fn visit_window(&mut self, node: &mut NodeValue, window_id: WindowId) -> (r: Option<
        Self::Output,
    >)
        requires
            *old(node) == NodeValue::Window(window_id),
            old(self).can_visit(*old(node)),
        ensures
            old(self).visits(*old(node), *final(self), *final(node), r),
    ;

    fn visit_split(&mut self, split: &mut Split) -> (r: Option<Self::Output>)
        requires
            old(self).can_visit(NodeValue::Split(*old(split))),
        ensures
            old(self).visits(
                NodeValue::Split(*old(split)),
                *final(self),
                NodeValue::Split(*final(split)),
                r,
            ),
    ;
}

impl NodeValue {
    /// Hands this node to `visitor`, as a window or as a split.
    pub fn visit<V>(&mut self, visitor: &mut V) -> (r: Option<V::Output>) where V: NodeVisitor
        requires
            old(visitor).can_visit(*old(self)),
        ensures
            old(visitor).visits(*old(self), *final(visitor), *final(self), r),
    {
        match self {
            NodeValue::Window(window_id) => {
                let window_id = *window_id;
                visitor.visit_window(self, window_id)
            },
            NodeValue::Split(split) => visitor.visit_split(split),
        }
    }
}

/// Gives each window of a layout its area.
struct NodeResizer {
    area: Rect,
    windows: BTreeMap<usize, Window>,
}

impl NodeResizer {
    /// Moves window `id` to the resizer's area.
    fn resize_window(&mut self, id: WindowId)
        requires
            old(self).windows@.contains_key(id.id()),
        ensures
            final(self).area == old(self).area,
            final(self).windows@ == with_areas(
                old(self).windows@,
                node_areas(NodeValue::Window(id), old(self).area),
            ),
    {
        let area = self.area;
        match btree_get_mut(&mut self.windows, &id.get()) {
            Some(window) => window.set_area(area),
            None => {},
        }
        assert(self.windows@ =~= with_areas(
            old(self).windows@,
            node_areas(NodeValue::Window(id), old(self).area),
        ));
    }

    /// Divides the resizer's area among the nodes of `split`.
    fn resize_split(&mut self, split: &Split)
        requires
            shaped(NodeValue::Split(*split)),
            leaves_in(NodeValue::Split(*split), old(self).windows@),
        ensures
            final(self).area == old(self).area,
            final(self).windows@ == with_areas(
                old(self).windows@,
                node_areas(NodeValue::Split(*split), old(self).area),
            ),
        decreases split,
    {
        let ghost nodes = split.nodes@;
        let ghost w0 = self.windows@;
        let n = split.nodes.len();
        let count = n as u16;
        let area = self.area;
        let width = area.width / count;
        let height = area.height / count;
        let mut i: usize = 0;
        assert(nodes.subrange(0, 0) =~= Seq::<NodeValue>::empty());
        assert(with_areas(w0, Map::empty()) =~= w0);
        while i < n
            invariant
                n == split.nodes@.len(),
                nodes == split.nodes@,
                2 <= n < u16::MAX,
                count == n,
                width == area.width / count,
                height == area.height / count,
                i <= n,
                shaped(NodeValue::Split(*split)),
                leaves_in(NodeValue::Split(*split), w0),
                self.area == area,
                self.windows@ == with_areas(
                    w0,
                    nodes_areas(nodes.subrange(0, i as int), split.layout, area, n as int),
                ),
            decreases n - i,
        {
            proof {
                lemma_leaves_at(nodes, i as int);
                assert(width * i <= area.width) by (nonlinear_arith)
                    requires
                        width == area.width / count,
                        i < count,
                        count > 0,
                ;
                assert(height * i <= area.height) by (nonlinear_arith)
                    requires
                        height == area.height / count,
                        i < count,
                        count > 0,
                ;
            }
            let child = match split.layout {
                Layout::Vertical => Rect::new(width * i as u16, area.y, width, area.height),
                Layout::Horizontal => Rect::new(area.x, height * i as u16, area.width, height),
            };
            assert(child == child_area(split.layout, area, n as int, i as int));
            self.area = child;
            let ghost before = self.windows@;
            proof {
                let pre = nodes.subrange(0, i as int);
                let lv = leaves(nodes[i as int]);
                assert forall|j: int| 0 <= j < lv.len() implies before.contains_key(
                    #[trigger] lv[j],
                ) by {
                    assert(lv[j] == leaves(NodeValue::Split(*split))[leaves_of(pre).len() + j]);
                }
            }
            match &split.nodes[i] {
                NodeValue::Window(id) => {
                    assert(leaves(nodes[i as int])[0] == id.id());
                    self.resize_window(*id)
                },
                NodeValue::Split(s) => self.resize_split(s),
            }
            proof {
                lemma_with_areas_twice(
                    w0,
                    nodes_areas(nodes.subrange(0, i as int), split.layout, area, n as int),
                    node_areas(nodes[i as int], child),
                );
                assert(nodes.subrange(0, i + 1).subrange(0, i as int) == nodes.subrange(
                    0,
                    i as int,
                ));
                assert(nodes.subrange(0, i + 1)[i as int] == nodes[i as int]);
            }
            self.area = area;
            i += 1;
        }
        assert(nodes.subrange(0, n as int) == nodes);
    }
}

impl NodeVisitor for NodeResizer {
    type Output = ();

    closed spec fn can_visit(&self, node: NodeValue) -> bool {
        shaped(node) && leaves_in(node, self.windows@)
    }

    closed spec fn visits(
        &self,
        node: NodeValue,
        after: Self,
        node_after: NodeValue,
        r: Option<()>,
    ) -> bool {
        &&& r is None
        &&& node_after == node
        &&& after.area == self.area
        &&& after.windows@ == with_areas(self.windows@, node_areas(node, self.area))
    }

    fn visit_window(&mut self, node: &mut NodeValue, window_id: WindowId) -> (r: Option<()>) {
        assert(leaves(*node)[0] == window_id.id());
        self.resize_window(window_id);
        None
    }

    fn visit_split(&mut self, split: &mut Split) -> (r: Option<()>) {
        self.resize_split(split);
        None
    }
}

/// Whether an area can be halved in `layout`: split side by side it needs
/// a column, one above the other a row.
pub open spec fn can_halve(area: Rect, layout: Layout) -> bool {
    match layout {
        Layout::Vertical => area.width > 0 && area.x + area.width <= u16::MAX,
        Layout::Horizontal => area.height > 0 && area.y + area.height <= u16::MAX,
    }
}

/// `s` is the split that takes the place of leaf `leaf` when it is split in
/// `layout` with the new window `id`, over `area`.
pub open spec fn is_pair(s: Split, leaf: NodeValue, id: WindowId, layout: Layout, area: Rect) -> bool {
    &&& s.layout == layout
    &&& s.area == area
    &&& s.nodes@ == seq![leaf, NodeValue::Window(id)]
}

/// Whether splitting window `t` of `node` in `layout` pairs `t` with the new
/// window, rather than adding the new window to the split that holds `t`
/// (which happens when that split has the same layout).
pub open spec fn makes_pair(node: NodeValue, t: usize, layout: Layout) -> bool
    decreases node,
{
    match node {
        NodeValue::Window(_) => true,
        NodeValue::Split(s) => exists|j: int|
            0 <= j < s.nodes@.len() && #[trigger] leaves(s.nodes@[j]).contains(t) && if s.nodes@[j] is Window {
                s.layout != layout
            } else {
                makes_pair(s.nodes@[j], t, layout)
            },
    }
}

/// `after` is `before` once its window `t` is split in `layout` with the new
/// window `id`: if the split that holds `t` has that layout, `id` joins the
/// end of it; else the leaf `t` becomes a split of `t` and `id` over `area`.
pub open spec fn splits_to(
    before: NodeValue,
    after: NodeValue,
    t: usize,
    id: WindowId,
    layout: Layout,
    area: Rect,
) -> bool
    decreases before,
{
    match before {
        NodeValue::Window(_) => after is Split && is_pair(after->Split_0, before, id, layout, area),
        NodeValue::Split(s) => after is Split && {
            let s2 = after->Split_0;
            &&& s2.layout == s.layout
            &&& s2.area == s.area
            &&& exists|j: int|
                0 <= j < s.nodes@.len() && #[trigger] leaves(s.nodes@[j]).contains(t) && if s.nodes@[j] is Window
                    && s.layout == layout {
                    s2.nodes@ == s.nodes@.push(NodeValue::Window(id))
                } else {
                    &&& s2.nodes@.len() == s.nodes@.len()
                    &&& s2.nodes@ == s.nodes@.update(j, s2.nodes@[j])
                    &&& splits_to(s.nodes@[j], s2.nodes@[j], t, id, layout, area)
                }
        },
    }
}

/// The number after `w`, stopping at the largest.
pub open spec fn next_number(w: WindowId) -> int {
    if w.id() < usize::MAX {
        w.id() + 1
    } else {
        usize::MAX as int
    }
}

/// `w2` is `w1` but that the windows of `moved` may have other areas.
pub open spec fn moved_only(w2: Map<usize, Window>, w1: Map<usize, Window>, moved: Set<usize>) -> bool {
    &&& w2.dom() == w1.dom()
    &&& forall|k: usize| #[trigger]
        w1.contains_key(k) ==> if moved.contains(k) {
            w2[k] == w1[k].with_area(w2[k].spec_area())
        } else {
            w2[k] == w1[k]
        }
}

/// Where every moved window gets an area of `areas`, it does not matter
/// where they were moved before.
pub proof fn lemma_moved_only(
    w2: Map<usize, Window>,
    w1: Map<usize, Window>,
    moved: Set<usize>,
    areas: Map<usize, Rect>,
)
    requires
        moved_only(w2, w1, moved),
        moved.subset_of(areas.dom()),
    ensures
        with_areas(w2, areas) == with_areas(w1, areas),
{
    assert forall|k: usize| #[trigger] w1.contains_key(k) implies with_areas(w2, areas)[k]
        == with_areas(w1, areas)[k] by {
        if moved.contains(k) {
            w1[k].lemma_with_area_twice(w2[k].spec_area(), areas[k]);
        }
    }
    assert(with_areas(w2, areas) =~= with_areas(w1, areas));
}

/// The windows given areas are the leaves.
pub proof fn lemma_node_areas_dom(node: NodeValue, area: Rect)
    ensures
        node_areas(node, area).dom() == leaves(node).to_set(),
    decreases node, 1int,
{
    match node {
        NodeValue::Window(id) => {
            assert(seq![id.id()].to_set() =~= set![id.id()]) by {
                broadcast use vstd::seq_lib::group_seq_properties;
            }
        },
        NodeValue::Split(split) => {
            lemma_nodes_areas_dom(split.nodes@, split.layout, area, split.nodes@.len() as int);
        },
    }
}

/// The windows given areas in a row are its leaves.
pub proof fn lemma_nodes_areas_dom(nodes: Seq<NodeValue>, layout: Layout, area: Rect, n: int)
    ensures
        nodes_areas(nodes, layout, area, n).dom() == leaves_of(nodes).to_set(),
    decreases nodes, 0int,
{
    if nodes.len() == 0 {
        assert(leaves_of(nodes).to_set() =~= Set::empty());
    } else {
        let k = nodes.len() - 1;
        lemma_nodes_areas_dom(nodes.subrange(0, k), layout, area, n);
        lemma_node_areas_dom(nodes[k], child_area(layout, area, n, k));
        vstd::seq_lib::seq_to_set_distributes_over_add(
            leaves_of(nodes.subrange(0, k)),
            leaves(nodes[k]),
        );
    }
}

/// A piece of a sequence without duplicates has none.
pub proof fn lemma_no_dup_middle(a: Seq<usize>, b: Seq<usize>, c: Seq<usize>)
    requires
        (a + b + c).no_duplicates(),
    ensures
        b.no_duplicates(),
{
    assert forall|i: int, j: int| 0 <= i < b.len() && 0 <= j < b.len() && i != j implies b[i]
        != b[j] by {
        assert(b[i] == (a + b + c)[a.len() + i]);
        assert(b[j] == (a + b + c)[a.len() + j]);
    }
}

/// What a pair split looks like.
pub proof fn lemma_pair(s: Split, leaf: NodeValue, id: WindowId, layout: Layout, area: Rect)
    requires
        is_pair(s, leaf, id, layout, area),
        leaf is Window,
    ensures
        leaves(NodeValue::Split(s)) == leaves(leaf) + seq![id.id()],
        shaped(NodeValue::Split(s)),
{
    lemma_leaves_concat(seq![leaf], seq![NodeValue::Window(id)]);
    lemma_leaves_single(leaf);
    lemma_leaves_single(NodeValue::Window(id));
    assert(seq![leaf] + seq![NodeValue::Window(id)] == s.nodes@);
}

/// Splitting a window adds the new window to the leaves, somewhere.
pub proof fn lemma_split_leaves(
    before: NodeValue,
    after: NodeValue,
    t: usize,
    id: WindowId,
    layout: Layout,
    area: Rect,
) -> (p: int)
    requires
        splits_to(before, after, t, id, layout, area),
    ensures
        0 <= p <= leaves(before).len(),
        leaves(after) == leaves(before).insert(p, id.id()),
    decreases before,
{
    match before {
        NodeValue::Window(_) => {
            lemma_pair(after->Split_0, before, id, layout, area);
            assert(leaves(before).insert(1, id.id()) =~= leaves(before) + seq![id.id()]);
            1
        },
        NodeValue::Split(s) => {
            let s2 = after->Split_0;
            let ns = s.nodes@;
            let j = choose|j: int|
                0 <= j < ns.len() && #[trigger] leaves(ns[j]).contains(t) && if ns[j] is Window
                    && s.layout == layout {
                    s2.nodes@ == ns.push(NodeValue::Window(id))
                } else {
                    &&& s2.nodes@.len() == ns.len()
                    &&& s2.nodes@ == ns.update(j, s2.nodes@[j])
                    &&& splits_to(ns[j], s2.nodes@[j], t, id, layout, area)
                };
            if ns[j] is Window && s.layout == layout {
                lemma_leaves_concat(ns, seq![NodeValue::Window(id)]);
                lemma_leaves_single(NodeValue::Window(id));
                assert(ns + seq![NodeValue::Window(id)] == ns.push(NodeValue::Window(id)));
                let l = leaves_of(ns);
                assert(l.insert(l.len() as int, id.id()) =~= l + seq![id.id()]);
                l.len() as int
            } else {
                let ns2 = s2.nodes@;
                let q = lemma_split_leaves(ns[j], ns2[j], t, id, layout, area);
                lemma_leaves_at(ns, j);
                lemma_leaves_at(ns2, j);
                assert(ns2.subrange(0, j) == ns.subrange(0, j));
                assert(ns2.subrange(j + 1, ns2.len() as int) == ns.subrange(j + 1, ns.len() as int));
                let a = leaves_of(ns.subrange(0, j));
                let b = leaves(ns[j]);
                let c = leaves_of(ns.subrange(j + 1, ns.len() as int));
                assert(a + b.insert(q, id.id()) + c =~= (a + b + c).insert(a.len() + q, id.id()));
                a.len() + q
            }
        },
    }
}

/// Adding `x`, which it lacks, to a sequence without duplicates.
pub proof fn lemma_insert_fresh(s: Seq<usize>, p: int, x: usize)
    requires
        0 <= p <= s.len(),
        s.no_duplicates(),
        !s.contains(x),
    ensures
        s.insert(p, x).no_duplicates(),
        s.insert(p, x).to_set() == s.to_set().insert(x),
{
    broadcast use vstd::seq_lib::group_seq_properties;

    let r = s.insert(p, x);
    s.insert_ensures(p, x);
    assert forall|i: int, j: int| 0 <= i < r.len() && 0 <= j < r.len() && i != j implies r[i]
        != r[j] by {
        if i == p {
            assert(r[j] == if j < p { s[j] } else { s[j - 1] });
        } else if j == p {
            assert(r[i] == if i < p { s[i] } else { s[i - 1] });
        } else {
            assert(r[i] == if i < p { s[i] } else { s[i - 1] });
            assert(r[j] == if j < p { s[j] } else { s[j - 1] });
        }
    }
    assert forall|y: usize| #[trigger] r.to_set().contains(y) == s.to_set().insert(x).contains(y) by {
        if s.contains(y) {
            let i = choose|i: int| 0 <= i < s.len() && s[i] == y;
            if i < p {
                assert(r[i] == y);
            } else {
                assert(r[i + 1] == y);
            }
        }
        if r.contains(y) {
            let i = choose|i: int| 0 <= i < r.len() && r[i] == y;
            if i < p {
                assert(s[i] == y);
            } else if i > p {
                assert(s[i - 1] == y);
            }
        }
        assert(r[p] == x);
    }
    assert(r.to_set() =~= s.to_set().insert(x));
}

/// Whether window `t` is a leaf of `node`.
fn has_window(node: &NodeValue, t: WindowId) -> (r: bool)
    ensures
        r == leaves(*node).contains(t.id()),
{
    match node {
        NodeValue::Window(id) => {
            proof {
                broadcast use vstd::seq_lib::group_seq_properties;

                assert(leaves(*node) == seq![id.id()]);
                assert(seq![id.id()][0] == id.id());
            }
            id.get() == t.get()
        },
        NodeValue::Split(split) => has_window_split(split, t),
    }
}

/// Whether window `t` is a leaf of `split`.
fn has_window_split(split: &Split, t: WindowId) -> (r: bool)
    ensures
        r == leaves(NodeValue::Split(*split)).contains(t.id()),
    decreases split,
{
    let ghost nodes = split.nodes@;
    let n = split.nodes.len();
    let mut i: usize = 0;
    assert(nodes.subrange(0, 0) =~= Seq::<NodeValue>::empty());
    while i < n
        invariant
            n == nodes.len(),
            nodes == split.nodes@,
            i <= n,
            !leaves_of(nodes.subrange(0, i as int)).contains(t.id()),
        decreases n - i,
    {
        proof {
            broadcast use vstd::seq_lib::group_seq_properties;

            assert(nodes.subrange(0, i + 1).subrange(0, i as int) == nodes.subrange(0, i as int));
            assert(nodes.subrange(0, i + 1)[i as int] == nodes[i as int]);
            lemma_leaves_at(nodes, i as int);
        }
        let found = match &split.nodes[i] {
            NodeValue::Window(id) => {
                proof {
                    broadcast use vstd::seq_lib::group_seq_properties;

                    assert(leaves(nodes[i as int]) == seq![id.id()]);
                    assert(seq![id.id()][0] == id.id());
                }
                id.get() == t.get()
            },
            NodeValue::Split(s) => has_window_split(s, t),
        };
        if found {
            proof {
                broadcast use vstd::seq_lib::group_seq_properties;

                assert(leaves_of(nodes).contains(t.id()));
            }
            return true;
        }
        i += 1;
    }
    assert(nodes.subrange(0, n as int) == nodes);
    false
}

/// The first node of a row that is window `t` itself.
fn position_of_window(nodes: &Vec<NodeValue>, t: WindowId) -> (r: Option<usize>)
    ensures
        match r {
            Some(i) => i < nodes@.len() && nodes@[i as int] == NodeValue::Window(t),
            None => forall|k: int|
                0 <= k < nodes@.len() ==> !(#[trigger] nodes@[k] is Window && nodes@[k]->Window_0
                    == t),
        },
{
    let mut i: usize = 0;
    while i < nodes.len()
        invariant
            i <= nodes@.len(),
            forall|k: int|
                0 <= k < i ==> !(#[trigger] nodes@[k] is Window && nodes@[k]->Window_0 == t),
        decreases nodes@.len() - i,
    {
        if let NodeValue::Window(id) = &nodes[i] {
            if *id == t {
                return Some(i);
            }
        }
        i += 1;
    }
    None
}

/// The first node of a row that has window `t` among its leaves.
fn position_holding(nodes: &Vec<NodeValue>, t: WindowId) -> (r: Option<usize>)
    ensures
        match r {
            Some(i) => i < nodes@.len() && leaves(nodes@[i as int]).contains(t.id()),
            None => forall|k: int|
                0 <= k < nodes@.len() ==> !(#[trigger] leaves(nodes@[k])).contains(t.id()),
        },
{
    let mut i: usize = 0;
    while i < nodes.len()
        invariant
            i <= nodes@.len(),
            forall|k: int| 0 <= k < i ==> !(#[trigger] leaves(nodes@[k])).contains(t.id()),
        decreases nodes@.len() - i,
    {
        if has_window(&nodes[i], t) {
            return Some(i);
        }
        i += 1;
    }
    None
}

impl Split {
    /// An empty split in `layout`.
    pub fn new(layout: Layout) -> (s: Split)
        ensures
            s.layout == layout,
            s.nodes@ == Seq::<NodeValue>::empty(),
            s.area == (Rect { x: 0, y: 0, width: 0, height: 0 }),
    {
        Split { layout, nodes: Vec::new(), area: Rect::new(0, 0, 0, 0) }
    }
}

/// Splits the target window of a layout with a new window.
struct NodeSplitter {
    target: WindowId,
    new_window: Window,
    layout: Layout,
    windows: BTreeMap<usize, Window>,
    next_window: WindowId,
}

impl NodeSplitter {
    /// The splitter can split the target in `node`.
    spec fn ready(&self, node: NodeValue) -> bool {
        let t = self.target.id();
        &&& leaves(node).no_duplicates()
        &&& shaped(node)
        &&& leaves(node).len() + 2 < u16::MAX
        &&& self.windows@.contains_key(t)
        &&& t != self.next_window.id()
        &&& makes_pair(node, t, self.layout) ==> can_halve(self.windows@[t].spec_area(), self.layout)
    }

    /// The splitter split the target in `node`, giving `node_after`, with
    /// the new window `id`, and became `after`.
    spec fn done(&self, node: NodeValue, after: Self, node_after: NodeValue, id: WindowId) -> bool {
        let t = self.target.id();
        &&& id == self.next_window
        &&& splits_to(node, node_after, t, id, self.layout, self.windows@[t].spec_area())
        &&& shaped(node_after)
        &&& after.target == self.target
        &&& after.layout == self.layout
        &&& after.new_window == self.new_window.with_id(id)
        &&& after.next_window.id() == next_number(self.next_window)
        &&& moved_only(
            after.windows@,
            self.windows@.insert(id.id(), self.new_window.with_id(id)),
            set![t, id.id()],
        )
    }

    /// Adds the new window under the next number, and returns the number.
    fn add_window(&mut self) -> (id: WindowId)
        ensures
            id == old(self).next_window,
            final(self).target == old(self).target,
            final(self).layout == old(self).layout,
            final(self).new_window == old(self).new_window.with_id(id),
            final(self).next_window.id() == next_number(old(self).next_window),
            final(self).windows@ == old(self).windows@.insert(
                id.id(),
                old(self).new_window.with_id(id),
            ),
    {
        let id = self.next_window;
        self.new_window.set_id(id);
        let _ = self.windows.insert(id.get(), self.new_window.clone());
        self.next_window = self.next_window.next();
        id
    }

    /// Turns the leaf `node`, the target window, into a split of it and
    /// the new window, halving its area between the two.
    fn split_leaf(&mut self, node: &mut NodeValue, window_id: WindowId) -> (id: WindowId)
        requires
            *old(node) == NodeValue::Window(window_id),
            window_id == old(self).target,
            old(self).ready(*old(node)),
        ensures
            old(self).done(*old(node), *final(self), *final(node), id),
    {
        let ghost t = window_id.id();
        let ghost w0 = self.windows@;
        let mut split = Split::new(self.layout);
        let id = self.add_window();
        let area = self.windows.get(&window_id.get()).unwrap().area();
        split.area = area.with_height(area.height);
        let mut left = split.area;
        let right = match self.layout {
            Layout::Vertical => left.split_right(left.width / 2),
            Layout::Horizontal => left.split_bottom(left.height / 2),
        };
        let ghost w1 = self.windows@;
        match btree_get_mut(&mut self.windows, &window_id.get()) {
            Some(window) => window.set_area(left),
            None => {},
        }
        match btree_get_mut(&mut self.windows, &id.get()) {
            Some(window) => window.set_area(right),
            None => {},
        }
        split.nodes.push(NodeValue::Window(window_id));
        split.nodes.push(NodeValue::Window(id));
        proof {
            let w2 = self.windows@;
            assert(w2[t] == w1[t].with_area(left));
            assert(w2[id.id()] == w1[id.id()].with_area(right));
            assert forall|k: usize| #[trigger] w1.contains_key(k) implies (if set![t, id.id()].contains(k) {
                w2[k] == w1[k].with_area(w2[k].spec_area())
            } else {
                w2[k] == w1[k]
            }) by {
                if k == t {
                    assert(w2[k].spec_area() == left);
                } else if k == id.id() {
                    assert(w2[k].spec_area() == right);
                }
            }
            assert(area == w0[t].spec_area());
            assert(split.area == area);
            assert(split.nodes@ =~= seq![*old(node), NodeValue::Window(id)]);
            lemma_pair(split, *old(node), id, old(self).layout, w0[t].spec_area());
            assert(self.windows@.dom() =~= w1.dom());
        }
        *node = NodeValue::Split(split);
        id
    }

    /// Splits the target, which is a leaf of `split`.
    fn split_in(&mut self, split: &mut Split) -> (id: WindowId)
        requires
            old(self).ready(NodeValue::Split(*old(split))),
            leaves(NodeValue::Split(*old(split))).contains(old(self).target.id()),
        ensures
            old(self).done(NodeValue::Split(*old(split)), *final(self), NodeValue::Split(*final(split)), id),
        decreases *old(split),
    {
        let ghost t = self.target.id();
        let ghost ns = split.nodes@;
        let ghost before = NodeValue::Split(*split);
        proof {
            lemma_leaves_count(before);
        }
        match position_of_window(&split.nodes, self.target) {
            Some(i) => {
                proof {
                    lemma_leaves_at(ns, i as int);
                    assert(leaves(ns[i as int]) == seq![t]);
                    assert(leaves(ns[i as int])[0] == t);
                    assert(leaves(ns[i as int]).contains(t));
                }
                if self.layout != split.layout {
                    let wid = self.target;
                    proof {
                        lemma_no_dup_middle(
                            leaves_of(ns.subrange(0, i as int)),
                            leaves(ns[i as int]),
                            leaves_of(ns.subrange(i + 1, ns.len() as int)),
                        );
                        assert(makes_pair(before, t, self.layout));
                    }
                    let id = self.split_leaf(&mut split.nodes[i], wid);
                    proof {
                        let ns2 = split.nodes@;
                        assert(ns2 == ns.update(i as int, ns2[i as int]));
                        lemma_leaves_at(ns2, i as int);
                        assert(ns2.subrange(0, i as int) == ns.subrange(0, i as int));
                        assert(ns2.subrange(i + 1, ns2.len() as int) == ns.subrange(
                            i + 1,
                            ns.len() as int,
                        ));
                        lemma_pair(ns2[i as int]->Split_0, ns[i as int], id, self.layout, old(self).windows@[t].spec_area());
                    }
                    return id;
                }
                let id = self.add_window();
                split.nodes.push(NodeValue::Window(id));
                proof {
                    let ns2 = split.nodes@;
                    lemma_leaves_concat(ns, seq![NodeValue::Window(id)]);
                    lemma_leaves_single(NodeValue::Window(id));
                    assert(ns + seq![NodeValue::Window(id)] == ns2);
                    assert(self.windows@.dom() =~= old(self).windows@.insert(id.id(), old(self).new_window.with_id(id)).dom());
                    let w2 = self.windows@;
                    assert forall|k: usize| #[trigger] w2.contains_key(k) implies w2[k] == w2[k].with_area(w2[k].spec_area()) by {
                        w2[k].lemma_with_own_area();
                    }
                    assert(leaves(ns[i as int]).contains(t));
                }
                id
            },
            None => {
                let j = match position_holding(&split.nodes, self.target) {
                    Some(j) => j,
                    None => {
                        proof {
                            broadcast use vstd::seq_lib::group_seq_properties;

                            let lv = leaves(before);
                            let p = choose|p: int| 0 <= p < lv.len() && lv[p] == t;
                            lemma_leaves_at(ns, 0);
                            assert(false) by {
                                lemma_find_holder(ns, t);
                            }
                        }
                        0
                    },
                };
                proof {
                    lemma_leaves_at(ns, j as int);
                    lemma_no_dup_middle(
                        leaves_of(ns.subrange(0, j as int)),
                        leaves(ns[j as int]),
                        leaves_of(ns.subrange(j + 1, ns.len() as int)),
                    );
                }
                match &mut split.nodes[j] {
                    NodeValue::Split(inner) => {
                        proof {
                            assert(makes_pair(NodeValue::Split(*inner), t, self.layout) ==> makes_pair(before, t, self.layout));
                        }
                        let id = self.split_in(inner);
                        proof {
                            let ns2 = split.nodes@;
                            lemma_leaves_at(ns2, j as int);
                            assert(ns2.subrange(0, j as int) == ns.subrange(0, j as int));
                            assert(ns2.subrange(j + 1, ns2.len() as int) == ns.subrange(
                                j + 1,
                                ns.len() as int,
                            ));
                        }
                        id
                    },
                    NodeValue::Window(w) => {
                        proof {
                            broadcast use vstd::seq_lib::group_seq_properties;

                            assert(leaves(ns[j as int]) == seq![w.id()]);
                            assert(seq![w.id()][0] == w.id());
                            assert(w.id() == t);
                            crate::window::lemma_window_id_eq(*w, old(self).target);
                            assert(ns[j as int] is Window && ns[j as int]->Window_0 == old(self).target);
                            assert(false);
                        }
                        self.next_window
                    },
                }
            },
        }
    }
}

/// A leaf of a row is a leaf of one of its nodes.
pub proof fn lemma_find_holder(nodes: Seq<NodeValue>, t: usize)
    requires
        leaves_of(nodes).contains(t),
    ensures
        exists|j: int| 0 <= j < nodes.len() && #[trigger] leaves(nodes[j]).contains(t),
    decreases nodes.len(),
{
    broadcast use vstd::seq_lib::group_seq_properties;

    if nodes.len() > 0 {
        let k = nodes.len() - 1;
        let pre = nodes.subrange(0, k);
        if leaves_of(pre).contains(t) {
            lemma_find_holder(pre, t);
            let j = choose|j: int| 0 <= j < pre.len() && #[trigger] leaves(pre[j]).contains(t);
            assert(pre[j] == nodes[j]);
        } else {
            assert(leaves(nodes[k]).contains(t));
        }
    }
}

impl NodeVisitor for NodeSplitter {
    type Output = WindowId;

    closed spec fn can_visit(&self, node: NodeValue) -> bool {
        leaves(node).contains(self.target.id()) ==> self.ready(node)
    }

    closed spec fn visits(
        &self,
        node: NodeValue,
        after: Self,
        node_after: NodeValue,
        r: Option<WindowId>,
    ) -> bool {
        if leaves(node).contains(self.target.id()) {
            r is Some && self.done(node, after, node_after, r->0)
        } else {
            r is None && after == *self && node_after == node
        }
    }

    fn visit_window(&mut self, node: &mut NodeValue, window_id: WindowId) -> (r: Option<WindowId>) {
        proof {
            broadcast use vstd::seq_lib::group_seq_properties;

            assert(leaves(*node) == seq![window_id.id()]);
            assert(leaves(*node)[0] == window_id.id());
        }
        if window_id != self.target {
            proof {
                assert(window_id.id() != self.target.id()) by {
                    if window_id.id() == self.target.id() {
                        crate::window::lemma_window_id_eq(window_id, self.target);
                    }
                }
            }
            return None;
        }
        Some(self.split_leaf(node, window_id))
    }

    fn visit_split(&mut self, split: &mut Split) -> (r: Option<WindowId>) {
        let found = has_window_in(split, self.target);
        if !found {
            return None;
        }
        Some(self.split_in(split))
    }
}

/// Whether window `t` is a leaf of `split`.
fn has_window_in(split: &Split, t: WindowId) -> (r: bool)
    ensures
        r == leaves(NodeValue::Split(*split)).contains(t.id()),
{
    match position_holding(&split.nodes, t) {
        Some(j) => {
            proof {
                broadcast use vstd::seq_lib::group_seq_properties;

                lemma_leaves_at(split.nodes@, j as int);
                assert(leaves_of(split.nodes@).contains(t.id()));
            }
            true
        },
        None => {
            proof {
                if leaves(NodeValue::Split(*split)).contains(t.id()) {
                    lemma_find_holder(split.nodes@, t.id());
                }
            }
            false
        },
    }
}

/// The window layout of a tab and its windows by number.
#[derive(Debug)]
pub struct Tree {
    area: Rect,
    focus: WindowId,
    next_window: WindowId,
    root: NodeValue,
    windows: BTreeMap<usize, Window>,
}

impl Tree {
    /// The area the tab covers.
    pub closed spec fn spec_area(&self) -> Rect {
        self.area
    }

    /// The focused window.
    pub closed spec fn spec_focus(&self) -> WindowId {
        self.focus
    }

    /// The number the next new window gets.
    pub closed spec fn spec_next_window(&self) -> WindowId {
        self.next_window
    }

    /// The layout.
    pub closed spec fn spec_root(&self) -> NodeValue {
        self.root
    }

    /// The windows by number.
    pub closed spec fn spec_windows(&self) -> Map<usize, Window> {
        self.windows@
    }

    /// Before the first window the layout is a lone placeholder leaf; after
    /// it, the layout's leaves are the windows, each once, every split has
    /// at least two nodes, and the focused window is one of them. Window
    /// numbers are below the next one.
    pub open spec fn wf(&self) -> bool {
        &&& forall|k: usize| #[trigger]
            self.spec_windows().contains_key(k) ==> 1 <= k < self.spec_next_window().id()
        &&& if self.spec_windows().len() == 0 {
            self.spec_root() is Window
        } else {
            &&& leaves(self.spec_root()).no_duplicates()
            &&& leaves(self.spec_root()).to_set() == self.spec_windows().dom()
            &&& shaped(self.spec_root())
            &&& self.spec_windows().contains_key(self.spec_focus().id())
        }
        &&& self.spec_windows().dom().finite()
    }

    /// There is room to split the focused window in `layout`: a window
    /// number is left, the tab keeps rows for its windows, and a window that
    /// is halved is large enough to halve.
    pub open spec fn can_split(&self, layout: Layout) -> bool {
        &&& self.spec_next_window().id() < usize::MAX
        &&& self.spec_windows().len() == 0 ==> self.spec_area().height >= 2
        &&& self.spec_windows().len() > 0 ==> {
            &&& self.spec_area().height > 2
            &&& self.spec_windows().len() + 3 < u16::MAX
            &&& makes_pair(self.spec_root(), self.spec_focus().id(), layout) ==> can_halve(
                self.spec_windows()[self.spec_focus().id()].spec_area(),
                layout,
            )
        }
    }

    /// A tab over `area` with no window yet.
    pub fn new(area: Rect) -> (tree: Tree)
        ensures
            tree.wf(),
            tree.spec_area() == area,
            tree.spec_focus().id() == 1,
            tree.spec_next_window().id() == 1,
            tree.spec_windows() == Map::<usize, Window>::empty(),
            tree.spec_root() is Window && tree.spec_root()->Window_0.id() == 1,
    {
        Tree {
            area,
            root: NodeValue::Window(WindowId::default()),
            focus: WindowId::default(),
            windows: BTreeMap::new(),
            next_window: WindowId::default(),
        }
    }

    /// The focused window.
    pub fn focus(&self) -> (r: WindowId)
        ensures
            r == self.spec_focus(),
    {
        self.focus
    }

    /// A tab is never empty.
    #[must_use]
    pub fn is_empty(&self) -> (r: bool)
        ensures
            !r,
    {
        false
    }

    /// The window numbered `id`, if there is one.
    pub fn get_window(&self, id: WindowId) -> (r: Option<&Window>)
        ensures
            r == (if self.spec_windows().contains_key(id.id()) {
                Some(&self.spec_windows()[id.id()])
            } else {
                None
            }),
    {
        self.windows.get(&id.get())
    }

    /// The window numbered `id`, for changing it.
    pub fn get_window_mut(&mut self, id: WindowId) -> (r: Option<&mut Window>)
        ensures
            match r {
                Some(w) => {
                    &&& old(self).spec_windows().contains_key(id.id())
                    &&& *w == old(self).spec_windows()[id.id()]
                    &&& final(self).spec_windows() == old(self).spec_windows().insert(
                        id.id(),
                        *final(w),
                    )
                },
                None => {
                    &&& !old(self).spec_windows().contains_key(id.id())
                    &&& final(self).spec_windows() == old(self).spec_windows()
                },
            },
            final(self).spec_area() == old(self).spec_area(),
            final(self).spec_focus() == old(self).spec_focus(),
            final(self).spec_next_window() == old(self).spec_next_window(),
            final(self).spec_root() == old(self).spec_root(),
    {
        btree_get_mut(&mut self.windows, &id.get())
    }

    /// The window numbered `id`, which must exist.
    pub fn window(&self, id: WindowId) -> (r: &Window)
        requires
            self.spec_windows().contains_key(id.id()),
        ensures
            *r == self.spec_windows()[id.id()],
    {
        self.get_window(id).unwrap()
    }

    /// The window numbered `id`, which must exist, for changing it.
    pub fn window_mut(&mut self, id: WindowId) -> (r: &mut Window)
        requires
            old(self).spec_windows().contains_key(id.id()),
        ensures
            *r == old(self).spec_windows()[id.id()],
            final(self).spec_windows() == old(self).spec_windows().insert(id.id(), *final(r)),
            final(self).spec_area() == old(self).spec_area(),
            final(self).spec_focus() == old(self).spec_focus(),
            final(self).spec_next_window() == old(self).spec_next_window(),
            final(self).spec_root() == old(self).spec_root(),
    {
        self.get_window_mut(id).unwrap()
    }

    /// The windows by number.
    pub fn windows(&self) -> (r: &BTreeMap<usize, Window>)
        ensures
            r@ == self.spec_windows(),
    {
        &self.windows
    }

    /// The layout.
    pub fn root(&self) -> (r: &NodeValue)
        ensures
            *r == self.spec_root(),
    {
        &self.root
    }

    /// Splits the focused window in `layout` with `window`, which gets the
    /// next number, and lays the windows out again. The first window of a
    /// tab takes its whole area but the last two rows, and the focus.
    pub fn split(&mut self, window: Window, layout: Layout) -> (id: WindowId)
        requires
            old(self).wf(),
            old(self).can_split(layout),
        ensures
            final(self).wf(),
            id == old(self).spec_next_window(),
            final(self).spec_next_window().id() == old(self).spec_next_window().id() + 1,
            final(self).spec_area() == old(self).spec_area(),
            !old(self).spec_windows().contains_key(id.id()),
            final(self).spec_windows().dom() == old(self).spec_windows().dom().insert(id.id()),
            final(self).spec_windows().len() == old(self).spec_windows().len() + 1,
            ({
                let area = old(self).spec_area();
                if old(self).spec_windows().len() == 0 {
                    &&& final(self).spec_root() == NodeValue::Window(id)
                    &&& final(self).spec_focus() == id
                    &&& final(self).spec_windows() == map![id.id() => window.with_id(id).with_area(Rect { height: (area.height - 2) as u16, ..area })]
                } else {
                    let focus = old(self).spec_focus();
                    &&& final(self).spec_focus() == focus
                    &&& splits_to(
                        old(self).spec_root(),
                        final(self).spec_root(),
                        focus.id(),
                        id,
                        layout,
                        old(self).spec_windows()[focus.id()].spec_area(),
                    )
                    &&& final(self).spec_windows() == with_areas(
                        old(self).spec_windows().insert(id.id(), window.with_id(id)),
                        node_areas(
                            final(self).spec_root(),
                            Rect { height: (area.height - 2) as u16, ..area },
                        ),
                    )
                }
            }),
    {
        let mut window = window;
        if self.windows.is_empty() {
            window.set_area(self.area.with_height(self.area.height - 2));
            let id = self.next_window;
            window.set_id(id);
            self.root = NodeValue::Window(id);
            let _ = self.windows.insert(id.get(), window);
            self.next_window = self.next_window.next();
            self.focus = id;
            proof {
                assert(old(self).spec_windows().dom() =~= Set::empty());
                assert(self.windows@ =~= map![id.id() => window]);
                assert(leaves(self.root) == seq![id.id()]);
                assert(seq![id.id()].to_set() =~= set![id.id()]) by {
                    broadcast use vstd::seq_lib::group_seq_properties;
                }
                assert(seq![id.id()].no_duplicates());
            }
            return id;
        }
        let ghost t = self.focus.id();
        let ghost w0 = self.windows@;
        let ghost root0 = self.root;
        let mut windows = BTreeMap::new();
        std::mem::swap(&mut windows, &mut self.windows);
        let mut splitter = NodeSplitter {
            target: self.focus,
            new_window: window,
            layout,
            windows,
            next_window: self.next_window,
        };
        proof {
            broadcast use vstd::seq_lib::group_seq_properties;

            assert(w0.dom().contains(t));
            assert(leaves(root0).to_set().contains(t));
            assert(leaves(root0).contains(t));
            leaves(root0).unique_seq_to_set();
            assert(leaves(root0).len() == w0.dom().len());
        }
        let window_id = match self.root.visit(&mut splitter) {
            Some(id) => id,
            None => {
                proof {
                    assert(false);
                }
                self.next_window
            },
        };
        self.windows = splitter.windows;
        self.next_window = splitter.next_window;
        proof {
            broadcast use vstd::seq_lib::group_seq_properties;

            let n = window_id.id();
            let p = lemma_split_leaves(root0, self.root, t, window_id, layout, w0[t].spec_area());
            assert(!leaves(root0).contains(n)) by {
                if leaves(root0).contains(n) {
                    assert(leaves(root0).to_set().contains(n));
                }
            }
            lemma_insert_fresh(leaves(root0), p, n);
            let w1 = w0.insert(n, window.with_id(window_id));
            assert(self.windows@.dom() =~= w0.dom().insert(n));
            assert(leaves(self.root).to_set() =~= self.windows@.dom());
            assert(self.windows@.len() > 0) by {
                assert(self.windows@.dom().contains(n));
                vstd::set_lib::lemma_set_empty_equivalency_len(self.windows@.dom());
            }
        }
        self.resize(self.area);
        proof {
            let inner = Rect { height: (self.area.height - 2) as u16, ..self.area };
            let n = window_id.id();
            lemma_node_areas_dom(self.root, inner);
            assert(set![t, n].subset_of(node_areas(self.root, inner).dom())) by {
                broadcast use vstd::seq_lib::group_seq_properties;
            }
            lemma_moved_only(
                splitter.windows@,
                w0.insert(n, window.with_id(window_id)),
                set![t, n],
                node_areas(self.root, inner),
            );
        }
        window_id
    }

    /// Moves the tab to `new_area` and lays its windows out again, all but
    /// the last two rows of it being theirs.
    pub fn resize(&mut self, new_area: Rect)
        requires
            old(self).wf(),
            old(self).spec_windows().len() > 0,
            new_area.height > 2,
        ensures
            final(self).wf(),
            final(self).spec_area() == new_area,
            final(self).spec_windows() == with_areas(
                old(self).spec_windows(),
                node_areas(
                    old(self).spec_root(),
                    Rect { height: (new_area.height - 2) as u16, ..new_area },
                ),
            ),
            final(self).spec_focus() == old(self).spec_focus(),
            final(self).spec_next_window() == old(self).spec_next_window(),
            final(self).spec_root() == old(self).spec_root(),
    {
        self.area = new_area;
        let inner = Rect { height: new_area.height - 2, ..new_area };
        let mut windows = BTreeMap::new();
        std::mem::swap(&mut windows, &mut self.windows);
        proof {
            let lv = leaves(self.root);
            assert forall|j: int| 0 <= j < lv.len() implies windows@.contains_key(
                #[trigger] lv[j],
            ) by {
                assert(lv.to_set().contains(lv[j]));
            }
        }
        let mut resizer = NodeResizer { area: inner, windows };
        let _ = self.root.visit(&mut resizer);
        self.windows = resizer.windows;
        assert(self.windows@.dom() =~= old(self).spec_windows().dom());
    }

    /// Closes the tab's window when it is its only one; with several
    /// windows nothing is closed.
    pub fn close_window(&mut self, _window: WindowId) -> (r: CloseAction)
        requires
            old(self).wf(),
        ensures
            final(self).wf(),
            match old(self).spec_root() {
                NodeValue::Window(id) => {
                    &&& r == CloseAction::CloseTab
                    &&& final(self).spec_windows() == old(self).spec_windows().remove(id.id())
                },
                NodeValue::Split(_) => {
                    &&& r == CloseAction::NoAction
                    &&& final(self).spec_windows() == old(self).spec_windows()
                },
            },
            final(self).spec_area() == old(self).spec_area(),
            final(self).spec_focus() == old(self).spec_focus(),
            final(self).spec_next_window() == old(self).spec_next_window(),
            final(self).spec_root() == old(self).spec_root(),
    {
        match &self.root {
            NodeValue::Window(id) => {
                let key = id.get();
                let _ = self.windows.remove(&key);
                proof {
                    if old(self).spec_windows().len() > 0 {
                        let s = leaves(self.root);
                        assert(s == seq![key]);
                        assert(old(self).spec_windows().dom() == set![key]) by {
                            assert(s.to_set() =~= set![key]);
                        }
                        assert(self.windows@.dom() =~= Set::empty());
                    } else {
                        assert(old(self).spec_windows().dom() =~= Set::empty());
                        assert(self.windows@.dom() =~= Set::empty());
                    }
                }
                CloseAction::CloseTab
            },
            NodeValue::Split(_) => CloseAction::NoAction,
        }
    }
}

/// Calls `BTreeMap::get_mut`: a mutable reference to the value under `key`,
/// if there is one, through which the map's value under `key` is changed.
/// As for the map's other methods, this holds where the keys' order is
/// lawful, as it is for integers; the lookup then does not panic.
#[verifier::external_body]
pub(crate) fn btree_get_mut<'a, K: Ord, V>(map: &'a mut BTreeMap<K, V>, key: &K) -> (r: Option<
    &'a mut V,
>)
    requires
        vstd::laws_cmp::obeys_cmp::<K>(),
    ensures
        match r {
            Some(v) => {
                &&& old(map)@.contains_key(*key)
                &&& *v == old(map)@[*key]
                &&& final(map)@ == old(map)@.insert(*key, *final(v))
            },
            None => {
                &&& !old(map)@.contains_key(*key)
                &&& final(map)@ == old(map)@
            },
        },
    no_unwind
{
    map.get_mut(key)
}

} // verus!
