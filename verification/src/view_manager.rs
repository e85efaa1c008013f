//! Views onto buffers and the layout of the views on screen.
use std::collections::BTreeMap;

use vstd::prelude::*;
use vstd::view::View as _;

use crate::buffer_manager::BufferId;
use crate::geometry::{Point, Rect, Size};
use crate::tree::btree_get_mut;

verus! {

broadcast use vstd::laws_cmp::group_laws_cmp;

/// The id of a view.
#[derive(Debug, Clone, Copy, PartialEq, Eq, Structural, PartialOrd, Ord, Hash)]
pub struct ViewId(u64);

impl ViewId {
    /// The number of the view.
    pub closed spec fn id(self) -> u64 {
        self.0
    }

    pub fn new(id: u64) -> (r: Self)
        ensures
            r.id() == id,
    {
        Self(id)
    }

    /// The id after this one.
    pub fn next(&self) -> (r: Self)
        requires
            self.id() < u64::MAX,
        ensures
            r.id() == self.id() + 1,
    {
        Self(self.0 + 1)
    }

    /// The number of the view.
    pub fn get(&self) -> (r: u64)
        ensures
            r == self.id(),
    {
        self.0
    }
}

impl From<u64> for ViewId {
    fn from(id: u64) -> (r: Self) {
        Self(id)
    }
}

impl vstd::std_specs::convert::FromSpecImpl<u64> for ViewId {
    open spec fn obeys_from_spec() -> bool {
        true
    }

    open spec fn from_spec(id: u64) -> ViewId {
        ViewId::spec_new(id)
    }
}

impl From<u32> for ViewId {
    fn from(id: u32) -> (r: Self) {
        Self(id as u64)
    }
}

impl vstd::std_specs::convert::FromSpecImpl<u32> for ViewId {
    open spec fn obeys_from_spec() -> bool {
        true
    }

    open spec fn from_spec(id: u32) -> ViewId {
        ViewId::spec_new(id as u64)
    }
}

impl From<u16> for ViewId {
    fn from(id: u16) -> (r: Self) {
        Self(id as u64)
    }
}

impl vstd::std_specs::convert::FromSpecImpl<u16> for ViewId {
    open spec fn obeys_from_spec() -> bool {
        true
    }

    open spec fn from_spec(id: u16) -> ViewId {
        ViewId::spec_new(id as u64)
    }
}

impl From<u8> for ViewId {
    fn from(id: u8) -> (r: Self) {
        Self(id as u64)
    }
}

impl vstd::std_specs::convert::FromSpecImpl<u8> for ViewId {
    open spec fn obeys_from_spec() -> bool {
        true
    }

    open spec fn from_spec(id: u8) -> ViewId {
        ViewId::spec_new(id as u64)
    }
}

impl ViewId {
    /// The view numbered `id`.
    pub closed spec fn spec_new(id: u64) -> ViewId {
        ViewId(id)
    }
}

/// A view onto a buffer: its scroll offset and its cursors.
#[derive(Debug, PartialEq, Eq, PartialOrd, Ord)]
pub struct View {
    pub id: ViewId,
    pub buffer_id: BufferId,
    pub scroll_offset: Point<usize>,
    pub cursors: Vec<Point<usize>>,
}

impl View {
    /// A view of `buffer_id`, unscrolled, with one cursor at the start.
    pub fn new(id: ViewId, buffer_id: BufferId) -> (v: Self)
        ensures
            v.id == id,
            v.buffer_id == buffer_id,
            v.scroll_offset == (Point::<usize> { x: 0, y: 0 }),
            v.cursors@ == seq![Point::<usize> { x: 0, y: 0 }],
    {
        Self {
            id,
            buffer_id,
            scroll_offset: Point::new(0, 0),
            cursors: vec![Point::new(0, 0)],
        }
    }
}

/// A view placed on screen.
#[derive(Debug)]
pub struct LeafView {
    pub view_id: ViewId,
    pub rect: Rect,
}

/// Nodes of the layout sharing a rectangle.
#[derive(Debug)]
pub struct SplitView {
    pub rect: Rect,
    pub children: Vec<LayoutTreeNode>,
}

/// A node of the layout of views.
#[derive(Debug)]
pub enum LayoutTreeNode {
    Leaf(LeafView),
    Split(SplitView),
}

/// What walks the layout of views: it is handed each split, then the
/// nodes of the split in order, and each leaf.
pub trait LayoutTreeVisitor: Sized {
    /// What the visitor has gathered.
    type State;

    /// What the visitor has gathered so far.
    spec fn state(&self) -> Self::State;

    /// What a visitor that gathered `s` gathers once handed `split`.
    spec fn after_split(s: Self::State, split: SplitView) -> Self::State;

    /// What a visitor that gathered `s` gathers once handed `leaf`.
    spec fn after_leaf(s: Self::State, leaf: LeafView) -> Self::State;

    fn visit_split(&mut self, split: &SplitView)
        ensures
            final(self).state() == Self::after_split(old(self).state(), *split),
    ;

    fn visit_leaf(&mut self, leaf: &LeafView)
        ensures
            final(self).state() == Self::after_leaf(old(self).state(), *leaf),
    ;
}

/// What a visitor that gathered `s` gathers once it walked `node`.
pub open spec fn walk<V: LayoutTreeVisitor>(s: V::State, node: LayoutTreeNode) -> V::State
    decreases node,
{
    match node {
        LayoutTreeNode::Leaf(leaf) => V::after_leaf(s, leaf),
        LayoutTreeNode::Split(split) => walk_all::<V>(V::after_split(s, split), split.children@),
    }
}

/// What a visitor that gathered `s` gathers once it walked each of `nodes`
/// in turn.
pub open spec fn walk_all<V: LayoutTreeVisitor>(s: V::State, nodes: Seq<LayoutTreeNode>) -> V::State
    decreases nodes,
{
    if nodes.len() == 0 {
        s
    } else {
        walk::<V>(walk_all::<V>(s, nodes.subrange(0, nodes.len() - 1)), nodes[nodes.len() - 1])
    }
}

impl LeafView {
    /// Hands this leaf to `visitor`.
    pub fn accept<V>(&self, visitor: &mut V) where V: LayoutTreeVisitor
        ensures
            final(visitor).state() == walk::<V>(old(visitor).state(), LayoutTreeNode::Leaf(*self)),
    {
        visitor.visit_leaf(self);
    }
}

impl SplitView {
    /// Hands this split to `visitor`, then each of its nodes in turn.
    pub fn accept<V>(&self, visitor: &mut V) where V: LayoutTreeVisitor
        ensures
            final(visitor).state() == walk::<V>(old(visitor).state(), LayoutTreeNode::Split(*self)),
        decreases self,
    {
        visitor.visit_split(self);
        let ghost start = visitor.state();
        let ghost nodes = self.children@;
        let n = self.children.len();
        let mut i: usize = 0;
        assert(nodes.subrange(0, 0) =~= Seq::<LayoutTreeNode>::empty());
        while i < n
            invariant
                n == nodes.len(),
                nodes == self.children@,
                i <= n,
                visitor.state() == walk_all::<V>(start, nodes.subrange(0, i as int)),
            decreases n - i,
        {
            match &self.children[i] {
                LayoutTreeNode::Leaf(leaf) => leaf.accept(visitor),
                LayoutTreeNode::Split(split) => split.accept(visitor),
            }
            assert(nodes.subrange(0, i + 1).subrange(0, i as int) == nodes.subrange(0, i as int));
            assert(nodes.subrange(0, i + 1)[i as int] == nodes[i as int]);
            i += 1;
        }
        assert(nodes.subrange(0, n as int) == nodes);
    }
}

impl LayoutTreeNode {
    /// Hands this node to `visitor`, as a leaf or as a split.
    pub fn accept<V>(&self, visitor: &mut V) where V: LayoutTreeVisitor
        ensures
            final(visitor).state() == walk::<V>(old(visitor).state(), *self),
    {
        match self {
            LayoutTreeNode::Leaf(leaf) => leaf.accept(visitor),
            LayoutTreeNode::Split(split) => split.accept(visitor),
        }
    }
}

/// The views of the leaves of a layout, in order.
pub open spec fn leaf_views(node: LayoutTreeNode) -> Seq<ViewId>
    decreases node,
{
    match node {
        LayoutTreeNode::Leaf(leaf) => seq![leaf.view_id],
        LayoutTreeNode::Split(split) => leaf_views_of(split.children@),
    }
}

/// The views of the leaves of a row of nodes, in order.
pub open spec fn leaf_views_of(nodes: Seq<LayoutTreeNode>) -> Seq<ViewId>
    decreases nodes,
{
    if nodes.len() == 0 {
        Seq::empty()
    } else {
        leaf_views_of(nodes.subrange(0, nodes.len() - 1)) + leaf_views(nodes[nodes.len() - 1])
    }
}

/// Collects the views of the leaves it is handed.
struct ViewCollector {
    views: Vec<ViewId>,
}

impl LayoutTreeVisitor for ViewCollector {
    type State = Seq<ViewId>;

    closed spec fn state(&self) -> Seq<ViewId> {
        self.views@
    }

    closed spec fn after_split(s: Seq<ViewId>, split: SplitView) -> Seq<ViewId> {
        s
    }

    closed spec fn after_leaf(s: Seq<ViewId>, leaf: LeafView) -> Seq<ViewId> {
        s.push(leaf.view_id)
    }

    fn visit_split(&mut self, split: &SplitView) {
    }

    fn visit_leaf(&mut self, leaf: &LeafView) {
        self.views.push(leaf.view_id);
    }
}

/// What a collector holding `s` holds once it walked `node`: the views of
/// its leaves after `s`.
proof fn lemma_collect(s: Seq<ViewId>, node: LayoutTreeNode)
    ensures
        walk::<ViewCollector>(s, node) == s + leaf_views(node),
    decreases node, 1int,
{
    match node {
        LayoutTreeNode::Leaf(leaf) => {
            assert(s.push(leaf.view_id) == s + seq![leaf.view_id]);
        },
        LayoutTreeNode::Split(split) => {
            lemma_collect_all(s, split.children@);
        },
    }
}

/// What a collector holding `s` holds once it walked `nodes`.
proof fn lemma_collect_all(s: Seq<ViewId>, nodes: Seq<LayoutTreeNode>)
    ensures
        walk_all::<ViewCollector>(s, nodes) == s + leaf_views_of(nodes),
    decreases nodes, 0int,
{
    if nodes.len() == 0 {
        assert(s + Seq::<ViewId>::empty() == s);
    } else {
        let k = nodes.len() - 1;
        lemma_collect_all(s, nodes.subrange(0, k));
        lemma_collect(s + leaf_views_of(nodes.subrange(0, k)), nodes[k]);
        assert(s + leaf_views_of(nodes.subrange(0, k)) + leaf_views(nodes[k]) == s + (
        leaf_views_of(nodes.subrange(0, k)) + leaf_views(nodes[k])));
    }
}

/// The views, the layout of those on screen, and the active one.
#[derive(Debug)]
pub struct ViewManager {
    next_view_id: ViewId,
    views: BTreeMap<u64, View>,
    layout: LayoutTreeNode,
    active_view: ViewId,
}

impl ViewManager {
    /// The views by number.
    pub closed spec fn spec_views(&self) -> Map<u64, View> {
        self.views@
    }

    /// The layout of the views on screen.
    pub closed spec fn spec_layout(&self) -> LayoutTreeNode {
        self.layout
    }

    /// The active view.
    pub closed spec fn spec_active_view(&self) -> ViewId {
        self.active_view
    }

    /// The id the next view gets.
    pub closed spec fn spec_next_view_id(&self) -> ViewId {
        self.next_view_id
    }

    /// The active view and every view on screen exist.
    pub open spec fn wf(&self) -> bool {
        &&& self.spec_views().contains_key(self.spec_active_view().id())
        &&& forall|j: int|
            0 <= j < leaf_views(self.spec_layout()).len() ==> self.spec_views().contains_key(
                #[trigger] leaf_views(self.spec_layout())[j].id(),
            )
    }

    #[verifier::type_invariant]
    closed spec fn inv(&self) -> bool {
        self.wf()
    }

    /// One view, numbered 0, of `initial_buffer`, over all of `size`, and
    /// active.
    pub fn new(initial_buffer: BufferId, size: Size) -> (m: Self)
        ensures
            m.wf(),
            m.spec_views().dom() == set![0u64],
            m.spec_views()[0].id.id() == 0,
            m.spec_views()[0].buffer_id == initial_buffer,
            m.spec_views()[0].scroll_offset == (Point::<usize> { x: 0, y: 0 }),
            m.spec_views()[0].cursors@ == seq![Point::<usize> { x: 0, y: 0 }],
            m.spec_layout() is Leaf,
            m.spec_layout()->Leaf_0.view_id.id() == 0,
            m.spec_layout()->Leaf_0.rect == (Rect { x: 0, y: 0, width: size.width, height: size.height }),
            m.spec_active_view().id() == 0,
            m.spec_next_view_id().id() == 1,
    {
        let mut views = BTreeMap::new();
        let view_id = ViewId::new(0);
        let view = View::new(view_id, initial_buffer);
        let _ = views.insert(view_id.get(), view);
        let rect: Rect = Rect::from(size);
        let m = Self {
            views,
            next_view_id: ViewId::new(1),
            layout: LayoutTreeNode::Leaf(LeafView { view_id, rect }),
            active_view: view_id,
        };
        assert(m.views@.dom() =~= set![0u64]);
        assert(leaf_views(m.layout) == seq![view_id]);
        m
    }

    /// The layout of the views.
    pub fn layout(&self) -> (r: &LayoutTreeNode)
        ensures
            *r == self.spec_layout(),
    {
        &self.layout
    }

    /// The views on screen, in layout order.
    pub fn get_visible(&self) -> (r: Vec<&View>)
        ensures
            self.wf(),
            r@.len() == leaf_views(self.spec_layout()).len(),
            forall|i: int|
                0 <= i < r@.len() ==> *r@[i] == self.spec_views()[leaf_views(
                    self.spec_layout(),
                )[i].id()],
    {
        proof {
            use_type_invariant(self);
        }
        let mut collector = ViewCollector { views: Vec::new() };
        self.layout.accept(&mut collector);
        proof {
            lemma_collect(Seq::empty(), self.layout);
            assert(Seq::<ViewId>::empty() + leaf_views(self.layout) == leaf_views(self.layout));
        }
        let ids = collector.views;
        let ghost lv = leaf_views(self.layout);
        let mut visible: Vec<&View> = Vec::new();
        let mut i: usize = 0;
        while i < ids.len()
            invariant
                ids@ == lv,
                lv == leaf_views(self.spec_layout()),
                self.wf(),
                i <= ids@.len(),
                visible@.len() == i,
                forall|k: int|
                    0 <= k < i ==> *visible@[k] == self.spec_views()[lv[k].id()],
            decreases ids@.len() - i,
        {
            let key = ids[i].get();
            assert(self.views@.contains_key(lv[i as int].id()));
            visible.push(self.views.get(&key).unwrap());
            i += 1;
        }
        visible
    }

    /// The active view.
    pub fn get_active_view(&self) -> (r: &View)
        ensures
            self.wf(),
            *r == self.spec_views()[self.spec_active_view().id()],
    {
        proof {
            use_type_invariant(self);
        }
        self.views.get(&self.active_view.get()).unwrap()
    }

    /// The active view, for changing it.
    pub fn get_mut_active_view(&mut self) -> (r: &mut View)
        ensures
            old(self).wf(),
            *r == old(self).spec_views()[old(self).spec_active_view().id()],
            final(self).spec_views() == old(self).spec_views().insert(
                old(self).spec_active_view().id(),
                *final(r),
            ),
            final(self).spec_layout() == old(self).spec_layout(),
            final(self).spec_active_view() == old(self).spec_active_view(),
            final(self).spec_next_view_id() == old(self).spec_next_view_id(),
            final(self).wf(),
    {
        proof {
            use_type_invariant(&*self);
        }
        let key = self.active_view.get();
        btree_get_mut(&mut self.views, &key).unwrap()
    }
}

} // verus!
