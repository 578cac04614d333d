use vstd::prelude::*;
use crate::math::{Axis, Xy};
use crate::nodes::TextI;

verus! {

/// The kind of a node's size. The amounts that sizes carry (pixels,
/// fractions, ratios) are only read when sizes are solved; which sizes wait on
/// which others depends on the kinds alone.
#[derive(Debug, Clone, Copy, PartialEq, Eq, Structural, Hash)]
pub enum SizeKind {
    Pixels,
    Frac,
    Fill,
    FitContent,
    AspectRatio,
}

/// One of the sizes the layout solver computes for each node and axis.
#[derive(Debug, Clone, Copy, PartialEq, Eq, Structural, Hash)]
pub enum SizeType {
    Regular,
    Min,
    Max,
    Final,
    EvenShareForFillChildren,
    GridCells,
}

/// One size of one node along one axis: a vertex of the layout graph.
#[derive(Debug, Clone, Copy, PartialEq, Eq, Structural, Hash)]
pub struct GraphElement {
    pub node: usize,
    pub axis: Axis,
    pub size_type: SizeType,
}

/// An edge of the layout graph: `dependent` can only be solved once
/// `depends_on` is.
#[derive(Debug, Clone, Copy, PartialEq, Eq, Structural)]
pub struct LayoutDependency {
    pub dependent: GraphElement,
    pub depends_on: GraphElement,
}

/// A value for each of the three sizes a node declares: regular, min and max.
#[derive(Debug, Clone, Copy, PartialEq, Eq, Structural)]
pub struct DeclaredSizes<T> {
    pub regular: T,
    pub min: T,
    pub max: T,
}

impl<T> DeclaredSizes<T> {
    /// The value for a declared size type (regular for the others).
    pub open spec fn at(self, st: SizeType) -> T {
        match st {
            SizeType::Min => self.min,
            SizeType::Max => self.max,
            _ => self.regular,
        }
    }
}

impl<T: Copy> DeclaredSizes<T> {
    pub fn get(&self, st: SizeType) -> (r: T)
        ensures
            r == self.at(st),
    {
        match st {
            SizeType::Min => self.min,
            SizeType::Max => self.max,
            _ => self.regular,
        }
    }
}

/// How a node lays out its children, by kind.
#[derive(Debug, Clone, Copy, PartialEq, Eq, Structural)]
pub enum ChildrenLayoutKind {
    Free,
    Stack { axis: Axis },
    /// `width_columns`: cells have a target width (rather than a count) along
    /// the main axis.
    Grid { width_columns: bool, main_axis: Axis },
}

/// What the layout graph reads of a node.
#[derive(Debug, Clone)]
pub struct LayoutNode {
    pub size: Xy<SizeKind>,
    pub min_size: Xy<Option<SizeKind>>,
    pub max_size: Xy<Option<SizeKind>>,
    pub children_layout: ChildrenLayoutKind,
    pub free_placement: bool,
    pub text_i: Option<TextI>,
    pub has_image: bool,
    pub parent: usize,
    pub children: Vec<usize>,
    pub depth: usize,
    /// Set on a `FitContent` axis that has nothing to size it and so fills
    /// its parent instead.
    pub fitcontent_that_acts_as_fill: Xy<bool>,
}

/// Information about a parent node that its children need to push their
/// dependencies.
#[derive(Debug, Clone, Copy)]
pub struct ParentNodeInfo {
    pub node: usize,
    /// Whether the parent's regular size is `FitContent`.
    pub regular_is_fitcontent: Xy<bool>,
    /// Whether each declared size of the parent is sized from its content.
    pub fitcontent_sizes: Xy<DeclaredSizes<bool>>,
    pub stack_axis: Option<Axis>,
    /// The main axis of the children's grid flow, if they are in a grid.
    pub grid_main_axis: Option<Axis>,
    pub has_sized_children: Xy<bool>,
    pub has_fill_children: Xy<bool>,
}

/// The nodes of a layout and the dependencies pushed so far.
pub struct LayoutGraph {
    pub nodes: Vec<LayoutNode>,
    pub dependencies: Vec<LayoutDependency>,
}

pub open spec fn other_axis(a: Axis) -> Axis {
    match a {
        Axis::X => Axis::Y,
        Axis::Y => Axis::X,
    }
}

/// The size a node declares of a type: regular, min or max.
pub open spec fn declared_size_spec(n: LayoutNode, axis: Axis, st: SizeType) -> Option<SizeKind> {
    match st {
        SizeType::Min => n.min_size.at(axis),
        SizeType::Max => n.max_size.at(axis),
        SizeType::Regular => Some(n.size.at(axis)),
        _ => None,
    }
}

pub open spec fn grid_main_axis_spec(n: LayoutNode) -> Option<Axis> {
    match n.children_layout {
        ChildrenLayoutKind::Grid { main_axis, .. } => Some(main_axis),
        _ => None,
    }
}

/// A `FitContent` bound on the main axis of a grid of cells of a target
/// width, whose size cannot be told from its content.
pub open spec fn is_underdetermined_grid_bound_spec(n: LayoutNode, axis: Axis, st: SizeType) -> bool {
    &&& declared_size_spec(n, axis, st) == Some(SizeKind::FitContent)
    &&& n.children_layout matches ChildrenLayoutKind::Grid { width_columns, main_axis }
    &&& width_columns
    &&& axis == main_axis
    &&& n.fitcontent_that_acts_as_fill.at(axis)
}

/// A `Fill` min or max bound along the main axis of a `FitContent` stack,
/// which has nothing to fill.
pub open spec fn is_phantom_fill_bound_spec(nodes: Seq<LayoutNode>, i: int, axis: Axis, st: SizeType) -> bool {
    let n = nodes[i];
    let p = nodes[n.parent as int];
    &&& (st == SizeType::Min || st == SizeType::Max)
    &&& declared_size_spec(n, axis, st) == Some(SizeKind::Fill)
    &&& !n.free_placement
    &&& p.children_layout == (ChildrenLayoutKind::Stack { axis })
    &&& p.size.at(axis) == SizeKind::FitContent
}

/// A bound that is ignored: a phantom `Fill` bound or an underdetermined grid bound.
pub open spec fn has_valid_bound_spec(nodes: Seq<LayoutNode>, i: int, axis: Axis, st: SizeType) -> bool {
    is_phantom_fill_bound_spec(nodes, i, axis, st) || is_underdetermined_grid_bound_spec(nodes[i], axis, st)
}

/// Whether the node has a min (or max) bound that takes part in layout.
pub open spec fn has_bound_spec(nodes: Seq<LayoutNode>, i: int, axis: Axis, st: SizeType) -> bool {
    declared_size_spec(nodes[i], axis, st) is Some && !has_valid_bound_spec(nodes, i, axis, st)
}

/// Where the regular size is kept: in `Final` when no bound clamps it.
pub open spec fn regular_slot_spec(nodes: Seq<LayoutNode>, i: int, axis: Axis) -> SizeType {
    if !has_bound_spec(nodes, i, axis, SizeType::Min) && !has_bound_spec(nodes, i, axis, SizeType::Max) {
        SizeType::Final
    } else {
        SizeType::Regular
    }
}

/// The slot of a declared size type.
pub open spec fn slot_spec(nodes: Seq<LayoutNode>, i: int, axis: Axis, st: SizeType) -> SizeType {
    if st == SizeType::Regular { regular_slot_spec(nodes, i, axis) } else { st }
}

pub open spec fn size_type_exists_spec(nodes: Seq<LayoutNode>, i: int, axis: Axis, st: SizeType) -> bool {
    match st {
        SizeType::Final => true,
        SizeType::Regular => regular_slot_spec(nodes, i, axis) == SizeType::Regular,
        SizeType::Min => has_bound_spec(nodes, i, axis, SizeType::Min),
        SizeType::Max => has_bound_spec(nodes, i, axis, SizeType::Max),
        SizeType::EvenShareForFillChildren => false,
        SizeType::GridCells => grid_main_axis_spec(nodes[i]) == Some(axis),
    }
}

/// The regular size, with a collapsed `FitContent` acting as `Fill`.
pub open spec fn effective_size_spec(n: LayoutNode, axis: Axis) -> SizeKind {
    if n.fitcontent_that_acts_as_fill.at(axis) { SizeKind::Fill } else { n.size.at(axis) }
}

pub open spec fn has_even_share_spec(p: ParentNodeInfo, axis: Axis) -> bool {
    p.stack_axis == Some(axis) && p.has_fill_children.at(axis) && !p.regular_is_fitcontent.at(axis)
}

pub open spec fn any_size_is_fill_spec(n: LayoutNode, axis: Axis) -> bool {
    ||| declared_size_spec(n, axis, SizeType::Regular) == Some(SizeKind::Fill)
    ||| declared_size_spec(n, axis, SizeType::Min) == Some(SizeKind::Fill)
    ||| declared_size_spec(n, axis, SizeType::Max) == Some(SizeKind::Fill)
}

pub open spec fn text_wraps_from_width_spec(n: LayoutNode, size: SizeKind) -> bool {
    &&& n.text_i matches Some(TextI::TextBox(_))
    &&& size == SizeKind::FitContent
    &&& n.size.x != SizeKind::AspectRatio
}

pub open spec fn min_is_hard(n: LayoutNode, axis: Axis) -> bool {
    n.min_size.at(axis) == Some(SizeKind::Pixels) || n.min_size.at(axis) == Some(SizeKind::FitContent)
}

pub open spec fn child_can_size_parent_spec(n: LayoutNode, axis: Axis) -> bool {
    if n.free_placement {
        false
    } else {
        match effective_size_spec(n, axis) {
            SizeKind::Fill | SizeKind::Frac => min_is_hard(n, axis),
            _ => true,
        }
    }
}

/// Whether a child has a size of its own (`hard`) and whether it wants a
/// share of its parent (`flex`) along an axis.
pub open spec fn child_hard_flex_spec(n: LayoutNode, axis: Axis) -> (bool, bool)
    decreases (if n.size.at(axis) == SizeKind::AspectRatio { 1nat } else { 0nat }),
{
    let max_flex = n.max_size.at(axis) == Some(SizeKind::Fill);
    let base = match effective_size_spec(n, axis) {
        SizeKind::Pixels => (true, false),
        SizeKind::AspectRatio => if n.size.at(other_axis(axis)) == SizeKind::AspectRatio {
            (true, false)
        } else {
            child_hard_flex_spec(n, other_axis(axis))
        },
        SizeKind::FitContent => (!max_flex, false),
        SizeKind::Fill | SizeKind::Frac => (false, true),
    };
    (min_is_hard(n, axis) || base.0, max_flex || base.1)
}

/// Every node's parent and children are nodes, and children are one level
/// deeper than their parent.
pub open spec fn nodes_wf(nodes: Seq<LayoutNode>) -> bool {
    &&& forall|k: int| 0 <= k < nodes.len() ==> (#[trigger] nodes[k]).parent < nodes.len()
    &&& forall|k: int, j: int| 0 <= k < nodes.len() && 0 <= j < nodes[k].children@.len()
            ==> (#[trigger] nodes[k].children@[j]) < nodes.len()
                && nodes[nodes[k].children@[j] as int].depth == nodes[k].depth + 1
}

pub open spec fn ge(node: int, axis: Axis, st: SizeType) -> GraphElement {
    GraphElement { node: node as usize, axis, size_type: st }
}

pub open spec fn dep(dependent: GraphElement, depends_on: GraphElement) -> LayoutDependency {
    LayoutDependency { dependent, depends_on }
}

/// One dependency if `c` holds, none otherwise.
pub open spec fn opt(c: bool, d: LayoutDependency) -> Seq<LayoutDependency> {
    if c { seq![d] } else { Seq::empty() }
}

pub open spec fn fitcontent_flags_spec(n: LayoutNode, axis: Axis) -> DeclaredSizes<bool> {
    DeclaredSizes {
        regular: effective_size_spec(n, axis) == SizeKind::FitContent,
        min: n.min_size.at(axis) == Some(SizeKind::FitContent),
        max: n.max_size.at(axis) == Some(SizeKind::FitContent),
    }
}

pub open spec fn has_sized_children_spec(nodes: Seq<LayoutNode>, i: int, axis: Axis) -> bool {
    let n = nodes[i];
    ||| n.text_i is Some
    ||| n.has_image
    ||| exists|j: int| 0 <= j < n.children@.len() && child_can_size_parent_spec(nodes[#[trigger] n.children@[j] as int], axis)
}

pub open spec fn has_fill_children_spec(nodes: Seq<LayoutNode>, i: int, axis: Axis) -> bool {
    let n = nodes[i];
    exists|j: int| 0 <= j < n.children@.len() && {
        let c = nodes[#[trigger] n.children@[j] as int];
        !c.free_placement && any_size_is_fill_spec(c, axis)
    }
}

/// What the children of node `i` learn about it.
pub open spec fn parent_info_spec(nodes: Seq<LayoutNode>, i: int) -> ParentNodeInfo {
    let n = nodes[i];
    ParentNodeInfo {
        node: i as usize,
        regular_is_fitcontent: Xy {
            x: effective_size_spec(n, Axis::X) == SizeKind::FitContent,
            y: effective_size_spec(n, Axis::Y) == SizeKind::FitContent,
        },
        fitcontent_sizes: Xy { x: fitcontent_flags_spec(n, Axis::X), y: fitcontent_flags_spec(n, Axis::Y) },
        stack_axis: match n.children_layout {
            ChildrenLayoutKind::Stack { axis } => Some(axis),
            _ => None,
        },
        grid_main_axis: grid_main_axis_spec(n),
        has_sized_children: Xy { x: has_sized_children_spec(nodes, i, Axis::X), y: has_sized_children_spec(nodes, i, Axis::Y) },
        has_fill_children: Xy { x: has_fill_children_spec(nodes, i, Axis::X), y: has_fill_children_spec(nodes, i, Axis::Y) },
    }
}

/// The grid cells of a node wait on each of its `FitContent` sizes along `axis`.
#[verifier::opaque]
pub open spec fn grid_fit_deps(nodes: Seq<LayoutNode>, i: int, info: ParentNodeInfo, axis: Axis, cells: GraphElement) -> Seq<LayoutDependency> {
    let f = info.fitcontent_sizes.at(axis);
    opt(f.regular, dep(ge(i, axis, regular_slot_spec(nodes, i, axis)), cells))
        + opt(f.min, dep(ge(i, axis, SizeType::Min), cells))
        + opt(f.max, dep(ge(i, axis, SizeType::Max), cells))
}

/// The dependencies a parent pushes among its own sizes.
pub open spec fn parent_deps_spec(nodes: Seq<LayoutNode>, i: int, info: ParentNodeInfo) -> Seq<LayoutDependency> {
    let even = |axis: Axis| opt(has_even_share_spec(info, axis), dep(ge(i, axis, SizeType::EvenShareForFillChildren), ge(i, axis, SizeType::Final)));
    even(Axis::X) + even(Axis::Y) + match info.grid_main_axis {
        None => Seq::empty(),
        Some(main) => {
            let cells = ge(i, main, SizeType::GridCells);
            opt(nodes[i].children_layout matches ChildrenLayoutKind::Grid { width_columns, .. } && width_columns, dep(cells, ge(i, main, SizeType::Final)))
                + grid_fit_deps(nodes, i, info, Axis::X, cells)
                + grid_fit_deps(nodes, i, info, Axis::Y, cells)
        },
    }
}

/// A node's final size waits on each of its sizes that takes part in layout.
pub open spec fn own_bound_dep(nodes: Seq<LayoutNode>, i: int, axis: Axis, st: SizeType) -> Seq<LayoutDependency> {
    opt(
        declared_size_spec(nodes[i], axis, st) is Some && size_type_exists_spec(nodes, i, axis, st),
        dep(ge(i, axis, SizeType::Final), ge(i, axis, st)),
    )
}

#[verifier::opaque]
pub open spec fn own_bound_deps(nodes: Seq<LayoutNode>, i: int, axis: Axis) -> Seq<LayoutDependency> {
    own_bound_dep(nodes, i, axis, SizeType::Regular) + own_bound_dep(nodes, i, axis, SizeType::Min)
        + own_bound_dep(nodes, i, axis, SizeType::Max)
}

/// Along the main axis of its stack, a node is not placed freely.
pub open spec fn stack_main_spec(n: LayoutNode, p: ParentNodeInfo, axis: Axis) -> bool {
    p.stack_axis == Some(axis) && !n.free_placement
}

/// The parent's even share for `Fill` children waits on each non-`Fill` size of the child.
#[verifier::opaque]
pub open spec fn even_share_dep(nodes: Seq<LayoutNode>, i: int, p: ParentNodeInfo, axis: Axis, st: SizeType) -> Seq<LayoutDependency> {
    let d = declared_size_spec(nodes[i], axis, st);
    opt(
        d is Some && d != Some(SizeKind::Fill),
        dep(ge(p.node as int, axis, SizeType::EvenShareForFillChildren), ge(i, axis, slot_spec(nodes, i, axis, st))),
    )
}

#[verifier::opaque]
pub open spec fn even_share_deps(nodes: Seq<LayoutNode>, i: int, p: ParentNodeInfo, axis: Axis) -> Seq<LayoutDependency> {
    if stack_main_spec(nodes[i], p, axis) && has_even_share_spec(p, axis) {
        even_share_dep(nodes, i, p, axis, SizeType::Regular) + even_share_dep(nodes, i, p, axis, SizeType::Min)
            + even_share_dep(nodes, i, p, axis, SizeType::Max)
    } else {
        Seq::empty()
    }
}

/// The size of a child of each declared type, as seen by its `FitContent` parent.
pub open spec fn child_size_spec(n: LayoutNode, axis: Axis, st: SizeType) -> SizeKind {
    if st == SizeType::Regular {
        effective_size_spec(n, axis)
    } else {
        match declared_size_spec(n, axis, st) {
            Some(s) => s,
            None => SizeKind::Fill,
        }
    }
}

/// Each `FitContent` size of the parent waits on the child's size of type `cst`.
#[verifier::opaque]
pub open spec fn fit_parent_deps(nodes: Seq<LayoutNode>, i: int, p: ParentNodeInfo, axis: Axis, cst: SizeType) -> Seq<LayoutDependency> {
    let cs = child_size_spec(nodes[i], axis, cst);
    if cs == SizeKind::Fill || cs == SizeKind::Frac {
        Seq::empty()
    } else {
        let child = ge(i, axis, slot_spec(nodes, i, axis, cst));
        let f = p.fitcontent_sizes.at(axis);
        let pn = p.node as int;
        opt(f.regular, dep(ge(pn, axis, regular_slot_spec(nodes, pn, axis)), child))
            + opt(f.min, dep(ge(pn, axis, SizeType::Min), child))
            + opt(f.max, dep(ge(pn, axis, SizeType::Max), child))
    }
}

#[verifier::opaque]
pub open spec fn fit_deps(nodes: Seq<LayoutNode>, i: int, p: ParentNodeInfo, axis: Axis) -> Seq<LayoutDependency> {
    if nodes[i].free_placement {
        Seq::empty()
    } else {
        fit_parent_deps(nodes, i, p, axis, SizeType::Regular) + fit_parent_deps(nodes, i, p, axis, SizeType::Min)
            + fit_parent_deps(nodes, i, p, axis, SizeType::Max)
    }
}

/// Whether a `Fill` or `Frac` size of a child is taken from its parent.
pub open spec fn depends_on_parent_spec(n: LayoutNode, p: ParentNodeInfo, axis: Axis, s: SizeKind) -> bool {
    &&& (s == SizeKind::Fill || s == SizeKind::Frac)
    &&& (!p.regular_is_fitcontent.at(axis)
        || (p.has_sized_children.at(axis) && (!stack_main_spec(n, p, axis) || s == SizeKind::Frac)))
}

/// The dependencies of one size of a child: on its other axis (wrapped text,
/// aspect ratio), on its parent (`Fill`, `Frac`) and on the parent's grid cells.
pub open spec fn size_deps_of(nodes: Seq<LayoutNode>, i: int, p: ParentNodeInfo, axis: Axis, st: SizeType, s: SizeKind) -> Seq<LayoutDependency> {
    let n = nodes[i];
    let me = ge(i, axis, slot_spec(nodes, i, axis, st));
    let on_other_axis = (axis == Axis::Y && text_wraps_from_width_spec(n, s))
        || (s == SizeKind::AspectRatio && n.size.at(other_axis(axis)) != SizeKind::AspectRatio);
    let through_share = stack_main_spec(n, p, axis) && has_even_share_spec(p, axis) && s == SizeKind::Fill;
    let fill_or_frac = s == SizeKind::Fill || s == SizeKind::Frac;
    opt(on_other_axis, dep(me, ge(i, other_axis(axis), SizeType::Final)))
        + opt(depends_on_parent_spec(n, p, axis, s), dep(me, ge(p.node as int,
            axis, if through_share { SizeType::EvenShareForFillChildren } else { SizeType::Final })))
        + match p.grid_main_axis {
            Some(main) => opt(fill_or_frac && !n.free_placement, dep(me, ge(p.node as int, main, SizeType::GridCells))),
            None => Seq::empty(),
        }
}

#[verifier::opaque]
pub open spec fn size_dep(nodes: Seq<LayoutNode>, i: int, p: ParentNodeInfo, axis: Axis, st: SizeType) -> Seq<LayoutDependency> {
    let size = if st == SizeType::Regular { Some(effective_size_spec(nodes[i], axis)) } else { declared_size_spec(nodes[i], axis, st) };
    match size {
        None => Seq::empty(),
        Some(s) => if is_phantom_fill_bound_spec(nodes, i, axis, st) { Seq::empty() } else { size_deps_of(nodes, i, p, axis, st, s) },
    }
}

#[verifier::opaque]
pub open spec fn size_deps(nodes: Seq<LayoutNode>, i: int, p: ParentNodeInfo, axis: Axis) -> Seq<LayoutDependency> {
    size_dep(nodes, i, p, axis, SizeType::Regular) + size_dep(nodes, i, p, axis, SizeType::Min)
        + size_dep(nodes, i, p, axis, SizeType::Max)
}

/// The dependencies of node `i`, a child of the node that `p` describes.
pub open spec fn node_deps_spec(nodes: Seq<LayoutNode>, i: int, p: ParentNodeInfo) -> Seq<LayoutDependency> {
    own_bound_deps(nodes, i, Axis::X) + own_bound_deps(nodes, i, Axis::Y)
        + even_share_deps(nodes, i, p, Axis::X) + fit_deps(nodes, i, p, Axis::X) + size_deps(nodes, i, p, Axis::X)
        + even_share_deps(nodes, i, p, Axis::Y) + fit_deps(nodes, i, p, Axis::Y) + size_deps(nodes, i, p, Axis::Y)
}

/// Whether some child placed by the node has a size of its own along `axis`
/// (`hard`), and whether some wants a share of the node (`flex`).
pub open spec fn children_hard_spec(nodes: Seq<LayoutNode>, i: int, axis: Axis) -> bool {
    exists|j: int| 0 <= j < nodes[i].children@.len() && {
        let c = nodes[#[trigger] nodes[i].children@[j] as int];
        !c.free_placement && child_hard_flex_spec(c, axis).0
    }
}

pub open spec fn children_flex_spec(nodes: Seq<LayoutNode>, i: int, axis: Axis) -> bool {
    exists|j: int| 0 <= j < nodes[i].children@.len() && {
        let c = nodes[#[trigger] nodes[i].children@[j] as int];
        !c.free_placement && child_hard_flex_spec(c, axis).1
    }
}

/// Whether a `FitContent` axis of node `i` collapses to acting as `Fill`: it
/// has no content of its own and either is the main axis of a grid of cells of
/// a target width, or no child sizes it while some child wants to fill it.
pub open spec fn acts_as_fill_spec(nodes: Seq<LayoutNode>, i: int, axis: Axis) -> bool {
    let n = nodes[i];
    if n.size.at(axis) != SizeKind::FitContent || n.text_i is Some || n.has_image {
        false
    } else if n.children_layout matches ChildrenLayoutKind::Grid { width_columns, main_axis } && width_columns && axis == main_axis {
        true
    } else {
        !children_hard_spec(nodes, i, axis) && children_flex_spec(nodes, i, axis)
    }
}

/// Two versions of a node that differ at most in their collapse flags.
pub open spec fn same_but_flags(a: LayoutNode, b: LayoutNode) -> bool {
    &&& a.size == b.size
    &&& a.min_size == b.min_size
    &&& a.max_size == b.max_size
    &&& a.children_layout == b.children_layout
    &&& a.free_placement == b.free_placement
    &&& a.text_i == b.text_i
    &&& a.has_image == b.has_image
    &&& a.parent == b.parent
    &&& a.children@ == b.children@
    &&& a.depth == b.depth
}

/// The parent and depth of every node: what subtree membership reads.
pub open spec fn shape_of(nodes: Seq<LayoutNode>) -> Seq<(usize, usize)> {
    nodes.map_values(|n: LayoutNode| (n.parent, n.depth))
}

/// The node `n` levels above `k`, following parents.
pub open spec fn ancestor_at(sh: Seq<(usize, usize)>, k: int, n: nat) -> int
    decreases n,
{
    if n == 0 { k } else { ancestor_at(sh, sh[k].0 as int, (n - 1) as nat) }
}

/// Node `k` is `a` or lies below it.
pub open spec fn in_subtree(sh: Seq<(usize, usize)>, a: int, k: int) -> bool {
    &&& 0 <= k < sh.len()
    &&& sh[a].1 <= sh[k].1
    &&& ancestor_at(sh, k, (sh[k].1 - sh[a].1) as nat) == a
}

/// The links of node `k` in a proper tree: its children name it as their
/// parent and appear once each; below the top, it is one level deeper than
/// its parent and listed among the parent's children.
pub open spec fn node_links_ok(nodes: Seq<LayoutNode>, k: int) -> bool {
    let n = nodes[k];
    &&& forall|j: int| 0 <= j < n.children@.len() ==> nodes[#[trigger] n.children@[j] as int].parent == k
    &&& forall|j1: int, j2: int| 0 <= j1 < j2 < n.children@.len() ==> #[trigger] n.children@[j1] != #[trigger] n.children@[j2]
    &&& n.depth > 0 ==> {
        &&& nodes[n.parent as int].depth + 1 == n.depth
        &&& nodes[n.parent as int].children@.contains(k as usize)
    }
}

/// A proper tree of layout nodes.
pub open spec fn tree_ok(nodes: Seq<LayoutNode>) -> bool {
    &&& nodes.len() <= usize::MAX
    &&& nodes_wf(nodes)
    &&& forall|k: int| 0 <= k < nodes.len() ==> #[trigger] node_links_ok(nodes, k)
}

/// The collapse flags of node `k` agree with its children as they are.
pub open spec fn collapsed_at(nodes: Seq<LayoutNode>, k: int) -> bool {
    nodes[k].fitcontent_that_acts_as_fill == (Xy { x: acts_as_fill_spec(nodes, k, Axis::X), y: acts_as_fill_spec(nodes, k, Axis::Y) })
}

proof fn lemma_ancestor_valid(nodes: Seq<LayoutNode>, k: int, n: nat)
    requires
        tree_ok(nodes),
        0 <= k < nodes.len(),
        n <= nodes[k].depth,
    ensures
        0 <= ancestor_at(shape_of(nodes), k, n) < nodes.len(),
        nodes[ancestor_at(shape_of(nodes), k, n)].depth == nodes[k].depth - n,
    decreases n,
{
    let sh = shape_of(nodes);
    if n > 0 {
        assert(node_links_ok(nodes, k));
        assert(nodes[k].parent < nodes.len());
        assert(sh[k].0 == nodes[k].parent);
        lemma_ancestor_valid(nodes, nodes[k].parent as int, (n - 1) as nat);
    }
}

proof fn lemma_ancestor_step(sh: Seq<(usize, usize)>, k: int, n: nat)
    ensures
        ancestor_at(sh, k, n + 1) == sh[ancestor_at(sh, k, n)].0 as int,
    decreases n,
{
    if n == 0 {
        assert(ancestor_at(sh, sh[k].0 as int, 0) == sh[k].0 as int);
    } else {
        lemma_ancestor_step(sh, sh[k].0 as int, (n - 1) as nat);
    }
}

/// The children of a node of a subtree are in it too.
proof fn lemma_child_in_subtree(nodes: Seq<LayoutNode>, a: int, m: int, j: int)
    requires
        tree_ok(nodes),
        0 <= a < nodes.len(),
        in_subtree(shape_of(nodes), a, m),
        0 <= j < nodes[m].children@.len(),
    ensures
        in_subtree(shape_of(nodes), a, nodes[m].children@[j] as int),
{
    let sh = shape_of(nodes);
    let c = nodes[m].children@[j] as int;
    assert(node_links_ok(nodes, m));
    assert(nodes[c].parent == m);
    assert(nodes[c].depth == nodes[m].depth + 1);
    assert(sh[c] == (nodes[c].parent, nodes[c].depth));
    assert(sh[m] == (nodes[m].parent, nodes[m].depth));
    assert(sh[a] == (nodes[a].parent, nodes[a].depth));
    let n = (sh[m].1 - sh[a].1) as nat;
    assert((sh[c].1 - sh[a].1) as nat == n + 1);
    assert(ancestor_at(sh, c, n + 1) == ancestor_at(sh, m, n));
}

/// A node below `i` lies in the subtree of exactly one child of `i`.
proof fn lemma_subtree_split(nodes: Seq<LayoutNode>, i: int, m: int) -> (j: int)
    requires
        tree_ok(nodes),
        0 <= i < nodes.len(),
        in_subtree(shape_of(nodes), i, m),
        m != i,
    ensures
        0 <= j < nodes[i].children@.len(),
        in_subtree(shape_of(nodes), nodes[i].children@[j] as int, m),
{
    let sh = shape_of(nodes);
    assert(sh[m] == (nodes[m].parent, nodes[m].depth));
    assert(sh[i] == (nodes[i].parent, nodes[i].depth));
    let n = (nodes[m].depth - nodes[i].depth) as nat;
    assert(n > 0);
    let c = ancestor_at(sh, m, (n - 1) as nat);
    lemma_ancestor_valid(nodes, m, (n - 1) as nat);
    lemma_ancestor_step(sh, m, (n - 1) as nat);
    assert(sh[c] == (nodes[c].parent, nodes[c].depth));
    assert(nodes[c].depth > 0);
    assert(node_links_ok(nodes, c));
    assert(nodes[c].parent == i);
    assert(nodes[i].children@.contains(c as usize));
    let j = choose|j: int| 0 <= j < nodes[i].children@.len() && nodes[i].children@[j] == c as usize;
    assert(in_subtree(sh, c, m));
    j
}

/// The subtree of a child of `i` lies inside the subtree of `i`.
proof fn lemma_child_subtree_inside(nodes: Seq<LayoutNode>, i: int, j: int, m: int)
    requires
        tree_ok(nodes),
        0 <= i < nodes.len(),
        0 <= j < nodes[i].children@.len(),
        in_subtree(shape_of(nodes), nodes[i].children@[j] as int, m),
    ensures
        in_subtree(shape_of(nodes), i, m),
        m != i,
{
    let sh = shape_of(nodes);
    let c = nodes[i].children@[j] as int;
    assert(node_links_ok(nodes, i));
    assert(nodes[c].parent == i);
    assert(nodes[c].depth == nodes[i].depth + 1);
    assert(sh[c] == (nodes[c].parent, nodes[c].depth));
    assert(sh[i] == (nodes[i].parent, nodes[i].depth));
    assert(sh[m] == (nodes[m].parent, nodes[m].depth));
    let n = (sh[m].1 - sh[c].1) as nat;
    lemma_ancestor_step(sh, m, n);
    assert((sh[m].1 - sh[i].1) as nat == n + 1);
}

/// The subtrees of two different children of a node do not meet.
proof fn lemma_sibling_subtrees_disjoint(nodes: Seq<LayoutNode>, i: int, j1: int, j2: int, m: int)
    requires
        tree_ok(nodes),
        0 <= i < nodes.len(),
        0 <= j1 < nodes[i].children@.len(),
        0 <= j2 < nodes[i].children@.len(),
        j1 != j2,
        in_subtree(shape_of(nodes), nodes[i].children@[j1] as int, m),
    ensures
        !in_subtree(shape_of(nodes), nodes[i].children@[j2] as int, m),
{
    let sh = shape_of(nodes);
    let c1 = nodes[i].children@[j1] as int;
    let c2 = nodes[i].children@[j2] as int;
    assert(node_links_ok(nodes, i));
    if j1 < j2 {
        assert(nodes[i].children@[j1] != nodes[i].children@[j2]);
    } else {
        assert(nodes[i].children@[j2] != nodes[i].children@[j1]);
    }
    assert(sh[c1] == (nodes[c1].parent, nodes[c1].depth));
    assert(sh[c2] == (nodes[c2].parent, nodes[c2].depth));
}

/// Whether `k` collapses depends only on its own fields and its children.
proof fn lemma_acts_as_fill_local(a: Seq<LayoutNode>, b: Seq<LayoutNode>, k: int, axis: Axis)
    requires
        same_but_flags(a[k], b[k]),
        forall|j: int| 0 <= j < a[k].children@.len() ==> a[#[trigger] a[k].children@[j] as int] == b[a[k].children@[j] as int],
    ensures
        acts_as_fill_spec(a, k, axis) == acts_as_fill_spec(b, k, axis),
{
    if children_hard_spec(a, k, axis) {
        let j = choose|j: int| 0 <= j < a[k].children@.len() && {
            let c = a[#[trigger] a[k].children@[j] as int];
            !c.free_placement && child_hard_flex_spec(c, axis).0
        };
        assert(b[b[k].children@[j] as int] == a[a[k].children@[j] as int]);
    }
    if children_hard_spec(b, k, axis) {
        let j = choose|j: int| 0 <= j < b[k].children@.len() && {
            let c = b[#[trigger] b[k].children@[j] as int];
            !c.free_placement && child_hard_flex_spec(c, axis).0
        };
        assert(b[b[k].children@[j] as int] == a[a[k].children@[j] as int]);
    }
    if children_flex_spec(a, k, axis) {
        let j = choose|j: int| 0 <= j < a[k].children@.len() && {
            let c = a[#[trigger] a[k].children@[j] as int];
            !c.free_placement && child_hard_flex_spec(c, axis).1
        };
        assert(b[b[k].children@[j] as int] == a[a[k].children@[j] as int]);
    }
    if children_flex_spec(b, k, axis) {
        let j = choose|j: int| 0 <= j < b[k].children@.len() && {
            let c = b[#[trigger] b[k].children@[j] as int];
            !c.free_placement && child_hard_flex_spec(c, axis).1
        };
        assert(b[b[k].children@[j] as int] == a[a[k].children@[j] as int]);
    }
}

/// Changing only collapse flags keeps a proper tree and its shape.
proof fn lemma_flags_keep_tree(a: Seq<LayoutNode>, b: Seq<LayoutNode>)
    requires
        tree_ok(a),
        a.len() == b.len(),
        forall|k: int| 0 <= k < a.len() ==> same_but_flags(#[trigger] b[k], a[k]),
    ensures
        tree_ok(b),
        shape_of(b) == shape_of(a),
{
    assert(shape_of(b) =~= shape_of(a)) by {
        assert forall|k: int| 0 <= k < b.len() implies shape_of(b)[k] == shape_of(a)[k] by {
            assert(same_but_flags(b[k], a[k]));
        }
    }
    assert forall|k: int| 0 <= k < b.len() implies (#[trigger] b[k]).parent < b.len() by {
        assert(same_but_flags(b[k], a[k]));
    }
    assert forall|k: int, j: int| 0 <= k < b.len() && 0 <= j < b[k].children@.len()
        implies (#[trigger] b[k].children@[j]) < b.len() && b[b[k].children@[j] as int].depth == b[k].depth + 1 by {
        assert(same_but_flags(b[k], a[k]));
        assert(a[k].children@[j] < a.len());
        assert(same_but_flags(b[b[k].children@[j] as int], a[a[k].children@[j] as int]));
    }
    assert forall|k: int| 0 <= k < b.len() implies #[trigger] node_links_ok(b, k) by {
        assert(same_but_flags(b[k], a[k]));
        assert(node_links_ok(a, k));
        assert forall|j: int| 0 <= j < b[k].children@.len() implies b[#[trigger] b[k].children@[j] as int].parent == k by {
            assert(a[a[k].children@[j] as int].parent == k);
            assert(same_but_flags(b[b[k].children@[j] as int], a[a[k].children@[j] as int]));
        }
        if b[k].depth > 0 {
            assert(same_but_flags(b[b[k].parent as int], a[a[k].parent as int]));
        }
    }
}

/// Node `m` lies in the subtree of one of the first `k` children of `i`.
pub open spec fn in_first_subtrees(nodes: Seq<LayoutNode>, i: int, k: int, m: int) -> bool {
    exists|j: int| 0 <= j < k && #[trigger] in_subtree(shape_of(nodes), nodes[i].children@[j] as int, m)
}

/// The dependencies pushed for the subtree of `i`, depth first: the node's
/// own parent dependencies, then for each child its dependencies as a child
/// of `i` followed by those of its subtree.
pub open spec fn subtree_deps(nodes: Seq<LayoutNode>, i: int) -> Seq<LayoutDependency>
    decreases usize::MAX - nodes[i].depth, nodes[i].children@.len() + 1,
        when tree_ok(nodes) && 0 <= i < nodes.len()
{
    parent_deps_spec(nodes, i, parent_info_spec(nodes, i)) + children_deps(nodes, i, 0)
}

/// The dependencies pushed for the children of `i` from the `j`-th on, with
/// their subtrees.
pub open spec fn children_deps(nodes: Seq<LayoutNode>, i: int, j: int) -> Seq<LayoutDependency>
    decreases usize::MAX - nodes[i].depth, nodes[i].children@.len() - j,
        when tree_ok(nodes) && 0 <= i < nodes.len() && 0 <= j
{
    if j >= nodes[i].children@.len() {
        Seq::empty()
    } else {
        let c = nodes[i].children@[j] as int;
        proof {
            assert(nodes[c].depth == nodes[i].depth + 1);
        }
        node_deps_spec(nodes, c, parent_info_spec(nodes, i)) + subtree_deps(nodes, c) + children_deps(nodes, i, j + 1)
    }
}

impl LayoutGraph {
    /// Every node's parent is a node.
    pub open spec fn wf(&self) -> bool {
        nodes_wf(self.nodes@)
    }

    pub fn declared_size(&self, i: usize, axis: Axis, st: SizeType) -> (r: Option<SizeKind>)
        requires
            i < self.nodes.len(),
        ensures
            r == declared_size_spec(self.nodes@[i as int], axis, st),
    {
        let n = &self.nodes[i];
        match st {
            SizeType::Min => n.min_size.get(axis),
            SizeType::Max => n.max_size.get(axis),
            SizeType::Regular => Some(n.size.get(axis)),
            SizeType::Final | SizeType::EvenShareForFillChildren | SizeType::GridCells => None,
        }
    }

    pub fn grid_main_axis(&self, i: usize) -> (r: Option<Axis>)
        requires
            i < self.nodes.len(),
        ensures
            r == grid_main_axis_spec(self.nodes@[i as int]),
    {
        match self.nodes[i].children_layout {
            ChildrenLayoutKind::Grid { main_axis, .. } => Some(main_axis),
            _ => None,
        }
    }

    pub fn is_underdetermined_grid_bound(&self, i: usize, axis: Axis, st: SizeType) -> (r: bool)
        requires
            i < self.nodes.len(),
        ensures
            r == is_underdetermined_grid_bound_spec(self.nodes@[i as int], axis, st),
    {
        match self.declared_size(i, axis, st) {
            Some(SizeKind::FitContent) => {}
            _ => { return false; }
        }
        match self.nodes[i].children_layout {
            ChildrenLayoutKind::Grid { width_columns: true, main_axis } => {
                axis == main_axis && self.nodes[i].fitcontent_that_acts_as_fill.get(axis)
            }
            _ => false,
        }
    }

    pub fn is_phantom_fill_bound(&self, i: usize, axis: Axis, st: SizeType) -> (r: bool)
        requires
            self.wf(),
            i < self.nodes.len(),
        ensures
            r == is_phantom_fill_bound_spec(self.nodes@, i as int, axis, st),
    {
        match st {
            SizeType::Min | SizeType::Max => {}
            _ => { return false; }
        }
        match self.declared_size(i, axis, st) {
            Some(SizeKind::Fill) => {}
            _ => { return false; }
        }
        if self.nodes[i].free_placement {
            return false;
        }
        let parent = self.nodes[i].parent;
        proof {
            assert(self.nodes@[i as int].parent < self.nodes.len());
        }
        let stack_main = match self.nodes[parent].children_layout {
            ChildrenLayoutKind::Stack { axis: a } => a == axis,
            _ => false,
        };
        stack_main && self.nodes[parent].size.get(axis) == SizeKind::FitContent
    }

    pub fn has_valid_bound(&self, i: usize, axis: Axis, st: SizeType) -> (r: bool)
        requires
            self.wf(),
            i < self.nodes.len(),
        ensures
            r == has_valid_bound_spec(self.nodes@, i as int, axis, st),
    {
        self.is_phantom_fill_bound(i, axis, st) || self.is_underdetermined_grid_bound(i, axis, st)
    }

    pub fn regular_slot(&self, i: usize, axis: Axis) -> (r: SizeType)
        requires
            self.wf(),
            i < self.nodes.len(),
        ensures
            r == regular_slot_spec(self.nodes@, i as int, axis),
    {
        let has_valid_min_bound = self.nodes[i].min_size.get(axis).is_some() && !self.has_valid_bound(i, axis, SizeType::Min);
        let has_valid_max_bound = self.nodes[i].max_size.get(axis).is_some() && !self.has_valid_bound(i, axis, SizeType::Max);
        let unbounded = !has_valid_min_bound && !has_valid_max_bound;
        if unbounded { SizeType::Final } else { SizeType::Regular }
    }

    pub fn size_type_exists(&self, i: usize, axis: Axis, st: SizeType) -> (r: bool)
        requires
            self.wf(),
            i < self.nodes.len(),
        ensures
            r == size_type_exists_spec(self.nodes@, i as int, axis, st),
    {
        match st {
            SizeType::Final => true,
            SizeType::Regular => self.regular_slot(i, axis) == SizeType::Regular,
            SizeType::Min => self.nodes[i].min_size.get(axis).is_some() && !self.has_valid_bound(i, axis, SizeType::Min),
            SizeType::Max => self.nodes[i].max_size.get(axis).is_some() && !self.has_valid_bound(i, axis, SizeType::Max),
            SizeType::EvenShareForFillChildren => false,
            SizeType::GridCells => self.grid_main_axis(i) == Some(axis),
        }
    }

    pub fn effective_size(&self, i: usize, axis: Axis) -> (r: SizeKind)
        requires
            i < self.nodes.len(),
        ensures
            r == effective_size_spec(self.nodes@[i as int], axis),
    {
        if self.nodes[i].fitcontent_that_acts_as_fill.get(axis) { SizeKind::Fill } else { self.nodes[i].size.get(axis) }
    }

    pub fn has_even_share_for_fill_children(&self, parent: &ParentNodeInfo, axis: Axis) -> (r: bool)
        ensures
            r == has_even_share_spec(*parent, axis),
    {
        parent.stack_axis == Some(axis) && parent.has_fill_children.get(axis) && !parent.regular_is_fitcontent.get(axis)
    }

    pub fn any_size_is_fill(&self, i: usize, axis: Axis) -> (r: bool)
        requires
            i < self.nodes.len(),
        ensures
            r == any_size_is_fill_spec(self.nodes@[i as int], axis),
    {
        self.declared_size(i, axis, SizeType::Regular) == Some(SizeKind::Fill)
            || self.declared_size(i, axis, SizeType::Min) == Some(SizeKind::Fill)
            || self.declared_size(i, axis, SizeType::Max) == Some(SizeKind::Fill)
    }

    pub fn text_wraps_from_width(&self, i: usize, size: SizeKind) -> (r: bool)
        requires
            i < self.nodes.len(),
        ensures
            r == text_wraps_from_width_spec(self.nodes@[i as int], size),
    {
        match self.nodes[i].text_i {
            Some(TextI::TextBox(_)) => {}
            _ => { return false; }
        }
        if size != SizeKind::FitContent {
            return false;
        }
        self.nodes[i].size.x != SizeKind::AspectRatio
    }

    pub fn child_can_size_parent(&self, child: usize, axis: Axis) -> (r: bool)
        requires
            child < self.nodes.len(),
        ensures
            r == child_can_size_parent_spec(self.nodes@[child as int], axis),
    {
        if self.nodes[child].free_placement {
            return false;
        }
        match self.effective_size(child, axis) {
            SizeKind::Fill | SizeKind::Frac => {
                let m = self.nodes[child].min_size.get(axis);
                m == Some(SizeKind::Pixels) || m == Some(SizeKind::FitContent)
            }
            _ => true,
        }
    }

    pub fn child_hard_flex(&self, child: usize, axis: Axis) -> (r: (bool, bool))
        requires
            child < self.nodes.len(),
        ensures
            r == child_hard_flex_spec(self.nodes@[child as int], axis),
        decreases (if self.nodes@[child as int].size.at(axis) == SizeKind::AspectRatio { 1nat } else { 0nat }),
    {
        let m = self.nodes[child].min_size.get(axis);
        let min_hard = m == Some(SizeKind::Pixels) || m == Some(SizeKind::FitContent);
        let max_flex = self.nodes[child].max_size.get(axis) == Some(SizeKind::Fill);
        let (base_hard, base_flex) = match self.effective_size(child, axis) {
            SizeKind::Pixels => (true, false),
            SizeKind::AspectRatio => {
                if self.nodes[child].size.get(axis.other()) == SizeKind::AspectRatio {
                    (true, false)
                } else {
                    self.child_hard_flex(child, axis.other())
                }
            }
            SizeKind::FitContent => (!max_flex, false),
            SizeKind::Fill | SizeKind::Frac => (false, true),
        };
        (min_hard || base_hard, max_flex || base_flex)
    }

    /// Adds a dependency to the graph.
    pub fn push_dependency(&mut self, dependency: LayoutDependency)
        ensures
            final(self).nodes@ == old(self).nodes@,
            final(self).dependencies@ == old(self).dependencies@.push(dependency),
    {
        self.dependencies.push(dependency);
    }

    fn push_if(&mut self, c: bool, dependency: LayoutDependency)
        ensures
            final(self).nodes@ == old(self).nodes@,
            final(self).dependencies@ == old(self).dependencies@ + opt(c, dependency),
    {
        if c {
            self.push_dependency(dependency);
        }
        proof {
            assert(self.dependencies@ =~= old(self).dependencies@ + opt(c, dependency));
        }
    }

    /// What the children of node `i` need to know about it.
    pub fn get_parent_node_info(&self, i: usize) -> (r: ParentNodeInfo)
        requires
            self.wf(),
            i < self.nodes.len(),
        ensures
            r == parent_info_spec(self.nodes@, i as int),
    {
        let n = &self.nodes[i];
        let stack_axis = match n.children_layout {
            ChildrenLayoutKind::Stack { axis } => Some(axis),
            _ => None,
        };
        let regular_is_fitcontent = Xy::new(
            self.effective_size(i, Axis::X) == SizeKind::FitContent,
            self.effective_size(i, Axis::Y) == SizeKind::FitContent,
        );
        let fx = DeclaredSizes {
            regular: self.effective_size(i, Axis::X) == SizeKind::FitContent,
            min: n.min_size.x == Some(SizeKind::FitContent),
            max: n.max_size.x == Some(SizeKind::FitContent),
        };
        let fy = DeclaredSizes {
            regular: self.effective_size(i, Axis::Y) == SizeKind::FitContent,
            min: n.min_size.y == Some(SizeKind::FitContent),
            max: n.max_size.y == Some(SizeKind::FitContent),
        };
        let own_content = n.text_i.is_some() || n.has_image;
        let mut sized_x = own_content;
        let mut sized_y = own_content;
        let mut fill_x = false;
        let mut fill_y = false;
        let mut k: usize = 0;
        while k < n.children.len()
            invariant
                self.wf(),
                i < self.nodes.len(),
                *n == self.nodes@[i as int],
                k <= n.children.len(),
                own_content == (n.text_i is Some || n.has_image),
                sized_x == (own_content || exists|j: int| 0 <= j < k && child_can_size_parent_spec(self.nodes@[#[trigger] n.children@[j] as int], Axis::X)),
                sized_y == (own_content || exists|j: int| 0 <= j < k && child_can_size_parent_spec(self.nodes@[#[trigger] n.children@[j] as int], Axis::Y)),
                fill_x == (exists|j: int| 0 <= j < k && {
                    let c = self.nodes@[#[trigger] n.children@[j] as int];
                    !c.free_placement && any_size_is_fill_spec(c, Axis::X)
                }),
                fill_y == (exists|j: int| 0 <= j < k && {
                    let c = self.nodes@[#[trigger] n.children@[j] as int];
                    !c.free_placement && any_size_is_fill_spec(c, Axis::Y)
                }),
            decreases n.children.len() - k,
        {
            let child = n.children[k];
            proof {
                assert(child == self.nodes@[i as int].children@[k as int]);
            }
            if self.child_can_size_parent(child, Axis::X) {
                sized_x = true;
            }
            if self.child_can_size_parent(child, Axis::Y) {
                sized_y = true;
            }
            if !self.nodes[child].free_placement && self.any_size_is_fill(child, Axis::X) {
                fill_x = true;
            }
            if !self.nodes[child].free_placement && self.any_size_is_fill(child, Axis::Y) {
                fill_y = true;
            }
            k = k + 1;
        }
        ParentNodeInfo {
            node: i,
            regular_is_fitcontent,
            fitcontent_sizes: Xy::new(fx, fy),
            stack_axis,
            grid_main_axis: self.grid_main_axis(i),
            has_sized_children: Xy::new(sized_x, sized_y),
            has_fill_children: Xy::new(fill_x, fill_y),
        }
    }


    fn push_grid_fit_deps(&mut self, i: usize, info: &ParentNodeInfo, axis: Axis, cells: GraphElement)
        requires
            old(self).wf(),
            i < old(self).nodes.len(),
        ensures
            final(self).nodes@ == old(self).nodes@,
            final(self).dependencies@ == old(self).dependencies@ + grid_fit_deps(old(self).nodes@, i as int, *info, axis, cells),
    {
        reveal(grid_fit_deps);
        let f = info.fitcontent_sizes.get(axis);
        let slot = self.regular_slot(i, axis);
        self.push_if(f.regular, LayoutDependency { dependent: GraphElement { node: i, axis, size_type: slot }, depends_on: cells });
        self.push_if(f.min, LayoutDependency { dependent: GraphElement { node: i, axis, size_type: SizeType::Min }, depends_on: cells });
        self.push_if(f.max, LayoutDependency { dependent: GraphElement { node: i, axis, size_type: SizeType::Max }, depends_on: cells });
        proof {
            assert(self.dependencies@ =~= old(self).dependencies@ + grid_fit_deps(old(self).nodes@, i as int, *info, axis, cells));
        }
    }

    /// Pushes the dependencies among a parent's own sizes: its even share for
    /// `Fill` children waits for its final size, and its grid cells wait for
    /// its `FitContent` sizes (and for its final size along the main axis when
    /// cells have a target width).
    pub fn push_parent_dependencies(&mut self, i: usize, info: &ParentNodeInfo)
        requires
            old(self).wf(),
            i < old(self).nodes.len(),
        ensures
            final(self).nodes@ == old(self).nodes@,
            final(self).dependencies@ == old(self).dependencies@ + parent_deps_spec(old(self).nodes@, i as int, *info),
    {
        let ghost d0 = self.dependencies@;
        let ex = self.has_even_share_for_fill_children(info, Axis::X);
        self.push_if(ex, LayoutDependency {
            dependent: GraphElement { node: i, axis: Axis::X, size_type: SizeType::EvenShareForFillChildren },
            depends_on: GraphElement { node: i, axis: Axis::X, size_type: SizeType::Final },
        });
        let ey = self.has_even_share_for_fill_children(info, Axis::Y);
        self.push_if(ey, LayoutDependency {
            dependent: GraphElement { node: i, axis: Axis::Y, size_type: SizeType::EvenShareForFillChildren },
            depends_on: GraphElement { node: i, axis: Axis::Y, size_type: SizeType::Final },
        });
        let ghost d1 = self.dependencies@;
        if let Some(main) = info.grid_main_axis {
            let cells = GraphElement { node: i, axis: main, size_type: SizeType::GridCells };
            let width = match self.nodes[i].children_layout {
                ChildrenLayoutKind::Grid { width_columns, .. } => width_columns,
                _ => false,
            };
            self.push_if(width, LayoutDependency { dependent: cells, depends_on: GraphElement { node: i, axis: main, size_type: SizeType::Final } });
            self.push_grid_fit_deps(i, info, Axis::X, cells);
            self.push_grid_fit_deps(i, info, Axis::Y, cells);
        }
        proof {
            assert(self.dependencies@ =~= old(self).dependencies@ + parent_deps_spec(old(self).nodes@, i as int, *info));
        }
    }


    fn slot(&self, i: usize, axis: Axis, st: SizeType) -> (r: SizeType)
        requires
            self.wf(),
            i < self.nodes.len(),
        ensures
            r == slot_spec(self.nodes@, i as int, axis, st),
    {
        match st {
            SizeType::Regular => self.regular_slot(i, axis),
            other => other,
        }
    }

    fn push_own_bound(&mut self, i: usize, axis: Axis, st: SizeType)
        requires
            old(self).wf(),
            i < old(self).nodes.len(),
        ensures
            final(self).nodes@ == old(self).nodes@,
            final(self).dependencies@ == old(self).dependencies@ + own_bound_dep(old(self).nodes@, i as int, axis, st),
    {
        let c = self.declared_size(i, axis, st).is_some() && self.size_type_exists(i, axis, st);
        self.push_if(c, LayoutDependency {
            dependent: GraphElement { node: i, axis, size_type: SizeType::Final },
            depends_on: GraphElement { node: i, axis, size_type: st },
        });
    }

    fn push_even_share_dep(&mut self, i: usize, p: &ParentNodeInfo, axis: Axis, st: SizeType)
        requires
            old(self).wf(),
            i < old(self).nodes.len(),
        ensures
            final(self).nodes@ == old(self).nodes@,
            final(self).dependencies@ == old(self).dependencies@ + even_share_dep(old(self).nodes@, i as int, *p, axis, st),
    {
        reveal(even_share_dep);
        let d = self.declared_size(i, axis, st);
        let c = match d {
            None | Some(SizeKind::Fill) => false,
            _ => true,
        };
        let slot = self.slot(i, axis, st);
        self.push_if(c, LayoutDependency {
            dependent: GraphElement { node: p.node, axis, size_type: SizeType::EvenShareForFillChildren },
            depends_on: GraphElement { node: i, axis, size_type: slot },
        });
    }

    fn push_fit_parent_deps(&mut self, i: usize, p: &ParentNodeInfo, axis: Axis, cst: SizeType)
        requires
            old(self).wf(),
            i < old(self).nodes.len(),
            p.node < old(self).nodes.len(),
        ensures
            final(self).nodes@ == old(self).nodes@,
            final(self).dependencies@ == old(self).dependencies@ + fit_parent_deps(old(self).nodes@, i as int, *p, axis, cst),
    {
        reveal(fit_parent_deps);
        let cs = match cst {
            SizeType::Regular => self.effective_size(i, axis),
            other => match self.declared_size(i, axis, other) {
                Some(s) => s,
                None => SizeKind::Fill,
            },
        };
        match cs {
            SizeKind::Fill | SizeKind::Frac => {
                proof {
                    assert(self.dependencies@ =~= old(self).dependencies@ + fit_parent_deps(old(self).nodes@, i as int, *p, axis, cst));
                }
                return;
            }
            _ => {}
        }
        let child = GraphElement { node: i, axis, size_type: self.slot(i, axis, cst) };
        let f = p.fitcontent_sizes.get(axis);
        let pslot = self.regular_slot(p.node, axis);
        self.push_if(f.regular, LayoutDependency { dependent: GraphElement { node: p.node, axis, size_type: pslot }, depends_on: child });
        self.push_if(f.min, LayoutDependency { dependent: GraphElement { node: p.node, axis, size_type: SizeType::Min }, depends_on: child });
        self.push_if(f.max, LayoutDependency { dependent: GraphElement { node: p.node, axis, size_type: SizeType::Max }, depends_on: child });
        proof {
            assert(self.dependencies@ =~= old(self).dependencies@ + fit_parent_deps(old(self).nodes@, i as int, *p, axis, cst));
        }
    }

    fn push_size_dep(&mut self, i: usize, p: &ParentNodeInfo, axis: Axis, st: SizeType)
        requires
            old(self).wf(),
            i < old(self).nodes.len(),
        ensures
            final(self).nodes@ == old(self).nodes@,
            final(self).dependencies@ == old(self).dependencies@ + size_dep(old(self).nodes@, i as int, *p, axis, st),
    {
        reveal(size_dep);
        let size = match st {
            SizeType::Regular => Some(self.effective_size(i, axis)),
            other => self.declared_size(i, axis, other),
        };
        let s = match size {
            Some(s) => s,
            None => {
                proof {
                    assert(self.dependencies@ =~= old(self).dependencies@ + size_dep(old(self).nodes@, i as int, *p, axis, st));
                }
                return;
            }
        };
        if self.is_phantom_fill_bound(i, axis, st) {
            proof {
                assert(self.dependencies@ =~= old(self).dependencies@ + size_dep(old(self).nodes@, i as int, *p, axis, st));
            }
            return;
        }
        let me = GraphElement { node: i, axis, size_type: self.slot(i, axis, st) };
        let stack_main = p.stack_axis == Some(axis) && !self.nodes[i].free_placement;
        let even = self.has_even_share_for_fill_children(p, axis);
        let fill_or_frac = s == SizeKind::Fill || s == SizeKind::Frac;
        let mut on_other_axis = false;
        if axis == Axis::Y && self.text_wraps_from_width(i, s) {
            on_other_axis = true;
        }
        if s == SizeKind::AspectRatio && self.nodes[i].size.get(axis.other()) != SizeKind::AspectRatio {
            on_other_axis = true;
        }
        let mut on_parent = false;
        if fill_or_frac {
            if !p.regular_is_fitcontent.get(axis) {
                on_parent = true;
            } else if !p.has_sized_children.get(axis) {
            } else if !stack_main || s == SizeKind::Frac {
                on_parent = true;
            }
        }
        self.push_if(on_other_axis, LayoutDependency {
            dependent: me,
            depends_on: GraphElement { node: i, axis: axis.other(), size_type: SizeType::Final },
        });
        let target = if stack_main && even && s == SizeKind::Fill { SizeType::EvenShareForFillChildren } else { SizeType::Final };
        self.push_if(on_parent, LayoutDependency { dependent: me, depends_on: GraphElement { node: p.node, axis, size_type: target } });
        match p.grid_main_axis {
            Some(main) => {
                let free = self.nodes[i].free_placement;
                self.push_if(fill_or_frac && !free, LayoutDependency {
                    dependent: me,
                    depends_on: GraphElement { node: p.node, axis: main, size_type: SizeType::GridCells },
                });
            }
            None => {}
        }
        proof {
            assert(self.dependencies@ =~= old(self).dependencies@ + size_dep(old(self).nodes@, i as int, *p, axis, st));
        }
    }

    fn push_axis_dependencies(&mut self, i: usize, p: &ParentNodeInfo, axis: Axis)
        requires
            old(self).wf(),
            i < old(self).nodes.len(),
            p.node < old(self).nodes.len(),
        ensures
            final(self).nodes@ == old(self).nodes@,
            final(self).dependencies@ == old(self).dependencies@ + (even_share_deps(old(self).nodes@, i as int, *p, axis)
                + fit_deps(old(self).nodes@, i as int, *p, axis) + size_deps(old(self).nodes@, i as int, *p, axis)),
    {
        let ghost nodes = self.nodes@;
        let ghost d0 = self.dependencies@;
        let stack_main = p.stack_axis == Some(axis) && !self.nodes[i].free_placement;
        if stack_main && self.has_even_share_for_fill_children(p, axis) {
            self.push_even_share_dep(i, p, axis, SizeType::Regular);
            self.push_even_share_dep(i, p, axis, SizeType::Min);
            self.push_even_share_dep(i, p, axis, SizeType::Max);
        }
        let ghost d1 = self.dependencies@;
        assert(d1 =~= d0 + even_share_deps(nodes, i as int, *p, axis)) by {
            reveal(even_share_deps);
        }
        if !self.nodes[i].free_placement {
            self.push_fit_parent_deps(i, p, axis, SizeType::Regular);
            self.push_fit_parent_deps(i, p, axis, SizeType::Min);
            self.push_fit_parent_deps(i, p, axis, SizeType::Max);
        }
        let ghost d2 = self.dependencies@;
        assert(d2 =~= d1 + fit_deps(nodes, i as int, *p, axis)) by {
            reveal(fit_deps);
        }
        self.push_size_dep(i, p, axis, SizeType::Regular);
        self.push_size_dep(i, p, axis, SizeType::Min);
        self.push_size_dep(i, p, axis, SizeType::Max);
        let ghost d3 = self.dependencies@;
        assert(d3 =~= d2 + size_deps(nodes, i as int, *p, axis)) by {
            reveal(size_deps);
        }
        proof {
            let a = even_share_deps(nodes, i as int, *p, axis);
            let b = fit_deps(nodes, i as int, *p, axis);
            let c = size_deps(nodes, i as int, *p, axis);
            assert(d3 =~= d0 + (a + b + c));
        }
    }

    /// Pushes the dependencies of node `i` given what its parent `p` is:
    /// its final size on its own bounds, its parent's even share and
    /// `FitContent` sizes on its sizes, and its `Fill`, `Frac`, aspect-ratio
    /// and wrapped-text sizes on what they are computed from.
    pub fn push_node_dependencies(&mut self, i: usize, p: ParentNodeInfo)
        requires
            old(self).wf(),
            i < old(self).nodes.len(),
            p.node < old(self).nodes.len(),
        ensures
            final(self).nodes@ == old(self).nodes@,
            final(self).dependencies@ == old(self).dependencies@ + node_deps_spec(old(self).nodes@, i as int, p),
    {
        let ghost nodes = self.nodes@;
        let ghost d0 = self.dependencies@;
        self.push_own_bound(i, Axis::X, SizeType::Regular);
        self.push_own_bound(i, Axis::X, SizeType::Min);
        self.push_own_bound(i, Axis::X, SizeType::Max);
        let ghost d1 = self.dependencies@;
        assert(d1 =~= d0 + own_bound_deps(nodes, i as int, Axis::X)) by {
            reveal(own_bound_deps);
        }
        self.push_own_bound(i, Axis::Y, SizeType::Regular);
        self.push_own_bound(i, Axis::Y, SizeType::Min);
        self.push_own_bound(i, Axis::Y, SizeType::Max);
        let ghost d2 = self.dependencies@;
        assert(d2 =~= d1 + own_bound_deps(nodes, i as int, Axis::Y)) by {
            reveal(own_bound_deps);
        }
        self.push_axis_dependencies(i, &p, Axis::X);
        let ghost d3 = self.dependencies@;
        self.push_axis_dependencies(i, &p, Axis::Y);
        proof {
            let ox = own_bound_deps(nodes, i as int, Axis::X);
            let oy = own_bound_deps(nodes, i as int, Axis::Y);
            let ax = even_share_deps(nodes, i as int, p, Axis::X) + fit_deps(nodes, i as int, p, Axis::X) + size_deps(nodes, i as int, p, Axis::X);
            let ay = even_share_deps(nodes, i as int, p, Axis::Y) + fit_deps(nodes, i as int, p, Axis::Y) + size_deps(nodes, i as int, p, Axis::Y);
            assert(self.dependencies@ =~= d0 + (ox + oy + ax + ay));
            assert(node_deps_spec(nodes, i as int, p) =~= ox + oy + ax + ay);
        }
    }

    fn acts_as_fill(&self, i: usize, axis: Axis) -> (r: bool)
        requires
            self.wf(),
            i < self.nodes.len(),
        ensures
            r == acts_as_fill_spec(self.nodes@, i as int, axis),
    {
        let n = &self.nodes[i];
        let is_fitcontent = n.size.get(axis) == SizeKind::FitContent;
        let has_own_content = n.text_i.is_some() || n.has_image;
        if !is_fitcontent || has_own_content {
            return false;
        }
        match n.children_layout {
            ChildrenLayoutKind::Grid { width_columns: true, main_axis } => {
                if axis == main_axis {
                    return true;
                }
            }
            _ => {}
        }
        let mut has_hard_child = false;
        let mut has_flex_child = false;
        let mut k: usize = 0;
        while k < n.children.len()
            invariant
                self.wf(),
                i < self.nodes.len(),
                *n == self.nodes@[i as int],
                k <= n.children.len(),
                has_hard_child == (exists|j: int| 0 <= j < k && {
                    let c = self.nodes@[#[trigger] n.children@[j] as int];
                    !c.free_placement && child_hard_flex_spec(c, axis).0
                }),
                has_flex_child == (exists|j: int| 0 <= j < k && {
                    let c = self.nodes@[#[trigger] n.children@[j] as int];
                    !c.free_placement && child_hard_flex_spec(c, axis).1
                }),
            decreases n.children.len() - k,
        {
            let child = n.children[k];
            proof {
                assert(child == self.nodes@[i as int].children@[k as int]);
            }
            if !self.nodes[child].free_placement {
                let (hard, flex) = self.child_hard_flex(child, axis);
                has_hard_child = has_hard_child || hard;
                has_flex_child = has_flex_child || flex;
            }
            k = k + 1;
        }
        !has_hard_child && has_flex_child
    }

    /// Decides, from its children as they are, whether each `FitContent` axis
    /// of node `i` acts as `Fill`, and records it on the node.
    pub fn collapse_node(&mut self, i: usize)
        requires
            old(self).wf(),
            i < old(self).nodes.len(),
        ensures
            final(self).wf(),
            final(self).dependencies@ == old(self).dependencies@,
            final(self).nodes.len() == old(self).nodes.len(),
            forall|k: int| 0 <= k < old(self).nodes.len() && k != i ==> #[trigger] final(self).nodes@[k] == old(self).nodes@[k],
            final(self).nodes@[i as int].fitcontent_that_acts_as_fill == (Xy {
                x: acts_as_fill_spec(old(self).nodes@, i as int, Axis::X),
                y: acts_as_fill_spec(old(self).nodes@, i as int, Axis::Y),
            }),
            same_but_flags(final(self).nodes@[i as int], old(self).nodes@[i as int]),
    {
        let x = self.acts_as_fill(i, Axis::X);
        let y = self.acts_as_fill(i, Axis::Y);
        let o = &self.nodes[i];
        let children = o.children.clone();
        proof {
            assert(children@ =~= o.children@);
        }
        let n = LayoutNode {
            size: o.size,
            min_size: o.min_size,
            max_size: o.max_size,
            children_layout: o.children_layout,
            free_placement: o.free_placement,
            text_i: o.text_i,
            has_image: o.has_image,
            parent: o.parent,
            children,
            depth: o.depth,
            fitcontent_that_acts_as_fill: Xy::new(x, y),
        };
        self.nodes.set(i, n);
        proof {
            assert forall|k: int| 0 <= k < self.nodes.len() implies (#[trigger] self.nodes@[k]).parent < self.nodes.len() by {
                if k != i {
                    assert(self.nodes@[k] == old(self).nodes@[k]);
                }
            }
        }
    }

    /// Pushes the dependencies of the subtree of `i`, depth first: for each
    /// node, the dependencies among its own sizes, then for each child its
    /// dependencies as a child and those of its subtree.
    pub fn push_dependencies_recursive(&mut self, i: usize)
        requires
            tree_ok(old(self).nodes@),
            i < old(self).nodes.len(),
        ensures
            final(self).nodes@ == old(self).nodes@,
            final(self).dependencies@ == old(self).dependencies@ + subtree_deps(old(self).nodes@, i as int),
        decreases usize::MAX - old(self).nodes@[i as int].depth, old(self).nodes@[i as int].children@.len() + 1,
    {
        let ghost nodes = self.nodes@;
        let ghost d0 = self.dependencies@;
        let info = self.get_parent_node_info(i);
        self.push_parent_dependencies(i, &info);
        let ghost d1 = self.dependencies@;
        let n_children = self.nodes[i].children.len();
        let mut k: usize = 0;
        while k < n_children
            invariant
                tree_ok(nodes),
                i < nodes.len(),
                self.nodes@ == nodes,
                nodes == old(self).nodes@,
                info == parent_info_spec(nodes, i as int),
                n_children == nodes[i as int].children@.len(),
                k <= n_children,
                d1 + children_deps(nodes, i as int, 0) == self.dependencies@ + children_deps(nodes, i as int, k as int),
            decreases n_children - k,
        {
            let c = self.nodes[i].children[k];
            proof {
                assert(c == nodes[i as int].children@[k as int]);
                assert(c < nodes.len());
                assert(nodes[c as int].depth == nodes[i as int].depth + 1);
            }
            let ghost before = self.dependencies@;
            self.push_node_dependencies(c, info);
            self.push_dependencies_recursive(c);
            proof {
                let nd = node_deps_spec(nodes, c as int, info);
                let sd = subtree_deps(nodes, c as int);
                let rest = children_deps(nodes, i as int, k as int + 1);
                assert(children_deps(nodes, i as int, k as int) == nd + sd + rest);
                assert(self.dependencies@ == before + nd + sd);
                assert(before + (nd + sd + rest) =~= before + nd + sd + rest);
            }
            k = k + 1;
        }
        proof {
            assert(children_deps(nodes, i as int, n_children as int) == Seq::<LayoutDependency>::empty());
            assert(self.dependencies@ + Seq::<LayoutDependency>::empty() =~= self.dependencies@);
            assert(subtree_deps(nodes, i as int) == parent_deps_spec(nodes, i as int, info) + children_deps(nodes, i as int, 0));
            assert(d1 == d0 + parent_deps_spec(nodes, i as int, info));
            assert(self.dependencies@ =~= d0 + subtree_deps(nodes, i as int));
        }
    }

    /// Decides, children before parents, whether each `FitContent` axis of
    /// every node in the subtree of `i` acts as `Fill`, and records it.
    /// Afterwards each node of the subtree agrees with its children; the
    /// other nodes, and everything but the flags, are unchanged.
    pub fn collapse_underdetermined_fitcontents(&mut self, i: usize)
        requires
            tree_ok(old(self).nodes@),
            i < old(self).nodes.len(),
        ensures
            tree_ok(final(self).nodes@),
            final(self).dependencies@ == old(self).dependencies@,
            final(self).nodes.len() == old(self).nodes.len(),
            forall|k: int| 0 <= k < old(self).nodes.len() ==> same_but_flags(#[trigger] final(self).nodes@[k], old(self).nodes@[k]),
            forall|k: int| 0 <= k < old(self).nodes.len() && !in_subtree(shape_of(old(self).nodes@), i as int, k)
                ==> #[trigger] final(self).nodes@[k] == old(self).nodes@[k],
            forall|k: int| in_subtree(shape_of(old(self).nodes@), i as int, k) ==> #[trigger] collapsed_at(final(self).nodes@, k),
        decreases usize::MAX - old(self).nodes@[i as int].depth,
    {
        let ghost n0 = self.nodes@;
        let ghost sh = shape_of(n0);
        let n_children = self.nodes[i].children.len();
        let mut k: usize = 0;
        while k < n_children
            invariant
                tree_ok(n0),
                i < n0.len(),
                n0 == old(self).nodes@,
                sh == shape_of(n0),
                self.nodes.len() == n0.len(),
                self.dependencies@ == old(self).dependencies@,
                n_children == n0[i as int].children@.len(),
                k <= n_children,
                forall|m: int| 0 <= m < n0.len() ==> same_but_flags(#[trigger] self.nodes@[m], n0[m]),
                forall|m: int| 0 <= m < n0.len() && !in_first_subtrees(n0, i as int, k as int, m) ==> #[trigger] self.nodes@[m] == n0[m],
                forall|j: int, m: int| 0 <= j < k && #[trigger] in_subtree(sh, n0[i as int].children@[j] as int, m)
                    ==> collapsed_at(self.nodes@, m),
            decreases n_children - k,
        {
            proof {
                lemma_flags_keep_tree(n0, self.nodes@);
                assert(same_but_flags(self.nodes@[i as int], n0[i as int]));
                assert(n0[i as int].children@[k as int] < n0.len());
            }
            let c = self.nodes[i].children[k];
            let ghost before = self.nodes@;
            proof {
                assert(c == n0[i as int].children@[k as int]);
                assert(same_but_flags(before[c as int], n0[c as int]));
                assert(n0[c as int].depth == n0[i as int].depth + 1);
            }
            self.collapse_underdetermined_fitcontents(c);
            proof {
                let after = self.nodes@;
                assert forall|m: int| 0 <= m < n0.len() implies same_but_flags(#[trigger] after[m], n0[m]) by {
                    assert(same_but_flags(after[m], before[m]));
                    assert(same_but_flags(before[m], n0[m]));
                }
                assert forall|m: int| 0 <= m < n0.len() && !in_first_subtrees(n0, i as int, k + 1, m) implies #[trigger] after[m] == n0[m] by {
                    assert(!in_subtree(sh, n0[i as int].children@[k as int] as int, m));
                    if in_first_subtrees(n0, i as int, k as int, m) {
                        let j = choose|j: int| 0 <= j < k && #[trigger] in_subtree(shape_of(n0), n0[i as int].children@[j] as int, m);
                        assert(in_subtree(shape_of(n0), n0[i as int].children@[j] as int, m));
                    }
                    assert(before[m] == n0[m]);
                }
                assert forall|j: int, m: int| 0 <= j < k + 1 && #[trigger] in_subtree(sh, n0[i as int].children@[j] as int, m)
                    implies collapsed_at(after, m) by {
                    if j < k {
                        lemma_sibling_subtrees_disjoint(n0, i as int, j, k as int, m);
                        assert(collapsed_at(before, m));
                        assert(after[m] == before[m]);
                        assert forall|x: int| 0 <= x < before[m].children@.len()
                            implies before[#[trigger] before[m].children@[x] as int] == after[before[m].children@[x] as int] by {
                            assert(same_but_flags(before[m], n0[m]));
                            lemma_child_in_subtree(n0, n0[i as int].children@[j] as int, m, x);
                            lemma_sibling_subtrees_disjoint(n0, i as int, j, k as int, n0[m].children@[x] as int);
                        }
                        lemma_acts_as_fill_local(before, after, m, Axis::X);
                        lemma_acts_as_fill_local(before, after, m, Axis::Y);
                    }
                }
            }
            k = k + 1;
        }
        proof {
            lemma_flags_keep_tree(n0, self.nodes@);
        }
        let ghost s = self.nodes@;
        self.collapse_node(i);
        proof {
            let f = self.nodes@;
            assert forall|x: int| 0 <= x < s[i as int].children@.len()
                implies s[#[trigger] s[i as int].children@[x] as int] == f[s[i as int].children@[x] as int] by {
                assert(same_but_flags(s[i as int], n0[i as int]));
                assert(n0[n0[i as int].children@[x] as int].depth == n0[i as int].depth + 1);
                assert(same_but_flags(s[s[i as int].children@[x] as int], n0[n0[i as int].children@[x] as int]));
            }
            lemma_acts_as_fill_local(s, f, i as int, Axis::X);
            lemma_acts_as_fill_local(s, f, i as int, Axis::Y);
            assert(collapsed_at(f, i as int));
            assert forall|k2: int| 0 <= k2 < n0.len() implies same_but_flags(#[trigger] f[k2], n0[k2]) by {
                assert(same_but_flags(s[k2], n0[k2]));
            }
            lemma_flags_keep_tree(n0, f);
            assert forall|k2: int| 0 <= k2 < n0.len() && !in_subtree(sh, i as int, k2) implies #[trigger] f[k2] == n0[k2] by {
                assert(k2 != i) by {
                    assert(sh[i as int] == (n0[i as int].parent, n0[i as int].depth));
                }
                if in_first_subtrees(n0, i as int, n_children as int, k2) {
                    let j = choose|j: int| 0 <= j < n_children && #[trigger] in_subtree(shape_of(n0), n0[i as int].children@[j] as int, k2);
                    lemma_child_subtree_inside(n0, i as int, j, k2);
                }
            }
            assert forall|m: int| in_subtree(sh, i as int, m) implies #[trigger] collapsed_at(f, m) by {
                if m != i {
                    let j = lemma_subtree_split(n0, i as int, m);
                    lemma_child_subtree_inside(n0, i as int, j, m);
                    assert(collapsed_at(s, m));
                    assert forall|x: int| 0 <= x < s[m].children@.len()
                        implies s[#[trigger] s[m].children@[x] as int] == f[s[m].children@[x] as int] by {
                        assert(same_but_flags(s[m], n0[m]));
                        lemma_child_in_subtree(n0, n0[i as int].children@[j] as int, m, x);
                        lemma_child_subtree_inside(n0, i as int, j, n0[m].children@[x] as int);
                    }
                    lemma_acts_as_fill_local(s, f, m, Axis::X);
                    lemma_acts_as_fill_local(s, f, m, Axis::Y);
                }
            }
        }
    }
}


/// A dependency between two distinct graph elements, each of node `a` or `b`.
pub open spec fn local_dep(d: LayoutDependency, a: usize, b: usize) -> bool {
    &&& d.dependent != d.depends_on
    &&& (d.dependent.node == a || d.dependent.node == b)
    &&& (d.depends_on.node == a || d.depends_on.node == b)
}

pub open spec fn all_local(ds: Seq<LayoutDependency>, a: usize, b: usize) -> bool {
    forall|k: int| 0 <= k < ds.len() ==> local_dep(#[trigger] ds[k], a, b)
}

proof fn lemma_all_local_add(x: Seq<LayoutDependency>, y: Seq<LayoutDependency>, a: usize, b: usize)
    requires
        all_local(x, a, b),
        all_local(y, a, b),
    ensures
        all_local(x + y, a, b),
{
    assert forall|k: int| 0 <= k < (x + y).len() implies local_dep(#[trigger] (x + y)[k], a, b) by {
        if k < x.len() {
            assert((x + y)[k] == x[k]);
        } else {
            assert((x + y)[k] == y[k - x.len()]);
        }
    }
}

proof fn lemma_opt3_local(c1: bool, d1: LayoutDependency, c2: bool, d2: LayoutDependency, c3: bool, d3: LayoutDependency, a: usize, b: usize)
    requires
        c1 ==> local_dep(d1, a, b),
        c2 ==> local_dep(d2, a, b),
        c3 ==> local_dep(d3, a, b),
    ensures
        all_local(opt(c1, d1), a, b),
        all_local(opt(c1, d1) + opt(c2, d2), a, b),
        all_local(opt(c1, d1) + opt(c2, d2) + opt(c3, d3), a, b),
{
    assert(all_local(opt(c1, d1), a, b));
    assert(all_local(opt(c2, d2), a, b));
    assert(all_local(opt(c3, d3), a, b));
    lemma_all_local_add(opt(c1, d1), opt(c2, d2), a, b);
    lemma_all_local_add(opt(c1, d1) + opt(c2, d2), opt(c3, d3), a, b);
}

proof fn lemma_all_local_add3(x: Seq<LayoutDependency>, y: Seq<LayoutDependency>, z: Seq<LayoutDependency>, a: usize, b: usize)
    requires
        all_local(x, a, b),
        all_local(y, a, b),
        all_local(z, a, b),
    ensures
        all_local(x + y + z, a, b),
{
    lemma_all_local_add(x, y, a, b);
    lemma_all_local_add(x + y, z, a, b);
}

proof fn lemma_st_pieces_local(nodes: Seq<LayoutNode>, i: usize, p: ParentNodeInfo, axis: Axis, st: SizeType)
    requires
        p.node != i,
    ensures
        all_local(own_bound_dep(nodes, i as int, axis, st), i, p.node),
        all_local(even_share_dep(nodes, i as int, p, axis, st), i, p.node),
        all_local(fit_parent_deps(nodes, i as int, p, axis, st), i, p.node),
        all_local(size_dep(nodes, i as int, p, axis, st), i, p.node),
{
    reveal(even_share_dep);
    reveal(fit_parent_deps);
    reveal(size_dep);
    let pn = p.node as int;
    let ii = i as int;
    assert(all_local(own_bound_dep(nodes, ii, axis, st), i, p.node));
    assert(all_local(even_share_dep(nodes, ii, p, axis, st), i, p.node));
    let f = p.fitcontent_sizes.at(axis);
    let child = ge(ii, axis, slot_spec(nodes, ii, axis, st));
    lemma_opt3_local(f.regular, dep(ge(pn, axis, regular_slot_spec(nodes, pn, axis)), child),
        f.min, dep(ge(pn, axis, SizeType::Min), child), f.max, dep(ge(pn, axis, SizeType::Max), child), i, p.node);
    let size = if st == SizeType::Regular { Some(effective_size_spec(nodes[ii], axis)) } else { declared_size_spec(nodes[ii], axis, st) };
    if let Some(sz) = size {
        let n = nodes[ii];
        let me = ge(ii, axis, slot_spec(nodes, ii, axis, st));
        let on_other_axis = (axis == Axis::Y && text_wraps_from_width_spec(n, sz))
            || (sz == SizeKind::AspectRatio && n.size.at(other_axis(axis)) != SizeKind::AspectRatio);
        let through_share = stack_main_spec(n, p, axis) && has_even_share_spec(p, axis) && sz == SizeKind::Fill;
        let fill_or_frac = sz == SizeKind::Fill || sz == SizeKind::Frac;
        let d1 = dep(me, ge(ii, other_axis(axis), SizeType::Final));
        let d2 = dep(me, ge(pn, axis, if through_share { SizeType::EvenShareForFillChildren } else { SizeType::Final }));
        match p.grid_main_axis {
            Some(main) => {
                lemma_opt3_local(on_other_axis, d1, depends_on_parent_spec(n, p, axis, sz), d2,
                    fill_or_frac && !n.free_placement, dep(me, ge(pn, main, SizeType::GridCells)), i, p.node);
            },
            None => {
                lemma_opt3_local(on_other_axis, d1, depends_on_parent_spec(n, p, axis, sz), d2, false, d2, i, p.node);
                assert(opt(on_other_axis, d1) + opt(depends_on_parent_spec(n, p, axis, sz), d2) + Seq::empty()
                    =~= opt(on_other_axis, d1) + opt(depends_on_parent_spec(n, p, axis, sz), d2));
            },
        }
    }
}

proof fn lemma_axis_pieces_local(nodes: Seq<LayoutNode>, i: usize, p: ParentNodeInfo, axis: Axis)
    requires
        p.node != i,
    ensures
        all_local(own_bound_deps(nodes, i as int, axis), i, p.node),
        all_local(even_share_deps(nodes, i as int, p, axis), i, p.node),
        all_local(fit_deps(nodes, i as int, p, axis), i, p.node),
        all_local(size_deps(nodes, i as int, p, axis), i, p.node),
{
    reveal(own_bound_deps);
    reveal(even_share_deps);
    reveal(fit_deps);
    reveal(size_deps);
    let ii = i as int;
    let r = SizeType::Regular;
    let mn = SizeType::Min;
    let mx = SizeType::Max;
    lemma_st_pieces_local(nodes, i, p, axis, r);
    lemma_st_pieces_local(nodes, i, p, axis, mn);
    lemma_st_pieces_local(nodes, i, p, axis, mx);
    lemma_all_local_add3(own_bound_dep(nodes, ii, axis, r), own_bound_dep(nodes, ii, axis, mn), own_bound_dep(nodes, ii, axis, mx), i, p.node);
    lemma_all_local_add3(even_share_dep(nodes, ii, p, axis, r), even_share_dep(nodes, ii, p, axis, mn), even_share_dep(nodes, ii, p, axis, mx), i, p.node);
    lemma_all_local_add3(fit_parent_deps(nodes, ii, p, axis, r), fit_parent_deps(nodes, ii, p, axis, mn), fit_parent_deps(nodes, ii, p, axis, mx), i, p.node);
    lemma_all_local_add3(size_dep(nodes, ii, p, axis, r), size_dep(nodes, ii, p, axis, mn), size_dep(nodes, ii, p, axis, mx), i, p.node);
    assert(all_local(Seq::<LayoutDependency>::empty(), i, p.node));
}

/// The dependencies a node pushes each connect two different sizes, each of
/// the node or of its parent.
pub proof fn lemma_node_deps_local(nodes: Seq<LayoutNode>, i: usize, p: ParentNodeInfo)
    requires
        p.node != i,
    ensures
        all_local(node_deps_spec(nodes, i as int, p), i, p.node),
{
    let ii = i as int;
    lemma_axis_pieces_local(nodes, i, p, Axis::X);
    lemma_axis_pieces_local(nodes, i, p, Axis::Y);
    let ox = own_bound_deps(nodes, ii, Axis::X);
    let oy = own_bound_deps(nodes, ii, Axis::Y);
    let ex = even_share_deps(nodes, ii, p, Axis::X);
    let fx = fit_deps(nodes, ii, p, Axis::X);
    let sx = size_deps(nodes, ii, p, Axis::X);
    let ey = even_share_deps(nodes, ii, p, Axis::Y);
    let fy = fit_deps(nodes, ii, p, Axis::Y);
    let sy = size_deps(nodes, ii, p, Axis::Y);
    lemma_all_local_add(ox, oy, i, p.node);
    lemma_all_local_add(ox + oy, ex, i, p.node);
    lemma_all_local_add(ox + oy + ex, fx, i, p.node);
    lemma_all_local_add(ox + oy + ex + fx, sx, i, p.node);
    lemma_all_local_add(ox + oy + ex + fx + sx, ey, i, p.node);
    lemma_all_local_add(ox + oy + ex + fx + sx + ey, fy, i, p.node);
    lemma_all_local_add(ox + oy + ex + fx + sx + ey + fy, sy, i, p.node);
}

/// The dependencies a parent pushes among its own sizes each connect two
/// different sizes of that node.
pub proof fn lemma_parent_deps_local(nodes: Seq<LayoutNode>, i: usize, info: ParentNodeInfo)
    ensures
        all_local(parent_deps_spec(nodes, i as int, info), i, i),
{
    reveal(grid_fit_deps);
    let ii = i as int;
    let ex = opt(has_even_share_spec(info, Axis::X), dep(ge(ii, Axis::X, SizeType::EvenShareForFillChildren), ge(ii, Axis::X, SizeType::Final)));
    let ey = opt(has_even_share_spec(info, Axis::Y), dep(ge(ii, Axis::Y, SizeType::EvenShareForFillChildren), ge(ii, Axis::Y, SizeType::Final)));
    assert(all_local(ex, i, i));
    assert(all_local(ey, i, i));
    lemma_all_local_add(ex, ey, i, i);
    if let Some(main) = info.grid_main_axis {
        let cells = ge(ii, main, SizeType::GridCells);
        let a = opt(nodes[ii].children_layout matches ChildrenLayoutKind::Grid { width_columns, .. } && width_columns, dep(cells, ge(ii, main, SizeType::Final)));
        assert(all_local(a, i, i));
        let fx = info.fitcontent_sizes.at(Axis::X);
        let fy = info.fitcontent_sizes.at(Axis::Y);
        lemma_opt3_local(fx.regular, dep(ge(ii, Axis::X, regular_slot_spec(nodes, ii, Axis::X)), cells),
            fx.min, dep(ge(ii, Axis::X, SizeType::Min), cells), fx.max, dep(ge(ii, Axis::X, SizeType::Max), cells), i, i);
        lemma_opt3_local(fy.regular, dep(ge(ii, Axis::Y, regular_slot_spec(nodes, ii, Axis::Y)), cells),
            fy.min, dep(ge(ii, Axis::Y, SizeType::Min), cells), fy.max, dep(ge(ii, Axis::Y, SizeType::Max), cells), i, i);
        let gx = grid_fit_deps(nodes, ii, info, Axis::X, cells);
        let gy = grid_fit_deps(nodes, ii, info, Axis::Y, cells);
        lemma_all_local_add3(a, gx, gy, i, i);
        lemma_all_local_add(ex + ey, a + gx + gy, i, i);
        assert(parent_deps_spec(nodes, ii, info) =~= ex + ey + (a + gx + gy));
    } else {
        assert(parent_deps_spec(nodes, ii, info) =~= ex + ey + Seq::empty());
        assert(ex + ey + Seq::empty() =~= ex + ey);
    }
}

} // verus!
