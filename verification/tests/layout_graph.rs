use keru::{
    Axis, ChildrenLayoutKind, GraphElement, LayoutDependency, LayoutGraph, LayoutNode, SizeKind, SizeType, TextI, Xy,
};

fn node(x: SizeKind, y: SizeKind, children_layout: ChildrenLayoutKind, parent: usize, children: Vec<usize>, depth: usize) -> LayoutNode {
    LayoutNode {
        size: Xy::new(x, y),
        min_size: Xy::new(None, None),
        max_size: Xy::new(None, None),
        children_layout,
        free_placement: false,
        text_i: None,
        has_image: false,
        parent,
        children,
        depth,
        fitcontent_that_acts_as_fill: Xy::new(false, false),
    }
}

fn ge(node: usize, axis: Axis, size_type: SizeType) -> GraphElement {
    GraphElement { node, axis, size_type }
}

fn dep(a: GraphElement, b: GraphElement) -> LayoutDependency {
    LayoutDependency { dependent: a, depends_on: b }
}

fn stack_with_fill_child() -> LayoutGraph {
    LayoutGraph {
        nodes: vec![
            node(SizeKind::Pixels, SizeKind::Pixels, ChildrenLayoutKind::Stack { axis: Axis::X }, 0, vec![1, 2], 0),
            node(SizeKind::Fill, SizeKind::FitContent, ChildrenLayoutKind::Free, 0, vec![], 1),
            node(SizeKind::Pixels, SizeKind::Pixels, ChildrenLayoutKind::Free, 0, vec![], 1),
        ],
        dependencies: Vec::new(),
    }
}

#[test]
fn parent_info_of_a_stack() {
    let g = stack_with_fill_child();
    let info = g.get_parent_node_info(0);
    assert_eq!(info.node, 0);
    assert_eq!(info.stack_axis, Some(Axis::X));
    assert_eq!(info.grid_main_axis, None);
    assert!(!info.regular_is_fitcontent.x && !info.regular_is_fitcontent.y);
    assert!(info.has_fill_children.x && !info.has_fill_children.y);
    assert!(info.has_sized_children.x && info.has_sized_children.y);
    assert!(!info.fitcontent_sizes.x.regular && !info.fitcontent_sizes.y.min);
}

#[test]
fn fill_child_waits_for_the_even_share() {
    let mut g = stack_with_fill_child();
    let info = g.get_parent_node_info(0);
    g.push_parent_dependencies(0, &info);
    assert_eq!(g.dependencies, vec![dep(ge(0, Axis::X, SizeType::EvenShareForFillChildren), ge(0, Axis::X, SizeType::Final))]);
    g.dependencies.clear();
    g.push_node_dependencies(1, info);
    assert_eq!(g.dependencies, vec![dep(ge(1, Axis::X, SizeType::Final), ge(0, Axis::X, SizeType::EvenShareForFillChildren))]);
    g.dependencies.clear();
    g.push_node_dependencies(2, info);
    assert_eq!(g.dependencies, vec![dep(ge(0, Axis::X, SizeType::EvenShareForFillChildren), ge(2, Axis::X, SizeType::Final))]);
}

#[test]
fn fitcontent_parent_waits_for_its_children() {
    let mut g = LayoutGraph {
        nodes: vec![
            node(SizeKind::FitContent, SizeKind::FitContent, ChildrenLayoutKind::Stack { axis: Axis::Y }, 0, vec![1], 0),
            node(SizeKind::Pixels, SizeKind::Pixels, ChildrenLayoutKind::Free, 0, vec![], 1),
        ],
        dependencies: Vec::new(),
    };
    let info = g.get_parent_node_info(0);
    assert!(info.fitcontent_sizes.x.regular && info.fitcontent_sizes.y.regular);
    g.push_parent_dependencies(0, &info);
    assert!(g.dependencies.is_empty());
    g.push_node_dependencies(1, info);
    assert_eq!(g.dependencies, vec![
        dep(ge(0, Axis::X, SizeType::Final), ge(1, Axis::X, SizeType::Final)),
        dep(ge(0, Axis::Y, SizeType::Final), ge(1, Axis::Y, SizeType::Final)),
    ]);
}

#[test]
fn bounds_get_their_own_slots() {
    let mut g = stack_with_fill_child();
    g.nodes[1].min_size = Xy::new(Some(SizeKind::Pixels), None);
    assert_eq!(g.regular_slot(1, Axis::X), SizeType::Regular);
    assert_eq!(g.regular_slot(1, Axis::Y), SizeType::Final);
    assert!(g.size_type_exists(1, Axis::X, SizeType::Min));
    assert!(!g.size_type_exists(1, Axis::X, SizeType::Max));
    assert!(g.size_type_exists(1, Axis::X, SizeType::Regular));
    assert!(!g.size_type_exists(1, Axis::X, SizeType::EvenShareForFillChildren));
    let info = g.get_parent_node_info(0);
    g.push_node_dependencies(1, info);
    assert_eq!(&g.dependencies[..2], &[
        dep(ge(1, Axis::X, SizeType::Final), ge(1, Axis::X, SizeType::Regular)),
        dep(ge(1, Axis::X, SizeType::Final), ge(1, Axis::X, SizeType::Min)),
    ]);
    assert!(g.dependencies.contains(&dep(ge(1, Axis::X, SizeType::Regular), ge(0, Axis::X, SizeType::EvenShareForFillChildren))));
    assert!(g.dependencies.contains(&dep(ge(0, Axis::X, SizeType::EvenShareForFillChildren), ge(1, Axis::X, SizeType::Min))));
}

#[test]
fn fill_bound_in_fitcontent_stack_is_ignored() {
    let mut g = LayoutGraph {
        nodes: vec![
            node(SizeKind::FitContent, SizeKind::Pixels, ChildrenLayoutKind::Stack { axis: Axis::X }, 0, vec![1], 0),
            node(SizeKind::Pixels, SizeKind::Pixels, ChildrenLayoutKind::Free, 0, vec![], 1),
        ],
        dependencies: Vec::new(),
    };
    g.nodes[1].max_size = Xy::new(Some(SizeKind::Fill), None);
    assert!(g.is_phantom_fill_bound(1, Axis::X, SizeType::Max));
    assert!(g.has_valid_bound(1, Axis::X, SizeType::Max));
    assert!(!g.size_type_exists(1, Axis::X, SizeType::Max));
    assert_eq!(g.regular_slot(1, Axis::X), SizeType::Final);
}

#[test]
fn wrapped_text_height_waits_for_width() {
    let mut g = stack_with_fill_child();
    g.nodes[2].size = Xy::new(SizeKind::Pixels, SizeKind::FitContent);
    g.nodes[2].text_i = Some(TextI::TextBox(3));
    assert!(g.text_wraps_from_width(2, SizeKind::FitContent));
    let info = g.get_parent_node_info(0);
    g.push_node_dependencies(2, info);
    assert!(g.dependencies.contains(&dep(ge(2, Axis::Y, SizeType::Final), ge(2, Axis::X, SizeType::Final))));
}

#[test]
fn grid_cells_and_grid_children() {
    let mut g = LayoutGraph {
        nodes: vec![
            node(SizeKind::Pixels, SizeKind::FitContent, ChildrenLayoutKind::Grid { width_columns: true, main_axis: Axis::X }, 0, vec![1], 0),
            node(SizeKind::Fill, SizeKind::Pixels, ChildrenLayoutKind::Free, 0, vec![], 1),
        ],
        dependencies: Vec::new(),
    };
    assert_eq!(g.grid_main_axis(0), Some(Axis::X));
    assert!(g.size_type_exists(0, Axis::X, SizeType::GridCells));
    assert!(!g.size_type_exists(0, Axis::Y, SizeType::GridCells));
    let info = g.get_parent_node_info(0);
    g.push_parent_dependencies(0, &info);
    let cells = ge(0, Axis::X, SizeType::GridCells);
    assert_eq!(g.dependencies, vec![
        dep(cells, ge(0, Axis::X, SizeType::Final)),
        dep(ge(0, Axis::Y, SizeType::Final), cells),
    ]);
    g.dependencies.clear();
    g.push_node_dependencies(1, info);
    assert!(g.dependencies.contains(&dep(ge(1, Axis::X, SizeType::Final), cells)));
    assert!(g.dependencies.contains(&dep(ge(1, Axis::X, SizeType::Final), ge(0, Axis::X, SizeType::Final))));
}

#[test]
fn no_dependency_is_a_self_loop() {
    let mut g = stack_with_fill_child();
    g.nodes[1].min_size = Xy::new(Some(SizeKind::FitContent), Some(SizeKind::Pixels));
    g.nodes[1].max_size = Xy::new(Some(SizeKind::Fill), Some(SizeKind::AspectRatio));
    let info = g.get_parent_node_info(0);
    g.push_parent_dependencies(0, &info);
    g.push_node_dependencies(1, info);
    g.push_node_dependencies(2, info);
    for d in &g.dependencies {
        assert_ne!(d.dependent, d.depends_on);
        assert!(d.dependent.node <= 2 && d.depends_on.node <= 2);
    }
}

#[test]
fn fitcontent_with_only_fill_children_collapses() {
    let mut g = LayoutGraph {
        nodes: vec![
            node(SizeKind::FitContent, SizeKind::FitContent, ChildrenLayoutKind::Stack { axis: Axis::X }, 0, vec![1, 2], 0),
            node(SizeKind::Fill, SizeKind::Fill, ChildrenLayoutKind::Free, 0, vec![], 1),
            node(SizeKind::Frac, SizeKind::Pixels, ChildrenLayoutKind::Free, 0, vec![], 1),
        ],
        dependencies: Vec::new(),
    };
    assert_eq!(g.child_hard_flex(1, Axis::X), (false, true));
    assert_eq!(g.child_hard_flex(2, Axis::Y), (true, false));
    g.collapse_node(0);
    assert!(g.nodes[0].fitcontent_that_acts_as_fill.x);
    assert!(!g.nodes[0].fitcontent_that_acts_as_fill.y);
    assert_eq!(g.effective_size(0, Axis::X), SizeKind::Fill);
    assert_eq!(g.effective_size(0, Axis::Y), SizeKind::FitContent);
    assert_eq!(g.nodes[0].children, vec![1, 2]);
}

#[test]
fn aspect_ratio_takes_hardness_from_the_other_axis() {
    let mut g = stack_with_fill_child();
    g.nodes[2].size = Xy::new(SizeKind::AspectRatio, SizeKind::Fill);
    assert_eq!(g.child_hard_flex(2, Axis::X), (false, true));
    g.nodes[2].size = Xy::new(SizeKind::AspectRatio, SizeKind::AspectRatio);
    assert_eq!(g.child_hard_flex(2, Axis::X), (true, false));
    g.nodes[2].size = Xy::new(SizeKind::FitContent, SizeKind::Pixels);
    g.nodes[2].max_size = Xy::new(Some(SizeKind::Fill), None);
    assert_eq!(g.child_hard_flex(2, Axis::X), (false, true));
    assert!(g.any_size_is_fill(2, Axis::X));
    assert!(!g.child_can_size_parent(1, Axis::X));
    assert!(g.child_can_size_parent(2, Axis::Y));
}

#[test]
fn collapse_propagates_from_the_leaves() {
    let mut g = LayoutGraph {
        nodes: vec![
            node(SizeKind::FitContent, SizeKind::Pixels, ChildrenLayoutKind::Stack { axis: Axis::X }, 0, vec![1], 0),
            node(SizeKind::FitContent, SizeKind::Pixels, ChildrenLayoutKind::Stack { axis: Axis::X }, 0, vec![2], 1),
            node(SizeKind::Fill, SizeKind::Pixels, ChildrenLayoutKind::Free, 1, vec![], 2),
            node(SizeKind::FitContent, SizeKind::FitContent, ChildrenLayoutKind::Free, 3, vec![], 0),
        ],
        dependencies: Vec::new(),
    };
    g.nodes[3].fitcontent_that_acts_as_fill = Xy::new(true, true);
    g.collapse_underdetermined_fitcontents(0);
    assert!(!g.nodes[2].fitcontent_that_acts_as_fill.x);
    assert!(g.nodes[1].fitcontent_that_acts_as_fill.x);
    assert!(g.nodes[0].fitcontent_that_acts_as_fill.x);
    assert!(!g.nodes[0].fitcontent_that_acts_as_fill.y);
    // a node outside the subtree is left alone
    assert!(g.nodes[3].fitcontent_that_acts_as_fill.x && g.nodes[3].fitcontent_that_acts_as_fill.y);

    // with a hard grandchild nothing collapses
    g.nodes[2].size = Xy::new(SizeKind::Pixels, SizeKind::Pixels);
    g.collapse_underdetermined_fitcontents(0);
    assert!(!g.nodes[1].fitcontent_that_acts_as_fill.x);
    assert!(!g.nodes[0].fitcontent_that_acts_as_fill.x);
}

#[test]
fn fitcontent_with_text_never_collapses() {
    let mut g = LayoutGraph {
        nodes: vec![
            node(SizeKind::FitContent, SizeKind::FitContent, ChildrenLayoutKind::Free, 0, vec![1], 0),
            node(SizeKind::Fill, SizeKind::Fill, ChildrenLayoutKind::Free, 0, vec![], 1),
        ],
        dependencies: Vec::new(),
    };
    g.nodes[0].text_i = Some(TextI::TextBox(1));
    g.collapse_underdetermined_fitcontents(0);
    assert!(!g.nodes[0].fitcontent_that_acts_as_fill.x && !g.nodes[0].fitcontent_that_acts_as_fill.y);
}

#[test]
fn recursive_push_walks_depth_first() {
    let nodes = vec![
        node(SizeKind::Pixels, SizeKind::FitContent, ChildrenLayoutKind::Stack { axis: Axis::X }, 0, vec![1, 3], 0),
        node(SizeKind::Fill, SizeKind::FitContent, ChildrenLayoutKind::Stack { axis: Axis::Y }, 0, vec![2], 1),
        node(SizeKind::Pixels, SizeKind::Fill, ChildrenLayoutKind::Free, 1, vec![], 2),
        node(SizeKind::Fill, SizeKind::Pixels, ChildrenLayoutKind::Free, 0, vec![], 1),
    ];
    let mut walked = LayoutGraph { nodes: nodes.clone(), dependencies: Vec::new() };
    walked.push_dependencies_recursive(0);

    let mut manual = LayoutGraph { nodes, dependencies: Vec::new() };
    let info0 = manual.get_parent_node_info(0);
    manual.push_parent_dependencies(0, &info0);
    manual.push_node_dependencies(1, info0);
    let info1 = manual.get_parent_node_info(1);
    manual.push_parent_dependencies(1, &info1);
    manual.push_node_dependencies(2, info1);
    let info2 = manual.get_parent_node_info(2);
    manual.push_parent_dependencies(2, &info2);
    manual.push_node_dependencies(3, info0);
    let info3 = manual.get_parent_node_info(3);
    manual.push_parent_dependencies(3, &info3);

    assert!(!walked.dependencies.is_empty());
    assert_eq!(walked.dependencies, manual.dependencies);
    assert_eq!(walked.dependencies[0], dep(ge(0, Axis::X, SizeType::EvenShareForFillChildren), ge(0, Axis::X, SizeType::Final)));
}
