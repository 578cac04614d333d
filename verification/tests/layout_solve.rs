use keru::{Axis, GraphElement, LayoutDependency, LayoutSolver, SizeType};

fn ge(node: usize, axis: Axis) -> GraphElement {
    GraphElement { node, axis, size_type: SizeType::Final }
}

fn dep(dependent: GraphElement, depends_on: GraphElement) -> LayoutDependency {
    LayoutDependency { dependent, depends_on }
}

#[test]
fn sizes_are_solved_after_their_inputs() {
    let (a, b, c) = (ge(0, Axis::X), ge(1, Axis::X), ge(1, Axis::Y));
    let mut s = LayoutSolver::new(2);
    s.push_dependency(dep(b, a));
    s.push_dependency(dep(c, a));
    s.push_dependency(dep(c, b));
    assert_eq!(s.n_unsolved(b), 1);
    assert_eq!(s.n_unsolved(c), 2);
    s.mark_solved(a);
    assert!(!s.push_solvable(a));
    assert!(!s.push_solvable(b));
    assert!(!s.push_solvable(c));
    assert_eq!(s.next_solve(), Some((b, false)));
    s.finish_solve(b);
    assert!(s.is_solved(b));
    assert_eq!(s.next_solve(), Some((c, false)));
    s.finish_solve(c);
    assert_eq!(s.next_solve(), None);
    assert_eq!(s.n_unsolved(c), 0);
}

#[test]
fn cycles_are_broken_through_deferred_sizes() {
    let (a, b, c) = (ge(0, Axis::X), ge(1, Axis::X), ge(1, Axis::Y));
    let mut s = LayoutSolver::new(2);
    s.push_dependency(dep(b, a));
    s.push_dependency(dep(b, c));
    s.push_dependency(dep(c, b));
    s.mark_solved(a);
    s.push_solvable(a);
    assert_eq!(s.next_solve(), Some((b, true)));
    assert_eq!(s.n_unsolved(b), 0);
    s.finish_solve(b);
    assert_eq!(s.next_solve(), Some((c, false)));
    s.finish_solve(c);
    assert_eq!(s.next_solve(), None);
}

#[test]
fn independent_sizes_are_solvable_at_once() {
    let a = ge(0, Axis::Y);
    let mut s = LayoutSolver::new(1);
    assert!(s.push_solvable(a));
    assert!(!s.is_solved(a));
    s.finish_solve(a);
    s.finish_solve(a);
    assert!(s.is_solved(a));
    assert_eq!(s.next_solve(), None);
}

#[test]
fn clearing_a_node_forgets_its_schedule() {
    let (a, b) = (ge(0, Axis::X), ge(1, Axis::X));
    let mut s = LayoutSolver::new(2);
    s.push_dependency(dep(b, a));
    s.mark_solved(b);
    s.clear_node(1);
    assert_eq!(s.n_unsolved(b), 0);
    assert!(!s.is_solved(b));
    s.clear_node(0);
    s.mark_solved(a);
    s.push_solvable(a);
    assert_eq!(s.next_solve(), None);
}
