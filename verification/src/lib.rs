//! Keru is an experimental graphical user interface library.
//!
//! This crate holds the parts of the library that decide things: node keys and
//! key scopes, the node tree and its keyboard-focus navigation, hit-test
//! resolution, mouse event bookkeeping, change tracking and a slab of plain
//! GPU-ready elements.

mod fxhash;
pub use fxhash::{fx_hash_two_u64, fx_add_to_hash, fx_finish, fx_multiplier, two_pow_64,
    fx_hash_two_u32, fx_add_to_hash_32, fx_finish_32, fx_multiplier_32, two_pow_32, fx_write_u64_32, fx_hash_two_spec, fx_hash_u64_u32_spec};

mod math;
pub use math::{Axis, Xy, lemma_other_involutive};

mod ids;
pub use ids::{Id, StateId, NodeI, root_i, dummy_i};

mod sense;
pub use sense::{Sense, lemma_contains_single_flag_intersects};

mod keys;
pub use keys::{NodeType, Any, TextNodeType, Container, TextTrait, ParentTrait, TypedKey, NodeKey, StateKey, KeyScopes, resolved_id, twin_id_spec, lemma_push_pop_restores, lemma_same_scope_same_ids};

mod podslab;
pub use podslab::{PodSlabMetadata, PodSlabElement, PodSlab, lemma_get_after_insert, lemma_insert_reuses_removed};

mod nodes;
pub use nodes::{TextI, Interact, NodeParams, InnerNode, Nodes, root_params, lemma_key_found_again_next_frame, lemma_second_use_makes_a_twin,
    full_chain, marked_exiting, mark_tree, mark_chain, exit_spec, same_shapes};

mod navigation;

mod targets;
pub use targets::Targets;

mod mouse_events;
pub use mouse_events::{MouseButton, InputEvent, Pending, EventView, PendingView, MouseInput, lemma_drag_events_chain,
    lemma_release_events_split, lemma_release_one, lemma_other_buttons, lemma_scroll_deltas_split, lemma_frame_drag_events_split};

mod changes;
pub use changes::{NodeWithDepth, Changes};

mod observer;
pub use observer::{Changed, ObserverClock, Observer, lemma_set_counts_as_changed, lemma_const_never_changed, lemma_later_observer_is_newer};

mod hits;
pub use hits::{ClickRect, HitFilter, PressHits, hit_filter_matches, scan_hits, scan_press_hits, drop_target_hit,
    lemma_absorbing_node_hides_below, lemma_press_targets_sense, lemma_absorbing_drag_hides_below,
    lemma_topmost_is_last_hit, lemma_absorbing_click_hides_below, lemma_press_targets_are_hit};

mod ui;
pub use ui::{TextFocusCommand, HoverChange, ScrollStep, Ui, AccessKitAction, NamedKey, UiParent, UiKeyScope,
    lemma_write_is_seen, lemma_hovered_are_hit, lemma_write_seen_after_frame_ends};

mod params;
pub use params::{VerticalTextAlignment, ChildrenCanHide, SlideEdge, SlideDirection, StateTransition, HorizontalOrigin, VerticalOrigin,
    GridElement, Direction, GridFlow, Arrange, Stack, TextOptions, NodeText, ImageData, Image, ImageSourceId, Cap, Join,
    Static, Immut, MaybeObservedText};

mod grid;
pub use grid::{OccModel, GridOccupancy, to_occ_spans, from_occ, apply_reversal, grid_assign_cells};
mod layout_graph;
pub use layout_graph::{SizeKind, SizeType, GraphElement, LayoutDependency, DeclaredSizes, ChildrenLayoutKind, LayoutNode, ParentNodeInfo, LayoutGraph,
    lemma_node_deps_local, lemma_parent_deps_local};
mod layout_solve;
pub use layout_solve::{LayoutSolver, lemma_run_yields_unsolved};

mod text;
pub use text::{TextKind, TextWidgetAction, TextVerdict, TextUpdate, text_widget_step, text_verdict, text_update_step};

mod access;
pub use access::{visible_chain, access_entry, access_preorder, access_forest, entry_view, lemma_visible_children};
