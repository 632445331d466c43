use emulator_core::actions::{component_from_choosen, ActionState, ChoosenComponent, Mode};
use emulator_core::components::{And, Component, Constant, DebugOutput, Fork, Not};
use emulator_core::nodegraph::get_size;
use emulator_core::modes::{AddingOptions, EditingOptions, Mode as EditorMode, ModeState};
use emulator_core::nodegraph::{CableEnd, CableIntersection, ComponentIntersection, ComponentNode};
use emulator_core::selection::{Selection, SelectionAction, SelectionState};
use emulator_core::util::{irect, ivec2, IRect, IVec2};

#[test]
fn slots_pos_test() {
    let comp =
        ComponentNode::new(IRect::new(ivec2(0, 0), ivec2(0, 6)), 0).with_default_slots(2, 1);

    assert_eq!(comp.input_slots, vec![ivec2(0, 2), ivec2(0, 4)]);
    assert_eq!(comp.output_slots, vec![ivec2(0, 3)]);
}

#[test]
fn default_slots_size_cable_arrays() {
    let comp =
        ComponentNode::new(IRect::new(ivec2(0, 0), ivec2(4, 12)), 7).with_default_slots(3, 2);
    assert_eq!(comp.input_cables, vec![None, None, None]);
    assert_eq!(comp.output_cables, vec![None, None]);
    assert_eq!(comp.base_entry_rid, 7);
    // output points sit on the right edge
    assert_eq!(comp.output_slots, vec![ivec2(4, 4), ivec2(4, 8)]);
}

#[test]
fn move_middle_centers_the_rect() {
    let mut comp = ComponentNode::new(IRect::new(ivec2(0, 0), ivec2(4, 6)), 0);
    comp.move_middle(ivec2(10, 10));
    assert_eq!(comp.rect.pos, ivec2(8, 7));
    assert_eq!(comp.rect.size, ivec2(4, 6));
}

#[test]
fn exact_intersection_finds_slots_then_body() {
    let comp =
        ComponentNode::new(IRect::new(ivec2(10, 10), ivec2(0, 6)), 0).with_default_slots(2, 1);
    assert_eq!(
        comp.intersection_test_exact(ivec2(10, 12)),
        Some(ComponentIntersection::InputSlot(0))
    );
    assert_eq!(
        comp.intersection_test_exact(ivec2(10, 14)),
        Some(ComponentIntersection::InputSlot(1))
    );
    // inside the (degenerate) rectangle but on no slot
    assert_eq!(
        comp.intersection_test_exact(ivec2(10, 11)),
        Some(ComponentIntersection::Inside)
    );
    assert_eq!(comp.intersection_test_exact(ivec2(9, 12)), None);
}

#[test]
fn exact_intersection_prefers_inputs_over_outputs() {
    // input point 0 and output point 0 coincide on a zero-width box
    let comp =
        ComponentNode::new(IRect::new(ivec2(0, 0), ivec2(0, 4)), 0).with_default_slots(1, 1);
    assert_eq!(comp.input_slots[0], comp.output_slots[0]);
    assert_eq!(
        comp.intersection_test_exact(ivec2(0, 2)),
        Some(ComponentIntersection::InputSlot(0))
    );
}

#[test]
fn rect_contains_is_a_closed_range() {
    let r = irect(ivec2(-2, -2), ivec2(4, 4));
    assert!(r.contains(ivec2(-2, -2)));
    assert!(r.contains(ivec2(2, 2)));
    assert!(r.contains(ivec2(0, 0)));
    assert!(!r.contains(ivec2(3, 0)));
    assert!(!r.contains(ivec2(0, -3)));
}

#[test]
fn ivec2_constructors_agree() {
    assert_eq!(ivec2(3, -4), IVec2::new(3, -4));
    let r = IRect::new(ivec2(1, 2), ivec2(3, 4));
    assert_eq!(irect(ivec2(1, 2), ivec2(3, 4)), r);
}

#[test]
fn cable_end_opposite_flips() {
    assert!(matches!(CableEnd::First.opposite(), CableEnd::Last));
    assert!(matches!(CableEnd::Last.opposite(), CableEnd::First));
    let x = CableIntersection::OnPoint(3);
    assert_eq!(x, CableIntersection::OnPoint(3));
    assert_ne!(x, CableIntersection::OnSegment(3));
}

#[test]
fn choosen_component_maps_to_catalogue() {
    assert_eq!(
        component_from_choosen(ChoosenComponent::Constant),
        Component::Constant(Constant { state: false })
    );
    assert!(matches!(component_from_choosen(ChoosenComponent::And), Component::And(_)));
    assert!(matches!(component_from_choosen(ChoosenComponent::Or), Component::Or(_)));
    assert!(matches!(component_from_choosen(ChoosenComponent::Not), Component::Not(_)));
    assert!(matches!(
        component_from_choosen(ChoosenComponent::DebugOutput),
        Component::DebugOutput(_)
    ));
}

#[test]
fn selection_emptiness() {
    let mut sel = Selection::default();
    assert!(sel.is_empty());
    sel.comps.push(emulator_core::graph::Graph::new().add_comp(Component::Constant(
        Constant { state: false },
    )));
    assert!(!sel.is_empty());
    let state = SelectionState::default();
    assert_eq!(state.action, SelectionAction::Nothing);
    assert!(state.selection.is_empty());
}

#[test]
fn component_footprints() {
    assert_eq!(get_size(&Component::And(And)), ivec2(4, 6));
    assert_eq!(get_size(&Component::Not(Not)), ivec2(4, 6));
    assert_eq!(
        get_size(&Component::DebugOutput(DebugOutput { state: false })),
        ivec2(2, 2)
    );
    assert_eq!(get_size(&Component::Fork(Fork::new(2, 5))), ivec2(6, 6));
    assert_eq!(get_size(&Component::Fork(Fork::new(3, 1))), ivec2(6, 4));
}

#[test]
fn mode_defaults() {
    let m = ModeState::default();
    assert_eq!(m.mode, EditorMode::Running);
    assert_eq!(m.add_opt, AddingOptions::Cable);
    assert!(matches!(m.edit_opt, EditingOptions::Basic));
    assert_eq!(Mode::default(), Mode::Running);
    assert!(matches!(ActionState::default(), ActionState::Idle));
}
