use emulator_core::components::{And, Component, Constant, DebugOutput, Fork, Not, Or, Xor};
use emulator_core::graph::{ComponentId, Graph, PropagateResult, Slot, TypedId};

fn probe_state(g: &Graph, id: ComponentId) -> bool {
    let typed: TypedId<DebugOutput> = TypedId::from_id(id);
    g.get_typed(&typed).expect("probe is live").state
}

fn set_constant(g: &mut Graph, id: ComponentId, value: bool) {
    g.update_comp(id, Component::Constant(Constant { state: value }));
}

fn gate_output(c: Component, in0: bool, in1: Option<bool>) -> bool {
    let mut g = Graph::new();
    let a = g.add_comp(Component::Constant(Constant { state: in0 }));
    let gate = g.add_comp(c);
    let out = g.add_comp(Component::DebugOutput(DebugOutput { state: false }));
    g.add_conn(a, 0, gate, 0);
    match in1 {
        Some(v) => {
            let b = g.add_comp(Component::Constant(Constant { state: v }));
            g.add_conn(b, 0, gate, 1);
            g.add_conn(gate, 0, out, 0);
            assert_eq!(g.propagate_from(a), PropagateResult::Settled);
            assert_eq!(g.propagate_from(b), PropagateResult::Settled);
        },
        None => {
            g.add_conn(gate, 0, out, 0);
            assert_eq!(g.propagate_from(a), PropagateResult::Settled);
        },
    }
    // propagation revisits only nodes whose input changed, so the
    // gate needs one run of its own
    assert_eq!(g.propagate_from(gate), PropagateResult::Settled);
    probe_state(&g, out)
}

#[test]
fn and_truth_table() {
    for (a, b) in [(false, false), (false, true), (true, false), (true, true)] {
        assert_eq!(gate_output(Component::And(And), a, Some(b)), a && b);
    }
}

#[test]
fn or_truth_table() {
    for (a, b) in [(false, false), (false, true), (true, false), (true, true)] {
        assert_eq!(gate_output(Component::Or(Or), a, Some(b)), a || b);
    }
}

#[test]
fn xor_truth_table() {
    for (a, b) in [(false, false), (false, true), (true, false), (true, true)] {
        assert_eq!(gate_output(Component::Xor(Xor), a, Some(b)), a != b);
    }
}

#[test]
fn not_truth_table() {
    for a in [false, true] {
        assert_eq!(gate_output(Component::Not(Not), a, None), !a);
    }
}

struct HalfAdder {
    graph: Graph,
    a: ComponentId,
    b: ComponentId,
    out_sum: ComponentId,
    out_carry: ComponentId,
}

fn build_half_adder() -> HalfAdder {
    let mut g = Graph::new();
    let a = g.add_comp(Component::Constant(Constant { state: false }));
    let a_fork = g.add_comp(Component::Fork(Fork::new(1, 2)));
    let b = g.add_comp(Component::Constant(Constant { state: false }));
    let b_fork = g.add_comp(Component::Fork(Fork::new(1, 2)));
    let xor = g.add_comp(Component::Xor(Xor));
    let and = g.add_comp(Component::And(And));
    let out_sum = g.add_comp(Component::DebugOutput(DebugOutput { state: false }));
    let out_carry = g.add_comp(Component::DebugOutput(DebugOutput { state: false }));

    g.add_conn(a, 0, a_fork, 0);
    g.add_conn(b, 0, b_fork, 0);
    g.add_conn(a_fork, 0, and, 0);
    g.add_conn(a_fork, 1, xor, 0);
    g.add_conn(b_fork, 0, and, 1);
    g.add_conn(b_fork, 1, xor, 1);
    g.add_conn(and, 0, out_carry, 0);
    g.add_conn(xor, 0, out_sum, 0);

    assert_eq!(g.propagate_from(a), PropagateResult::Settled);
    assert_eq!(g.propagate_from(b), PropagateResult::Settled);
    HalfAdder { graph: g, a, b, out_sum, out_carry }
}

#[test]
fn half_adder_scenario() {
    let mut ha = build_half_adder();
    assert!(!probe_state(&ha.graph, ha.out_sum));
    assert!(!probe_state(&ha.graph, ha.out_carry));

    set_constant(&mut ha.graph, ha.a, true);
    assert_eq!(ha.graph.propagate_from(ha.a), PropagateResult::Settled);
    assert!(probe_state(&ha.graph, ha.out_sum));
    assert!(!probe_state(&ha.graph, ha.out_carry));

    set_constant(&mut ha.graph, ha.b, true);
    assert_eq!(ha.graph.propagate_from(ha.b), PropagateResult::Settled);
    assert!(!probe_state(&ha.graph, ha.out_sum));
    assert!(probe_state(&ha.graph, ha.out_carry));
}

#[test]
fn half_adder_idempotent_after_settle() {
    let mut ha = build_half_adder();
    set_constant(&mut ha.graph, ha.a, true);
    assert_eq!(ha.graph.propagate_from(ha.a), PropagateResult::Settled);
    let sum = probe_state(&ha.graph, ha.out_sum);
    let carry = probe_state(&ha.graph, ha.out_carry);
    let a_out = ha.graph.get_output_bit(ha.a, 0);

    // a settled circuit does not move when propagated again
    for _ in 0..3 {
        assert_eq!(ha.graph.propagate_from(ha.a), PropagateResult::Settled);
        assert_eq!(probe_state(&ha.graph, ha.out_sum), sum);
        assert_eq!(probe_state(&ha.graph, ha.out_carry), carry);
        assert_eq!(ha.graph.get_output_bit(ha.a, 0), a_out);
    }
}

#[test]
fn half_adder_deterministic() {
    let mut first = build_half_adder();
    let mut second = build_half_adder();
    for toggle_a in [true, false, true] {
        let (ta, tb) = if toggle_a { (true, false) } else { (false, true) };
        if ta {
            set_constant(&mut first.graph, first.a, true);
            set_constant(&mut second.graph, second.a, true);
            first.graph.propagate_from(first.a);
            second.graph.propagate_from(second.a);
        }
        if tb {
            set_constant(&mut first.graph, first.b, true);
            set_constant(&mut second.graph, second.b, true);
            first.graph.propagate_from(first.b);
            second.graph.propagate_from(second.b);
        }
        assert_eq!(probe_state(&first.graph, first.out_sum), probe_state(&second.graph, second.out_sum));
        assert_eq!(probe_state(&first.graph, first.out_carry), probe_state(&second.graph, second.out_carry));
    }
}

struct SrLatch {
    graph: Graph,
    r: ComponentId,
    s: ComponentId,
    out_q: ComponentId,
    out_not_q: ComponentId,
}

fn build_sr_latch() -> SrLatch {
    let mut g = Graph::new();
    let r = g.add_comp(Component::Constant(Constant { state: false }));
    let s = g.add_comp(Component::Constant(Constant { state: false }));

    let top_or = g.add_comp(Component::Or(Or));
    let top_not = g.add_comp(Component::Not(Not));
    let top_fork = g.add_comp(Component::Fork(Fork::new(1, 2)));
    g.add_conn(r, 0, top_or, 0);
    g.add_conn(top_or, 0, top_not, 0);
    g.add_conn(top_not, 0, top_fork, 0);

    let bot_or = g.add_comp(Component::Or(Or));
    let bot_not = g.add_comp(Component::Not(Not));
    let bot_fork = g.add_comp(Component::Fork(Fork::new(1, 2)));
    g.add_conn(s, 0, bot_or, 0);
    g.add_conn(bot_or, 0, bot_not, 0);
    g.add_conn(bot_not, 0, bot_fork, 0);

    let out_q = g.add_comp(Component::DebugOutput(DebugOutput { state: false }));
    let out_not_q = g.add_comp(Component::DebugOutput(DebugOutput { state: false }));
    g.add_conn(top_fork, 0, out_q, 0);
    g.add_conn(top_fork, 1, bot_or, 1);
    g.add_conn(bot_fork, 0, out_not_q, 0);
    g.add_conn(bot_fork, 1, top_or, 1);

    g.propagate_from(r);
    g.propagate_from(top_or);
    g.propagate_from(top_not);
    g.propagate_from(top_fork);
    g.propagate_from(s);
    g.propagate_from(bot_or);
    g.propagate_from(bot_not);
    g.propagate_from(bot_fork);
    SrLatch { graph: g, r, s, out_q, out_not_q }
}

#[test]
fn sr_latch_scenario() {
    let mut latch = build_sr_latch();
    // after settling with R = S = 0 the outputs are a complementary pair
    let q0 = probe_state(&latch.graph, latch.out_q);
    assert_eq!(probe_state(&latch.graph, latch.out_not_q), !q0);

    // pulse S: set, then release
    set_constant(&mut latch.graph, latch.s, true);
    latch.graph.propagate_from(latch.s);
    set_constant(&mut latch.graph, latch.s, false);
    latch.graph.propagate_from(latch.s);
    let q_after_s = probe_state(&latch.graph, latch.out_q);
    assert_eq!(probe_state(&latch.graph, latch.out_not_q), !q_after_s);

    // pulse R: reset, then release
    set_constant(&mut latch.graph, latch.r, true);
    latch.graph.propagate_from(latch.r);
    set_constant(&mut latch.graph, latch.r, false);
    latch.graph.propagate_from(latch.r);
    let q_after_r = probe_state(&latch.graph, latch.out_q);
    assert_eq!(probe_state(&latch.graph, latch.out_not_q), !q_after_r);

    // the reset pulse flipped the latch relative to the set pulse
    assert_eq!(q_after_r, !q_after_s);

    // and the state is latched: the same holds after propagating again
    latch.graph.propagate_from(latch.r);
    assert_eq!(probe_state(&latch.graph, latch.out_q), q_after_r);
}

#[test]
fn not_loop_hits_ceiling() {
    let mut g = Graph::new();
    let not = g.add_comp(Component::Not(Not));
    g.add_conn(not, 0, not, 0);
    // an oscillating loop terminates with a report instead of hanging
    assert_eq!(g.propagate_from(not), PropagateResult::CeilingHit);
    // the graph is still usable afterwards
    assert!(g.get_comp(not).is_some());
    assert_eq!(g.propagate_from(not), PropagateResult::CeilingHit);
}

#[test]
fn remove_component_clears_neighbor_slots() {
    let mut g = Graph::new();
    let a = g.add_comp(Component::Constant(Constant { state: true }));
    let and = g.add_comp(Component::And(And));
    let b = g.add_comp(Component::Constant(Constant { state: true }));
    let out = g.add_comp(Component::DebugOutput(DebugOutput { state: false }));
    g.add_conn(a, 0, and, 0);
    g.add_conn(b, 0, and, 1);
    g.add_conn(and, 0, out, 0);
    g.propagate_from(a);
    g.propagate_from(b);
    assert!(probe_state(&g, out));

    g.remove_comp(and);
    // the handle is stale now
    assert!(g.get_comp(and).is_none());
    // every neighboring slot that referenced it is empty
    assert_eq!(g.get_output_slot(a, 0), Some(None));
    assert_eq!(g.get_output_slot(b, 0), Some(None));
    assert_eq!(g.get_input_slot(out, 0), Some(None));
    // propagating a neighbor afterwards settles and writes nothing to the removed id
    assert_eq!(g.propagate_from(a), PropagateResult::Settled);
    assert_eq!(g.get_input_bit(and, 0), None);
    assert_eq!(g.get_output_bit(and, 0), None);
}

#[test]
fn fork_broadcasts_any_input() {
    for live_input in [0, 1] {
        let mut g = Graph::new();
        let a = g.add_comp(Component::Constant(Constant { state: false }));
        let fork = g.add_comp(Component::Fork(Fork::new(2, 3)));
        let p0 = g.add_comp(Component::DebugOutput(DebugOutput { state: false }));
        let p1 = g.add_comp(Component::DebugOutput(DebugOutput { state: false }));
        let p2 = g.add_comp(Component::DebugOutput(DebugOutput { state: false }));
        g.add_conn(a, 0, fork, live_input);
        g.add_conn(fork, 0, p0, 0);
        g.add_conn(fork, 1, p1, 0);
        g.add_conn(fork, 2, p2, 0);
        g.propagate_from(a);
        assert!(!probe_state(&g, p0));

        set_constant(&mut g, a, true);
        assert_eq!(g.propagate_from(a), PropagateResult::Settled);
        // one live input drives every output
        assert!(probe_state(&g, p0));
        assert!(probe_state(&g, p1));
        assert!(probe_state(&g, p2));
    }
}

#[test]
fn stale_handles_never_resolve_again() {
    let mut g = Graph::new();
    let a = g.add_comp(Component::Constant(Constant { state: true }));
    g.remove_comp(a);
    assert!(g.get_comp(a).is_none());
    // the arena slot is reused, but the old handle stays stale
    let b = g.add_comp(Component::Not(Not));
    assert!(g.get_comp(a).is_none());
    assert!(g.get_comp(b).is_some());
    assert_ne!(a, b);
}

#[test]
fn typed_handles_check_the_variant() {
    let mut g = Graph::new();
    let a = g.add_comp(Component::Constant(Constant { state: true }));
    let as_constant: TypedId<Constant> = TypedId::from_id(a);
    let as_gate: TypedId<And> = TypedId::from_id(a);
    assert_eq!(g.get_typed(&as_constant).map(|c| c.state), Some(true));
    assert!(g.get_typed(&as_gate).is_none());
    assert_eq!(as_constant.to_id(), a);
}

#[test]
fn wiring_is_recorded_on_both_ends() {
    let mut g = Graph::new();
    let a = g.add_comp(Component::Constant(Constant { state: false }));
    let n = g.add_comp(Component::Not(Not));
    g.add_conn(a, 0, n, 0);
    assert_eq!(
        g.get_output_slot(a, 0),
        Some(Some(Slot { target_node: n, target_slot: 0 }))
    );
    assert_eq!(
        g.get_input_slot(n, 0),
        Some(Some(Slot { target_node: a, target_slot: 0 }))
    );
}

#[test]
fn add_conn_severs_displaced_connections() {
    let mut g = Graph::new();
    let a = g.add_comp(Component::Constant(Constant { state: false }));
    let b = g.add_comp(Component::Constant(Constant { state: false }));
    let n = g.add_comp(Component::Not(Not));
    g.add_conn(a, 0, n, 0);
    g.add_conn(b, 0, n, 0);
    // the displaced driver lost its record of the edge
    assert_eq!(g.get_output_slot(a, 0), Some(None));
    assert_eq!(
        g.get_input_slot(n, 0),
        Some(Some(Slot { target_node: b, target_slot: 0 }))
    );
}

#[test]
fn remove_conn_only_severs_the_named_connection() {
    let mut g = Graph::new();
    let a = g.add_comp(Component::Constant(Constant { state: false }));
    let b = g.add_comp(Component::Constant(Constant { state: false }));
    let n = g.add_comp(Component::Xor(Xor));
    g.add_conn(a, 0, n, 0);
    g.add_conn(b, 0, n, 1);
    // not recorded: nothing happens
    g.remove_conn(a, 0, n, 1);
    assert_eq!(
        g.get_output_slot(a, 0),
        Some(Some(Slot { target_node: n, target_slot: 0 }))
    );
    // recorded: both ends cleared
    g.remove_conn(a, 0, n, 0);
    assert_eq!(g.get_output_slot(a, 0), Some(None));
    assert_eq!(g.get_input_slot(n, 0), Some(None));
    assert_eq!(
        g.get_input_slot(n, 1),
        Some(Some(Slot { target_node: b, target_slot: 0 }))
    );
}

#[test]
fn growing_a_fork_keeps_state_in_step() {
    let mut g = Graph::new();
    let fork = g.add_comp(Component::Fork(Fork::new(1, 1)));
    g.add_input_slot(fork);
    g.add_output_slot(fork);
    let typed: TypedId<Fork> = TypedId::from_id(fork);
    let f = g.get_typed(&typed).unwrap();
    assert_eq!(f.input_size, 2);
    assert_eq!(f.output_size, 2);
    // the new slots exist, unconnected and zero
    assert_eq!(g.get_input_slot(fork, 1), Some(None));
    assert_eq!(g.get_output_slot(fork, 1), Some(None));
    assert_eq!(g.get_input_bit(fork, 1), Some(false));
    assert_eq!(g.get_output_bit(fork, 1), Some(false));
    // out of range stays out of range
    assert_eq!(g.get_input_bit(fork, 2), None);
}

#[test]
fn raw_bit_vectors_match_per_bit_reads() {
    let mut g = Graph::new();
    let a = g.add_comp(Component::Constant(Constant { state: true }));
    let x = g.add_comp(Component::Xor(Xor));
    g.add_conn(a, 0, x, 0);
    g.propagate_from(a);
    assert_eq!(g.get_inputs(x), Some(vec![true, false]));
    assert_eq!(g.get_outputs(a), Some(vec![true]));
    assert_eq!(g.get_input_bit(x, 0), Some(true));
    assert_eq!(g.get_input_bit(x, 1), Some(false));
    let gone = a;
    g.remove_comp(a);
    assert_eq!(g.get_inputs(gone), None);
    assert_eq!(g.get_outputs(gone), None);
}

#[test]
fn live_ids_track_additions_and_removals() {
    let mut g = Graph::new();
    assert!(g.live_ids().is_empty());
    let a = g.add_comp(Component::Constant(Constant { state: false }));
    let b = g.add_comp(Component::Not(Not));
    assert_eq!(g.live_ids(), vec![a, b]);
    g.remove_comp(a);
    assert_eq!(g.live_ids(), vec![b]);
    let c = g.add_comp(Component::And(And));
    let ids = g.live_ids();
    assert_eq!(ids.len(), 2);
    assert!(ids.contains(&b) && ids.contains(&c));
    assert!(!ids.contains(&a));
}

#[test]
fn component_arities() {
    assert_eq!(Component::And(And).input_size(), 2);
    assert_eq!(Component::And(And).output_size(), 1);
    assert_eq!(Component::Or(Or).input_size(), 2);
    assert_eq!(Component::Xor(Xor).input_size(), 2);
    assert_eq!(Component::Not(Not).input_size(), 1);
    assert_eq!(Component::Not(Not).output_size(), 1);
    assert_eq!(Component::Constant(Constant { state: false }).input_size(), 0);
    assert_eq!(Component::Constant(Constant { state: false }).output_size(), 1);
    assert_eq!(Component::DebugOutput(DebugOutput { state: false }).input_size(), 1);
    assert_eq!(Component::DebugOutput(DebugOutput { state: false }).output_size(), 0);
    assert_eq!(Component::Fork(Fork::new(3, 5)).input_size(), 3);
    assert_eq!(Component::Fork(Fork::new(3, 5)).output_size(), 5);
}
