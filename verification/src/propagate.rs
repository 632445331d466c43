//! The mathematical model of the propagation engine.
//!
//! `spec_run` is a step-by-step image of the worklist algorithm: a
//! FIFO queue of nodes awaiting re-evaluation, a staged input vector
//! per queued node, and a step counter bounded by the ceiling.  The
//! executable engine is proved to compute exactly `spec_propagate` of
//! its starting state, which also settles that propagation is
//! deterministic.

use vstd::prelude::*;

use crate::components::{comp_eval, Component};
use crate::graph::Slot;

verus! {

/// Bound on node evaluations in one propagation run: oscillating
/// feedback loops are cut off rather than allowed to run forever.
pub const MAX_PROPAGATION_DEPTH: usize = 10000;

/// The mutable face of a graph during a run, indexed by arena slot:
/// the component instances, the output wiring, and the recorded
/// input and output bits.  (Input wiring never matters to a run.)
#[verifier::ext_equal]
pub ghost struct FlatState {
    pub comps: Seq<Option<Component>>,
    pub out_slots: Seq<Seq<Option<Slot>>>,
    pub inputs: Seq<Seq<bool>>,
    pub outputs: Seq<Seq<bool>>,
}

/// The staged input a queued node would be evaluated with: its
/// staged vector when queued, its recorded input otherwise.
pub open spec fn eff_input(
    st: FlatState,
    staged: Seq<Option<Seq<bool>>>,
    t: int,
) -> Seq<bool> {
    match staged[t] {
        Some(v) => v,
        None => st.inputs[t],
    }
}

/// One evaluated node forwarding its outputs: walks the node's
/// output slots from position `j`, and for every connected slot
/// whose masked bit differs from the target's effective input,
/// stages the target (enqueueing it when not yet queued) and writes
/// the bit into its staged input.
pub open spec fn spec_forward(
    st: FlatState,
    staged: Seq<Option<Seq<bool>>>,
    queue: Seq<int>,
    slots: Seq<Option<Slot>>,
    out: Seq<bool>,
    mask: Seq<bool>,
    j: nat,
) -> (Seq<Option<Seq<bool>>>, Seq<int>)
    decreases slots.len() - j,
    when j <= slots.len()
{
    if j >= slots.len() {
        (staged, queue)
    } else {
        let sq = match slots[j as int] {
            None => (staged, queue),
            Some(slot) => {
                let t = slot.target_node.idx();
                let ts = slot.target_slot as int;
                let bit = out[j as int] && mask[j as int];
                if bit != eff_input(st, staged, t)[ts] {
                    let base_q = match staged[t] {
                        Some(v) => (v, queue),
                        None => (st.inputs[t], queue.push(t)),
                    };
                    (staged.update(t, Some(base_q.0.update(ts, bit))), base_q.1)
                } else {
                    (staged, queue)
                }
            },
        };
        spec_forward(st, sq.0, sq.1, slots, out, mask, (j + 1) as nat)
    }
}

/// The all-ones mask handed to a component before it runs.
pub open spec fn full_mask(len: nat) -> Seq<bool> {
    Seq::new(len, |i: int| true)
}

/// The worklist algorithm itself.  Each round pops the queue's
/// front, counts a step (giving up when the ceiling is passed),
/// commits the node's staged input, runs its transfer function, and
/// forwards changed bits; the run ends at quiescence or at the
/// ceiling.  The boolean of the result records whether the ceiling
/// was hit.
pub open spec fn spec_run(
    st: FlatState,
    staged: Seq<Option<Seq<bool>>>,
    queue: Seq<int>,
    depth: nat,
) -> (FlatState, bool)
    decreases MAX_PROPAGATION_DEPTH + 1 - depth,
    when depth <= MAX_PROPAGATION_DEPTH
{
    if queue.len() == 0 {
        (st, false)
    } else if depth + 1 > MAX_PROPAGATION_DEPTH {
        (st, true)
    } else {
        let n = queue[0];
        let s = eff_input(st, staged, n);
        let staged1 = staged.update(n, None::<Seq<bool>>);
        let c = match st.comps[n] {
            Some(c) => c,
            None => Component::Constant(crate::components::Constant { state: false }),
        };
        let e = comp_eval(c, st.inputs[n], s, st.outputs[n], full_mask(st.out_slots[n].len()));
        let st2 = FlatState {
            comps: st.comps.update(n, Some(e.0)),
            inputs: st.inputs.update(n, s),
            outputs: st.outputs.update(n, e.1),
            out_slots: st.out_slots,
        };
        let sq = spec_forward(st2, staged1, queue.drop_first(), st.out_slots[n], e.1, e.2, 0);
        spec_run(st2, sq.0, sq.1, depth + 1)
    }
}

/// The staging store a run starts with: only the seed staged, with
/// its recorded input unchanged.
pub open spec fn seed_staged(st: FlatState, seed: int) -> Seq<Option<Seq<bool>>> {
    Seq::new(
        st.inputs.len(),
        |i: int| if i == seed {
            Some(st.inputs[seed])
        } else {
            None::<Seq<bool>>
        },
    )
}

/// A whole run seeded at arena slot `seed`: the seed starts queued
/// with its recorded input staged unchanged.
pub open spec fn spec_propagate(st: FlatState, seed: int) -> (FlatState, bool) {
    spec_run(st, seed_staged(st, seed), seq![seed], 0)
}

/// The dimensions of one live node agree: state vectors sized to
/// the component's arity, and every connected output slot pointing
/// at a live node and an input position that exists.
pub open spec fn node_dims_ok(st: FlatState, n: int) -> bool {
    &&& st.inputs[n].len() == crate::components::spec_input_size(st.comps[n].unwrap())
    &&& st.outputs[n].len() == crate::components::spec_output_size(st.comps[n].unwrap())
    &&& st.out_slots[n].len() == crate::components::spec_output_size(st.comps[n].unwrap())
    &&& (forall|j: int|
        0 <= j < st.out_slots[n].len() ==> match #[trigger] st.out_slots[n][j] {
            Some(slot) => {
                &&& 0 <= slot.target_node.idx() < st.inputs.len()
                &&& st.comps[slot.target_node.idx()] is Some
                &&& (slot.target_slot as int) < st.inputs[slot.target_node.idx()].len()
            },
            None => true,
        })
}

/// Dimensional well-formedness of a whole state.
pub open spec fn flat_wf(st: FlatState) -> bool {
    &&& st.comps.len() == st.inputs.len()
    &&& st.out_slots.len() == st.inputs.len()
    &&& st.outputs.len() == st.inputs.len()
    &&& (forall|n: int|
        0 <= n < st.inputs.len() && st.comps[n] is Some ==> #[trigger] node_dims_ok(st, n))
}

/// Each input position has at most one driver: two connected output
/// slots never point at the same input position.  (In the graph this
/// follows from the two-sided edge records.)
pub open spec fn drivers_unique(st: FlatState) -> bool {
    forall|n1: int, j1: int, n2: int, j2: int|
        #![trigger st.out_slots[n1][j1], st.out_slots[n2][j2]]
        (0 <= n1 < st.out_slots.len() && st.comps[n1] is Some && 0 <= j1 < st.out_slots[n1].len()
            && 0 <= n2 < st.out_slots.len() && st.comps[n2] is Some && 0 <= j2
            < st.out_slots[n2].len() && st.out_slots[n1][j1] is Some && st.out_slots[n2][j2]
            is Some && st.out_slots[n1][j1].unwrap().target_node.idx()
            == st.out_slots[n2][j2].unwrap().target_node.idx()
            && st.out_slots[n1][j1].unwrap().target_slot
            == st.out_slots[n2][j2].unwrap().target_slot) ==> n1 == n2 && j1 == j2
}

/// Re-evaluating node `n` on its recorded input would reproduce its
/// component and outputs exactly.
pub open spec fn eval_noop(st: FlatState, n: int) -> bool {
    let c = st.comps[n].unwrap();
    let e = comp_eval(
        c,
        st.inputs[n],
        st.inputs[n],
        st.outputs[n],
        full_mask(st.out_slots[n].len()),
    );
    &&& e.0 == c
    &&& e.1 == st.outputs[n]
}

/// One connected output bit of `n` agrees with the effective input
/// it drives.
pub open spec fn edge_quiet_at(
    st: FlatState,
    staged: Seq<Option<Seq<bool>>>,
    n: int,
    j: int,
) -> bool {
    match st.out_slots[n][j] {
        Some(slot) => st.outputs[n][j] == eff_input(st, staged, slot.target_node.idx())[slot.target_slot as int],
        None => true,
    }
}

/// A node is settled: re-evaluating it would change nothing it
/// owns, and every bit it drives already stands at the driven input.
pub open spec fn node_settled(st: FlatState, n: int) -> bool {
    &&& st.comps[n] is Some
    &&& eval_noop(st, n)
    &&& (forall|j: int|
        0 <= j < st.out_slots[n].len() ==> match #[trigger] st.out_slots[n][j] {
            Some(slot) => st.outputs[n][j] == st.inputs[slot.target_node.idx()][slot.target_slot as int],
            None => true,
        })
}

/// A staging store with nothing staged.
pub open spec fn no_staged(st: FlatState) -> Seq<Option<Seq<bool>>> {
    Seq::new(st.inputs.len(), |i: int| None::<Seq<bool>>)
}

/// Forwarding changes nothing when every connected bit already
/// agrees with the effective input it drives.
proof fn lemma_forward_noop(
    st: FlatState,
    staged: Seq<Option<Seq<bool>>>,
    queue: Seq<int>,
    slots: Seq<Option<Slot>>,
    out: Seq<bool>,
    mask: Seq<bool>,
    j: nat,
)
    requires
        j <= slots.len(),
        forall|j2: int|
            j <= j2 < slots.len() ==> match #[trigger] slots[j2] {
                Some(slot) => (out[j2] && mask[j2]) == eff_input(
                    st,
                    staged,
                    slot.target_node.idx(),
                )[slot.target_slot as int],
                None => true,
            },
    ensures
        spec_forward(st, staged, queue, slots, out, mask, j) == (staged, queue),
    decreases slots.len() - j,
{
    if j < slots.len() {
        lemma_forward_noop(st, staged, queue, slots, out, mask, (j + 1) as nat);
    }
}

/// Staged entries are well-sized and belong to live nodes.
pub open spec fn staged_ok(st: FlatState, staged: Seq<Option<Seq<bool>>>) -> bool {
    &&& staged.len() == st.inputs.len()
    &&& (forall|t: int|
        0 <= t < staged.len() && (#[trigger] staged[t]) is Some ==> st.comps[t] is Some
            && staged[t].unwrap().len() == st.inputs[t].len())
}

/// The queue holds exactly the staged nodes, each once.
pub open spec fn queue_ok(
    st: FlatState,
    staged: Seq<Option<Seq<bool>>>,
    queue: Seq<int>,
) -> bool {
    &&& (forall|k: int|
        0 <= k < queue.len() ==> 0 <= #[trigger] queue[k] < st.inputs.len()
            && staged[queue[k]] is Some)
    &&& (forall|k1: int, k2: int| 0 <= k1 < k2 < queue.len() ==> queue[k1] != queue[k2])
    &&& (forall|t: int|
        0 <= t < staged.len() && (#[trigger] staged[t]) is Some ==> queue.contains(t))
}

/// A node of the `done` set that is not currently staged again is
/// quiet: re-evaluation is a no-op and all its edges agree.
pub open spec fn done_quiet(
    st: FlatState,
    staged: Seq<Option<Seq<bool>>>,
    done: Set<int>,
    except: int,
) -> bool {
    forall|m: int|
        #![trigger done.contains(m)]
        done.contains(m) && m != except && 0 <= m < st.inputs.len() && st.comps[m] is Some
            && staged[m] is None ==> {
            &&& eval_noop(st, m)
            &&& (forall|j2: int|
                0 <= j2 < st.out_slots[m].len() ==> #[trigger] edge_quiet_at(st, staged, m, j2))
        }
}

/// Forwarding from an evaluated node keeps the run's bookkeeping
/// intact: staged vectors stay well-sized, the queue keeps matching
/// the staging store, quiet nodes stay quiet, and by the end every
/// edge of the forwarding node agrees with what it drove.
#[verifier::rlimit(60)]
proof fn lemma_forward_preserves(
    st: FlatState,
    staged: Seq<Option<Seq<bool>>>,
    queue: Seq<int>,
    n: int,
    j: nat,
    done: Set<int>,
)
    requires
        flat_wf(st),
        drivers_unique(st),
        0 <= n < st.inputs.len(),
        st.comps[n] is Some,
        staged_ok(st, staged),
        queue_ok(st, staged, queue),
        j <= st.out_slots[n].len(),
        forall|j2: int| 0 <= j2 < j ==> #[trigger] edge_quiet_at(st, staged, n, j2),
        done_quiet(st, staged, done, n),
    ensures
        ({
            let r = spec_forward(
                st,
                staged,
                queue,
                st.out_slots[n],
                st.outputs[n],
                full_mask(st.out_slots[n].len()),
                j,
            );
            &&& staged_ok(st, r.0)
            &&& queue_ok(st, r.0, r.1)
            &&& (forall|j2: int|
                0 <= j2 < st.out_slots[n].len() ==> #[trigger] edge_quiet_at(st, r.0, n, j2))
            &&& done_quiet(st, r.0, done, n)
            &&& (forall|t: int|
                0 <= t < staged.len() && (#[trigger] r.0[t]) is None ==> staged[t] is None)
        }),
    decreases st.out_slots[n].len() - j,
{
    let slots = st.out_slots[n];
    let out = st.outputs[n];
    let mask = full_mask(slots.len());
    assert(node_dims_ok(st, n));
    if j >= slots.len() {
    } else {
        let jj = j as int;
        match slots[jj] {
            None => {
                assert(edge_quiet_at(st, staged, n, jj));
                lemma_forward_preserves(st, staged, queue, n, (j + 1) as nat, done);
            },
            Some(slot) => {
                let t = slot.target_node.idx();
                let ts = slot.target_slot as int;
                assert(0 <= t < st.inputs.len() && st.comps[t] is Some && ts
                    < st.inputs[t].len());
                let bit = out[jj] && mask[jj];
                assert(mask[jj] == true);
                assert(bit == out[jj]);
                let eff = eff_input(st, staged, t);
                if bit != eff[ts] {
                    let base = match staged[t] {
                        Some(v) => v,
                        None => st.inputs[t],
                    };
                    assert(base == eff);
                    assert(base.len() == st.inputs[t].len());
                    let staged2 = staged.update(t, Some(base.update(ts, bit)));
                    let queue2 = if staged[t] is Some {
                        queue
                    } else {
                        queue.push(t)
                    };
                    assert(spec_forward(st, staged, queue, slots, out, mask, j) == spec_forward(
                        st,
                        staged2,
                        queue2,
                        slots,
                        out,
                        mask,
                        (j + 1) as nat,
                    ));
                    // the queue still matches the staging store
                    assert(queue_ok(st, staged2, queue2)) by {
                        if staged[t] is None {
                            assert(queue.push(t)[queue.len() as int] == t);
                            assert(queue.push(t).contains(t));
                            assert forall|k1: int, k2: int|
                                0 <= k1 < k2 < queue2.len() implies queue2[k1] != queue2[k2] by {
                                if k2 == queue.len() as int {
                                    assert(staged[queue[k1]] is Some);
                                }
                            }
                            assert forall|x: int|
                                0 <= x < staged2.len() && (#[trigger] staged2[x])
                                    is Some implies queue2.contains(x) by {
                                if x == t {
                                    assert(queue2[queue.len() as int] == t);
                                } else {
                                    assert(staged[x] is Some);
                                    let k = choose|k: int|
                                        0 <= k < queue.len() && queue[k] == x;
                                    assert(queue2[k] == x);
                                }
                            }
                        }
                    }
                    // the prefix of quiet edges extends by one
                    assert forall|j2: int|
                        0 <= j2 < j + 1 implies #[trigger] edge_quiet_at(st, staged2, n, j2) by {
                        if j2 == jj {
                            assert(eff_input(st, staged2, t)[ts] == bit);
                        } else {
                            assert(edge_quiet_at(st, staged, n, j2));
                            match slots[j2] {
                                Some(slot2) => {
                                    let t2 = slot2.target_node.idx();
                                    let ts2 = slot2.target_slot as int;
                                    if t2 == t {
                                        if ts2 == ts {
                                            assert(st.out_slots[n][j2] is Some
                                                && st.out_slots[n][jj] is Some);
                                            assert(false);
                                        } else {
                                            assert(eff_input(st, staged2, t)[ts2] == base[ts2]);
                                        }
                                    }
                                },
                                None => {},
                            }
                        }
                    }
                    // nodes already quiet stay quiet
                    assert(done_quiet(st, staged2, done, n)) by {
                        assert forall|m: int|
                            #![trigger done.contains(m)]
                            done.contains(m) && m != n && 0 <= m < st.inputs.len() && st.comps[m]
                                is Some && staged2[m] is None implies {
                            &&& eval_noop(st, m)
                            &&& (forall|j2: int|
                                0 <= j2 < st.out_slots[m].len() ==> #[trigger] edge_quiet_at(
                                    st,
                                    staged2,
                                    m,
                                    j2,
                                ))
                        } by {
                            assert(staged[m] is None);
                            assert(eval_noop(st, m));
                            assert forall|j3: int|
                                0 <= j3 < st.out_slots[m].len() implies #[trigger] edge_quiet_at(
                                st,
                                staged2,
                                m,
                                j3,
                            ) by {
                                assert(edge_quiet_at(st, staged, m, j3));
                                assert(node_dims_ok(st, m));
                                match st.out_slots[m][j3] {
                                    Some(slot3) => {
                                        let t3 = slot3.target_node.idx();
                                        let ts3 = slot3.target_slot as int;
                                        if t3 == t {
                                            if ts3 == ts {
                                                assert(st.out_slots[m][j3] is Some
                                                    && st.out_slots[n][jj] is Some);
                                                assert(m == n && j3 == jj);
                                                assert(false);
                                            } else {
                                                assert(eff_input(st, staged2, t)[ts3]
                                                    == base[ts3]);
                                            }
                                        }
                                    },
                                    None => {},
                                }
                            }
                        }
                    }
                    lemma_forward_preserves(st, staged2, queue2, n, (j + 1) as nat, done);
                } else {
                    assert(edge_quiet_at(st, staged, n, jj));
                    lemma_forward_preserves(st, staged, queue, n, (j + 1) as nat, done);
                }
            },
        }
    }
}

/// The heart of convergence: a run that ends at quiescence leaves
/// every node it has evaluated settled.  The `done` set collects the
/// evaluated nodes; each is quiet whenever it is not queued again,
/// and a run that drains its queue ends with nothing queued.
#[verifier::rlimit(100)]
proof fn lemma_run_settles(
    st: FlatState,
    staged: Seq<Option<Seq<bool>>>,
    queue: Seq<int>,
    depth: nat,
    done: Set<int>,
)
    requires
        flat_wf(st),
        drivers_unique(st),
        staged_ok(st, staged),
        queue_ok(st, staged, queue),
        done_quiet(st, staged, done, -1),
        depth <= MAX_PROPAGATION_DEPTH,
    ensures
        ({
            let r = spec_run(st, staged, queue, depth);
            &&& (!r.1 ==> (forall|m: int|
                #![trigger done.contains(m)]
                done.contains(m) && 0 <= m < st.inputs.len() && st.comps[m] is Some
                    ==> node_settled(r.0, m)))
            &&& r.0.out_slots == st.out_slots
            &&& r.0.comps.len() == st.comps.len()
            &&& r.0.inputs.len() == st.inputs.len()
            &&& r.0.outputs.len() == st.outputs.len()
            &&& (forall|x: int|
                0 <= x < st.comps.len() ==> ((#[trigger] r.0.comps[x]) is Some <==> st.comps[x]
                    is Some))
            &&& flat_wf(r.0)
            &&& drivers_unique(r.0)
        }),
    decreases MAX_PROPAGATION_DEPTH + 1 - depth,
{
    if queue.len() == 0 {
        let r = spec_run(st, staged, queue, depth);
        assert(r == (st, false));
        assert forall|m: int|
            #![trigger done.contains(m)]
            done.contains(m) && 0 <= m < st.inputs.len() && st.comps[m]
                is Some implies node_settled(st, m) by {
            assert(staged[m] is None);
            assert(eval_noop(st, m));
            assert(node_dims_ok(st, m));
            assert forall|j2: int|
                0 <= j2 < st.out_slots[m].len() implies match #[trigger] st.out_slots[m][j2] {
                Some(slot) => st.outputs[m][j2] == st.inputs[slot.target_node.idx()][slot.target_slot as int],
                None => true,
            } by {
                assert(edge_quiet_at(st, staged, m, j2));
                match st.out_slots[m][j2] {
                    Some(slot) => {
                        assert(staged[slot.target_node.idx()] is None);
                    },
                    None => {},
                }
            }
        }
    } else if depth + 1 > MAX_PROPAGATION_DEPTH {
    } else {
        let n = queue[0];
        assert(staged[n] is Some && st.comps[n] is Some);
        assert(node_dims_ok(st, n));
        let s = eff_input(st, staged, n);
        assert(s == staged[n].unwrap());
        assert(s.len() == st.inputs[n].len());
        let staged1 = staged.update(n, None::<Seq<bool>>);
        let c = st.comps[n].unwrap();
        let mask0 = full_mask(st.out_slots[n].len());
        let e = comp_eval(c, st.inputs[n], s, st.outputs[n], mask0);
        crate::components::lemma_comp_eval_preserves(c, st.inputs[n], s, st.outputs[n], mask0);
        crate::components::lemma_comp_eval_idempotent(c, st.inputs[n], s, st.outputs[n], mask0);
        let st2 = FlatState {
            comps: st.comps.update(n, Some(e.0)),
            inputs: st.inputs.update(n, s),
            outputs: st.outputs.update(n, e.1),
            out_slots: st.out_slots,
        };
        assert(flat_wf(st2)) by {
            assert forall|x: int|
                0 <= x < st2.inputs.len() && st2.comps[x] is Some implies #[trigger] node_dims_ok(
                st2,
                x,
            ) by {
                assert(node_dims_ok(st, x));
                assert forall|j: int|
                    0 <= j < st2.out_slots[x].len() implies match #[trigger] st2.out_slots[x][j] {
                    Some(slot) => {
                        &&& 0 <= slot.target_node.idx() < st2.inputs.len()
                        &&& st2.comps[slot.target_node.idx()] is Some
                        &&& (slot.target_slot as int) < st2.inputs[slot.target_node.idx()].len()
                    },
                    None => true,
                } by {
                    assert(st2.out_slots[x][j] == st.out_slots[x][j]);
                }
            }
        }
        assert(drivers_unique(st2));
        assert(staged_ok(st2, staged1));
        let queue1 = queue.drop_first();
        assert(queue_ok(st2, staged1, queue1)) by {
            assert forall|t: int|
                0 <= t < staged1.len() && (#[trigger] staged1[t]) is Some implies queue1.contains(
                t,
            ) by {
                assert(staged[t] is Some);
                assert(queue.contains(t));
                let k = choose|k: int| 0 <= k < queue.len() && queue[k] == t;
                assert(t != n);
                assert(k != 0);
                assert(queue1[k - 1] == t);
            }
        }
        assert(eval_noop(st2, n)) by {
            assert(st2.inputs[n] == s && st2.outputs[n] == e.1 && st2.comps[n] == Some(e.0));
            assert(full_mask(st2.out_slots[n].len()) == mask0);
            assert(comp_eval(e.0, s, s, e.1, mask0) == (e.0, e.1, mask0));
        }
        assert(done_quiet(st2, staged1, done.insert(n), n)) by {
            assert forall|m: int|
                #![trigger done.insert(n).contains(m)]
                done.insert(n).contains(m) && m != n && 0 <= m < st2.inputs.len() && st2.comps[m]
                    is Some && staged1[m] is None implies {
                &&& eval_noop(st2, m)
                &&& (forall|j2: int|
                    0 <= j2 < st2.out_slots[m].len() ==> #[trigger] edge_quiet_at(
                        st2,
                        staged1,
                        m,
                        j2,
                    ))
            } by {
                assert(done.contains(m));
                assert(staged[m] is None);
                assert(st.comps[m] is Some);
                assert(eval_noop(st, m));
                assert(eval_noop(st2, m)) by {
                    assert(st2.comps[m] == st.comps[m] && st2.inputs[m] == st.inputs[m]
                        && st2.outputs[m] == st.outputs[m] && st2.out_slots[m]
                        == st.out_slots[m]);
                }
                assert(node_dims_ok(st, m));
                assert forall|j2: int|
                    0 <= j2 < st2.out_slots[m].len() implies #[trigger] edge_quiet_at(
                    st2,
                    staged1,
                    m,
                    j2,
                ) by {
                    assert(edge_quiet_at(st, staged, m, j2));
                    match st.out_slots[m][j2] {
                        Some(slot) => {
                            let t = slot.target_node.idx();
                            let ts = slot.target_slot as int;
                            if t == n {
                                assert(eff_input(st, staged, t) == s);
                                assert(eff_input(st2, staged1, t) == st2.inputs[n]);
                            } else {
                                assert(eff_input(st2, staged1, t) == eff_input(st, staged, t));
                            }
                        },
                        None => {},
                    }
                }
            }
        }
        lemma_forward_preserves(st2, staged1, queue1, n, 0, done.insert(n));
        let sq = spec_forward(st2, staged1, queue1, st.out_slots[n], e.1, e.2, 0);
        assert(sq == spec_forward(
            st2,
            staged1,
            queue1,
            st2.out_slots[n],
            st2.outputs[n],
            full_mask(st2.out_slots[n].len()),
            0,
        ));
        assert(done_quiet(st2, sq.0, done.insert(n), -1)) by {
            assert forall|m: int|
                #![trigger done.insert(n).contains(m)]
                done.insert(n).contains(m) && m != -1 && 0 <= m < st2.inputs.len() && st2.comps[m]
                    is Some && sq.0[m] is None implies {
                &&& eval_noop(st2, m)
                &&& (forall|j2: int|
                    0 <= j2 < st2.out_slots[m].len() ==> #[trigger] edge_quiet_at(
                        st2,
                        sq.0,
                        m,
                        j2,
                    ))
            } by {
                if m == n {
                    assert(eval_noop(st2, n));
                } else {
                    assert(done_quiet(st2, sq.0, done.insert(n), n));
                }
            }
        }
        assert(depth + 1 <= MAX_PROPAGATION_DEPTH);
        lemma_run_settles(st2, sq.0, sq.1, depth + 1, done.insert(n));
        let r = spec_run(st, staged, queue, depth);
        assert(r == spec_run(st2, sq.0, sq.1, depth + 1));
        assert forall|m: int|
            #![trigger done.contains(m)]
            !r.1 && done.contains(m) && 0 <= m < st.inputs.len() && st.comps[m]
                is Some implies node_settled(r.0, m) by {
            assert(done.insert(n).contains(m));
            assert(st2.comps[m] is Some);
        }
    }
}

/// A run seeded at a settled node is a no-op: the state is already a
/// fixed point of propagation from that seed, and the run reports
/// quiescence at once.
pub proof fn lemma_settled_propagate_noop(st: FlatState, seed: int)
    requires
        flat_wf(st),
        0 <= seed < st.inputs.len(),
        st.comps[seed] is Some,
        node_settled(st, seed),
    ensures
        spec_propagate(st, seed) == (st, false),
{
    let staged0 = seed_staged(st, seed);
    let q0: Seq<int> = seq![seed];
    let s = eff_input(st, staged0, seed);
    assert(s == st.inputs[seed]);
    let staged1 = staged0.update(seed, None::<Seq<bool>>);
    assert(staged1 =~= no_staged(st));
    let c = st.comps[seed].unwrap();
    let e = comp_eval(c, st.inputs[seed], s, st.outputs[seed], full_mask(st.out_slots[seed].len()));
    assert(node_dims_ok(st, seed));
    crate::components::lemma_comp_eval_preserves(
        c,
        st.inputs[seed],
        s,
        st.outputs[seed],
        full_mask(st.out_slots[seed].len()),
    );
    assert(e.0 == c && e.1 == st.outputs[seed]);
    assert(e.2 == full_mask(st.out_slots[seed].len()));
    let st2 = FlatState {
        comps: st.comps.update(seed, Some(e.0)),
        inputs: st.inputs.update(seed, s),
        outputs: st.outputs.update(seed, e.1),
        out_slots: st.out_slots,
    };
    assert(st2.comps =~= st.comps);
    assert(st2.inputs =~= st.inputs);
    assert(st2.outputs =~= st.outputs);
    assert(st2 == st);
    assert forall|j2: int|
        0 <= j2 < st.out_slots[seed].len() implies match #[trigger] st.out_slots[seed][j2] {
        Some(slot) => (e.1[j2] && e.2[j2]) == eff_input(
            st2,
            staged1,
            slot.target_node.idx(),
        )[slot.target_slot as int],
        None => true,
    } by {
        match st.out_slots[seed][j2] {
            Some(slot) => {
                assert(e.2[j2] == true);
                assert(staged1[slot.target_node.idx()] is None);
            },
            None => {},
        }
    }
    lemma_forward_noop(st2, staged1, q0.drop_first(), st.out_slots[seed], e.1, e.2, 0);
    assert(q0.drop_first() =~= Seq::<int>::empty());
    assert(spec_run(st2, staged1, q0.drop_first(), 1) == (st2, false));
    assert(spec_run(st, staged0, q0, 0) == (st, false));
}

/// A run that ends at quiescence leaves its seed settled, and keeps
/// the state well-formed with the same wiring and the same live
/// nodes.
pub proof fn lemma_propagate_settles(st: FlatState, seed: int)
    requires
        flat_wf(st),
        drivers_unique(st),
        0 <= seed < st.inputs.len(),
        st.comps[seed] is Some,
    ensures
        ({
            let r = spec_propagate(st, seed);
            &&& (!r.1 ==> node_settled(r.0, seed))
            &&& r.0.out_slots == st.out_slots
            &&& r.0.inputs.len() == st.inputs.len()
            &&& (forall|x: int|
                0 <= x < st.comps.len() ==> ((#[trigger] r.0.comps[x]) is Some <==> st.comps[x]
                    is Some))
            &&& flat_wf(r.0)
            &&& drivers_unique(r.0)
        }),
{
    let staged0 = seed_staged(st, seed);
    let q0: Seq<int> = seq![seed];
    assert(node_dims_ok(st, seed));
    assert(staged_ok(st, staged0));
    assert(queue_ok(st, staged0, q0)) by {
        assert forall|t: int|
            0 <= t < staged0.len() && (#[trigger] staged0[t]) is Some implies q0.contains(t) by {
            assert(t == seed);
            assert(q0[0] == seed);
        }
    }
    let done = Set::<int>::empty().insert(seed);
    assert(done_quiet(st, staged0, done, -1));
    lemma_run_settles(st, staged0, q0, 0, done);
    assert(done.contains(seed));
}

/// Fixed-point convergence: once a run from `seed` has reached
/// quiescence, a second run from the same seed is a no-op.  The
/// state a settled run leaves behind is a fixed point of propagation
/// from that seed.
pub proof fn lemma_propagate_fixed_point(st: FlatState, seed: int)
    requires
        flat_wf(st),
        drivers_unique(st),
        0 <= seed < st.inputs.len(),
        st.comps[seed] is Some,
    ensures
        ({
            let r = spec_propagate(st, seed);
            !r.1 ==> spec_propagate(r.0, seed) == (r.0, false)
        }),
{
    lemma_propagate_settles(st, seed);
    let r = spec_propagate(st, seed);
    if !r.1 {
        lemma_settled_propagate_noop(r.0, seed);
    }
}

/// Determinism: a propagation run is a function of the starting
/// state and the seed alone.  Two runs from equal states end in
/// equal states with equal reports; the executable engine's contract
/// pins it to this function, so it inherits the property.
pub proof fn lemma_propagate_deterministic(st1: FlatState, st2: FlatState, seed: int)
    requires
        st1 == st2,
    ensures
        spec_propagate(st1, seed) == spec_propagate(st2, seed),
{
}

} // verus!
