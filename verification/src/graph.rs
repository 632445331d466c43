//! The component graph: a generation-checked arena of nodes, each a
//! component instance with its slot wiring, plus the per-node state
//! store of input and output bit-vectors.
//!
//! Edges are stored redundantly from both ends: the driving node's
//! output slot and the driven node's input slot record the same
//! connection, and every mutation keeps the two sides consistent.

use vstd::prelude::*;

use crate::bits::{bits_of, Bits};
use crate::components::{comp_eval, spec_input_size, spec_output_size, Component, ComponentKind};
use crate::propagate::{
    eff_input, full_mask, seed_staged, spec_forward, spec_propagate, spec_run, FlatState,
    MAX_PROPAGATION_DEPTH,
};

verus! {

/// Generation-checked handle to a node in the arena.  A handle to a
/// removed node goes stale: it never resolves again, even after the
/// arena slot is reused.
#[derive(Debug, Clone, Copy, PartialEq, Eq, Hash, Structural)]
pub struct ComponentId {
    index: usize,
    generation: u64,
}

impl ComponentId {
    /// The arena slot this handle points at.
    pub closed spec fn idx(self) -> int {
        self.index as int
    }
}

/// A `ComponentId` annotated at the type level with the component
/// kind expected behind it.  Conversions in both directions are free.
#[derive(Debug)]
pub struct TypedId<C> {
    inner: ComponentId,
    marker: core::marker::PhantomData<C>,
}

impl<C> TypedId<C> {
    /// The untyped handle this typed handle carries.
    pub closed spec fn untyped(self) -> ComponentId {
        self.inner
    }

    pub fn from_id(id: ComponentId) -> (r: Self)
        ensures
            r.untyped() == id,
    {
        TypedId { inner: id, marker: core::marker::PhantomData }
    }

    pub fn to_id(&self) -> (r: ComponentId)
        ensures
            r == self.untyped(),
    {
        self.inner
    }
}

/// One end of a directed edge: the node and slot index on the other
/// side of the connection.
#[derive(Debug, Clone, Copy, PartialEq, Eq, Structural)]
pub struct Slot {
    pub target_node: ComponentId,
    pub target_slot: usize,
}

/// The mathematical image of one live node: its component, its slot
/// wiring, and its recorded input and output bits.
#[verifier::ext_equal]
pub ghost struct NodeView {
    pub component: Component,
    pub input_slots: Seq<Option<Slot>>,
    pub output_slots: Seq<Option<Slot>>,
    pub inputs: Seq<bool>,
    pub outputs: Seq<bool>,
}

/// The component graph and state store.
pub struct Graph {
    gens: Vec<u64>,
    comps: Vec<Option<Component>>,
    in_slots: Vec<Vec<Option<Slot>>>,
    out_slots: Vec<Vec<Option<Slot>>>,
    inputs: Vec<Bits>,
    outputs: Vec<Bits>,
    free: Vec<usize>,
}

impl View for Graph {
    type V = Map<ComponentId, NodeView>;

    /// A graph is seen as the map from live handles to their nodes.
    closed spec fn view(&self) -> Map<ComponentId, NodeView> {
        Map::new(|id: ComponentId| self.id_live(id), |id: ComponentId| self.node_at(id.idx()))
    }
}

impl Graph {
    /// Number of arena slots (live or free).
    pub closed spec fn n(&self) -> int {
        self.gens@.len() as int
    }

    /// Whether arena slot `i` currently holds a live node.
    pub closed spec fn idx_live(&self, i: int) -> bool {
        0 <= i < self.comps@.len() && self.comps@[i] is Some
    }

    /// The handle that currently resolves to arena slot `i`.
    pub closed spec fn id_at(&self, i: int) -> ComponentId {
        ComponentId { index: i as usize, generation: self.gens@[i] }
    }

    /// Whether `id` resolves: its slot is live and its generation is
    /// current.
    pub closed spec fn id_live(&self, id: ComponentId) -> bool {
        &&& self.idx_live(id.idx())
        &&& id.idx() < self.gens@.len()
        &&& self.gens@[id.idx()] == id.generation
    }

    /// The node image stored at arena slot `i`.
    pub closed spec fn node_at(&self, i: int) -> NodeView {
        NodeView {
            component: self.comps@[i].unwrap(),
            input_slots: self.in_slots@[i]@,
            output_slots: self.out_slots@[i]@,
            inputs: bits_of(self.inputs@[i]),
            outputs: bits_of(self.outputs@[i]),
        }
    }

    /// Output slot `j` of the live node at slot `i` either is empty
    /// or records a connection whose other end records it back.
    pub closed spec fn out_edge_ok(&self, i: int, j: int) -> bool {
        match self.out_slots@[i]@[j] {
            Some(s) => {
                &&& self.id_live(s.target_node)
                &&& (s.target_slot as int) < self.in_slots@[s.target_node.idx()]@.len()
                &&& self.in_slots@[s.target_node.idx()]@[s.target_slot as int] == Some(
                    Slot { target_node: self.id_at(i), target_slot: j as usize },
                )
            },
            None => true,
        }
    }

    /// Input slot `j` of the live node at slot `i` either is empty or
    /// records a connection whose other end records it back.
    pub closed spec fn in_edge_ok(&self, i: int, j: int) -> bool {
        match self.in_slots@[i]@[j] {
            Some(s) => {
                &&& self.id_live(s.target_node)
                &&& (s.target_slot as int) < self.out_slots@[s.target_node.idx()]@.len()
                &&& self.out_slots@[s.target_node.idx()]@[s.target_slot as int] == Some(
                    Slot { target_node: self.id_at(i), target_slot: j as usize },
                )
            },
            None => true,
        }
    }

    /// The per-node part of well-formedness: slot arrays sized to the
    /// component's arity, state vectors sized to the slot arrays, and
    /// every recorded edge mirrored on its other end.
    pub closed spec fn node_ok(&self, i: int) -> bool {
        &&& self.in_slots@[i]@.len() == spec_input_size(self.comps@[i].unwrap())
        &&& self.out_slots@[i]@.len() == spec_output_size(self.comps@[i].unwrap())
        &&& bits_of(self.inputs@[i]).len() == self.in_slots@[i]@.len()
        &&& bits_of(self.outputs@[i]).len() == self.out_slots@[i]@.len()
        &&& (forall|j: int|
            0 <= j < self.out_slots@[i]@.len() ==> #[trigger] self.out_edge_ok(i, j))
        &&& (forall|j: int| 0 <= j < self.in_slots@[i]@.len() ==> #[trigger] self.in_edge_ok(i, j))
    }

    /// Well-formedness of the whole graph: aligned stores, an exact
    /// free list, and every live node well-formed.
    pub closed spec fn wf(&self) -> bool {
        &&& self.comps@.len() == self.n()
        &&& self.in_slots@.len() == self.n()
        &&& self.out_slots@.len() == self.n()
        &&& self.inputs@.len() == self.n()
        &&& self.outputs@.len() == self.n()
        &&& (forall|k: int|
            0 <= k < self.free@.len() ==> (#[trigger] self.free@[k]) < self.n() && !self.idx_live(
                self.free@[k] as int,
            ))
        &&& (forall|k1: int, k2: int|
            0 <= k1 < k2 < self.free@.len() ==> self.free@[k1] != self.free@[k2])
        &&& (forall|i: int| self.idx_live(i) ==> #[trigger] self.node_ok(i))
    }

    /// An empty graph.
    pub fn new() -> (r: Graph)
        ensures
            r.wf(),
            r@ == Map::<ComponentId, NodeView>::empty(),
    {
        let r = Graph {
            gens: Vec::new(),
            comps: Vec::new(),
            in_slots: Vec::new(),
            out_slots: Vec::new(),
            inputs: Vec::new(),
            outputs: Vec::new(),
            free: Vec::new(),
        };
        proof {
            assert(r@ =~= Map::<ComponentId, NodeView>::empty());
        }
        r
    }

    /// Allocates a node for `component`: its slot arrays start
    /// unconnected and its state vectors zero-filled, and the handle
    /// returned is fresh.
    pub fn add_comp(&mut self, component: Component) -> (id: ComponentId)
        requires
            old(self).wf(),
        ensures
            final(self).wf(),
            !old(self)@.contains_key(id),
            final(self).id_live(id),
            final(self)@ == old(self)@.insert(id, new_node_view(component)),
    {
        let in_size = component.input_size();
        let out_size = component.output_size();
        let in_sl = vec_of_none(in_size);
        let out_sl = vec_of_none(out_size);
        let in_bits = Bits::repeat(false, in_size);
        let out_bits = Bits::repeat(false, out_size);

        let idx: usize;
        match self.free.pop() {
            Some(i) => {
                idx = i;
                self.comps[idx] = Some(component);
                self.in_slots[idx] = in_sl;
                self.out_slots[idx] = out_sl;
                self.inputs[idx] = in_bits;
                self.outputs[idx] = out_bits;
            },
            None => {
                idx = self.gens.len();
                self.gens.push(0);
                self.comps.push(Some(component));
                self.in_slots.push(in_sl);
                self.out_slots.push(out_sl);
                self.inputs.push(in_bits);
                self.outputs.push(out_bits);
            },
        }
        let id = ComponentId { index: idx, generation: self.gens[idx] };
        proof {
            assert forall|i: int| self.idx_live(i) implies #[trigger] self.node_ok(i) by {
                if i != idx {
                    assert(old(self).node_ok(i));
                    assert forall|j: int|
                        0 <= j < self.out_slots@[i]@.len() implies #[trigger] self.out_edge_ok(
                        i,
                        j,
                    ) by {
                        assert(old(self).out_edge_ok(i, j));
                    }
                    assert forall|j: int|
                        0 <= j < self.in_slots@[i]@.len() implies #[trigger] self.in_edge_ok(
                        i,
                        j,
                    ) by {
                        assert(old(self).in_edge_ok(i, j));
                    }
                }
            }
            assert(self@ =~~= old(self)@.insert(id, new_node_view(component)));
        }
        id
    }
    /// Removes the node behind `id` from the graph.  Every slot on a
    /// neighboring node that recorded a connection to the removed
    /// node is cleared first, so no dangling edge survives; the
    /// handle itself goes stale.
    #[verifier::rlimit(60)]
    pub fn remove_comp(&mut self, id: ComponentId)
        requires
            old(self).wf(),
            old(self)@.contains_key(id),
        ensures
            final(self).wf(),
            final(self)@.dom() == old(self)@.dom().remove(id),
            forall|nid: ComponentId| #[trigger]
                final(self)@.contains_key(nid) ==> {
                    &&& final(self)@[nid].component == old(self)@[nid].component
                    &&& final(self)@[nid].inputs == old(self)@[nid].inputs
                    &&& final(self)@[nid].outputs == old(self)@[nid].outputs
                    &&& final(self)@[nid].input_slots.len() == old(self)@[nid].input_slots.len()
                    &&& final(self)@[nid].output_slots.len() == old(self)@[nid].output_slots.len()
                },
            forall|nid: ComponentId, j: int|
                #![trigger final(self)@[nid].output_slots[j]]
                final(self)@.contains_key(nid) && 0 <= j < final(self)@[nid].output_slots.len()
                    ==> final(self)@[nid].output_slots[j] == (match old(
                    self,
                )@[nid].output_slots[j] {
                    Some(t) => if t.target_node == id {
                        None
                    } else {
                        Some(t)
                    },
                    None => None::<Slot>,
                }),
            forall|nid: ComponentId, j: int|
                #![trigger final(self)@[nid].input_slots[j]]
                final(self)@.contains_key(nid) && 0 <= j < final(self)@[nid].input_slots.len()
                    ==> final(self)@[nid].input_slots[j] == (match old(self)@[nid].input_slots[j] {
                    Some(t) => if t.target_node == id {
                        None
                    } else {
                        Some(t)
                    },
                    None => None::<Slot>,
                }),
    {
        let idx = id.index;
        proof {
            lemma_vec_len_bound(&old(self).comps);
            assert(old(self).id_live(id));
            assert(old(self).node_ok(idx as int));
            assert(old(self).id_at(idx as int) == id);
        }
        // clear the other end of every connection into this node
        let in_len = self.in_slots[idx].len();
        let mut j: usize = 0;
        while j < in_len
            invariant
                old(self).wf(),
                old(self)@.contains_key(id),
                id.idx() == idx as int,
                old(self).id_at(idx as int) == id,
                j <= in_len,
                in_len as nat == old(self).in_slots@[idx as int]@.len(),
                self.gens == old(self).gens,
                self.comps == old(self).comps,
                self.in_slots == old(self).in_slots,
                self.inputs == old(self).inputs,
                self.outputs == old(self).outputs,
                self.free == old(self).free,
                self.out_slots@.len() == old(self).out_slots@.len(),
                forall|x: int|
                    0 <= x < old(self).out_slots@.len() ==> (#[trigger] self.out_slots@[x]@).len()
                        == old(self).out_slots@[x]@.len(),
                forall|x: int, y: int|
                    #![trigger self.out_slots@[x]@[y]]
                    old(self).idx_live(x) && 0 <= y < old(self).out_slots@[x]@.len()
                        ==> self.out_slots@[x]@[y] == (match old(self).out_slots@[x]@[y] {
                        Some(t) => if t.target_node == id && (t.target_slot as int) < j && x
                            != idx as int {
                            None
                        } else {
                            Some(t)
                        },
                        None => None::<Slot>,
                    }),
            decreases in_len - j,
        {
            let slot = self.in_slots[idx][j];
            proof {
                assert(old(self).idx_live(idx as int));
                assert(old(self).node_ok(idx as int));
                assert(old(self).in_edge_ok(idx as int, j as int));
            }
            match slot {
                Some(s) => {
                    if !(s.target_node == id) {
                        self.out_slots[s.target_node.index][s.target_slot] = None;
                    }
                },
                None => {},
            }
            proof {
                let jj = j as int;
                assert forall|x: int, y: int|
                    #![trigger self.out_slots@[x]@[y]]
                    old(self).idx_live(x) && 0 <= y < old(
                        self,
                    ).out_slots@[x]@.len() implies self.out_slots@[x]@[y] == (match old(
                    self,
                ).out_slots@[x]@[y] {
                    Some(t) => if t.target_node == id && (t.target_slot as int) < jj + 1 && x
                        != idx as int {
                        None
                    } else {
                        Some(t)
                    },
                    None => None::<Slot>,
                }) by {
                    lemma_vec_len_bound(&old(self).out_slots@[x]);
                    match old(self).out_slots@[x]@[y] {
                        Some(t) => {
                            if t.target_node == id && t.target_slot as int == jj && x
                                != idx as int {
                                assert(old(self).idx_live(x));
                                assert(old(self).node_ok(x));
                                assert(old(self).out_edge_ok(x, y));
                                assert(old(self).in_slots@[idx as int]@[jj] == Some(
                                    Slot {
                                        target_node: old(self).id_at(x),
                                        target_slot: y as usize,
                                    },
                                ));
                                assert(slot == Some(
                                    Slot {
                                        target_node: old(self).id_at(x),
                                        target_slot: y as usize,
                                    },
                                ));
                                lemma_vec_len_bound(&old(self).comps);
                                assert(slot.unwrap().target_node.index as int == x);
                                assert(slot.unwrap().target_slot as int == y);
                                assert(self.out_slots@[x]@[y] is None);
                            }
                        },
                        None => {},
                    }
                }
            }
            j = j + 1;
        }
        proof {
            lemma_vec_len_bound(&old(self).comps);
            assert forall|x: int, y: int|
                #![trigger self.out_slots@[x]@[y]]
                old(self).idx_live(x) && 0 <= y < old(self).out_slots@[x]@.len() implies self.out_slots@[x]@[y] == (match old(self).out_slots@[x]@[y] {
                Some(t) => if t.target_node == id && x != idx as int {
                    None
                } else {
                    Some(t)
                },
                None => None::<Slot>,
            }) by {
                match old(self).out_slots@[x]@[y] {
                    Some(t) => {
                        if t.target_node == id {
                            assert(old(self).node_ok(x));
                            assert(old(self).out_edge_ok(x, y));
                            assert((t.target_slot as int) < in_len as int);
                        }
                    },
                    None => {},
                }
            }
        }
        // clear the other end of every connection out of this node
        let out_len = self.out_slots[idx].len();
        let mut k: usize = 0;
        while k < out_len
            invariant
                old(self).wf(),
                old(self)@.contains_key(id),
                id.idx() == idx as int,
                old(self).id_at(idx as int) == id,
                k <= out_len,
                out_len as nat == old(self).out_slots@[idx as int]@.len(),
                self.gens == old(self).gens,
                self.comps == old(self).comps,
                self.inputs == old(self).inputs,
                self.outputs == old(self).outputs,
                self.free == old(self).free,
                self.out_slots@.len() == old(self).out_slots@.len(),
                forall|x: int|
                    0 <= x < old(self).out_slots@.len() ==> (#[trigger] self.out_slots@[x]@).len()
                        == old(self).out_slots@[x]@.len(),
                forall|x: int, y: int|
                    #![trigger self.out_slots@[x]@[y]]
                    old(self).idx_live(x) && 0 <= y < old(self).out_slots@[x]@.len()
                        ==> self.out_slots@[x]@[y] == (match old(self).out_slots@[x]@[y] {
                        Some(t) => if t.target_node == id && x != idx as int {
                            None
                        } else {
                            Some(t)
                        },
                        None => None::<Slot>,
                    }),
                self.in_slots@.len() == old(self).in_slots@.len(),
                forall|x: int|
                    0 <= x < old(self).in_slots@.len() ==> (#[trigger] self.in_slots@[x]@).len()
                        == old(self).in_slots@[x]@.len(),
                forall|x: int, y: int|
                    #![trigger self.in_slots@[x]@[y]]
                    old(self).idx_live(x) && 0 <= y < old(self).in_slots@[x]@.len()
                        ==> self.in_slots@[x]@[y] == (match old(self).in_slots@[x]@[y] {
                        Some(t) => if t.target_node == id && (t.target_slot as int) < k && x
                            != idx as int {
                            None
                        } else {
                            Some(t)
                        },
                        None => None::<Slot>,
                    }),
            decreases out_len - k,
        {
            let slot = self.out_slots[idx][k];
            proof {
                assert(old(self).idx_live(idx as int));
                assert(old(self).node_ok(idx as int));
                assert(old(self).out_edge_ok(idx as int, k as int));
                assert(self.out_slots@[idx as int]@[k as int] == old(
                    self,
                ).out_slots@[idx as int]@[k as int]);
            }
            match slot {
                Some(s) => {
                    if !(s.target_node == id) {
                        self.in_slots[s.target_node.index][s.target_slot] = None;
                    }
                },
                None => {},
            }
            proof {
                let kk = k as int;
                assert forall|x: int, y: int|
                    #![trigger self.in_slots@[x]@[y]]
                    old(self).idx_live(x) && 0 <= y < old(
                        self,
                    ).in_slots@[x]@.len() implies self.in_slots@[x]@[y] == (match old(
                    self,
                ).in_slots@[x]@[y] {
                    Some(t) => if t.target_node == id && (t.target_slot as int) < kk + 1 && x
                        != idx as int {
                        None
                    } else {
                        Some(t)
                    },
                    None => None::<Slot>,
                }) by {
                    lemma_vec_len_bound(&old(self).in_slots@[x]);
                    match old(self).in_slots@[x]@[y] {
                        Some(t) => {
                            if t.target_node == id && t.target_slot as int == kk && x
                                != idx as int {
                                assert(old(self).idx_live(x));
                                assert(old(self).node_ok(x));
                                assert(old(self).in_edge_ok(x, y));
                                assert(old(self).out_slots@[idx as int]@[kk] == Some(
                                    Slot {
                                        target_node: old(self).id_at(x),
                                        target_slot: y as usize,
                                    },
                                ));
                                assert(slot == Some(
                                    Slot {
                                        target_node: old(self).id_at(x),
                                        target_slot: y as usize,
                                    },
                                ));
                                lemma_vec_len_bound(&old(self).comps);
                                assert(slot.unwrap().target_node.index as int == x);
                                assert(slot.unwrap().target_slot as int == y);
                                assert(self.in_slots@[x]@[y] is None);
                            }
                        },
                        None => {},
                    }
                }
            }
            k = k + 1;
        }
        // retire the arena slot
        self.comps[idx] = None;
        let g = self.gens[idx];
        if g < u64::MAX {
            self.gens[idx] = g + 1;
            self.free.push(idx);
        }
        proof {
            lemma_vec_len_bound(&old(self).comps);
            assert forall|i: int| self.idx_live(i) implies #[trigger] self.node_ok(i) by {
                lemma_vec_len_bound(&old(self).in_slots@[i]);
                lemma_vec_len_bound(&old(self).out_slots@[i]);
                assert(i != idx as int);
                assert(old(self).idx_live(i));
                assert(old(self).node_ok(i));
                assert forall|j2: int|
                    0 <= j2 < self.out_slots@[i]@.len() implies #[trigger] self.out_edge_ok(
                    i,
                    j2,
                ) by {
                    assert(old(self).out_edge_ok(i, j2));
                    match self.out_slots@[i]@[j2] {
                        Some(s) => {
                            assert(old(self).out_slots@[i]@[j2] == Some(s));
                            assert(s.target_node != id);
                            assert(old(self).id_live(s.target_node));
                            assert(s.target_node.idx() != idx as int);
                            assert(self.id_live(s.target_node));
                            assert(old(self).in_slots@[s.target_node.idx()]@[s.target_slot as int]
                                == Some(
                                Slot { target_node: old(self).id_at(i), target_slot: j2 as usize },
                            ));
                            assert(old(self).id_at(i) != id);
                            assert(self.in_slots@[s.target_node.idx()]@[s.target_slot as int]
                                == Some(
                                Slot { target_node: self.id_at(i), target_slot: j2 as usize },
                            ));
                        },
                        None => {},
                    }
                }
                assert forall|j2: int|
                    0 <= j2 < self.in_slots@[i]@.len() implies #[trigger] self.in_edge_ok(
                    i,
                    j2,
                ) by {
                    assert(old(self).in_edge_ok(i, j2));
                    match self.in_slots@[i]@[j2] {
                        Some(s) => {
                            assert(old(self).in_slots@[i]@[j2] == Some(s));
                            assert(s.target_node != id);
                            assert(old(self).id_live(s.target_node));
                            assert(s.target_node.idx() != idx as int);
                            assert(self.id_live(s.target_node));
                            assert(old(self).out_slots@[s.target_node.idx()]@[s.target_slot as int]
                                == Some(
                                Slot { target_node: old(self).id_at(i), target_slot: j2 as usize },
                            ));
                            assert(old(self).id_at(i) != id);
                            assert(self.out_slots@[s.target_node.idx()]@[s.target_slot as int]
                                == Some(
                                Slot { target_node: self.id_at(i), target_slot: j2 as usize },
                            ));
                        },
                        None => {},
                    }
                }
            }
            assert(self@.dom() =~= old(self)@.dom().remove(id));
            assert forall|nid: ComponentId, j: int|
                #![trigger self@[nid].input_slots[j]]
                self@.contains_key(nid) && 0 <= j < self@[nid].input_slots.len() implies self@[nid].input_slots[j]
                == (match old(self)@[nid].input_slots[j] {
                Some(t) => if t.target_node == id {
                    None
                } else {
                    Some(t)
                },
                None => None::<Slot>,
            }) by {
                let i = nid.idx();
                assert(self.id_live(nid));
                assert(i != idx as int);
                assert(old(self).idx_live(i));
                assert(old(self).id_live(nid));
                assert(old(self).node_ok(i));
                lemma_vec_len_bound(&old(self).in_slots@[i]);
                match old(self).in_slots@[i]@[j] {
                    Some(t) => {
                        if t.target_node == id {
                            assert(old(self).in_edge_ok(i, j));
                        }
                    },
                    None => {},
                }
            }
        }
    }

    /// Grows the input arity of the fork behind `id` by one slot:
    /// the new slot starts unconnected and its state bit zero, and
    /// the component's stored arity grows in lock-step.
    pub fn add_input_slot(&mut self, id: ComponentId)
        requires
            old(self).wf(),
            old(self)@.contains_key(id),
            old(self)@[id].component is Fork,
            spec_input_size(old(self)@[id].component) < 255,
        ensures
            final(self).wf(),
            final(self)@ == old(self)@.insert(
                id,
                NodeView {
                    component: with_input_grown(old(self)@[id].component),
                    input_slots: old(self)@[id].input_slots.push(None),
                    inputs: old(self)@[id].inputs.push(false),
                    output_slots: old(self)@[id].output_slots,
                    outputs: old(self)@[id].outputs,
                },
            ),
    {
        let idx = id.index;
        proof {
            assert(old(self).id_live(id));
            assert(old(self).node_ok(idx as int));
        }
        let c = self.comps[idx].unwrap();
        match c {
            Component::Fork(f) => {
                self.comps[idx] = Some(
                    Component::Fork(
                        crate::components::Fork {
                            input_size: f.input_size + 1,
                            output_size: f.output_size,
                        },
                    ),
                );
            },
            _ => {},
        }
        self.in_slots[idx].push(None);
        self.inputs[idx].push(false);
        proof {
            assert forall|i: int| self.idx_live(i) implies #[trigger] self.node_ok(i) by {
                assert(old(self).node_ok(i));
                assert forall|j: int|
                    0 <= j < self.out_slots@[i]@.len() implies #[trigger] self.out_edge_ok(
                    i,
                    j,
                ) by {
                    assert(old(self).out_edge_ok(i, j));
                }
                assert forall|j: int|
                    0 <= j < self.in_slots@[i]@.len() implies #[trigger] self.in_edge_ok(
                    i,
                    j,
                ) by {
                    if i == idx as int && j == old(self).in_slots@[i]@.len() {
                        assert(self.in_slots@[i]@[j] is None);
                    } else {
                        assert(old(self).in_edge_ok(i, j));
                    }
                }
            }
            assert(self@ =~~= old(self)@.insert(
                id,
                NodeView {
                    component: with_input_grown(old(self)@[id].component),
                    input_slots: old(self)@[id].input_slots.push(None),
                    inputs: old(self)@[id].inputs.push(false),
                    output_slots: old(self)@[id].output_slots,
                    outputs: old(self)@[id].outputs,
                },
            ));
        }
    }

    /// Grows the output arity of the fork behind `id` by one slot:
    /// the new slot starts unconnected and its state bit zero, and
    /// the component's stored arity grows in lock-step.
    pub fn add_output_slot(&mut self, id: ComponentId)
        requires
            old(self).wf(),
            old(self)@.contains_key(id),
            old(self)@[id].component is Fork,
            spec_output_size(old(self)@[id].component) < 255,
        ensures
            final(self).wf(),
            final(self)@ == old(self)@.insert(
                id,
                NodeView {
                    component: with_output_grown(old(self)@[id].component),
                    output_slots: old(self)@[id].output_slots.push(None),
                    outputs: old(self)@[id].outputs.push(false),
                    input_slots: old(self)@[id].input_slots,
                    inputs: old(self)@[id].inputs,
                },
            ),
    {
        let idx = id.index;
        proof {
            assert(old(self).id_live(id));
            assert(old(self).node_ok(idx as int));
        }
        let c = self.comps[idx].unwrap();
        match c {
            Component::Fork(f) => {
                self.comps[idx] = Some(
                    Component::Fork(
                        crate::components::Fork {
                            input_size: f.input_size,
                            output_size: f.output_size + 1,
                        },
                    ),
                );
            },
            _ => {},
        }
        self.out_slots[idx].push(None);
        self.outputs[idx].push(false);
        proof {
            assert forall|i: int| self.idx_live(i) implies #[trigger] self.node_ok(i) by {
                assert(old(self).node_ok(i));
                assert forall|j: int|
                    0 <= j < self.in_slots@[i]@.len() implies #[trigger] self.in_edge_ok(
                    i,
                    j,
                ) by {
                    assert(old(self).in_edge_ok(i, j));
                }
                assert forall|j: int|
                    0 <= j < self.out_slots@[i]@.len() implies #[trigger] self.out_edge_ok(
                    i,
                    j,
                ) by {
                    if i == idx as int && j == old(self).out_slots@[i]@.len() {
                        assert(self.out_slots@[i]@[j] is None);
                    } else {
                        assert(old(self).out_edge_ok(i, j));
                    }
                }
            }
            assert(self@ =~~= old(self)@.insert(
                id,
                NodeView {
                    component: with_output_grown(old(self)@[id].component),
                    output_slots: old(self)@[id].output_slots.push(None),
                    outputs: old(self)@[id].outputs.push(false),
                    input_slots: old(self)@[id].input_slots,
                    inputs: old(self)@[id].inputs,
                },
            ));
        }
    }

    /// Fetches a copy of the component behind `id`, or `None` when
    /// the handle is stale or was never issued.
    pub fn get_comp(&self, id: ComponentId) -> (r: Option<Component>)
        ensures
            r == if self@.contains_key(id) {
                Some(self@[id].component)
            } else {
                None::<Component>
            },
    {
        if id.index < self.comps.len() && id.index < self.gens.len() && self.gens[id.index]
            == id.generation {
            self.comps[id.index]
        } else {
            None
        }
    }

    /// Fetches the component behind a typed handle as its concrete
    /// kind: `None` when the handle is stale or the stored variant
    /// does not match the annotation.
    pub fn get_typed<C: ComponentKind>(&self, id: &TypedId<C>) -> (r: Option<C>)
        ensures
            r == if self@.contains_key(id.untyped()) {
                C::variant_of(self@[id.untyped()].component)
            } else {
                None::<C>
            },
    {
        match self.get_comp(id.to_id()) {
            Some(c) => C::extract(&c),
            None => None,
        }
    }

    /// The recorded input bit at `slot` of the node behind `id`, or
    /// `None` when the handle is stale or the slot out of range.
    pub fn get_input_bit(&self, id: ComponentId, slot: usize) -> (r: Option<bool>)
        requires
            self.wf(),
        ensures
            r == if self@.contains_key(id) && slot < self@[id].inputs.len() {
                Some(self@[id].inputs[slot as int])
            } else {
                None::<bool>
            },
    {
        if id.index < self.comps.len() && id.index < self.gens.len() && self.gens[id.index]
            == id.generation && self.comps[id.index].is_some() {
            if slot < self.inputs[id.index].len() {
                Some(self.inputs[id.index].get(slot))
            } else {
                None
            }
        } else {
            None
        }
    }

    /// The recorded output bit at `slot` of the node behind `id`, or
    /// `None` when the handle is stale or the slot out of range.
    pub fn get_output_bit(&self, id: ComponentId, slot: usize) -> (r: Option<bool>)
        requires
            self.wf(),
        ensures
            r == if self@.contains_key(id) && slot < self@[id].outputs.len() {
                Some(self@[id].outputs[slot as int])
            } else {
                None::<bool>
            },
    {
        if id.index < self.comps.len() && id.index < self.gens.len() && self.gens[id.index]
            == id.generation && self.comps[id.index].is_some() {
            if slot < self.outputs[id.index].len() {
                Some(self.outputs[id.index].get(slot))
            } else {
                None
            }
        } else {
            None
        }
    }

    /// The connection recorded on input slot `slot` of the node
    /// behind `id`: `None` when the handle is stale or the slot out
    /// of range, `Some(None)` when the slot is unconnected.
    pub fn get_input_slot(&self, id: ComponentId, slot: usize) -> (r: Option<Option<Slot>>)
        requires
            self.wf(),
        ensures
            r == if self@.contains_key(id) && slot < self@[id].input_slots.len() {
                Some(self@[id].input_slots[slot as int])
            } else {
                None::<Option<Slot>>
            },
    {
        if id.index < self.comps.len() && id.index < self.gens.len() && self.gens[id.index]
            == id.generation && self.comps[id.index].is_some() {
            if slot < self.in_slots[id.index].len() {
                Some(self.in_slots[id.index][slot])
            } else {
                None
            }
        } else {
            None
        }
    }

    /// The connection recorded on output slot `slot` of the node
    /// behind `id`: `None` when the handle is stale or the slot out
    /// of range, `Some(None)` when the slot is unconnected.
    pub fn get_output_slot(&self, id: ComponentId, slot: usize) -> (r: Option<Option<Slot>>)
        requires
            self.wf(),
        ensures
            r == if self@.contains_key(id) && slot < self@[id].output_slots.len() {
                Some(self@[id].output_slots[slot as int])
            } else {
                None::<Option<Slot>>
            },
    {
        if id.index < self.comps.len() && id.index < self.gens.len() && self.gens[id.index]
            == id.generation && self.comps[id.index].is_some() {
            if slot < self.out_slots[id.index].len() {
                Some(self.out_slots[id.index][slot])
            } else {
                None
            }
        } else {
            None
        }
    }

    /// The whole recorded input bit-vector of the node behind `id`,
    /// or `None` when the handle is stale.
    pub fn get_inputs(&self, id: ComponentId) -> (r: Option<Vec<bool>>)
        requires
            self.wf(),
        ensures
            r is Some <==> self@.contains_key(id),
            r is Some ==> r.unwrap()@ == self@[id].inputs,
    {
        if id.index < self.comps.len() && id.index < self.gens.len() && self.gens[id.index]
            == id.generation && self.comps[id.index].is_some() {
            Some(bits_to_vec(&self.inputs[id.index]))
        } else {
            None
        }
    }

    /// The whole recorded output bit-vector of the node behind `id`,
    /// or `None` when the handle is stale.
    pub fn get_outputs(&self, id: ComponentId) -> (r: Option<Vec<bool>>)
        requires
            self.wf(),
        ensures
            r is Some <==> self@.contains_key(id),
            r is Some ==> r.unwrap()@ == self@[id].outputs,
    {
        if id.index < self.comps.len() && id.index < self.gens.len() && self.gens[id.index]
            == id.generation && self.comps[id.index].is_some() {
            Some(bits_to_vec(&self.outputs[id.index]))
        } else {
            None
        }
    }

    /// Every handle that currently resolves, one per live node, in
    /// arena order.
    pub fn live_ids(&self) -> (r: Vec<ComponentId>)
        requires
            self.wf(),
        ensures
            forall|k: int| 0 <= k < r@.len() ==> self@.contains_key(#[trigger] r@[k]),
            forall|id: ComponentId| #[trigger] self@.contains_key(id) ==> r@.contains(id),
            forall|k1: int, k2: int| 0 <= k1 < k2 < r@.len() ==> r@[k1] != r@[k2],
    {
        let n = self.gens.len();
        let mut v: Vec<ComponentId> = Vec::new();
        let mut i: usize = 0;
        while i < n
            invariant
                self.wf(),
                i <= n,
                n as nat == self.gens@.len(),
                forall|k: int| 0 <= k < v@.len() ==> self.id_live(#[trigger] v@[k]),
                forall|k: int| 0 <= k < v@.len() ==> (#[trigger] v@[k]).idx() < i,
                forall|id: ComponentId|
                    #![trigger self.id_live(id)]
                    self.id_live(id) && id.idx() < i ==> v@.contains(id),
                forall|k1: int, k2: int| 0 <= k1 < k2 < v@.len() ==> v@[k1] != v@[k2],
            decreases n - i,
        {
            if self.comps[i].is_some() {
                let id = ComponentId { index: i, generation: self.gens[i] };
                let ghost vpre = v@;
                proof {
                    assert(self.id_live(id));
                    assert(forall|k: int|
                        0 <= k < v@.len() ==> (#[trigger] v@[k]).idx() != id.idx());
                }
                v.push(id);
                proof {
                    assert forall|id2: ComponentId|
                        #![trigger self.id_live(id2)]
                        self.id_live(id2) && id2.idx() < i + 1 implies v@.contains(id2) by {
                        if id2.idx() == i as int {
                            assert(id2 == id);
                            assert(v@[v@.len() - 1] == id);
                        } else {
                            assert(vpre.contains(id2));
                            let k = choose|k: int| 0 <= k < vpre.len() && vpre[k] == id2;
                            assert(v@[k] == id2);
                        }
                    }
                }
            }
            i = i + 1;
        }
        proof {
            assert forall|id: ComponentId| #[trigger]
                self@.contains_key(id) implies v@.contains(id) by {
                lemma_vec_len_bound(&self.comps);
                assert(self.id_live(id));
                assert(id.idx() < n as int);
            }
        }
        v
    }

    /// Replaces the component instance behind `id` in place.  The new
    /// instance must have the same arity as the old one: an
    /// arity-changing replacement would invalidate existing wiring
    /// and is a caller error.
    pub fn update_comp(&mut self, id: ComponentId, component: Component)
        requires
            old(self).wf(),
            old(self)@.contains_key(id),
            spec_input_size(component) == spec_input_size(old(self)@[id].component),
            spec_output_size(component) == spec_output_size(old(self)@[id].component),
        ensures
            final(self).wf(),
            final(self)@ == old(self)@.insert(
                id,
                NodeView { component, ..old(self)@[id] },
            ),
    {
        let idx = id.index;
        self.comps[idx] = Some(component);
        proof {
            let i0 = idx as int;
            assert forall|i: int| self.idx_live(i) implies #[trigger] self.node_ok(i) by {
                assert(old(self).node_ok(i));
                assert forall|j: int|
                    0 <= j < self.out_slots@[i]@.len() implies #[trigger] self.out_edge_ok(
                    i,
                    j,
                ) by {
                    assert(old(self).out_edge_ok(i, j));
                }
                assert forall|j: int|
                    0 <= j < self.in_slots@[i]@.len() implies #[trigger] self.in_edge_ok(
                    i,
                    j,
                ) by {
                    assert(old(self).in_edge_ok(i, j));
                }
            }
            assert(self@ =~~= old(self)@.insert(id, NodeView { component, ..old(self)@[id] }));
        }
    }
}

/// Everything but the wiring agrees between two graph images: same
/// live handles, and per node the same component, state, and slot
/// counts.
pub open spec fn same_nodes_except_wiring(
    m1: Map<ComponentId, NodeView>,
    m2: Map<ComponentId, NodeView>,
) -> bool {
    &&& m2.dom() == m1.dom()
    &&& (forall|id: ComponentId| #[trigger]
        m2.contains_key(id) ==> {
            &&& m2[id].component == m1[id].component
            &&& m2[id].inputs == m1[id].inputs
            &&& m2[id].outputs == m1[id].outputs
            &&& m2[id].input_slots.len() == m1[id].input_slots.len()
            &&& m2[id].output_slots.len() == m1[id].output_slots.len()
        })
}

impl Graph {
    /// Connects output slot `slot_a` of `node_a` to input slot
    /// `slot_b` of `node_b`, recording the edge on both ends.  A
    /// connection previously recorded on either endpoint is severed
    /// first, so the wiring stays consistent.
    pub fn add_conn(
        &mut self,
        node_a: ComponentId,
        slot_a: usize,
        node_b: ComponentId,
        slot_b: usize,
    )
        requires
            old(self).wf(),
            old(self)@.contains_key(node_a),
            old(self)@.contains_key(node_b),
            slot_a < old(self)@[node_a].output_slots.len(),
            slot_b < old(self)@[node_b].input_slots.len(),
        ensures
            final(self).wf(),
            same_nodes_except_wiring(old(self)@, final(self)@),
            final(self)@[node_a].output_slots[slot_a as int] == Some(
                Slot { target_node: node_b, target_slot: slot_b },
            ),
            final(self)@[node_b].input_slots[slot_b as int] == Some(
                Slot { target_node: node_a, target_slot: slot_a },
            ),
            forall|id: ComponentId, j: int|
                #![trigger final(self)@[id].output_slots[j]]
                final(self)@.contains_key(id) && 0 <= j < final(self)@[id].output_slots.len() && !(
                id == node_a && j == slot_a as int) ==> final(self)@[id].output_slots[j] == (if old(
                    self,
                )@[node_b].input_slots[slot_b as int] == Some(
                    Slot { target_node: id, target_slot: j as usize },
                ) {
                    None
                } else {
                    old(self)@[id].output_slots[j]
                }),
            forall|id: ComponentId, j: int|
                #![trigger final(self)@[id].input_slots[j]]
                final(self)@.contains_key(id) && 0 <= j < final(self)@[id].input_slots.len() && !(id
                    == node_b && j == slot_b as int) ==> final(self)@[id].input_slots[j] == (if old(
                    self,
                )@[node_a].output_slots[slot_a as int] == Some(
                    Slot { target_node: id, target_slot: j as usize },
                ) {
                    None
                } else {
                    old(self)@[id].input_slots[j]
                }),
    {
        let ia = node_a.index;
        let ib = node_b.index;
        proof {
            assert(old(self).id_live(node_a) && old(self).id_live(node_b));
            assert(old(self).node_ok(ia as int) && old(self).node_ok(ib as int));
            assert(old(self).out_edge_ok(ia as int, slot_a as int));
            assert(old(self).in_edge_ok(ib as int, slot_b as int));
            assert(old(self).id_at(ia as int) == node_a);
            assert(old(self).id_at(ib as int) == node_b);
        }
        // sever whatever this output slot currently drives
        let cur_out = self.out_slots[ia][slot_a];
        match cur_out {
            Some(s) => {
                self.remove_conn(node_a, slot_a, s.target_node, s.target_slot);
            },
            None => {},
        }
        let ghost m1 = self@;
        // sever whatever currently drives this input slot
        let cur_in = self.in_slots[ib][slot_b];
        proof {
            assert(self.id_live(node_b));
            assert(cur_in == m1[node_b].input_slots[slot_b as int]);
            if cur_out is Some {
                assert(old(self).in_slots@[cur_out.unwrap().target_node.idx()]@[cur_out.unwrap().target_slot as int]
                    == Some(Slot { target_node: node_a, target_slot: slot_a }));
            }
            assert(cur_in is Some ==> cur_in == old(self)@[node_b].input_slots[slot_b as int]);
            if cur_in is Some {
                assert(self.node_ok(ib as int));
                assert(self.in_edge_ok(ib as int, slot_b as int));
            }
        }
        match cur_in {
            Some(s) => {
                self.remove_conn(s.target_node, s.target_slot, node_b, slot_b);
            },
            None => {},
        }
        let ghost m2 = self@;
        proof {
            assert(self@[node_a].output_slots[slot_a as int] is None);
            assert(self@[node_b].input_slots[slot_b as int] is None);
        }
        self.link_empty(node_a, slot_a, node_b, slot_b);
        proof {
            assert(same_nodes_except_wiring(old(self)@, self@));
            assert forall|id: ComponentId, j: int|
                #![trigger self@[id].output_slots[j]]
                self@.contains_key(id) && 0 <= j < self@[id].output_slots.len() && !(id == node_a
                    && j == slot_a as int) implies self@[id].output_slots[j] == (if old(
                self,
            )@[node_b].input_slots[slot_b as int] == Some(
                Slot { target_node: id, target_slot: j as usize },
            ) {
                None
            } else {
                old(self)@[id].output_slots[j]
            }) by {
                assert(self.id_live(id));
                lemma_vec_len_bound(&self.out_slots@[id.idx()]);
                assert(self@[id].output_slots[j] == m2[id].output_slots[j]);
                if cur_out is Some && old(self)@[node_a].output_slots[slot_a as int] == Some(
                    Slot { target_node: node_b, target_slot: slot_b },
                ) {
                    assert(old(self)@[node_b].input_slots[slot_b as int] == Some(
                        Slot { target_node: node_a, target_slot: slot_a },
                    ));
                    assert(m1[id].output_slots[j] == old(self)@[id].output_slots[j]);
                    assert(cur_in is None);
                    assert(m2 == m1);
                } else {
                    assert(m1[id].output_slots[j] == old(self)@[id].output_slots[j]);
                    if cur_in is Some {
                        let s = cur_in.unwrap();
                        assert(m1[s.target_node].output_slots[s.target_slot as int] == Some(
                            Slot { target_node: node_b, target_slot: slot_b },
                        ));
                        if id == s.target_node && j == s.target_slot as int {
                            assert(m2[id].output_slots[j] is None);
                        } else {
                            assert(m2[id].output_slots[j] == m1[id].output_slots[j]);
                        }
                    } else {
                        assert(m2 == m1);
                    }
                }
            }
            assert forall|id: ComponentId, j: int|
                #![trigger self@[id].input_slots[j]]
                self@.contains_key(id) && 0 <= j < self@[id].input_slots.len() && !(id == node_b
                    && j == slot_b as int) implies self@[id].input_slots[j] == (if old(
                self,
            )@[node_a].output_slots[slot_a as int] == Some(
                Slot { target_node: id, target_slot: j as usize },
            ) {
                None
            } else {
                old(self)@[id].input_slots[j]
            }) by {
                assert(self.id_live(id));
                lemma_vec_len_bound(&self.in_slots@[id.idx()]);
                assert(self@[id].input_slots[j] == m2[id].input_slots[j]);
                if cur_out is Some {
                    let s = cur_out.unwrap();
                    if id == s.target_node && j == s.target_slot as int {
                        assert(m1[id].input_slots[j] is None);
                    } else {
                        assert(m1[id].input_slots[j] == old(self)@[id].input_slots[j]);
                    }
                } else {
                    assert(m1[id].input_slots[j] == old(self)@[id].input_slots[j]);
                }
                if cur_in is Some && m1[cur_in.unwrap().target_node].output_slots[cur_in.unwrap().target_slot as int]
                    == Some(Slot { target_node: node_b, target_slot: slot_b }) {
                    assert(m2[id].input_slots[j] == m1[id].input_slots[j]);
                } else {
                    assert(m2 == m1);
                }
            }
        }
    }

    /// Records the edge from output slot `slot_a` of `node_a` to
    /// input slot `slot_b` of `node_b` on both ends; both slots must
    /// currently be unconnected.
    fn link_empty(
        &mut self,
        node_a: ComponentId,
        slot_a: usize,
        node_b: ComponentId,
        slot_b: usize,
    )
        requires
            old(self).wf(),
            old(self)@.contains_key(node_a),
            old(self)@.contains_key(node_b),
            slot_a < old(self)@[node_a].output_slots.len(),
            slot_b < old(self)@[node_b].input_slots.len(),
            old(self)@[node_a].output_slots[slot_a as int] is None,
            old(self)@[node_b].input_slots[slot_b as int] is None,
        ensures
            final(self).wf(),
            same_nodes_except_wiring(old(self)@, final(self)@),
            final(self)@[node_a].output_slots[slot_a as int] == Some(
                Slot { target_node: node_b, target_slot: slot_b },
            ),
            final(self)@[node_b].input_slots[slot_b as int] == Some(
                Slot { target_node: node_a, target_slot: slot_a },
            ),
            forall|id: ComponentId, j: int|
                #![trigger final(self)@[id].output_slots[j]]
                final(self)@.contains_key(id) && 0 <= j < final(self)@[id].output_slots.len() && !(
                id == node_a && j == slot_a as int) ==> final(self)@[id].output_slots[j] == old(
                    self,
                )@[id].output_slots[j],
            forall|id: ComponentId, j: int|
                #![trigger final(self)@[id].input_slots[j]]
                final(self)@.contains_key(id) && 0 <= j < final(self)@[id].input_slots.len() && !(id
                    == node_b && j == slot_b as int) ==> final(self)@[id].input_slots[j] == old(
                    self,
                )@[id].input_slots[j],
    {
        let ia = node_a.index;
        let ib = node_b.index;
        self.out_slots[ia][slot_a] = Some(Slot { target_node: node_b, target_slot: slot_b });
        self.in_slots[ib][slot_b] = Some(Slot { target_node: node_a, target_slot: slot_a });
        proof {
            lemma_vec_len_bound(&old(self).comps);
            assert(old(self).id_live(node_a) && old(self).id_live(node_b));
            assert(old(self).id_at(ia as int) == node_a);
            assert(old(self).id_at(ib as int) == node_b);
            assert(old(self).node_ok(ia as int));
            assert(old(self).node_ok(ib as int));
            assert forall|i: int| self.idx_live(i) implies #[trigger] self.node_ok(i) by {
                lemma_vec_len_bound(&old(self).in_slots@[i]);
                lemma_vec_len_bound(&old(self).out_slots@[i]);
                assert(old(self).node_ok(i));
                assert forall|j: int|
                    0 <= j < self.out_slots@[i]@.len() implies #[trigger] self.out_edge_ok(
                    i,
                    j,
                ) by {
                    assert(old(self).out_edge_ok(i, j));
                    if i == ia as int && j == slot_a as int {
                        assert(self.out_slots@[i]@[j] == Some(
                            Slot { target_node: node_b, target_slot: slot_b },
                        ));
                    } else {
                        assert(self.out_slots@[i]@[j] == old(self).out_slots@[i]@[j]);
                        match old(self).out_slots@[i]@[j] {
                            Some(s) => {
                                if s.target_node.idx() == ib as int && s.target_slot as int
                                    == slot_b as int {
                                    assert(old(self).in_slots@[ib as int]@[slot_b as int] == Some(
                                        Slot {
                                            target_node: old(self).id_at(i),
                                            target_slot: j as usize,
                                        },
                                    ));
                                    assert(false);
                                }
                            },
                            None => {},
                        }
                    }
                }
                assert forall|j: int|
                    0 <= j < self.in_slots@[i]@.len() implies #[trigger] self.in_edge_ok(
                    i,
                    j,
                ) by {
                    assert(old(self).in_edge_ok(i, j));
                    if i == ib as int && j == slot_b as int {
                        assert(self.in_slots@[i]@[j] == Some(
                            Slot { target_node: node_a, target_slot: slot_a },
                        ));
                    } else {
                        assert(self.in_slots@[i]@[j] == old(self).in_slots@[i]@[j]);
                        match old(self).in_slots@[i]@[j] {
                            Some(s) => {
                                if s.target_node.idx() == ia as int && s.target_slot as int
                                    == slot_a as int {
                                    assert(old(self).out_slots@[ia as int]@[slot_a as int] == Some(
                                        Slot {
                                            target_node: old(self).id_at(i),
                                            target_slot: j as usize,
                                        },
                                    ));
                                    assert(false);
                                }
                            },
                            None => {},
                        }
                    }
                }
            }
            assert(same_nodes_except_wiring(old(self)@, self@)) by {
                assert(self@.dom() =~= old(self)@.dom());
            }
        }
    }

    /// Severs the connection recorded from output slot `slot_a` of
    /// `node_a` to input slot `slot_b` of `node_b`.  When no such
    /// connection is recorded, the graph is left untouched.
    pub fn remove_conn(
        &mut self,
        node_a: ComponentId,
        slot_a: usize,
        node_b: ComponentId,
        slot_b: usize,
    )
        requires
            old(self).wf(),
            old(self)@.contains_key(node_a),
            old(self)@.contains_key(node_b),
            slot_a < old(self)@[node_a].output_slots.len(),
            slot_b < old(self)@[node_b].input_slots.len(),
        ensures
            final(self).wf(),
            same_nodes_except_wiring(old(self)@, final(self)@),
            old(self)@[node_a].output_slots[slot_a as int] == Some(
                Slot { target_node: node_b, target_slot: slot_b },
            ) ==> {
                &&& final(self)@[node_a].output_slots[slot_a as int] is None
                &&& final(self)@[node_b].input_slots[slot_b as int] is None
                &&& (forall|id: ComponentId, j: int|
                    #![trigger final(self)@[id].output_slots[j]]
                    final(self)@.contains_key(id) && 0 <= j < final(self)@[id].output_slots.len()
                        && !(id == node_a && j == slot_a as int) ==> final(self)@[id].output_slots[j] == old(self)@[id].output_slots[j])
                &&& (forall|id: ComponentId, j: int|
                    #![trigger final(self)@[id].input_slots[j]]
                    final(self)@.contains_key(id) && 0 <= j < final(self)@[id].input_slots.len()
                        && !(id == node_b && j == slot_b as int) ==> final(self)@[id].input_slots[j] == old(self)@[id].input_slots[j])
            },
            old(self)@[node_a].output_slots[slot_a as int] != Some(
                Slot { target_node: node_b, target_slot: slot_b },
            ) ==> final(self)@ == old(self)@,
    {
        let ia = node_a.index;
        let ib = node_b.index;
        let cur = self.out_slots[ia][slot_a];
        let matches_pair = match cur {
            Some(s) => s.target_node == node_b && s.target_slot == slot_b,
            None => false,
        };
        if matches_pair {
            self.out_slots[ia][slot_a] = None;
            self.in_slots[ib][slot_b] = None;
            proof {
                lemma_vec_len_bound(&old(self).comps);
                lemma_vec_len_bound(&old(self).in_slots);
                lemma_vec_len_bound(&old(self).out_slots);
                assert(old(self).id_live(node_a) && old(self).id_live(node_b));
                assert(old(self).node_ok(ia as int));
                assert(old(self).out_edge_ok(ia as int, slot_a as int));
                assert(old(self).id_at(ia as int) == node_a);
                assert(old(self).in_slots@[ib as int]@[slot_b as int] == Some(
                    Slot { target_node: node_a, target_slot: slot_a },
                ));
                assert forall|i: int| self.idx_live(i) implies #[trigger] self.node_ok(i) by {
                    assert(old(self).node_ok(i));
                    assert forall|j: int|
                        0 <= j < self.out_slots@[i]@.len() implies #[trigger] self.out_edge_ok(
                        i,
                        j,
                    ) by {
                        lemma_vec_len_bound(&old(self).out_slots@[i]);
                        assert(old(self).out_edge_ok(i, j));
                        if !(i == ia as int && j == slot_a as int) {
                            match old(self).out_slots@[i]@[j] {
                                Some(s) => {
                                    if s.target_node.idx() == ib as int && s.target_slot as int
                                        == slot_b as int {
                                        assert(old(self).in_slots@[ib as int]@[slot_b as int]
                                            == Some(
                                            Slot {
                                                target_node: old(self).id_at(i),
                                                target_slot: j as usize,
                                            },
                                        ));
                                        assert(old(self).id_at(i) == node_a);
                                        assert((i as usize) == ia);
                                        assert((j as usize) == slot_a);
                                        assert(i == ia as int && j == slot_a as int);
                                        assert(false);
                                    }
                                },
                                None => {},
                            }
                        }
                    }
                    assert forall|j: int|
                        0 <= j < self.in_slots@[i]@.len() implies #[trigger] self.in_edge_ok(
                        i,
                        j,
                    ) by {
                        lemma_vec_len_bound(&old(self).in_slots@[i]);
                        assert(old(self).in_edge_ok(i, j));
                        if !(i == ib as int && j == slot_b as int) {
                            match old(self).in_slots@[i]@[j] {
                                Some(s) => {
                                    if s.target_node.idx() == ia as int && s.target_slot as int
                                        == slot_a as int {
                                        assert(old(self).out_slots@[ia as int]@[slot_a as int]
                                            == Some(
                                            Slot {
                                                target_node: old(self).id_at(i),
                                                target_slot: j as usize,
                                            },
                                        ));
                                        assert(old(self).id_at(i) == node_b);
                                        assert((i as usize) == ib);
                                        assert((j as usize) == slot_b);
                                        assert(i == ib as int && j == slot_b as int);
                                        assert(false);
                                    }
                                },
                                None => {},
                            }
                        }
                    }
                }
                assert(old(self)@.contains_key(node_a));
                assert(same_nodes_except_wiring(old(self)@, self@)) by {
                    assert(self@.dom() =~= old(self)@.dom());
                }
            }
        } else {
            proof {
                assert(self@ =~~= old(self)@);
            }
        }
    }
}

/// A well-formed graph's flat face is dimensionally well-formed,
/// and the two-sided edge records give every input position a
/// unique driver.
pub proof fn lemma_wf_flat(g: &Graph)
    requires
        g.wf(),
    ensures
        crate::propagate::flat_wf(g.flat()),
        crate::propagate::drivers_unique(g.flat()),
        forall|id: ComponentId| #[trigger]
            g@.contains_key(id) ==> 0 <= id.idx() < g.flat().inputs.len() && g.flat().comps[id.idx()] is Some,
{
    let st = g.flat();
    assert forall|n: int|
        0 <= n < st.inputs.len() && st.comps[n] is Some implies #[trigger] crate::propagate::node_dims_ok(
        st,
        n,
    ) by {
        assert(g.idx_live(n));
        assert(g.node_ok(n));
        assert forall|j: int|
            0 <= j < st.out_slots[n].len() implies match #[trigger] st.out_slots[n][j] {
            Some(slot) => {
                &&& 0 <= slot.target_node.idx() < st.inputs.len()
                &&& st.comps[slot.target_node.idx()] is Some
                &&& (slot.target_slot as int) < st.inputs[slot.target_node.idx()].len()
            },
            None => true,
        } by {
            assert(g.out_edge_ok(n, j));
            match st.out_slots[n][j] {
                Some(slot) => {
                    assert(g.id_live(slot.target_node));
                    assert(g.node_ok(slot.target_node.idx()));
                },
                None => {},
            }
        }
    }
    assert forall|n1: int, j1: int, n2: int, j2: int|
        #![trigger st.out_slots[n1][j1], st.out_slots[n2][j2]]
        (0 <= n1 < st.out_slots.len() && st.comps[n1] is Some && 0 <= j1 < st.out_slots[n1].len()
            && 0 <= n2 < st.out_slots.len() && st.comps[n2] is Some && 0 <= j2
            < st.out_slots[n2].len() && st.out_slots[n1][j1] is Some && st.out_slots[n2][j2]
            is Some && st.out_slots[n1][j1].unwrap().target_node.idx()
            == st.out_slots[n2][j2].unwrap().target_node.idx()
            && st.out_slots[n1][j1].unwrap().target_slot
            == st.out_slots[n2][j2].unwrap().target_slot) implies n1 == n2 && j1 == j2 by {
        lemma_vec_len_bound(&g.comps);
        assert(g.idx_live(n1) && g.idx_live(n2));
        assert(g.node_ok(n1) && g.node_ok(n2));
        assert(g.out_edge_ok(n1, j1));
        assert(g.out_edge_ok(n2, j2));
        let s1 = st.out_slots[n1][j1].unwrap();
        let s2 = st.out_slots[n2][j2].unwrap();
        assert(g.in_slots@[s1.target_node.idx()]@[s1.target_slot as int] == Some(
            Slot { target_node: g.id_at(n1), target_slot: j1 as usize },
        ));
        assert(g.in_slots@[s2.target_node.idx()]@[s2.target_slot as int] == Some(
            Slot { target_node: g.id_at(n2), target_slot: j2 as usize },
        ));
        assert(g.id_at(n1) == g.id_at(n2));
        lemma_vec_len_bound(&g.out_slots@[n1]);
        lemma_vec_len_bound(&g.out_slots@[n2]);
        assert(n1 == n2 && j1 == j2);
    }
}

/// Fixed-point convergence at the graph level: when `propagate_from`
/// reports that the circuit settled, running it again from the same
/// node is a no-op, by the engine's own contract together with this
/// law over its mathematical model.
pub proof fn lemma_propagate_from_fixed_point(g: &Graph, id: ComponentId)
    requires
        g.wf(),
        g@.contains_key(id),
    ensures
        ({
            let r = spec_propagate(g.flat(), id.idx());
            !r.1 ==> spec_propagate(r.0, id.idx()) == (r.0, false)
        }),
{
    lemma_wf_flat(g);
    crate::propagate::lemma_propagate_fixed_point(g.flat(), id.idx());
}

/// Arity invariant: in a well-formed graph, every live node's slot
/// arrays are sized to its component's declared arity, and its state
/// vectors are sized to its slot arrays.  Every mutation of the
/// graph preserves well-formedness, so this holds after each one.
pub proof fn lemma_arity_invariant(g: &Graph, id: ComponentId)
    requires
        g.wf(),
        g@.contains_key(id),
    ensures
        g@[id].input_slots.len() == spec_input_size(g@[id].component),
        g@[id].output_slots.len() == spec_output_size(g@[id].component),
        g@[id].inputs.len() == g@[id].input_slots.len(),
        g@[id].outputs.len() == g@[id].output_slots.len(),
{
    assert(g.id_live(id));
    assert(g.node_ok(id.idx()));
}

/// Wiring symmetry: in a well-formed graph, output slot `sa` of `a`
/// records the connection to input slot `sb` of `b` exactly when
/// that input slot records the connection back.
pub proof fn lemma_wiring_symmetry(g: &Graph, a: ComponentId, sa: int, b: ComponentId, sb: int)
    requires
        g.wf(),
        g@.contains_key(a),
        g@.contains_key(b),
        0 <= sa < g@[a].output_slots.len(),
        0 <= sb < g@[b].input_slots.len(),
    ensures
        g@[a].output_slots[sa] == Some(Slot { target_node: b, target_slot: sb as usize }) <==> g@[b].input_slots[sb]
            == Some(Slot { target_node: a, target_slot: sa as usize }),
{
    lemma_vec_len_bound(&g.comps);
    lemma_vec_len_bound(&g.in_slots@[b.idx()]);
    lemma_vec_len_bound(&g.out_slots@[a.idx()]);
    assert(g.id_live(a) && g.id_live(b));
    assert(g.node_ok(a.idx()) && g.node_ok(b.idx()));
    assert(g.id_at(a.idx()) == a);
    assert(g.id_at(b.idx()) == b);
    if g@[a].output_slots[sa] == Some(Slot { target_node: b, target_slot: sb as usize }) {
        assert(g.out_edge_ok(a.idx(), sa));
    }
    if g@[b].input_slots[sb] == Some(Slot { target_node: a, target_slot: sa as usize }) {
        assert(g.in_edge_ok(b.idx(), sb));
    }
}

/// A fork component with its input arity grown by one; other kinds
/// are left as they are.
pub open spec fn with_input_grown(c: Component) -> Component {
    match c {
        Component::Fork(f) => Component::Fork(
            crate::components::Fork {
                input_size: (f.input_size + 1) as u8,
                output_size: f.output_size,
            },
        ),
        _ => c,
    }
}

/// A fork component with its output arity grown by one; other kinds
/// are left as they are.
pub open spec fn with_output_grown(c: Component) -> Component {
    match c {
        Component::Fork(f) => Component::Fork(
            crate::components::Fork {
                input_size: f.input_size,
                output_size: (f.output_size + 1) as u8,
            },
        ),
        _ => c,
    }
}

/// The image of a node just allocated for `component`: unconnected
/// slots and zero-filled state.
pub open spec fn new_node_view(component: Component) -> NodeView {
    NodeView {
        component,
        input_slots: Seq::new(spec_input_size(component), |j: int| None::<Slot>),
        output_slots: Seq::new(spec_output_size(component), |j: int| None::<Slot>),
        inputs: Seq::new(spec_input_size(component), |j: int| false),
        outputs: Seq::new(spec_output_size(component), |j: int| false),
    }
}

/// What a vector's view can hold is bounded by the machine: handy
/// when an arena index comes back out of a handle.
proof fn lemma_vec_len_bound<T>(v: &Vec<T>)
    ensures
        v@.len() <= usize::MAX,
{
    vstd::std_specs::vec::axiom_spec_len(v);
}

/// The bits of a packed vector, unpacked.
fn bits_to_vec(b: &Bits) -> (r: Vec<bool>)
    ensures
        r@ == bits_of(*b),
{
    let n = b.len();
    let mut v: Vec<bool> = Vec::new();
    let mut i: usize = 0;
    while i < n
        invariant
            i <= n,
            n as nat == bits_of(*b).len(),
            v@ == bits_of(*b).subrange(0, i as int),
        decreases n - i,
    {
        v.push(b.get(i));
        proof {
            assert(v@ =~= bits_of(*b).subrange(0, i + 1));
        }
        i = i + 1;
    }
    proof {
        assert(v@ =~= bits_of(*b));
    }
    v
}

/// A slot array of `n` unconnected entries.
fn vec_of_none(n: usize) -> (r: Vec<Option<Slot>>)
    ensures
        r@ == Seq::new(n as nat, |j: int| None::<Slot>),
{
    let mut v: Vec<Option<Slot>> = Vec::new();
    let mut i: usize = 0;
    while i < n
        invariant
            i <= n,
            v@ == Seq::new(i as nat, |j: int| None::<Slot>),
        decreases n - i,
    {
        v.push(None);
        proof {
            assert(v@ =~= Seq::new((i + 1) as nat, |j: int| None::<Slot>));
        }
        i = i + 1;
    }
    proof {
        assert(v@ =~= Seq::new(n as nat, |j: int| None::<Slot>));
    }
    v
}

/// What a propagation run reports: either the circuit reached
/// quiescence, or the step ceiling cut a non-settling run short (the
/// state store then keeps its last committed, consistent values).
#[derive(Debug, Clone, Copy, PartialEq, Eq, Structural)]
pub enum PropagateResult {
    Settled,
    CeilingHit,
}

/// The spec image of the run-local staging store: the bit sequence
/// of each staged vector.
pub open spec fn staged_img(sv: Seq<Option<Bits>>) -> Seq<Option<Seq<bool>>> {
    Seq::new(
        sv.len(),
        |i: int| match sv[i] {
            Some(b) => Some(bits_of(b)),
            None => None::<Seq<bool>>,
        },
    )
}

/// The spec image of the run-local worklist: the arena slots still
/// queued, in order.
pub open spec fn queue_img(q: Seq<ComponentId>, from: int) -> Seq<int> {
    q.subrange(from, q.len() as int).map_values(|id: ComponentId| id.idx())
}

/// A staging store of `n` empty entries.
fn vec_none_bits(n: usize) -> (r: Vec<Option<Bits>>)
    ensures
        r@.len() == n as nat,
        forall|i: int| 0 <= i < n ==> (#[trigger] r@[i]) is None,
{
    let mut v: Vec<Option<Bits>> = Vec::new();
    let mut i: usize = 0;
    while i < n
        invariant
            i <= n,
            v@.len() == i as nat,
            forall|k: int| 0 <= k < i ==> (#[trigger] v@[k]) is None,
        decreases n - i,
    {
        v.push(None);
        i = i + 1;
    }
    v
}

impl Graph {
    /// The mutable face of this graph during a propagation run,
    /// indexed by arena slot.
    pub closed spec fn flat(&self) -> FlatState {
        FlatState {
            comps: self.comps@,
            out_slots: Seq::new(self.out_slots@.len(), |i: int| self.out_slots@[i]@),
            inputs: Seq::new(self.inputs@.len(), |i: int| bits_of(self.inputs@[i])),
            outputs: Seq::new(self.outputs@.len(), |i: int| bits_of(self.outputs@[i])),
        }
    }

    /// The sole simulation entry point: re-evaluates the node behind
    /// `node` and transitively every downstream node whose input
    /// actually changes, until quiescence or the step ceiling.  The
    /// final state and the report are exactly what `spec_propagate`
    /// says of the starting state, so propagation is a function of
    /// the graph alone: no hidden state, no randomness.
    #[verifier::rlimit(100)]
    #[verifier::spinoff_prover]
    pub fn propagate_from(&mut self, node: ComponentId) -> (r: PropagateResult)
        requires
            old(self).wf(),
            old(self)@.contains_key(node),
        ensures
            final(self).wf(),
            final(self)@.dom() == old(self)@.dom(),
            forall|nid: ComponentId| #[trigger]
                final(self)@.contains_key(nid) ==> final(self)@[nid].input_slots == old(
                    self,
                )@[nid].input_slots && final(self)@[nid].output_slots == old(
                    self,
                )@[nid].output_slots,
            final(self).flat() == spec_propagate(old(self).flat(), node.idx()).0,
            (r == PropagateResult::CeilingHit) == spec_propagate(old(self).flat(), node.idx()).1,
    {
        let ghost st0 = self.flat();
        let ghost staged0_g = seed_staged(st0, node.idx());
        let ghost q0 = seq![node.idx()];

        let idx0 = node.index;
        proof {
            lemma_vec_len_bound(&old(self).comps);
            assert(old(self).id_live(node));
            assert(old(self).node_ok(idx0 as int));
        }
        let n_now = self.gens.len();
        let mut staged = vec_none_bits(n_now);
        let seed_bits = self.inputs[idx0].clone_bits();
        staged[idx0] = Some(seed_bits);
        let mut queue: Vec<ComponentId> = Vec::new();
        queue.push(node);
        let mut qhead: usize = 0;
        let mut depth: usize = 0;
        let mut hit = false;
        proof {
            assert(staged_img(staged@) =~= staged0_g);
            assert(queue_img(queue@, 0) =~= q0);
        }
        while qhead < queue.len() && !hit
            invariant
                self.wf(),
                self.gens == old(self).gens,
                self.free == old(self).free,
                self.in_slots == old(self).in_slots,
                self.out_slots == old(self).out_slots,
                self.comps@.len() == old(self).comps@.len(),
                forall|i: int|
                    0 <= i < self.comps@.len() ==> ((#[trigger] self.comps@[i]) is Some <==> old(
                        self,
                    ).comps@[i] is Some),
                staged@.len() == self.comps@.len(),
                self.inputs@.len() == self.comps@.len(),
                qhead <= queue@.len(),
                depth <= MAX_PROPAGATION_DEPTH + 1,
                !hit ==> depth <= MAX_PROPAGATION_DEPTH,
                forall|k: int|
                    qhead <= k < queue@.len() ==> self.id_live(#[trigger] queue@[k])
                        && staged@[queue@[k].idx()] is Some,
                forall|k1: int, k2: int|
                    qhead <= k1 < k2 < queue@.len() ==> queue@[k1].idx() != queue@[k2].idx(),
                forall|i: int|
                    0 <= i < staged@.len() && (#[trigger] staged@[i]) is Some ==> self.idx_live(i)
                        && bits_of(staged@[i].unwrap()).len() == self.in_slots@[i]@.len(),
                spec_run(st0, staged0_g, q0, 0) == (if hit {
                    (self.flat(), true)
                } else {
                    spec_run(
                        self.flat(),
                        staged_img(staged@),
                        queue_img(queue@, qhead as int),
                        depth as nat,
                    )
                }),
            decreases MAX_PROPAGATION_DEPTH + 1 - depth,
        {
            let ghost self_pre = *self;
            let ghost flat_pre = self.flat();
            let ghost staged_pre = staged_img(staged@);
            let ghost q_pre = queue_img(queue@, qhead as int);
            let cur = queue[qhead];
            qhead = qhead + 1;
            let ci = cur.index;
            proof {
                lemma_vec_len_bound(&self.comps);
                assert(staged@[ci as int] is Some);
                assert(q_pre.len() > 0);
                assert(q_pre[0] == cur.idx());
                assert(queue_img(queue@, qhead as int) =~= q_pre.drop_first());
            }
            let sb = staged[ci].as_ref().unwrap().clone_bits();
            staged[ci] = None;
            proof {
                assert(staged_img(staged@) =~= staged_pre.update(ci as int, None::<Seq<bool>>));
            }
            depth = depth + 1;
            if depth > MAX_PROPAGATION_DEPTH {
                hit = true;
                proof {
                    assert(spec_run(flat_pre, staged_pre, q_pre, (depth - 1) as nat) == (
                        flat_pre,
                        true,
                    ));
                    assert(self.flat() =~~= flat_pre);
                }
            } else {
                proof {
                    assert(self.id_live(cur));
                    assert(self.node_ok(ci as int));
                }
                let mut comp = self.comps[ci].unwrap();
                let ghost comp0 = comp;
                let out_len = self.out_slots[ci].len();
                let mut out = self.outputs[ci].clone_bits();
                let mut mask = Bits::repeat(true, out_len);
                proof {
                    assert(bits_of(mask) =~= full_mask(flat_pre.out_slots[ci as int].len()));
                    assert(bits_of(sb) == staged_pre[ci as int].unwrap());
                    assert(flat_pre.inputs[ci as int] == bits_of(self.inputs@[ci as int]));
                    assert(flat_pre.outputs[ci as int] == bits_of(self.outputs@[ci as int]));
                }
                comp.propagate(&self.inputs[ci], &sb, &mut out, &mut mask);
                let ghost e = comp_eval(
                    comp0,
                    flat_pre.inputs[ci as int],
                    bits_of(sb),
                    flat_pre.outputs[ci as int],
                    full_mask(flat_pre.out_slots[ci as int].len()),
                );
                proof {
                    crate::components::lemma_comp_eval_preserves(
                        comp0,
                        flat_pre.inputs[ci as int],
                        bits_of(sb),
                        flat_pre.outputs[ci as int],
                        full_mask(flat_pre.out_slots[ci as int].len()),
                    );
                    assert(comp == e.0);
                    assert(bits_of(out) == e.1);
                    assert(bits_of(mask) == e.2);
                }
                self.comps[ci] = Some(comp);
                self.inputs[ci] = sb;
                self.outputs[ci] = out;
                let ghost st2 = FlatState {
                    comps: flat_pre.comps.update(ci as int, Some(e.0)),
                    inputs: flat_pre.inputs.update(ci as int, staged_pre[ci as int].unwrap()),
                    outputs: flat_pre.outputs.update(ci as int, e.1),
                    out_slots: flat_pre.out_slots,
                };
                let ghost staged1 = staged_pre.update(ci as int, None::<Seq<bool>>);
                let ghost q1 = q_pre.drop_first();
                let ghost slots_g = self.out_slots@[ci as int]@;
                proof {
                    assert(self.flat() =~~= st2);
                    assert(staged_img(staged@) =~= staged1);
                    assert(flat_pre.out_slots[ci as int] == slots_g);
                    // the commit leaves every live node well-formed
                    assert(self.comps@ == self_pre.comps@.update(ci as int, Some(comp)));
                    assert forall|i: int| self.idx_live(i) implies #[trigger] self.node_ok(i) by {
                        assert(self_pre.idx_live(i));
                        assert(self_pre.node_ok(i));
                        assert(self.in_slots@[i]@ == self_pre.in_slots@[i]@);
                        assert(self.out_slots@[i]@ == self_pre.out_slots@[i]@);
                        if i == ci as int {
                            assert(spec_input_size(self.comps@[i].unwrap()) == spec_input_size(
                                self_pre.comps@[i].unwrap(),
                            ));
                            assert(spec_output_size(self.comps@[i].unwrap()) == spec_output_size(
                                self_pre.comps@[i].unwrap(),
                            ));
                            assert(bits_of(self.inputs@[i]) == staged_pre[ci as int].unwrap());
                            assert(bits_of(self.inputs@[i]).len() == self.in_slots@[i]@.len());
                            assert(bits_of(self.outputs@[i]) == e.1);
                            assert(bits_of(self.outputs@[i]).len() == self.out_slots@[i]@.len());
                        } else {
                            assert(self.comps@[i] == self_pre.comps@[i]);
                            assert(bits_of(self.inputs@[i]).len() == self.in_slots@[i]@.len());
                            assert(bits_of(self.outputs@[i]).len() == self.out_slots@[i]@.len());
                        }
                        assert forall|j2: int|
                            0 <= j2 < self.out_slots@[i]@.len() implies #[trigger] self.out_edge_ok(
                            i,
                            j2,
                        ) by {
                            assert(self_pre.out_edge_ok(i, j2));
                            match self.out_slots@[i]@[j2] {
                                Some(s2) => {
                                    assert(self_pre.id_live(s2.target_node));
                                    assert(self.id_live(s2.target_node));
                                    assert(self.in_slots@[s2.target_node.idx()]@
                                        == self_pre.in_slots@[s2.target_node.idx()]@);
                                    assert(self.id_at(i) == self_pre.id_at(i));
                                },
                                None => {},
                            }
                        }
                        assert forall|j2: int|
                            0 <= j2 < self.in_slots@[i]@.len() implies #[trigger] self.in_edge_ok(
                            i,
                            j2,
                        ) by {
                            assert(self_pre.in_edge_ok(i, j2));
                            match self.in_slots@[i]@[j2] {
                                Some(s2) => {
                                    assert(self_pre.id_live(s2.target_node));
                                    assert(self.id_live(s2.target_node));
                                    assert(self.out_slots@[s2.target_node.idx()]@
                                        == self_pre.out_slots@[s2.target_node.idx()]@);
                                    assert(self.id_at(i) == self_pre.id_at(i));
                                },
                                None => {},
                            }
                        }
                    }
                }
                let mut j: usize = 0;
                while j < out_len
                    invariant
                        self.wf(),
                        self.gens == old(self).gens,
                        self.free == old(self).free,
                        self.in_slots == old(self).in_slots,
                        self.out_slots == old(self).out_slots,
                        self.comps@.len() == old(self).comps@.len(),
                        forall|i: int|
                            0 <= i < self.comps@.len() ==> ((#[trigger] self.comps@[i]) is Some
                                <==> old(self).comps@[i] is Some),
                        staged@.len() == self.comps@.len(),
                        self.inputs@.len() == self.comps@.len(),
                        qhead <= queue@.len(),
                        j <= out_len,
                        ci < self.comps@.len(),
                        self.idx_live(ci as int),
                        out_len as nat == self.out_slots@[ci as int]@.len(),
                        slots_g == self.out_slots@[ci as int]@,
                        st2 == self.flat(),
                        e.1.len() == out_len as nat,
                        e.2.len() == out_len as nat,
                        bits_of(mask) == e.2,
                        bits_of(self.outputs@[ci as int]) == e.1,
                        forall|k: int|
                            qhead <= k < queue@.len() ==> self.id_live(#[trigger] queue@[k])
                                && staged@[queue@[k].idx()] is Some,
                        forall|k1: int, k2: int|
                            qhead <= k1 < k2 < queue@.len() ==> queue@[k1].idx()
                                != queue@[k2].idx(),
                        forall|i: int|
                            0 <= i < staged@.len() && (#[trigger] staged@[i]) is Some
                                ==> self.idx_live(i) && bits_of(staged@[i].unwrap()).len()
                                == self.in_slots@[i]@.len(),
                        spec_forward(st2, staged1, q1, slots_g, e.1, e.2, 0) == spec_forward(
                            st2,
                            staged_img(staged@),
                            queue_img(queue@, qhead as int),
                            slots_g,
                            e.1,
                            e.2,
                            j as nat,
                        ),
                    decreases out_len - j,
                {
                    let ghost fw_staged = staged_img(staged@);
                    let ghost fw_q = queue_img(queue@, qhead as int);
                    let slot = self.out_slots[ci][j];
                    proof {
                        assert(self.node_ok(ci as int));
                        assert(self.out_edge_ok(ci as int, j as int));
                        assert(slots_g[j as int] == slot);
                    }
                    match slot {
                        Some(s) => {
                            let t = s.target_node;
                            let ti = t.index;
                            let ts = s.target_slot;
                            proof {
                                lemma_vec_len_bound(&self.comps);
                                assert(self.id_live(t));
                                assert(self.node_ok(ti as int));
                                assert((ts as int) < self.in_slots@[ti as int]@.len());
                                assert(bits_of(self.inputs@[ti as int]).len()
                                    == self.in_slots@[ti as int]@.len());
                                assert(ti as int == t.idx());
                                assert(0 <= t.idx() < self.inputs@.len());
                                assert(self.flat().inputs[ti as int] == bits_of(
                                    self.inputs@[ti as int],
                                ));
                                assert(st2.inputs[ti as int] == bits_of(self.inputs@[ti as int]));
                                assert(bits_of(self.outputs@[ci as int]) == e.1);
                            }
                            let bit = self.outputs[ci].get(j) && mask.get(j);
                            let staged_here = staged[ti].is_some();
                            let eff = if staged_here {
                                staged[ti].as_ref().unwrap().get(ts)
                            } else {
                                self.inputs[ti].get(ts)
                            };
                            proof {
                                assert(eff == eff_input(st2, fw_staged, t.idx())[ts as int]);
                            }
                            if bit != eff {
                                let mut nb = if staged_here {
                                    staged[ti].as_ref().unwrap().clone_bits()
                                } else {
                                    queue.push(t);
                                    self.inputs[ti].clone_bits()
                                };
                                nb.set(ts, bit);
                                staged[ti] = Some(nb);
                                proof {
                                    if staged_here {
                                        assert(queue_img(queue@, qhead as int) == fw_q);
                                        assert(staged_img(staged@) =~= fw_staged.update(
                                            t.idx(),
                                            Some(fw_staged[t.idx()].unwrap().update(
                                                ts as int,
                                                bit,
                                            )),
                                        ));
                                    } else {
                                        assert(queue_img(queue@, qhead as int) =~= fw_q.push(
                                            t.idx(),
                                        ));
                                        assert(staged_img(staged@) =~= fw_staged.update(
                                            t.idx(),
                                            Some(st2.inputs[t.idx()].update(ts as int, bit)),
                                        ));
                                    }
                                }
                            }
                        },
                        None => {},
                    }
                    proof {
                        assert(spec_forward(st2, fw_staged, fw_q, slots_g, e.1, e.2, j as nat)
                            == spec_forward(
                            st2,
                            staged_img(staged@),
                            queue_img(queue@, qhead as int),
                            slots_g,
                            e.1,
                            e.2,
                            (j + 1) as nat,
                        ));
                    }
                    j = j + 1;
                }
                proof {
                    assert(spec_forward(
                        st2,
                        staged_img(staged@),
                        queue_img(queue@, qhead as int),
                        slots_g,
                        e.1,
                        e.2,
                        out_len as nat,
                    ) == (staged_img(staged@), queue_img(queue@, qhead as int)));
                    assert(spec_run(flat_pre, staged_pre, q_pre, (depth - 1) as nat) == spec_run(
                        st2,
                        staged_img(staged@),
                        queue_img(queue@, qhead as int),
                        depth as nat,
                    ));
                }
            }
        }
        proof {
            if !hit {
                assert(queue_img(queue@, qhead as int) =~= Seq::<int>::empty());
                assert(spec_run(
                    self.flat(),
                    staged_img(staged@),
                    queue_img(queue@, qhead as int),
                    depth as nat,
                ) == (self.flat(), false));
            }
            assert(spec_propagate(st0, node.idx()) == spec_run(st0, staged0_g, q0, 0)) by {
                assert(seq![node.idx()] =~= q0);
            }
            assert(self@.dom() =~= old(self)@.dom());
        }
        if hit {
            PropagateResult::CeilingHit
        } else {
            PropagateResult::Settled
        }
    }
}

} // verus!
