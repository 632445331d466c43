//! The closed catalogue of component kinds.  Each kind declares its
//! input and output arity and a combinational transfer function over
//! bit-vectors; `comp_eval` is the mathematical form of that transfer
//! function, and the executable `propagate` is proved against it.

use vstd::prelude::*;

use crate::bits::{bits_of, Bits};

verus! {

/// Two-input conjunction gate.
#[derive(Debug, Clone, Copy, PartialEq, Eq, Structural)]
pub struct And;

/// Two-input disjunction gate.
#[derive(Debug, Clone, Copy, PartialEq, Eq, Structural)]
pub struct Or;

/// Two-input exclusive-or gate.
#[derive(Debug, Clone, Copy, PartialEq, Eq, Structural)]
pub struct Xor;

/// One-input inverter.
#[derive(Debug, Clone, Copy, PartialEq, Eq, Structural)]
pub struct Not;

/// A source that drives its single output with a stored bit,
/// regardless of input.
#[derive(Debug, Clone, Copy, PartialEq, Eq, Structural)]
pub struct Constant {
    pub state: bool,
}

/// A probe with no output: it latches its single input into
/// observable state.
#[derive(Debug, Clone, Copy, PartialEq, Eq, Structural)]
pub struct DebugOutput {
    pub state: bool,
}

/// A splitter with configurable arity: it broadcasts the disjunction
/// of its inputs to every output.
#[derive(Debug, Clone, Copy, PartialEq, Eq, Structural)]
pub struct Fork {
    pub input_size: u8,
    pub output_size: u8,
}

impl Fork {
    pub fn new(input_size: u8, output_size: u8) -> (r: Self)
        ensures
            r == (Fork { input_size, output_size }),
    {
        Self { input_size, output_size }
    }
}

/// One component instance: the closed sum over the catalogue.
#[derive(Debug, Clone, Copy, PartialEq, Eq, Structural)]
pub enum Component {
    And(And),
    Or(Or),
    Xor(Xor),
    Not(Not),
    Fork(Fork),
    DebugOutput(DebugOutput),
    Constant(Constant),
}

/// The number of input slots a component of this kind carries.
pub open spec fn spec_input_size(c: Component) -> nat {
    match c {
        Component::And(_) => 2,
        Component::Or(_) => 2,
        Component::Xor(_) => 2,
        Component::Not(_) => 1,
        Component::Fork(f) => f.input_size as nat,
        Component::DebugOutput(_) => 1,
        Component::Constant(_) => 0,
    }
}

/// The number of output slots a component of this kind carries.
pub open spec fn spec_output_size(c: Component) -> nat {
    match c {
        Component::And(_) => 1,
        Component::Or(_) => 1,
        Component::Xor(_) => 1,
        Component::Not(_) => 1,
        Component::Fork(f) => f.output_size as nat,
        Component::DebugOutput(_) => 0,
        Component::Constant(_) => 1,
    }
}

/// Whether any of the first `n` bits of `s` is set: the value a fork
/// broadcasts.
pub open spec fn fork_input_any(s: Seq<bool>, n: int) -> bool {
    exists|i: int| 0 <= i < n && s[i]
}

/// `out0` with its first `m` positions overwritten by `bit`.
pub open spec fn fork_written(out0: Seq<bool>, bit: bool, m: int) -> Seq<bool> {
    Seq::new(out0.len(), |i: int| if i < m { bit } else { out0[i] })
}

/// The transfer function of the catalogue: given a component, the
/// previously recorded input, the input about to be recorded, and the
/// output and mask vectors handed in by the engine, yields the
/// component afterwards, the output vector written, and the mask
/// vector written.  Positions a kind does not drive keep the handed-in
/// values; no kind in the catalogue clears a mask bit.
pub open spec fn comp_eval(
    c: Component,
    prev: Seq<bool>,
    new: Seq<bool>,
    out0: Seq<bool>,
    mask0: Seq<bool>,
) -> (Component, Seq<bool>, Seq<bool>) {
    match c {
        Component::And(_) => (c, out0.update(0, new[0] && new[1]), mask0),
        Component::Or(_) => (c, out0.update(0, new[0] || new[1]), mask0),
        Component::Xor(_) => (c, out0.update(0, new[0] != new[1]), mask0),
        Component::Not(_) => (c, out0.update(0, !new[0]), mask0),
        Component::Fork(f) => (
            c,
            fork_written(out0, fork_input_any(new, f.input_size as int), f.output_size as int),
            mask0,
        ),
        Component::DebugOutput(_) => (
            Component::DebugOutput(DebugOutput { state: new[0] }),
            out0,
            mask0,
        ),
        Component::Constant(k) => (c, out0.update(0, k.state), mask0),
    }
}

/// The typed face of the catalogue: each kind can be asked for out
/// of a `Component`, and wraps itself back into one.
pub trait ComponentKind: Sized {
    /// The instance carried by `c`, when `c` is of this kind.
    spec fn variant_of(c: Component) -> Option<Self>;

    /// This instance wrapped as a `Component`.
    spec fn wrapped(self) -> Component;

    /// Extracts the instance when the variant matches.
    fn extract(c: &Component) -> (r: Option<Self>)
        ensures
            r == Self::variant_of(*c),
    ;

    /// Wraps the instance.
    fn wrap(self) -> (r: Component)
        ensures
            r == self.wrapped(),
    ;
}

impl ComponentKind for And {
    open spec fn variant_of(c: Component) -> Option<And> {
        match c {
            Component::And(g) => Some(g),
            _ => None,
        }
    }

    open spec fn wrapped(self) -> Component {
        Component::And(self)
    }

    fn extract(c: &Component) -> (r: Option<And>) {
        match c {
            Component::And(g) => Some(*g),
            _ => None,
        }
    }

    fn wrap(self) -> (r: Component) {
        Component::And(self)
    }
}

impl ComponentKind for Or {
    open spec fn variant_of(c: Component) -> Option<Or> {
        match c {
            Component::Or(g) => Some(g),
            _ => None,
        }
    }

    open spec fn wrapped(self) -> Component {
        Component::Or(self)
    }

    fn extract(c: &Component) -> (r: Option<Or>) {
        match c {
            Component::Or(g) => Some(*g),
            _ => None,
        }
    }

    fn wrap(self) -> (r: Component) {
        Component::Or(self)
    }
}

impl ComponentKind for Xor {
    open spec fn variant_of(c: Component) -> Option<Xor> {
        match c {
            Component::Xor(g) => Some(g),
            _ => None,
        }
    }

    open spec fn wrapped(self) -> Component {
        Component::Xor(self)
    }

    fn extract(c: &Component) -> (r: Option<Xor>) {
        match c {
            Component::Xor(g) => Some(*g),
            _ => None,
        }
    }

    fn wrap(self) -> (r: Component) {
        Component::Xor(self)
    }
}

impl ComponentKind for Not {
    open spec fn variant_of(c: Component) -> Option<Not> {
        match c {
            Component::Not(g) => Some(g),
            _ => None,
        }
    }

    open spec fn wrapped(self) -> Component {
        Component::Not(self)
    }

    fn extract(c: &Component) -> (r: Option<Not>) {
        match c {
            Component::Not(g) => Some(*g),
            _ => None,
        }
    }

    fn wrap(self) -> (r: Component) {
        Component::Not(self)
    }
}

impl ComponentKind for Fork {
    open spec fn variant_of(c: Component) -> Option<Fork> {
        match c {
            Component::Fork(f) => Some(f),
            _ => None,
        }
    }

    open spec fn wrapped(self) -> Component {
        Component::Fork(self)
    }

    fn extract(c: &Component) -> (r: Option<Fork>) {
        match c {
            Component::Fork(f) => Some(*f),
            _ => None,
        }
    }

    fn wrap(self) -> (r: Component) {
        Component::Fork(self)
    }
}

impl ComponentKind for DebugOutput {
    open spec fn variant_of(c: Component) -> Option<DebugOutput> {
        match c {
            Component::DebugOutput(d) => Some(d),
            _ => None,
        }
    }

    open spec fn wrapped(self) -> Component {
        Component::DebugOutput(self)
    }

    fn extract(c: &Component) -> (r: Option<DebugOutput>) {
        match c {
            Component::DebugOutput(d) => Some(*d),
            _ => None,
        }
    }

    fn wrap(self) -> (r: Component) {
        Component::DebugOutput(self)
    }
}

impl ComponentKind for Constant {
    open spec fn variant_of(c: Component) -> Option<Constant> {
        match c {
            Component::Constant(k) => Some(k),
            _ => None,
        }
    }

    open spec fn wrapped(self) -> Component {
        Component::Constant(self)
    }

    fn extract(c: &Component) -> (r: Option<Constant>) {
        match c {
            Component::Constant(k) => Some(*k),
            _ => None,
        }
    }

    fn wrap(self) -> (r: Component) {
        Component::Constant(self)
    }
}

/// Gate truth tables: on every pair of input bits, the four gates
/// compute exactly their boolean functions, whatever the previous
/// input and whatever vectors the engine hands in.
pub proof fn lemma_gate_truth_tables(
    a: bool,
    b: bool,
    prev: Seq<bool>,
    out0: Seq<bool>,
    mask0: Seq<bool>,
)
    requires
        out0.len() == 1,
    ensures
        comp_eval(Component::And(And), prev, seq![a, b], out0, mask0).1[0] == (a && b),
        comp_eval(Component::Or(Or), prev, seq![a, b], out0, mask0).1[0] == (a || b),
        comp_eval(Component::Xor(Xor), prev, seq![a, b], out0, mask0).1[0] == (a != b),
        comp_eval(Component::Not(Not), prev, seq![a], out0, mask0).1[0] == !a,
{
}

/// Running a component's transfer function never changes its arity,
/// and the output and mask vectors keep their lengths.
pub proof fn lemma_comp_eval_preserves(
    c: Component,
    prev: Seq<bool>,
    new: Seq<bool>,
    out0: Seq<bool>,
    mask0: Seq<bool>,
)
    requires
        out0.len() == spec_output_size(c),
    ensures
        comp_eval(c, prev, new, out0, mask0).1.len() == out0.len(),
        comp_eval(c, prev, new, out0, mask0).2 == mask0,
        spec_input_size(comp_eval(c, prev, new, out0, mask0).0) == spec_input_size(c),
        spec_output_size(comp_eval(c, prev, new, out0, mask0).0) == spec_output_size(c),
{
    match c {
        Component::And(_) => {},
        Component::Or(_) => {},
        Component::Xor(_) => {},
        Component::Not(_) => {},
        Component::Fork(f) => {
            assert(comp_eval(c, prev, new, out0, mask0).1 =~= fork_written(
                out0,
                fork_input_any(new, f.input_size as int),
                f.output_size as int,
            ));
        },
        Component::DebugOutput(_) => {},
        Component::Constant(_) => {},
    }
}

/// Running a transfer function twice on the same input is the same
/// as running it once: re-evaluating the resulting component on the
/// committed input reproduces the component and the outputs exactly.
/// (No kind in the catalogue is sensitive to the previous input in a
/// way that survives a re-run on an unchanged input.)
pub proof fn lemma_comp_eval_idempotent(
    c: Component,
    prev: Seq<bool>,
    new: Seq<bool>,
    out0: Seq<bool>,
    mask0: Seq<bool>,
)
    requires
        out0.len() == spec_output_size(c),
        new.len() == spec_input_size(c),
    ensures
        ({
            let e = comp_eval(c, prev, new, out0, mask0);
            comp_eval(e.0, new, new, e.1, mask0) == (e.0, e.1, mask0)
        }),
{
    let e = comp_eval(c, prev, new, out0, mask0);
    match c {
        Component::And(_) => {
            assert(comp_eval(e.0, new, new, e.1, mask0).1 =~= e.1);
        },
        Component::Or(_) => {
            assert(comp_eval(e.0, new, new, e.1, mask0).1 =~= e.1);
        },
        Component::Xor(_) => {
            assert(comp_eval(e.0, new, new, e.1, mask0).1 =~= e.1);
        },
        Component::Not(_) => {
            assert(comp_eval(e.0, new, new, e.1, mask0).1 =~= e.1);
        },
        Component::Fork(f) => {
            assert(comp_eval(e.0, new, new, e.1, mask0).1 =~= e.1);
        },
        Component::DebugOutput(_) => {
            assert(comp_eval(e.0, new, new, e.1, mask0).0 == e.0);
        },
        Component::Constant(_) => {
            assert(comp_eval(e.0, new, new, e.1, mask0).1 =~= e.1);
        },
    }
}

impl Component {
    pub fn input_size(&self) -> (r: usize)
        ensures
            r == spec_input_size(*self),
    {
        match self {
            Component::And(_) => 2,
            Component::Or(_) => 2,
            Component::Xor(_) => 2,
            Component::Not(_) => 1,
            Component::Fork(f) => f.input_size as usize,
            Component::DebugOutput(_) => 1,
            Component::Constant(_) => 0,
        }
    }

    pub fn output_size(&self) -> (r: usize)
        ensures
            r == spec_output_size(*self),
    {
        match self {
            Component::And(_) => 1,
            Component::Or(_) => 1,
            Component::Xor(_) => 1,
            Component::Not(_) => 1,
            Component::Fork(f) => f.output_size as usize,
            Component::DebugOutput(_) => 0,
            Component::Constant(_) => 1,
        }
    }

    /// Runs the transfer function in place: reads `new_input` (and,
    /// for edge-sensitive kinds, `prev_input`), writes `output` and
    /// `mask`, and updates the component's own state.
    pub fn propagate(
        &mut self,
        prev_input: &Bits,
        new_input: &Bits,
        output: &mut Bits,
        mask: &mut Bits,
    )
        requires
            bits_of(*new_input).len() == spec_input_size(*old(self)),
            bits_of(*old(output)).len() == spec_output_size(*old(self)),
            bits_of(*old(mask)).len() == spec_output_size(*old(self)),
        ensures
            *final(self) == comp_eval(
                *old(self),
                bits_of(*prev_input),
                bits_of(*new_input),
                bits_of(*old(output)),
                bits_of(*old(mask)),
            ).0,
            bits_of(*final(output)) == comp_eval(
                *old(self),
                bits_of(*prev_input),
                bits_of(*new_input),
                bits_of(*old(output)),
                bits_of(*old(mask)),
            ).1,
            bits_of(*final(mask)) == comp_eval(
                *old(self),
                bits_of(*prev_input),
                bits_of(*new_input),
                bits_of(*old(output)),
                bits_of(*old(mask)),
            ).2,
    {
        let c = *self;
        match c {
            Component::And(_) => {
                let b = new_input.get(0) && new_input.get(1);
                output.set(0, b);
            },
            Component::Or(_) => {
                let b = new_input.get(0) || new_input.get(1);
                output.set(0, b);
            },
            Component::Xor(_) => {
                let b = new_input.get(0) != new_input.get(1);
                output.set(0, b);
            },
            Component::Not(_) => {
                let b = !new_input.get(0);
                output.set(0, b);
            },
            Component::Fork(f) => {
                let n = f.input_size as usize;
                let m = f.output_size as usize;
                let bit = new_input.any_upto(n);
                let ghost out0 = bits_of(*output);
                proof {
                    assert(bits_of(*output) =~= Seq::new(
                        out0.len(),
                        |k: int| if k < 0 { bit } else { out0[k] },
                    ));
                }
                let mut i: usize = 0;
                while i < m
                    invariant
                        i <= m,
                        out0.len() == m as nat,
                        bits_of(*output) == Seq::new(
                            out0.len(),
                            |k: int| if k < i { bit } else { out0[k] },
                        ),
                    decreases m - i,
                {
                    output.set(i, bit);
                    proof {
                        assert(bits_of(*output) =~= Seq::new(
                            out0.len(),
                            |k: int| if k < i + 1 { bit } else { out0[k] },
                        ));
                    }
                    i = i + 1;
                }
                proof {
                    assert(fork_input_any(bits_of(*new_input), f.input_size as int) == bit);
                    assert(bits_of(*output) =~= fork_written(
                        out0,
                        fork_input_any(bits_of(*new_input), f.input_size as int),
                        f.output_size as int,
                    ));
                }
            },
            Component::DebugOutput(_) => {
                let b = new_input.get(0);
                *self = Component::DebugOutput(DebugOutput { state: b });
            },
            Component::Constant(k) => {
                let b = k.state;
                output.set(0, b);
            },
        }
    }
}

} // verus!
