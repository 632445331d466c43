//! Editor-side placement data for components and cables: where a
//! component sits on the grid, where its connection points are, and
//! what a pointer position hits.

use vstd::prelude::*;

use crate::components::{spec_input_size, spec_output_size, Component};
use crate::util::{add_ok, ivec2, vec_plus, IRect, IVec2};

verus! {

/// Handle to a cable in the editor's cable store.
#[derive(Debug, Clone, Copy, PartialEq, Eq, Hash, Structural)]
pub struct CableId(pub u64);

/// Registry index of a component kind offered by the editor.
pub type ComponentRid = usize;

/// Which end of a cable is meant.
#[derive(Debug, Clone, Copy, PartialEq, Eq, Structural)]
pub enum CableEnd {
    First,
    Last,
}

impl CableEnd {
    /// The other end.
    pub fn opposite(&self) -> (r: Self)
        ensures
            r == (match self {
                CableEnd::First => CableEnd::Last,
                CableEnd::Last => CableEnd::First,
            }),
    {
        match self {
            CableEnd::First => CableEnd::Last,
            CableEnd::Last => CableEnd::First,
        }
    }
}

/// What a pointer position meets on a cable.
#[derive(Debug, Clone, Copy, PartialEq, Eq, Structural)]
pub enum CableIntersection {
    OnSegment(usize),
    OnPoint(usize),
}

/// What a pointer position meets on a component.
#[derive(Debug, Clone, Copy, PartialEq, Eq, Structural)]
pub enum ComponentIntersection {
    InputSlot(usize),
    OutputSlot(usize),
    Inside,
}

/// A component as placed in the editor: its rectangle, the grid
/// offsets of its connection points, the cables attached to them,
/// and which registry entry it came from.
#[derive(Debug, Clone)]
pub struct ComponentNode {
    pub rect: IRect,
    pub input_slots: Vec<IVec2>,
    pub output_slots: Vec<IVec2>,
    pub input_cables: Vec<Option<CableId>>,
    pub output_cables: Vec<Option<CableId>>,
    pub base_entry_rid: ComponentRid,
    pub highlight_level: u8,
}

/// The first connection point at or past `i` that `pos` hits, if
/// any: slot offsets are relative to `base`.
pub open spec fn first_hit(base: IVec2, slots: Seq<IVec2>, pos: IVec2, i: int) -> Option<int>
    decreases slots.len() - i,
    when 0 <= i <= slots.len()
{
    if i >= slots.len() {
        None
    } else if vec_plus(base, slots[i]) == pos {
        Some(i)
    } else {
        first_hit(base, slots, pos, i + 1)
    }
}

impl ComponentNode {
    pub fn new(rect: IRect, entry_rid: ComponentRid) -> (r: Self)
        ensures
            r.rect == rect,
            r.base_entry_rid == entry_rid,
            r.input_slots@ == Seq::<IVec2>::empty(),
            r.output_slots@ == Seq::<IVec2>::empty(),
            r.input_cables@ == Seq::<Option<CableId>>::empty(),
            r.output_cables@ == Seq::<Option<CableId>>::empty(),
            r.highlight_level == 0,
    {
        Self {
            rect,
            input_slots: Vec::new(),
            output_slots: Vec::new(),
            input_cables: Vec::new(),
            output_cables: Vec::new(),
            base_entry_rid: entry_rid,
            highlight_level: 0,
        }
    }

    /// Spreads `input_size` input points down the left edge and
    /// `output_size` output points down the right edge, evenly
    /// spaced, and sizes the cable arrays to match.
    pub fn with_default_slots(self, input_size: usize, output_size: usize) -> (r: Self)
        requires
            self.rect.size.y >= 0,
            input_size < 65536,
            output_size < 65536,
        ensures
            r.rect == self.rect,
            r.base_entry_rid == self.base_entry_rid,
            r.highlight_level == self.highlight_level,
            r.input_slots@.len() == input_size as nat,
            forall|i: int|
                0 <= i < input_size ==> r.input_slots@[i] == (IVec2 {
                    x: 0,
                    y: ((i + 1) * (self.rect.size.y as int / (input_size as int + 1))) as i32,
                }),
            r.output_slots@.len() == output_size as nat,
            forall|i: int|
                0 <= i < output_size ==> r.output_slots@[i] == (IVec2 {
                    x: self.rect.size.x,
                    y: ((i + 1) * (self.rect.size.y as int / (output_size as int + 1))) as i32,
                }),
            r.input_cables@.len() == input_size as nat,
            forall|i: int| 0 <= i < input_size ==> (#[trigger] r.input_cables@[i]) is None,
            r.output_cables@.len() == output_size as nat,
            forall|i: int| 0 <= i < output_size ==> (#[trigger] r.output_cables@[i]) is None,
    {
        let rect_y = self.rect.size.y as usize;
        let input_gap = rect_y / (input_size + 1);
        let output_gap = rect_y / (output_size + 1);
        proof {
            vstd::arithmetic::div_mod::lemma_fundamental_div_mod(
                rect_y as int,
                input_size as int + 1,
            );
            vstd::arithmetic::div_mod::lemma_fundamental_div_mod(
                rect_y as int,
                output_size as int + 1,
            );
        }
        let mut input_slots: Vec<IVec2> = Vec::new();
        let mut i: usize = 0;
        while i < input_size
            invariant
                i <= input_size,
                input_gap as int == self.rect.size.y as int / (input_size as int + 1),
                (input_size as int + 1) * input_gap as int <= self.rect.size.y as int,
                self.rect.size.y >= 0,
                input_size < 65536,
                input_slots@.len() == i as nat,
                forall|k: int|
                    0 <= k < i ==> input_slots@[k] == (IVec2 {
                        x: 0,
                        y: ((k + 1) * input_gap as int) as i32,
                    }),
            decreases input_size - i,
        {
            proof {
                vstd::arithmetic::mul::lemma_mul_inequality(
                    i as int + 1,
                    input_size as int + 1,
                    input_gap as int,
                );
            }
            let y = (i + 1) * input_gap;
            input_slots.push(ivec2(0, y as i32));
            i = i + 1;
        }
        let mut output_slots: Vec<IVec2> = Vec::new();
        let mut j: usize = 0;
        while j < output_size
            invariant
                j <= output_size,
                output_gap as int == self.rect.size.y as int / (output_size as int + 1),
                (output_size as int + 1) * output_gap as int <= self.rect.size.y as int,
                self.rect.size.y >= 0,
                output_size < 65536,
                output_slots@.len() == j as nat,
                forall|k: int|
                    0 <= k < j ==> output_slots@[k] == (IVec2 {
                        x: self.rect.size.x,
                        y: ((k + 1) * output_gap as int) as i32,
                    }),
            decreases output_size - j,
        {
            proof {
                vstd::arithmetic::mul::lemma_mul_inequality(
                    j as int + 1,
                    output_size as int + 1,
                    output_gap as int,
                );
            }
            let y = (j + 1) * output_gap;
            output_slots.push(IVec2::new(self.rect.size.x, y as i32));
            j = j + 1;
        }
        let input_cables = vec_of_none_cables(input_size);
        let output_cables = vec_of_none_cables(output_size);
        Self {
            rect: self.rect,
            input_slots,
            output_slots,
            input_cables,
            output_cables,
            base_entry_rid: self.base_entry_rid,
            highlight_level: self.highlight_level,
        }
    }

    /// Moves the rectangle so that its middle lands on `new_pos`.
    pub fn move_middle(&mut self, new_pos: IVec2)
        requires
            old(self).rect.size.x >= 0,
            old(self).rect.size.y >= 0,
            i32::MIN <= new_pos.x as int - old(self).rect.size.x as int / 2,
            i32::MIN <= new_pos.y as int - old(self).rect.size.y as int / 2,
        ensures
            final(self).rect.pos.x == new_pos.x - old(self).rect.size.x / 2,
            final(self).rect.pos.y == new_pos.y - old(self).rect.size.y / 2,
            final(self).rect.size == old(self).rect.size,
            final(self).input_slots == old(self).input_slots,
            final(self).output_slots == old(self).output_slots,
            final(self).input_cables == old(self).input_cables,
            final(self).output_cables == old(self).output_cables,
            final(self).base_entry_rid == old(self).base_entry_rid,
            final(self).highlight_level == old(self).highlight_level,
    {
        let half_x = self.rect.size.x / 2;
        let half_y = self.rect.size.y / 2;
        self.rect.pos = IVec2::new(new_pos.x - half_x, new_pos.y - half_y);
    }

    /// What `pos` hits on this component: the first matching input
    /// point, else the first matching output point, else the body of
    /// the rectangle, else nothing.
    pub fn intersection_test_exact(&self, pos: IVec2) -> (r: Option<ComponentIntersection>)
        requires
            forall|i: int|
                0 <= i < self.input_slots@.len() ==> add_ok(
                    self.rect.pos.x,
                    (#[trigger] self.input_slots@[i]).x,
                ) && add_ok(self.rect.pos.y, self.input_slots@[i].y),
            forall|i: int|
                0 <= i < self.output_slots@.len() ==> add_ok(
                    self.rect.pos.x,
                    (#[trigger] self.output_slots@[i]).x,
                ) && add_ok(self.rect.pos.y, self.output_slots@[i].y),
            add_ok(self.rect.pos.x, self.rect.size.x),
            add_ok(self.rect.pos.y, self.rect.size.y),
        ensures
            r == (match first_hit(self.rect.pos, self.input_slots@, pos, 0) {
                Some(fi) => Some(ComponentIntersection::InputSlot(fi as usize)),
                None => match first_hit(self.rect.pos, self.output_slots@, pos, 0) {
                    Some(fo) => Some(ComponentIntersection::OutputSlot(fo as usize)),
                    None => if self.rect.pos.x <= pos.x <= self.rect.pos.x + self.rect.size.x
                        && self.rect.pos.y <= pos.y <= self.rect.pos.y + self.rect.size.y {
                        Some(ComponentIntersection::Inside)
                    } else {
                        None::<ComponentIntersection>
                    },
                },
            }),
    {
        let mut i: usize = 0;
        while i < self.input_slots.len()
            invariant
                i <= self.input_slots@.len(),
                forall|k: int|
                    0 <= k < self.input_slots@.len() ==> add_ok(
                        self.rect.pos.x,
                        (#[trigger] self.input_slots@[k]).x,
                    ) && add_ok(self.rect.pos.y, self.input_slots@[k].y),
                first_hit(self.rect.pos, self.input_slots@, pos, 0) == first_hit(
                    self.rect.pos,
                    self.input_slots@,
                    pos,
                    i as int,
                ),
            decreases self.input_slots@.len() - i,
        {
            let slot = self.input_slots[i];
            if self.rect.pos.x + slot.x == pos.x && self.rect.pos.y + slot.y == pos.y {
                proof {
                    assert(vec_plus(self.rect.pos, self.input_slots@[i as int]) == pos);
                }
                return Some(ComponentIntersection::InputSlot(i));
            }
            proof {
                assert(vec_plus(self.rect.pos, self.input_slots@[i as int]) != pos);
            }
            i = i + 1;
        }
        let mut j: usize = 0;
        while j < self.output_slots.len()
            invariant
                j <= self.output_slots@.len(),
                first_hit(self.rect.pos, self.input_slots@, pos, 0) is None,
                forall|k: int|
                    0 <= k < self.output_slots@.len() ==> add_ok(
                        self.rect.pos.x,
                        (#[trigger] self.output_slots@[k]).x,
                    ) && add_ok(self.rect.pos.y, self.output_slots@[k].y),
                first_hit(self.rect.pos, self.output_slots@, pos, 0) == first_hit(
                    self.rect.pos,
                    self.output_slots@,
                    pos,
                    j as int,
                ),
            decreases self.output_slots@.len() - j,
        {
            let slot = self.output_slots[j];
            if self.rect.pos.x + slot.x == pos.x && self.rect.pos.y + slot.y == pos.y {
                proof {
                    assert(vec_plus(self.rect.pos, self.output_slots@[j as int]) == pos);
                }
                return Some(ComponentIntersection::OutputSlot(j));
            }
            proof {
                assert(vec_plus(self.rect.pos, self.output_slots@[j as int]) != pos);
            }
            j = j + 1;
        }
        if self.rect.contains(pos) {
            return Some(ComponentIntersection::Inside);
        }
        None
    }
}

/// The grid footprint a component of this kind is drawn with: gates
/// share one box, sources and probes a small one, and parametric
/// kinds grow with the larger of their arities.
pub fn get_size(component: &Component) -> (r: IVec2)
    requires
        spec_input_size(*component) < 1000,
        spec_output_size(*component) < 1000,
    ensures
        r == (match *component {
            Component::And(_) | Component::Or(_) | Component::Xor(_) | Component::Not(_) => IVec2 {
                x: 4,
                y: 6,
            },
            Component::DebugOutput(_) | Component::Constant(_) => IVec2 { x: 2, y: 2 },
            _ => IVec2 {
                x: 6,
                y: (if spec_input_size(*component) >= spec_output_size(*component) {
                    spec_input_size(*component)
                } else {
                    spec_output_size(*component)
                } + 1) as i32,
            },
        }),
{
    match component {
        Component::And(_) | Component::Or(_) | Component::Xor(_) | Component::Not(_) => ivec2(
            4,
            6,
        ),
        Component::DebugOutput(_) | Component::Constant(_) => ivec2(2, 2),
        _ => {
            let ins = component.input_size();
            let outs = component.output_size();
            let max_slots = if ins >= outs {
                ins
            } else {
                outs
            };
            ivec2(6, max_slots as i32 + 1)
        },
    }
}

/// A cable array of `n` unattached entries.
fn vec_of_none_cables(n: usize) -> (r: Vec<Option<CableId>>)
    ensures
        r@.len() == n as nat,
        forall|i: int| 0 <= i < n ==> (#[trigger] r@[i]) is None,
{
    let mut v: Vec<Option<CableId>> = Vec::new();
    let mut i: usize = 0;
    while i < n
        invariant
            i <= n,
            v@.len() == i as nat,
            forall|k: int| 0 <= k < i ==> (#[trigger] v@[k]) is None,
        decreases n - i,
    {
        v.push(None);
        i = i + 1;
    }
    v
}

} // verus!
