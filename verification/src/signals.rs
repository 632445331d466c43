//! Control-signal words of the clocked CPU model: a 64-bit field whose
//! bit `i` (counted from the most significant end) carries one control
//! line, together with the masks that select the lines strobed on each
//! clock phase.

use vstd::prelude::*;

verus! {

/// The value (0 or 1) of control line `index` in a packed word.
pub open spec fn line(bits: u64, index: int) -> u64 {
    (bits >> ((63 - index) as u64)) & 1
}

/// The lines `start..=end` of a packed word, as the low bits of the
/// result.
pub open spec fn line_range(bits: u64, start: int, end: int) -> u64 {
    (bits << (start as u64)) >> ((63 - (end - start)) as u64)
}

/// The clock phase on which a control line takes effect.
#[derive(Debug, Clone, Copy, PartialEq, Eq, Structural)]
pub enum Pulse {
    Now,
    Clock,
    InvClock,
}

/// A packed word of control lines; line `i` lives at bit `63 - i`.
#[derive(Debug, Clone)]
pub struct ControlSignals {
    bitfield: u64,
}

impl View for ControlSignals {
    type V = u64;

    closed spec fn view(&self) -> u64 {
        self.bitfield
    }
}

impl ControlSignals {
    /// Lines that act combinationally, outside any clock edge.
    pub const NOW_MASK: u64 = 0x1f767cfd60000000;
    /// Lines latched on the rising clock edge.
    pub const CLK_MASK: u64 = 0xe001830000000000;
    /// Lines latched on the falling clock edge.
    pub const INVCLK_MASK: u64 = 0x0088000280000000;

    /// The word with every line at its documented power-on level.
    pub fn init() -> (r: Self)
        ensures
            r@ == 0x104738f1e0000000u64,
    {
        let mut sig = Self { bitfield: 0 };
        sig.set(3, 1);
        sig.set(9, 1);
        sig.set(13, 1);
        sig.set(14, 1);
        sig.set(15, 1);
        sig.set(18, 1);
        sig.set(19, 1);
        sig.set(20, 1);
        sig.set(24, 1);
        sig.set(25, 1);
        sig.set(26, 1);
        sig.set(27, 1);
        sig.set(31, 1);
        sig.set(32, 1);
        sig.set(33, 1);
        sig.set(34, 1);
        proof {
            assert((((((((((((((((0u64 | (1u64 << 60)) | (1u64 << 54)) | (1u64 << 50)) | (1u64
                << 49)) | (1u64 << 48)) | (1u64 << 45)) | (1u64 << 44)) | (1u64 << 43)) | (1u64
                << 39)) | (1u64 << 38)) | (1u64 << 37)) | (1u64 << 36)) | (1u64 << 32)) | (1u64
                << 31)) | (1u64 << 30)) | (1u64 << 29) == 0x104738f1e0000000u64) by (bit_vector);
        }
        sig
    }

    pub fn from_bits(bits: u64) -> (r: Self)
        ensures
            r@ == bits,
    {
        Self { bitfield: bits }
    }

    /// The whole word.
    pub fn bits(&self) -> (r: u64)
        ensures
            r == self@,
    {
        self.bitfield
    }

    /// The value (0 or 1) of line `index`.
    pub fn get(&self, index: usize) -> (r: u64)
        requires
            index < 64,
        ensures
            r == line(self@, index as int),
    {
        (self.bitfield >> (63 - index) as u64) & 1
    }

    /// The lines `start..=end` as the low bits of a word, line `end`
    /// ending up at bit 0.
    pub fn get_range_inc(&self, start: usize, end: usize) -> (r: u64)
        requires
            start <= end,
            end < 64,
        ensures
            r == line_range(self@, start as int, end as int),
    {
        (self.bitfield << start as u64) >> (63 - (end - start)) as u64
    }

    /// Raises line `index` when `bit` is 1; a 0 leaves the word as it
    /// is (lines are never cleared through this call).
    pub fn set(&mut self, index: usize, bit: u64)
        requires
            index < 64,
            bit == 0 || bit == 1,
        ensures
            final(self)@ == old(self)@ | (bit << (63 - index) as u64),
    {
        let shifted = bit << (63 - index) as u64;
        self.bitfield &= !shifted;
        self.bitfield |= shifted;
        proof {
            let b = old(self)@;
            let s = bit << (63 - index) as u64;
            assert((b & !s) | s == b | s) by (bit_vector);
        }
    }

    /// The word restricted to the lines selected by `mask`.
    pub fn filter(&self, mask: u64) -> (r: Self)
        ensures
            r@ == self@ & mask,
    {
        Self { bitfield: self.bitfield & mask }
    }
}

/// The three phase masks select exactly their control lines: each
/// mask is the union of the single-line bits of the lines strobed on
/// that phase.
pub proof fn lemma_pulse_masks()
    ensures
        ControlSignals::NOW_MASK == (1u64 << 60) | (1u64 << 59) | (1u64 << 58) | (1u64 << 57) | (1u64 << 56) | (1u64 << 54) | (1u64 << 53) | (1u64 << 52) | (1u64 << 50) | (1u64 << 49) | (1u64 << 46) | (1u64 << 45) | (1u64 << 44) | (1u64 << 43) | (1u64 << 42) | (1u64 << 39) | (1u64 << 38) | (1u64 << 37) | (1u64 << 36) | (1u64 << 35) | (1u64 << 34) | (1u64 << 32) | (1u64 << 30) | (1u64 << 29),
        ControlSignals::CLK_MASK == (1u64 << 63) | (1u64 << 62) | (1u64 << 61) | (1u64 << 48) | (1u64 << 47) | (1u64 << 41) | (1u64 << 40),
        ControlSignals::INVCLK_MASK == (1u64 << 55) | (1u64 << 51) | (1u64 << 33) | (1u64 << 31),
{
    assert(0x1f767cfd60000000u64 == (1u64 << 60) | (1u64 << 59) | (1u64 << 58) | (1u64 << 57) | (1u64 << 56) | (1u64 << 54) | (1u64 << 53) | (1u64 << 52) | (1u64 << 50) | (1u64 << 49) | (1u64 << 46) | (1u64 << 45) | (1u64 << 44) | (1u64 << 43) | (1u64 << 42) | (1u64 << 39) | (1u64 << 38) | (1u64 << 37) | (1u64 << 36) | (1u64 << 35) | (1u64 << 34) | (1u64 << 32) | (1u64 << 30) | (1u64 << 29)) by (bit_vector);
    assert(0xe001830000000000u64 == (1u64 << 63) | (1u64 << 62) | (1u64 << 61) | (1u64 << 48) | (1u64 << 47) | (1u64 << 41) | (1u64 << 40)) by (bit_vector);
    assert(0x0088000280000000u64 == (1u64 << 55) | (1u64 << 51) | (1u64 << 33) | (1u64 << 31)) by (bit_vector);
}


/// The control lines by name: the index each occupies in the word.
pub const LD_A: usize = 0;
pub const LD_B: usize = 1;
pub const LD_F: usize = 2;
pub const ALU_OUT: usize = 3;
pub const ALU_0: usize = 4;
pub const ALU_1: usize = 5;
pub const ALU_2: usize = 6;
pub const ALU_3: usize = 7;
pub const PC_PLUS: usize = 8;
pub const LD_PC: usize = 9;
pub const OUT_PC: usize = 10;
pub const STC_PLUS: usize = 11;
pub const STC_TICK: usize = 12;
pub const LD_STC: usize = 13;
pub const OUT_STC: usize = 14;
pub const LD_MAR: usize = 15;
pub const LD_MBR: usize = 16;
pub const W_IN_OUT: usize = 17;
pub const MEM_IN: usize = 18;
pub const MEM_OUT: usize = 19;
pub const OUT_MBR: usize = 20;
pub const MEM_PART: usize = 21;
pub const LD_TMP_HI: usize = 22;
pub const LD_TMP_LO: usize = 23;
pub const OUT_TMP_HI: usize = 24;
pub const OUT_TMP_LO: usize = 25;
pub const PASS_ADDR: usize = 26;
pub const PASS_DATA: usize = 27;
pub const ADDR_OUT_IN: usize = 28;
pub const DATA_OUT_IN: usize = 29;
pub const LD_IR: usize = 30;
pub const RST_MC: usize = 31;
pub const MC_PLUS: usize = 32;
pub const OUT_FLAG: usize = 33;
pub const USE_SWITCH: usize = 34;

} // verus!
