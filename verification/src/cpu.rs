//! The clocked CPU model: components that react to a control-signal
//! word by exchanging bytes over a pair of single-writer buses.
//! Active-low lines enable outputs onto a bus; active-high lines
//! latch a bus value into a register.

use vstd::prelude::*;

use crate::signals::{
    line, line_range, ControlSignals, ALU_0, ALU_3, ALU_OUT, LD_A, LD_B, LD_IR, LD_MAR, LD_PC,
    MC_PLUS, MEM_OUT, OUT_PC, PC_PLUS, RST_MC,
};

verus! {

/// A single-writer bus: holds at most one value per clock phase.
/// Writing to an occupied bus, or reading an empty one, is a wiring
/// error in the control table.
pub struct Bus<I> {
    value: Option<I>,
}

impl<I: Copy> Bus<I> {
    /// The value currently driven onto the bus, if any.
    pub closed spec fn val(self) -> Option<I> {
        self.value
    }

    pub fn init() -> (r: Self)
        ensures
            r.val() is None,
    {
        Self { value: None }
    }

    /// Drives `value` onto the bus, which must be free.
    pub fn put(&mut self, value: I)
        requires
            old(self).val() is None,
        ensures
            final(self).val() == Some(value),
    {
        self.value = Some(value);
    }

    /// Reads the value driven onto the bus, which must be occupied.
    pub fn get(&self) -> (r: I)
        requires
            self.val() is Some,
        ensures
            r == self.val().unwrap(),
    {
        self.value.unwrap()
    }
}

/// The two buses of the machine: an 8-bit data path and a 16-bit
/// address path.
pub struct Buses {
    pub main: Bus<u8>,
    pub address: Bus<u16>,
}

impl Buses {
    pub fn init() -> (r: Self)
        ensures
            r.main.val() is None,
            r.address.val() is None,
    {
        Self { main: Bus::init(), address: Bus::init() }
    }
}

/// The value the ALU computes for operation code `op` over its two
/// registers; arithmetic wraps at a byte.
pub open spec fn alu_result(op: u64, a: u8, b: u8) -> u8 {
    match op {
        0 => 0,
        1 => a,
        2 => b,
        3 => vstd::wrapping::u8_specs::wrapping_add(a, b),
        4 => vstd::wrapping::u8_specs::wrapping_sub(0, a),
        5 => vstd::wrapping::u8_specs::wrapping_sub(0, b),
        6 => vstd::wrapping::u8_specs::wrapping_sub(a, b),
        7 => vstd::wrapping::u8_specs::wrapping_sub(b, a),
        8 => !a,
        9 => !b,
        10 => a | b,
        11 => a & b,
        12 => a << 1,
        13 => b << 1,
        14 => a >> 1,
        15 => b >> 1,
        _ => 0,
    }
}

/// The arithmetic-logic unit: two byte registers and a combinational
/// function over them.
#[derive(Debug)]
pub struct Alu {
    a: u8,
    b: u8,
}

impl Alu {
    /// The accumulator register.
    pub closed spec fn reg_a(self) -> u8 {
        self.a
    }

    /// The operand register.
    pub closed spec fn reg_b(self) -> u8 {
        self.b
    }

    pub fn init() -> (r: Self)
        ensures
            r.reg_a() == 0,
            r.reg_b() == 0,
    {
        Self { a: 0, b: 0 }
    }

    /// The two registers, for inspection.
    pub fn debug_regs(&self) -> (r: (u8, u8))
        ensures
            r.0 == self.reg_a(),
            r.1 == self.reg_b(),
    {
        (self.a, self.b)
    }

    /// One clock phase: with the output line low, drives the result
    /// of the selected operation onto the main bus; with a load line
    /// high, latches the main bus into that register.
    pub fn react(&mut self, signals: &ControlSignals, bus: &mut Buses)
        requires
            line(signals@, ALU_OUT as int) == 0 ==> old(bus).main.val() is None,
            line(signals@, ALU_OUT as int) != 0 && (line(signals@, LD_A as int) == 1 || line(
                signals@,
                LD_B as int,
            ) == 1) ==> old(bus).main.val() is Some,
        ensures
            final(bus).address == old(bus).address,
            final(bus).main.val() == if line(signals@, ALU_OUT as int) == 0 {
                Some(
                    alu_result(
                        line_range(signals@, ALU_0 as int, ALU_3 as int),
                        old(self).reg_a(),
                        old(self).reg_b(),
                    ),
                )
            } else {
                old(bus).main.val()
            },
            ({
                let driven = if line(signals@, ALU_OUT as int) == 0 {
                    alu_result(
                        line_range(signals@, ALU_0 as int, ALU_3 as int),
                        old(self).reg_a(),
                        old(self).reg_b(),
                    )
                } else {
                    old(bus).main.val().unwrap()
                };
                &&& final(self).reg_a() == if line(signals@, LD_A as int) == 1 {
                    driven
                } else {
                    old(self).reg_a()
                }
                &&& final(self).reg_b() == if line(signals@, LD_B as int) == 1 {
                    driven
                } else {
                    old(self).reg_b()
                }
            }),
    {
        if signals.get(ALU_OUT) == 0 {
            let op = signals.get_range_inc(ALU_0, ALU_3);
            let alu_res = match op {
                0 => 0,
                1 => self.a,
                2 => self.b,
                3 => self.a.wrapping_add(self.b),
                4 => 0u8.wrapping_sub(self.a),
                5 => 0u8.wrapping_sub(self.b),
                6 => self.a.wrapping_sub(self.b),
                7 => self.b.wrapping_sub(self.a),
                8 => !self.a,
                9 => !self.b,
                10 => self.a | self.b,
                11 => self.a & self.b,
                12 => self.a << 1,
                13 => self.b << 1,
                14 => self.a >> 1,
                15 => self.b >> 1,
                _ => 0,
            };
            bus.main.put(alu_res);
        }
        if signals.get(LD_A) == 1 {
            self.a = bus.main.get();
        }
        if signals.get(LD_B) == 1 {
            self.b = bus.main.get();
        }
    }
}

/// Byte-addressable storage with a memory-address register.
#[derive(Debug)]
pub struct Memory {
    data: Vec<u8>,
    mar: u16,
}

impl Memory {
    /// The stored bytes.
    pub closed spec fn mem(self) -> Seq<u8> {
        self.data@
    }

    /// The memory-address register.
    pub closed spec fn mar_reg(self) -> u16 {
        self.mar
    }

    pub fn init(data: Vec<u8>) -> (r: Self)
        ensures
            r.mem() == data@,
            r.mar_reg() == 0,
    {
        Self { data, mar: 0 }
    }

    /// One clock phase: with the load line high, latches the address
    /// bus into the address register; with the output line low,
    /// drives the addressed byte onto the main bus.
    pub fn react(&mut self, signals: &ControlSignals, bus: &mut Buses)
        requires
            line(signals@, LD_MAR as int) == 1 ==> old(bus).address.val() is Some,
            ({
                let mar = if line(signals@, LD_MAR as int) == 1 {
                    old(bus).address.val().unwrap()
                } else {
                    old(self).mar_reg()
                };
                line(signals@, MEM_OUT as int) == 0 ==> old(bus).main.val() is None && (
                mar as int) < old(self).mem().len()
            }),
        ensures
            final(self).mem() == old(self).mem(),
            final(self).mar_reg() == if line(signals@, LD_MAR as int) == 1 {
                old(bus).address.val().unwrap()
            } else {
                old(self).mar_reg()
            },
            final(bus).address == old(bus).address,
            final(bus).main.val() == if line(signals@, MEM_OUT as int) == 0 {
                Some(old(self).mem()[final(self).mar_reg() as int])
            } else {
                old(bus).main.val()
            },
    {
        if signals.get(LD_MAR) == 1 {
            self.mar = bus.address.get();
        }
        if signals.get(MEM_OUT) == 0 {
            bus.main.put(self.data[self.mar as usize]);
        }
    }
}

/// The signal word the microcode table holds for instruction
/// `i_reg` at microstep `micro_count`, when one is programmed.
pub open spec fn spec_microcode(i_reg: u8, micro_count: u8) -> Option<u64> {
    if i_reg == 0 && micro_count == 0 {
        Some(0b00010000_01000111_00111000_11110001_11000000u64 << 24)
    } else if i_reg == 0 && micro_count == 1 {
        Some(0b00010000_11100110_00101000_11110011_11000000u64 << 24)
    } else if i_reg == 1 && micro_count == 0 {
        Some(0b00010000_01000111_00111000_11110001_11000000u64 << 24)
    } else if i_reg == 1 && micro_count == 1 {
        Some(0b10000010_01100110_00111000_11110001_11000000u64 << 24)
    } else if i_reg == 1 && micro_count == 2 {
        Some(0b00010000_01100110_00111000_11110000_11000000u64 << 24)
    } else {
        None
    }
}

/// The microcode table as an executable lookup.
pub fn microcode(i_reg: u8, micro_count: u8) -> (r: Option<u64>)
    ensures
        r == spec_microcode(i_reg, micro_count),
{
    if i_reg == 0 && micro_count == 0 {
        Some(0b00010000_01000111_00111000_11110001_11000000u64 << 24)
    } else if i_reg == 0 && micro_count == 1 {
        Some(0b00010000_11100110_00101000_11110011_11000000u64 << 24)
    } else if i_reg == 1 && micro_count == 0 {
        Some(0b00010000_01000111_00111000_11110001_11000000u64 << 24)
    } else if i_reg == 1 && micro_count == 1 {
        Some(0b10000010_01100110_00111000_11110001_11000000u64 << 24)
    } else if i_reg == 1 && micro_count == 2 {
        Some(0b00010000_01100110_00111000_11110000_11000000u64 << 24)
    } else {
        None
    }
}

/// The control unit: instruction register, microstep counter and
/// program counter, plus the microcode table that turns the first
/// two into a signal word.
#[derive(Debug)]
pub struct ControlUnit {
    micro_count: u8,
    i_reg: u8,
    program_count: u16,
}

impl ControlUnit {
    /// The microstep counter.
    pub closed spec fn mc(self) -> u8 {
        self.micro_count
    }

    /// The instruction register.
    pub closed spec fn ir(self) -> u8 {
        self.i_reg
    }

    /// The program counter.
    pub closed spec fn pc(self) -> u16 {
        self.program_count
    }

    pub fn init() -> (r: Self)
        ensures
            r.mc() == 0,
            r.ir() == 0,
            r.pc() == 0,
    {
        Self { micro_count: 0, i_reg: 0, program_count: 0 }
    }

    /// The signal word for the current instruction and microstep,
    /// which must be programmed in the microcode table.
    pub fn set_signals(&mut self) -> (r: Option<ControlSignals>)
        requires
            spec_microcode(old(self).ir(), old(self).mc()) is Some,
        ensures
            *final(self) == *old(self),
            r is Some,
            r.unwrap()@ == spec_microcode(old(self).ir(), old(self).mc()).unwrap(),
    {
        let bits = microcode(self.i_reg, self.micro_count);
        Some(ControlSignals::from_bits(bits.unwrap()))
    }

    /// One clock phase: steps the program counter and microstep
    /// counter as the lines direct, exchanges the program counter
    /// with the address bus, and latches the instruction register
    /// from the main bus.
    pub fn react(&mut self, signals: &ControlSignals, bus: &mut Buses)
        requires
            line(signals@, PC_PLUS as int) == 1 ==> old(self).pc() < u16::MAX,
            line(signals@, MC_PLUS as int) == 1 ==> old(self).mc() < u8::MAX,
            line(signals@, OUT_PC as int) == 0 ==> old(bus).address.val() is None,
            line(signals@, LD_PC as int) == 0 && line(signals@, OUT_PC as int) != 0 ==> old(
                bus,
            ).address.val() is Some,
            line(signals@, LD_IR as int) == 1 ==> old(bus).main.val() is Some,
        ensures
            final(bus).main == old(bus).main,
            ({
                let pc1: u16 = if line(signals@, PC_PLUS as int) == 1 {
                    (old(self).pc() + 1) as u16
                } else {
                    old(self).pc()
                };
                let addr1 = if line(signals@, OUT_PC as int) == 0 {
                    Some(pc1)
                } else {
                    old(bus).address.val()
                };
                let mc1: u8 = if line(signals@, MC_PLUS as int) == 1 {
                    (old(self).mc() + 1) as u8
                } else {
                    old(self).mc()
                };
                &&& final(bus).address.val() == addr1
                &&& final(self).pc() == if line(signals@, LD_PC as int) == 0 {
                    addr1.unwrap()
                } else {
                    pc1
                }
                &&& final(self).mc() == if line(signals@, RST_MC as int) == 0 {
                    0u8
                } else {
                    mc1
                }
                &&& final(self).ir() == if line(signals@, LD_IR as int) == 1 {
                    old(bus).main.val().unwrap()
                } else {
                    old(self).ir()
                }
            }),
    {
        if signals.get(PC_PLUS) == 1 {
            self.program_count = self.program_count + 1;
        }
        if signals.get(OUT_PC) == 0 {
            bus.address.put(self.program_count);
        }
        if signals.get(LD_PC) == 0 {
            self.program_count = bus.address.get();
        }
        if signals.get(MC_PLUS) == 1 {
            self.micro_count = self.micro_count + 1;
        }
        if signals.get(RST_MC) == 0 {
            self.micro_count = 0;
        }
        if signals.get(LD_IR) == 1 {
            self.i_reg = bus.main.get();
        }
    }
}

} // verus!
