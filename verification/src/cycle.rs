//! The fetch-decode-execute cycle: one instruction per call, specified in
//! full by `cycle_spec`.

use vstd::prelude::*;

use crate::entropy::random_byte;
use crate::machine::Machine;
use crate::machine::MachineView;
use crate::machine::DISPLAY_CELLS;
use crate::machine::MEMORY_SIZE;
use crate::ops::addr3;
use crate::ops::draw_collides;
use crate::ops::drawn_display;
use crate::ops::imm8;
use crate::ops::misc_spec;
use crate::ops::wrap_add;
use crate::ops::Fault;

verus! {

/// The non-fatal result of one cycle: either the fetched instruction was
/// executed, or its nibble pattern matches no instruction and execution
/// moved past it.
#[derive(Clone, Copy, Debug, PartialEq, Eq, Structural)]
pub enum CycleOutcome {
    Executed,
    UnknownOpcode(u8, u8, u8, u8),
}

/// What one cycle does: the machine afterward, and its outcome.
pub struct CycleSpec {
    pub post: MachineView,
    pub outcome: Result<CycleOutcome, Fault>,
}

/// What executing an already-fetched instruction, decomposed into its four
/// nibbles, does to a machine whose program counter has been advanced.
pub open spec fn exec_spec(
    m: MachineView,
    n0: u8,
    n1: u8,
    n2: u8,
    n3: u8,
    keys: Seq<bool>,
    rnd: u8,
) -> CycleSpec {
    if n0 == 0 && n1 == 0 && n2 == 0xE && n3 == 0 {
        CycleSpec {
            post: MachineView { display: Seq::new(DISPLAY_CELLS as nat, |i: int| false), ..m },
            outcome: Ok(CycleOutcome::Executed),
        }
    } else if n0 == 0 && n1 == 0 && n2 == 0xE && n3 == 0xE {
        if m.stack.len() == 0 {
            CycleSpec { post: m, outcome: Err(Fault::StackUnderflow) }
        } else {
            CycleSpec {
                post: MachineView { pc: m.stack.last() as int, stack: m.stack.drop_last(), ..m },
                outcome: Ok(CycleOutcome::Executed),
            }
        }
    } else if n0 == 0 && n1 == 0 && n2 == 0 && n3 == 0 {
        CycleSpec { post: m, outcome: Ok(CycleOutcome::Executed) }
    } else if n0 == 1 {
        CycleSpec {
            post: MachineView { pc: addr3(n1, n2, n3), ..m },
            outcome: Ok(CycleOutcome::Executed),
        }
    } else if n0 == 2 {
        CycleSpec {
            post: MachineView { pc: addr3(n1, n2, n3), stack: m.stack.push((m.pc as u16)), ..m },
            outcome: Ok(CycleOutcome::Executed),
        }
    } else if n0 == 3 {
        CycleSpec {
            post: MachineView {
                pc: if m.regs[n1 as int] == imm8(n2, n3) {
                    m.pc + 2
                } else {
                    m.pc
                },
                ..m
            },
            outcome: Ok(CycleOutcome::Executed),
        }
    } else if n0 == 4 {
        CycleSpec {
            post: MachineView {
                pc: if m.regs[n1 as int] != imm8(n2, n3) {
                    m.pc + 2
                } else {
                    m.pc
                },
                ..m
            },
            outcome: Ok(CycleOutcome::Executed),
        }
    } else if n0 == 5 && n3 == 0 {
        CycleSpec {
            post: MachineView {
                pc: if m.regs[n1 as int] == m.regs[n2 as int] {
                    m.pc + 2
                } else {
                    m.pc
                },
                ..m
            },
            outcome: Ok(CycleOutcome::Executed),
        }
    } else if n0 == 6 {
        CycleSpec {
            post: MachineView { regs: m.regs.update(n1 as int, (imm8(n2, n3) as u8)), ..m },
            outcome: Ok(CycleOutcome::Executed),
        }
    } else if n0 == 7 {
        CycleSpec {
            post: MachineView {
                regs: m.regs.update(n1 as int, wrap_add(m.regs[n1 as int], (imm8(n2, n3) as u8))),
                ..m
            },
            outcome: Ok(CycleOutcome::Executed),
        }
    } else if n0 == 8 {
        if Machine::alu_known(n3) {
            CycleSpec {
                post: MachineView {
                    regs: Machine::alu_regs(m.regs, n1 as int, n2 as int, n3),
                    ..m
                },
                outcome: Ok(CycleOutcome::Executed),
            }
        } else {
            CycleSpec { post: m, outcome: Ok(CycleOutcome::UnknownOpcode(n0, n1, n2, n3)) }
        }
    } else if n0 == 9 && n3 == 0 {
        CycleSpec {
            post: MachineView {
                pc: if m.regs[n1 as int] != m.regs[n2 as int] {
                    m.pc + 2
                } else {
                    m.pc
                },
                ..m
            },
            outcome: Ok(CycleOutcome::Executed),
        }
    } else if n0 == 0xA {
        CycleSpec {
            post: MachineView { ir: addr3(n1, n2, n3), ..m },
            outcome: Ok(CycleOutcome::Executed),
        }
    } else if n0 == 0xB {
        CycleSpec {
            post: MachineView { pc: addr3(n1, n2, n3) + m.regs[0], ..m },
            outcome: Ok(CycleOutcome::Executed),
        }
    } else if n0 == 0xC {
        CycleSpec {
            post: MachineView { regs: m.regs.update(n1 as int, rnd & (imm8(n2, n3) as u8)), ..m },
            outcome: Ok(CycleOutcome::Executed),
        }
    } else if n0 == 0xD {
        if m.ir + n3 > MEMORY_SIZE {
            CycleSpec { post: m, outcome: Err(Fault::MemoryFault) }
        } else {
            let sprite = m.memory.subrange(m.ir, m.ir + n3);
            let x = m.regs[n1 as int] as int;
            let y = m.regs[n2 as int] as int;
            CycleSpec {
                post: MachineView {
                    display: drawn_display(m.display, sprite, x, y),
                    regs: m.regs.update(
                        15,
                        if draw_collides(m.display, sprite, x, y) {
                            1u8
                        } else {
                            0u8
                        },
                    ),
                    ..m
                },
                outcome: Ok(CycleOutcome::Executed),
            }
        }
    } else if n0 == 0xE && n2 == 9 && n3 == 0xE {
        CycleSpec {
            post: MachineView {
                pc: if keys[(m.regs[n1 as int] % 16) as int] {
                    m.pc + 2
                } else {
                    m.pc
                },
                ..m
            },
            outcome: Ok(CycleOutcome::Executed),
        }
    } else if n0 == 0xE && n2 == 0xA && n3 == 1 {
        CycleSpec {
            post: MachineView {
                pc: if !keys[(m.regs[n1 as int] % 16) as int] {
                    m.pc + 2
                } else {
                    m.pc
                },
                ..m
            },
            outcome: Ok(CycleOutcome::Executed),
        }
    } else if n0 == 0xF {
        let e = misc_spec(m, n1, n2, n3, keys);
        match e.outcome {
            Ok(known) => if known {
                CycleSpec { post: e.post, outcome: Ok(CycleOutcome::Executed) }
            } else {
                CycleSpec { post: m, outcome: Ok(CycleOutcome::UnknownOpcode(n0, n1, n2, n3)) }
            },
            Err(f) => CycleSpec { post: e.post, outcome: Err(f) },
        }
    } else {
        CycleSpec { post: m, outcome: Ok(CycleOutcome::UnknownOpcode(n0, n1, n2, n3)) }
    }
}

/// One full cycle on a machine: fetch two bytes at the program counter
/// (a `MemoryFault`, changing nothing, if the fetch leaves the
/// addressable range), advance the program counter by two, then execute
/// the decoded instruction.
pub open spec fn cycle_spec(pre: MachineView, keys: Seq<bool>, rnd: u8) -> CycleSpec {
    if !(0 <= pre.pc && pre.pc + 1 < MEMORY_SIZE) {
        CycleSpec { post: pre, outcome: Err(Fault::MemoryFault) }
    } else {
        let b0 = pre.memory[pre.pc];
        let b1 = pre.memory[pre.pc + 1];
        let m = MachineView { pc: pre.pc + 2, ..pre };
        exec_spec(m, b0 / 16, b0 % 16, b1 / 16, b1 % 16, keys, rnd)
    }
}

impl Machine {
    /// Register `x` becomes a given byte masked by the encoded immediate.
    pub fn set_register_masked(&mut self, regx: u8, b: u8, c: u8, rnd: u8)
        requires
            regx < 16,
            b < 16,
            c < 16,
            old(self)@.wf(),
        ensures
            final(self)@ == (MachineView {
                regs: old(self)@.regs.update(regx as int, rnd & (imm8(b, c) as u8)),
                ..old(self)@
            }),
    {
        self.regs.set(regx as usize, rnd & (b * 16 + c));
    }

    /// Register `x` becomes a freshly drawn random byte masked by the
    /// encoded immediate: whatever byte was drawn, the stored value has no
    /// bit outside the mask, and nothing else changes.
    pub fn set_register_random(&mut self, regx: u8, b: u8, c: u8)
        requires
            regx < 16,
            b < 16,
            c < 16,
            old(self)@.wf(),
        ensures
            exists|rb: u8|
                final(self)@ == (MachineView {
                    regs: old(self)@.regs.update(regx as int, #[trigger] (rb & (imm8(b, c) as u8))),
                    ..old(self)@
                }),
    {
        let rnd = random_byte();
        self.set_register_masked(regx, b, c, rnd);
        proof {
            assert(self@ == (MachineView {
                regs: old(self)@.regs.update(regx as int, rnd & (imm8(b, c) as u8)),
                ..old(self)@
            }));
        }
    }

    /// One fetch-decode-execute cycle, with the random byte an explicit
    /// argument: the machine afterward and the returned outcome are exactly
    /// those of `cycle_spec`.
    #[verifier::rlimit(100)]
    pub fn step(&mut self, keys: &Vec<bool>, rnd: u8) -> (r: Result<CycleOutcome, Fault>)
        requires
            old(self)@.wf(),
            keys@.len() == 16,
        ensures
            ({
                let s = cycle_spec(old(self)@, keys@, rnd);
                r == s.outcome && final(self)@ == s.post
            }),
            final(self)@.wf(),
    {
        if self.pc >= MEMORY_SIZE - 1 {
            return Err(Fault::MemoryFault);
        }
        let b0 = self.memory[self.pc];
        let b1 = self.memory[self.pc + 1];
        self.pc = self.pc + 2;
        let n0 = b0 / 16;
        let n1 = b0 % 16;
        let n2 = b1 / 16;
        let n3 = b1 % 16;
        if n0 == 0 && n1 == 0 && n2 == 0xE && n3 == 0 {
            self.clear_screen();
            Ok(CycleOutcome::Executed)
        } else if n0 == 0 && n1 == 0 && n2 == 0xE && n3 == 0xE {
            match self.return_from_subroutine() {
                Ok(()) => Ok(CycleOutcome::Executed),
                Err(f) => Err(f),
            }
        } else if n0 == 0 && n1 == 0 && n2 == 0 && n3 == 0 {
            Ok(CycleOutcome::Executed)
        } else if n0 == 1 {
            self.jump_to_address(n1, n2, n3);
            Ok(CycleOutcome::Executed)
        } else if n0 == 2 {
            self.enter_into_subroutine(n1, n2, n3);
            Ok(CycleOutcome::Executed)
        } else if n0 == 3 {
            self.skip_instruction_eq_literal(n1, n2, n3);
            Ok(CycleOutcome::Executed)
        } else if n0 == 4 {
            self.skip_instruction_ne_literal(n1, n2, n3);
            Ok(CycleOutcome::Executed)
        } else if n0 == 5 && n3 == 0 {
            self.skip_instruction_eq_register(n1, n2);
            Ok(CycleOutcome::Executed)
        } else if n0 == 6 {
            self.set_register(n1, n2, n3);
            Ok(CycleOutcome::Executed)
        } else if n0 == 7 {
            self.add_register(n1, n2, n3);
            Ok(CycleOutcome::Executed)
        } else if n0 == 8 {
            let known = self.register_operation(n1, n2, n3);
            if known {
                Ok(CycleOutcome::Executed)
            } else {
                Ok(CycleOutcome::UnknownOpcode(n0, n1, n2, n3))
            }
        } else if n0 == 9 && n3 == 0 {
            self.skip_instruction_ne_register(n1, n2);
            Ok(CycleOutcome::Executed)
        } else if n0 == 0xA {
            self.set_index_register(n1, n2, n3);
            Ok(CycleOutcome::Executed)
        } else if n0 == 0xB {
            self.jump_v0_offset(n1, n2, n3);
            Ok(CycleOutcome::Executed)
        } else if n0 == 0xC {
            self.set_register_masked(n1, n2, n3, rnd);
            Ok(CycleOutcome::Executed)
        } else if n0 == 0xD {
            match self.draw_sprite(n1, n2, n3) {
                Ok(()) => Ok(CycleOutcome::Executed),
                Err(f) => Err(f),
            }
        } else if n0 == 0xE && n2 == 9 && n3 == 0xE {
            self.skip_instruction_key_pressed(keys, n1);
            Ok(CycleOutcome::Executed)
        } else if n0 == 0xE && n2 == 0xA && n3 == 1 {
            self.skip_instruction_key_not_pressed(keys, n1);
            Ok(CycleOutcome::Executed)
        } else if n0 == 0xF {
            match self.special_register_operation(n1, n2, n3, keys) {
                Ok(true) => Ok(CycleOutcome::Executed),
                Ok(false) => Ok(CycleOutcome::UnknownOpcode(n0, n1, n2, n3)),
                Err(f) => Err(f),
            }
        } else {
            Ok(CycleOutcome::UnknownOpcode(n0, n1, n2, n3))
        }
    }

    /// One fetch-decode-execute cycle with a freshly drawn random byte:
    /// whatever byte was drawn, machine and outcome are those of
    /// `cycle_spec` for that byte.
    pub fn step_random(&mut self, keys: &Vec<bool>) -> (r: Result<CycleOutcome, Fault>)
        requires
            old(self)@.wf(),
            keys@.len() == 16,
        ensures
            exists|rb: u8|
                r == #[trigger] cycle_spec(old(self)@, keys@, rb).outcome && final(self)@
                    == cycle_spec(old(self)@, keys@, rb).post,
            final(self)@.wf(),
    {
        let rnd = random_byte();
        let r = self.step(keys, rnd);
        proof {
            let s = cycle_spec(old(self)@, keys@, rnd);
            assert(r == s.outcome && self@ == s.post);
        }
        r
    }
}

} // verus!
