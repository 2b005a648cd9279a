//! Per-opcode semantics: each operation of the instruction set as a method
//! on `Machine`, with its exact contract over `MachineView`.

use vstd::prelude::*;

use crate::machine::Machine;
use crate::machine::MachineView;
use crate::machine::DISPLAY_CELLS;
use crate::machine::DISPLAY_HEIGHT;
use crate::machine::DISPLAY_WIDTH;
use crate::machine::FONT_OFFSET;
use crate::machine::MEMORY_SIZE;

verus! {

/// A fatal fault: execution of the program cannot correctly continue.
#[derive(Clone, Copy, Debug, PartialEq, Eq, Structural)]
pub enum Fault {
    /// A return was executed with an empty call stack.
    StackUnderflow,
    /// A computed address fell outside the addressable range.
    MemoryFault,
}

/// The 12-bit value encoded by three operand nibbles.
pub open spec fn addr3(n1: u8, n2: u8, n3: u8) -> int {
    n1 * 256 + n2 * 16 + n3
}

/// The 8-bit immediate encoded by two operand nibbles.
pub open spec fn imm8(n2: u8, n3: u8) -> int {
    n2 * 16 + n3
}

/// 8-bit wraparound addition.
pub open spec fn wrap_add(a: u8, b: u8) -> u8 {
    (((a + b) % 256) as u8)
}

/// 8-bit wraparound subtraction.
pub open spec fn wrap_sub(a: u8, b: u8) -> u8 {
    ((if a >= b {
        (a - b) as int
    } else {
        a + 256 - b
    }) as u8)
}

/// Memory after registers 0 through `x` are stored at addresses
/// `ir` through `ir + x`.
pub open spec fn store_regs(mem: Seq<u8>, regs: Seq<u8>, ir: int, x: int) -> Seq<u8> {
    Seq::new(mem.len(), |i: int| if ir <= i <= ir + x {
        regs[i - ir]
    } else {
        mem[i]
    })
}

/// The register file after registers 0 through `x` are loaded from
/// addresses `ir` through `ir + x`.
pub open spec fn load_regs(regs: Seq<u8>, mem: Seq<u8>, ir: int, x: int) -> Seq<u8> {
    Seq::new(regs.len(), |i: int| if 0 <= i <= x {
        mem[ir + i]
    } else {
        regs[i]
    })
}

/// Whether bit `j` of a sprite row byte is set; bit 0 is the leftmost
/// pixel, held in the most significant bit.
pub open spec fn sprite_bit(byte: u8, j: int) -> bool {
    (byte >> ((7 - j) as u8)) & 1 == 1
}

/// Whether a sprite drawn at column `x`, row `y` places a lit bit on
/// display cell (`r`, `c`). Rows and columns that fall outside the display
/// are clipped, not wrapped.
pub open spec fn sprite_covers(sprite: Seq<u8>, x: int, y: int, r: int, c: int) -> bool {
    y <= r < y + sprite.len() && x <= c < x + 8 && sprite_bit(sprite[r - y], c - x)
}

/// The display after the sprite is composited at (`x`, `y`): each covered
/// cell is toggled, every other cell is untouched.
pub open spec fn drawn_display(disp: Seq<bool>, sprite: Seq<u8>, x: int, y: int) -> Seq<bool> {
    Seq::new(
        disp.len(),
        |idx: int| disp[idx] != sprite_covers(sprite, x, y, idx / 64, idx % 64),
    )
}

/// Whether compositing the sprite at (`x`, `y`) collides: some lit sprite
/// bit lands on a cell that is already lit.
pub open spec fn draw_collides(disp: Seq<bool>, sprite: Seq<u8>, x: int, y: int) -> bool {
    exists|i: int, j: int|
        0 <= i < sprite.len() && 0 <= j < 8 && y + i < 32 && x + j < 64 && sprite_bit(sprite[i], j)
            && disp[(y + i) * 64 + (x + j)]
}

/// Whether sprite position (`i`, `j`) comes before position (`row`, `col`)
/// in row-major drawing order.
spec fn lex_before(i: int, j: int, row: int, col: int) -> bool {
    i < row || (i == row && j < col)
}

/// `sprite_covers` restricted to the sprite positions before (`row`,
/// `col`) in drawing order.
spec fn covers_before(
    sprite: Seq<u8>,
    x: int,
    y: int,
    r: int,
    c: int,
    row: int,
    col: int,
) -> bool {
    0 <= r - y < sprite.len() && 0 <= c - x < 8 && lex_before(r - y, c - x, row, col)
        && sprite_bit(sprite[r - y], c - x)
}

/// `draw_collides` restricted to the sprite positions before (`row`,
/// `col`) in drawing order.
spec fn collides_before(
    disp: Seq<bool>,
    sprite: Seq<u8>,
    x: int,
    y: int,
    row: int,
    col: int,
) -> bool {
    exists|i: int, j: int|
        0 <= i < sprite.len() && 0 <= j < 8 && lex_before(i, j, row, col) && y + i < 32 && x + j
            < 64 && sprite_bit(sprite[i], j) && disp[(y + i) * 64 + (x + j)]
}

/// A display index splits into its row and column.
proof fn lemma_idx_decomp(idx: int)
    by (nonlinear_arith)
    requires
        0 <= idx < 2048,
    ensures
        0 <= idx / 64 < 32,
        0 <= idx % 64 < 64,
        idx == (idx / 64) * 64 + (idx % 64),
{
}

/// Row-major decomposition of a display index.
proof fn lemma_rowcol(a: int, b: int)
    by (nonlinear_arith)
    requires
        0 <= a,
        0 <= b < 64,
    ensures
        (a * 64 + b) / 64 == a,
        (a * 64 + b) % 64 == b,
{
}

/// Processing one more sprite position that does not collide leaves the
/// collision account unchanged.
proof fn lemma_collides_step(disp: Seq<bool>, sprite: Seq<u8>, x: int, y: int, row: int, col: int)
    requires
        0 <= row < sprite.len(),
        0 <= col < 8,
        !(y + row < 32 && x + col < 64 && sprite_bit(sprite[row], col) && disp[(y + row) * 64 + (x
            + col)]),
    ensures
        collides_before(disp, sprite, x, y, row, col + 1) == collides_before(
            disp,
            sprite,
            x,
            y,
            row,
            col,
        ),
{
    if collides_before(disp, sprite, x, y, row, col + 1) {
        let (i, j) = choose|i: int, j: int|
            0 <= i < sprite.len() && 0 <= j < 8 && lex_before(i, j, row, col + 1) && y + i < 32 && x
                + j < 64 && sprite_bit(sprite[i], j) && disp[(y + i) * 64 + (x + j)];
        assert(lex_before(i, j, row, col));
        assert(collides_before(disp, sprite, x, y, row, col));
    }
    if collides_before(disp, sprite, x, y, row, col) {
        let (i, j) = choose|i: int, j: int|
            0 <= i < sprite.len() && 0 <= j < 8 && lex_before(i, j, row, col) && y + i < 32 && x + j
                < 64 && sprite_bit(sprite[i], j) && disp[(y + i) * 64 + (x + j)];
        assert(lex_before(i, j, row, col + 1));
        assert(collides_before(disp, sprite, x, y, row, col + 1));
    }
}

/// Finishing a row's eight positions accounts for the same positions as
/// standing at the start of the next row.
proof fn lemma_row_wrap(disp: Seq<bool>, sprite: Seq<u8>, x: int, y: int, row: int)
    requires
        0 <= row,
    ensures
        collides_before(disp, sprite, x, y, row, 8) == collides_before(
            disp,
            sprite,
            x,
            y,
            row + 1,
            0,
        ),
        forall|r: int, c: int|
            #[trigger] covers_before(sprite, x, y, r, c, row, 8) == covers_before(
                sprite,
                x,
                y,
                r,
                c,
                row + 1,
                0,
            ),
{
    assert forall|i: int, j: int| 0 <= j < 8 implies lex_before(i, j, row, 8) == lex_before(
        i,
        j,
        row + 1,
        0,
    ) by {}
    if collides_before(disp, sprite, x, y, row, 8) {
        let (i, j) = choose|i: int, j: int|
            0 <= i < sprite.len() && 0 <= j < 8 && lex_before(i, j, row, 8) && y + i < 32 && x + j
                < 64 && sprite_bit(sprite[i], j) && disp[(y + i) * 64 + (x + j)];
        assert(lex_before(i, j, row + 1, 0));
        assert(collides_before(disp, sprite, x, y, row + 1, 0));
    }
    if collides_before(disp, sprite, x, y, row + 1, 0) {
        let (i, j) = choose|i: int, j: int|
            0 <= i < sprite.len() && 0 <= j < 8 && lex_before(i, j, row + 1, 0) && y + i < 32 && x
                + j < 64 && sprite_bit(sprite[i], j) && disp[(y + i) * 64 + (x + j)];
        assert(lex_before(i, j, row, 8));
        assert(collides_before(disp, sprite, x, y, row, 8));
    }
}

/// A row that lies entirely below the display contributes nothing.
proof fn lemma_skip_row(disp: Seq<bool>, sprite: Seq<u8>, x: int, y: int, row: int)
    requires
        0 <= row,
        y + row >= 32,
    ensures
        collides_before(disp, sprite, x, y, row + 1, 0) == collides_before(
            disp,
            sprite,
            x,
            y,
            row,
            0,
        ),
        forall|r: int, c: int|
            0 <= r < 32 ==> #[trigger] covers_before(sprite, x, y, r, c, row + 1, 0) == covers_before(
                sprite,
                x,
                y,
                r,
                c,
                row,
                0,
            ),
{
    if collides_before(disp, sprite, x, y, row + 1, 0) {
        let (i, j) = choose|i: int, j: int|
            0 <= i < sprite.len() && 0 <= j < 8 && lex_before(i, j, row + 1, 0) && y + i < 32 && x
                + j < 64 && sprite_bit(sprite[i], j) && disp[(y + i) * 64 + (x + j)];
        assert(i != row);
        assert(lex_before(i, j, row, 0));
        assert(collides_before(disp, sprite, x, y, row, 0));
    }
    if collides_before(disp, sprite, x, y, row, 0) {
        let (i, j) = choose|i: int, j: int|
            0 <= i < sprite.len() && 0 <= j < 8 && lex_before(i, j, row, 0) && y + i < 32 && x + j
                < 64 && sprite_bit(sprite[i], j) && disp[(y + i) * 64 + (x + j)];
        assert(lex_before(i, j, row + 1, 0));
        assert(collides_before(disp, sprite, x, y, row + 1, 0));
    }
}

/// The smallest pressed key index at or after `i`, or -1 if none is.
pub open spec fn first_pressed_from(keys: Seq<bool>, i: int) -> int
    decreases 16 - i,
{
    if i >= 16 {
        -1
    } else if keys[i] {
        i
    } else {
        first_pressed_from(keys, i + 1)
    }
}

/// The smallest pressed key index, or -1 if no key is pressed.
pub open spec fn first_pressed(keys: Seq<bool>) -> int {
    first_pressed_from(keys, 0)
}

/// The smallest pressed key index of a 16-key snapshot, if any key is down.
fn find_first_pressed(keys: &Vec<bool>) -> (r: Option<u8>)
    requires
        keys@.len() == 16,
    ensures
        match r {
            Some(k) => k < 16 && first_pressed(keys@) == k,
            None => first_pressed(keys@) == -1,
        },
{
    let mut i: usize = 0;
    while i < 16
        invariant
            i <= 16,
            keys@.len() == 16,
            first_pressed(keys@) == first_pressed_from(keys@, i as int),
        decreases 16 - i,
    {
        if keys[i] {
            return Some(i as u8);
        }
        i = i + 1;
    }
    None
}

/// What one special-register operation does: the machine afterward, and
/// whether the operand pair named a known operation or the operation
/// faulted.
pub struct MiscEffect {
    pub post: MachineView,
    pub outcome: Result<bool, Fault>,
}

/// The specification of the special-register family: timer transfers, the
/// key wait, index-register arithmetic, the font lookup, decimal
/// decomposition, and the register-block store and load.
pub open spec fn misc_spec(pre: MachineView, x: u8, b: u8, c: u8, keys: Seq<bool>) -> MiscEffect {
    let vx = pre.regs[x as int];
    if b == 0 && c == 7 {
        MiscEffect {
            post: MachineView { regs: pre.regs.update(x as int, pre.delay), ..pre },
            outcome: Ok(true),
        }
    } else if b == 0 && c == 0xA {
        if first_pressed(keys) >= 0 {
            MiscEffect {
                post: MachineView {
                    regs: pre.regs.update(x as int, (first_pressed(keys) as u8)),
                    ..pre
                },
                outcome: Ok(true),
            }
        } else {
            MiscEffect { post: MachineView { pc: pre.pc - 2, ..pre }, outcome: Ok(true) }
        }
    } else if b == 1 && c == 5 {
        MiscEffect { post: MachineView { delay: vx, ..pre }, outcome: Ok(true) }
    } else if b == 1 && c == 8 {
        MiscEffect { post: MachineView { sound: vx, ..pre }, outcome: Ok(true) }
    } else if b == 1 && c == 0xE {
        if pre.ir + vx >= MEMORY_SIZE {
            MiscEffect { post: pre, outcome: Err(Fault::MemoryFault) }
        } else {
            MiscEffect { post: MachineView { ir: pre.ir + vx, ..pre }, outcome: Ok(true) }
        }
    } else if b == 2 && c == 9 {
        MiscEffect { post: MachineView { ir: FONT_OFFSET + vx * 5, ..pre }, outcome: Ok(true) }
    } else if b == 3 && c == 3 {
        if pre.ir + 2 >= MEMORY_SIZE {
            MiscEffect { post: pre, outcome: Err(Fault::MemoryFault) }
        } else {
            MiscEffect {
                post: MachineView {
                    memory: pre.memory.update(pre.ir, ((vx / 100) as u8)).update(
                        pre.ir + 1,
                        (((vx / 10) % 10) as u8),
                    ).update(pre.ir + 2, ((vx % 10) as u8)),
                    ..pre
                },
                outcome: Ok(true),
            }
        }
    } else if b == 5 && c == 5 {
        if pre.ir + x >= MEMORY_SIZE {
            MiscEffect { post: pre, outcome: Err(Fault::MemoryFault) }
        } else {
            MiscEffect {
                post: MachineView {
                    memory: store_regs(pre.memory, pre.regs, pre.ir, x as int),
                    ir: pre.ir + x + 1,
                    ..pre
                },
                outcome: Ok(true),
            }
        }
    } else if b == 6 && c == 5 {
        if pre.ir + x >= MEMORY_SIZE {
            MiscEffect { post: pre, outcome: Err(Fault::MemoryFault) }
        } else {
            MiscEffect {
                post: MachineView {
                    regs: load_regs(pre.regs, pre.memory, pre.ir, x as int),
                    ir: pre.ir + x + 1,
                    ..pre
                },
                outcome: Ok(true),
            }
        }
    } else {
        MiscEffect { post: pre, outcome: Ok(false) }
    }
}

impl Machine {
    /// Jump: the program counter becomes the encoded 12-bit target,
    /// independent of its prior value.
    pub fn jump_to_address(&mut self, a: u8, b: u8, c: u8)
        requires
            a < 16,
            b < 16,
            c < 16,
        ensures
            final(self)@ == (MachineView { pc: addr3(a, b, c), ..old(self)@ }),
    {
        self.pc = (a as usize) * 256 + (b as usize) * 16 + (c as usize);
    }

    /// Jump with offset: the program counter becomes the encoded 12-bit
    /// target plus register 0.
    pub fn jump_v0_offset(&mut self, a: u8, b: u8, c: u8)
        requires
            a < 16,
            b < 16,
            c < 16,
            old(self)@.wf(),
        ensures
            final(self)@ == (MachineView { pc: addr3(a, b, c) + old(self)@.regs[0], ..old(self)@ }),
    {
        let target: usize = (a as usize) * 256 + (b as usize) * 16 + (c as usize);
        self.pc = target + self.regs[0] as usize;
    }

    /// Call: push the already-advanced program counter, then jump to the
    /// encoded 12-bit target.
    pub fn enter_into_subroutine(&mut self, a: u8, b: u8, c: u8)
        requires
            a < 16,
            b < 16,
            c < 16,
            old(self).pc <= u16::MAX,
        ensures
            final(self)@ == (MachineView {
                pc: addr3(a, b, c),
                stack: old(self)@.stack.push(old(self).pc as u16),
                ..old(self)@
            }),
    {
        self.stack.push(self.pc as u16);
        self.pc = (a as usize) * 256 + (b as usize) * 16 + (c as usize);
    }

    /// Return: pop one return address into the program counter. Popping an
    /// empty stack is a `StackUnderflow` fault and changes nothing.
    pub fn return_from_subroutine(&mut self) -> (r: Result<(), Fault>)
        ensures
            old(self)@.stack.len() == 0 ==> r == Err::<(), Fault>(Fault::StackUnderflow)
                && final(self)@ == old(self)@,
            old(self)@.stack.len() > 0 ==> r == Ok::<(), Fault>(())
                && final(self)@ == (MachineView {
                    pc: old(self)@.stack.last() as int,
                    stack: old(self)@.stack.drop_last(),
                    ..old(self)@
                }),
    {
        match self.stack.pop() {
            Some(addr) => {
                self.pc = addr as usize;
                Ok(())
            },
            None => Err(Fault::StackUnderflow),
        }
    }

    /// The index register becomes the encoded 12-bit value.
    pub fn set_index_register(&mut self, a: u8, b: u8, c: u8)
        requires
            a < 16,
            b < 16,
            c < 16,
        ensures
            final(self)@ == (MachineView { ir: addr3(a, b, c), ..old(self)@ }),
    {
        self.ir = (a as u16) * 256 + (b as u16) * 16 + (c as u16);
    }

    /// Register load: register `x` becomes the encoded 8-bit immediate.
    pub fn set_register(&mut self, x: u8, b: u8, c: u8)
        requires
            x < 16,
            b < 16,
            c < 16,
            old(self)@.wf(),
        ensures
            final(self)@ == (MachineView {
                regs: old(self)@.regs.update(x as int, (imm8(b, c) as u8)),
                ..old(self)@
            }),
    {
        self.regs.set(x as usize, b * 16 + c);
    }

    /// Register add-immediate: 8-bit wraparound, and no flag is set.
    pub fn add_register(&mut self, x: u8, b: u8, c: u8)
        requires
            x < 16,
            b < 16,
            c < 16,
            old(self)@.wf(),
        ensures
            final(self)@ == (MachineView {
                regs: old(self)@.regs.update(
                    x as int,
                    wrap_add(old(self)@.regs[x as int], (imm8(b, c) as u8)),
                ),
                ..old(self)@
            }),
    {
        let sum: u16 = self.regs[x as usize] as u16 + (b * 16 + c) as u16;
        self.regs.set(x as usize, (sum % 256) as u8);
    }

    /// Skip the next instruction if register `x` equals the immediate.
    pub fn skip_instruction_eq_literal(&mut self, regx: u8, b: u8, c: u8)
        requires
            regx < 16,
            b < 16,
            c < 16,
            old(self)@.wf(),
            old(self).pc + 2 <= usize::MAX,
        ensures
            final(self)@ == (MachineView {
                pc: if old(self)@.regs[regx as int] == imm8(b, c) {
                    old(self)@.pc + 2
                } else {
                    old(self)@.pc
                },
                ..old(self)@
            }),
    {
        if self.regs[regx as usize] == b * 16 + c {
            self.pc = self.pc + 2;
        }
    }

    /// Skip the next instruction if register `x` differs from the immediate.
    pub fn skip_instruction_ne_literal(&mut self, regx: u8, b: u8, c: u8)
        requires
            regx < 16,
            b < 16,
            c < 16,
            old(self)@.wf(),
            old(self).pc + 2 <= usize::MAX,
        ensures
            final(self)@ == (MachineView {
                pc: if old(self)@.regs[regx as int] != imm8(b, c) {
                    old(self)@.pc + 2
                } else {
                    old(self)@.pc
                },
                ..old(self)@
            }),
    {
        if self.regs[regx as usize] != b * 16 + c {
            self.pc = self.pc + 2;
        }
    }

    /// Skip the next instruction if registers `x` and `y` are equal.
    pub fn skip_instruction_eq_register(&mut self, regx: u8, regy: u8)
        requires
            regx < 16,
            regy < 16,
            old(self)@.wf(),
            old(self).pc + 2 <= usize::MAX,
        ensures
            final(self)@ == (MachineView {
                pc: if old(self)@.regs[regx as int] == old(self)@.regs[regy as int] {
                    old(self)@.pc + 2
                } else {
                    old(self)@.pc
                },
                ..old(self)@
            }),
    {
        if self.regs[regx as usize] == self.regs[regy as usize] {
            self.pc = self.pc + 2;
        }
    }

    /// Skip the next instruction if registers `x` and `y` differ.
    pub fn skip_instruction_ne_register(&mut self, regx: u8, regy: u8)
        requires
            regx < 16,
            regy < 16,
            old(self)@.wf(),
            old(self).pc + 2 <= usize::MAX,
        ensures
            final(self)@ == (MachineView {
                pc: if old(self)@.regs[regx as int] != old(self)@.regs[regy as int] {
                    old(self)@.pc + 2
                } else {
                    old(self)@.pc
                },
                ..old(self)@
            }),
    {
        if self.regs[regx as usize] != self.regs[regy as usize] {
            self.pc = self.pc + 2;
        }
    }

    /// Whether an arithmetic-family operation selector is part of the
    /// instruction set.
    pub open spec fn alu_known(op: u8) -> bool {
        op == 0 || op == 1 || op == 2 || op == 3 || op == 4 || op == 5 || op == 6 || op == 7
            || op == 0xE
    }

    /// The value an arithmetic-family operation stores in register `x`,
    /// computed from the pre-operation operand values.
    pub open spec fn alu_result(vx: u8, vy: u8, op: u8) -> u8 {
        if op == 0 {
            vy
        } else if op == 1 {
            vx | vy
        } else if op == 2 {
            vx & vy
        } else if op == 3 {
            vx ^ vy
        } else if op == 4 {
            wrap_add(vx, vy)
        } else if op == 5 {
            wrap_sub(vx, vy)
        } else if op == 6 {
            vy / 2
        } else if op == 7 {
            wrap_sub(vy, vx)
        } else {
            (((vy * 2) % 256) as u8)
        }
    }

    /// The flag an arithmetic-family operation writes to register 15, from
    /// the pre-operation operand values; `None` for the operations that
    /// define no flag.
    pub open spec fn alu_flag(vx: u8, vy: u8, op: u8) -> Option<u8> {
        if op == 4 {
            Some(if vx + vy > 255 {
                1u8
            } else {
                0u8
            })
        } else if op == 5 {
            Some(if vx > vy {
                1u8
            } else {
                0u8
            })
        } else if op == 6 {
            Some((vy % 2) as u8)
        } else if op == 7 {
            Some(if vy > vx {
                1u8
            } else {
                0u8
            })
        } else if op == 0xE {
            Some(if vy >= 128 {
                1u8
            } else {
                0u8
            })
        } else {
            None
        }
    }

    /// The register file after an arithmetic-family operation: the result
    /// goes to register `x`, then the flag, if the operation defines one,
    /// overwrites register 15.
    pub open spec fn alu_regs(regs: Seq<u8>, x: int, y: int, op: u8) -> Seq<u8> {
        let vx = regs[x];
        let vy = regs[y];
        let with_result = regs.update(x, Self::alu_result(vx, vy, op));
        match Self::alu_flag(vx, vy, op) {
            Some(f) => with_result.update(15, f),
            None => with_result,
        }
    }

    /// An arithmetic-family operation (load, bitwise, add, subtract, shift)
    /// between registers `x` and `y`. Flags are computed from the
    /// pre-operation operand values; the shifts read register `y`. Returns
    /// whether the selector named a known operation; an unknown selector
    /// changes nothing.
    pub fn register_operation(&mut self, regx: u8, regy: u8, op: u8) -> (known: bool)
        requires
            regx < 16,
            regy < 16,
            old(self)@.wf(),
        ensures
            known == Self::alu_known(op),
            !known ==> final(self)@ == old(self)@,
            known ==> final(self)@ == (MachineView {
                regs: Self::alu_regs(old(self)@.regs, regx as int, regy as int, op),
                ..old(self)@
            }),
    {
        let x = regx as usize;
        let y = regy as usize;
        let vx = self.regs[x];
        let vy = self.regs[y];
        match op {
            0x0 => {
                self.regs.set(x, vy);
                true
            },
            0x1 => {
                self.regs.set(x, vx | vy);
                true
            },
            0x2 => {
                self.regs.set(x, vx & vy);
                true
            },
            0x3 => {
                self.regs.set(x, vx ^ vy);
                true
            },
            0x4 => {
                let sum: u16 = vx as u16 + vy as u16;
                self.regs.set(x, (sum % 256) as u8);
                self.regs.set(15, if sum > 255 { 1 } else { 0 });
                true
            },
            0x5 => {
                let diff: u16 = (vx as u16 + 256 - vy as u16) % 256;
                self.regs.set(x, diff as u8);
                self.regs.set(15, if vx > vy { 1 } else { 0 });
                true
            },
            0x6 => {
                self.regs.set(x, vy / 2);
                self.regs.set(15, vy % 2);
                true
            },
            0x7 => {
                let diff: u16 = (vy as u16 + 256 - vx as u16) % 256;
                self.regs.set(x, diff as u8);
                self.regs.set(15, if vy > vx { 1 } else { 0 });
                true
            },
            0xE => {
                self.regs.set(x, ((vy as u16 * 2) % 256) as u8);
                self.regs.set(15, if vy >= 128 { 1 } else { 0 });
                true
            },
            _ => false,
        }
    }

    /// Skip the next instruction if the key selected by register `x` is
    /// pressed. Only the low four bits of the register select a key, since
    /// the input surface has 16 keys.
    pub fn skip_instruction_key_pressed(&mut self, keys: &Vec<bool>, regx: u8)
        requires
            regx < 16,
            keys@.len() == 16,
            old(self)@.wf(),
            old(self).pc + 2 <= usize::MAX,
        ensures
            final(self)@ == (MachineView {
                pc: if keys@[(old(self)@.regs[regx as int] % 16) as int] {
                    old(self)@.pc + 2
                } else {
                    old(self)@.pc
                },
                ..old(self)@
            }),
    {
        let key = (self.regs[regx as usize] % 16) as usize;
        if keys[key] {
            self.pc = self.pc + 2;
        }
    }

    /// Skip the next instruction if the key selected by register `x` is not
    /// pressed. Only the low four bits of the register select a key.
    pub fn skip_instruction_key_not_pressed(&mut self, keys: &Vec<bool>, regx: u8)
        requires
            regx < 16,
            keys@.len() == 16,
            old(self)@.wf(),
            old(self).pc + 2 <= usize::MAX,
        ensures
            final(self)@ == (MachineView {
                pc: if !keys@[(old(self)@.regs[regx as int] % 16) as int] {
                    old(self)@.pc + 2
                } else {
                    old(self)@.pc
                },
                ..old(self)@
            }),
    {
        let key = (self.regs[regx as usize] % 16) as usize;
        if !keys[key] {
            self.pc = self.pc + 2;
        }
    }

    /// The special-register family: timer transfers, the key wait, index
    /// arithmetic, font lookup, decimal decomposition, and register-block
    /// store and load. Returns `Ok(true)` when the operand pair named a
    /// known operation, `Ok(false)` (changing nothing) when it did not, and
    /// a `MemoryFault` (changing nothing) when a computed address leaves
    /// the addressable range.
    ///
    /// The key wait is expressed as a cooperative yield: when no key of the
    /// snapshot is down, the program counter steps back over the
    /// instruction, so the cycle retries it; when one is down, the smallest
    /// pressed key index is stored.
    pub fn special_register_operation(&mut self, regx: u8, b: u8, c: u8, keys: &Vec<bool>) -> (r:
        Result<bool, Fault>)
        requires
            regx < 16,
            b < 16,
            c < 16,
            keys@.len() == 16,
            old(self)@.wf(),
            b == 0 && c == 0xA ==> old(self).pc >= 2,
        ensures
            ({
                let e = misc_spec(old(self)@, regx, b, c, keys@);
                r == e.outcome && final(self)@ == e.post
            }),
    {
        let x = regx as usize;
        match (b, c) {
            (0, 7) => {
                let d = self.delay;
                self.regs.set(x, d);
                Ok(true)
            },
            (0, 0xA) => {
                match find_first_pressed(keys) {
                    Some(k) => {
                        self.regs.set(x, k);
                    },
                    None => {
                        self.pc = self.pc - 2;
                    },
                }
                Ok(true)
            },
            (1, 5) => {
                self.delay = self.regs[x];
                Ok(true)
            },
            (1, 8) => {
                self.sound = self.regs[x];
                Ok(true)
            },
            (1, 0xE) => {
                let target: usize = self.ir as usize + self.regs[x] as usize;
                if target >= MEMORY_SIZE {
                    Err(Fault::MemoryFault)
                } else {
                    self.ir = target as u16;
                    Ok(true)
                }
            },
            (2, 9) => {
                self.ir = (FONT_OFFSET + (self.regs[x] as usize) * 5) as u16;
                Ok(true)
            },
            (3, 3) => {
                if self.ir as usize + 2 >= MEMORY_SIZE {
                    Err(Fault::MemoryFault)
                } else {
                    let v = self.regs[x];
                    let base = self.ir as usize;
                    self.memory.set(base, v / 100);
                    self.memory.set(base + 1, (v / 10) % 10);
                    self.memory.set(base + 2, v % 10);
                    Ok(true)
                }
            },
            (5, 5) => {
                if self.ir as usize + x >= MEMORY_SIZE {
                    Err(Fault::MemoryFault)
                } else {
                    let base = self.ir as usize;
                    let mut i: usize = 0;
                    while i <= x
                        invariant
                            x < 16,
                            i <= x + 1,
                            base + x < MEMORY_SIZE,
                            self@.memory.len() == MEMORY_SIZE,
                            self@.regs.len() == 16,
                            forall|j: int|
                                base <= j < base + i ==> self@.memory[j] == self@.regs[j - base],
                            forall|j: int|
                                0 <= j < MEMORY_SIZE && !(base <= j < base + i)
                                    ==> self@.memory[j] == old(self)@.memory[j],
                            self@ == (MachineView { memory: self@.memory, ..old(self)@ }),
                        decreases x + 1 - i,
                    {
                        let v = self.regs[i];
                        self.memory.set(base + i, v);
                        i = i + 1;
                    }
                    self.ir = (base + x + 1) as u16;
                    proof {
                        assert(self@.memory =~= store_regs(
                            old(self)@.memory,
                            old(self)@.regs,
                            base as int,
                            x as int,
                        ));
                    }
                    Ok(true)
                }
            },
            (6, 5) => {
                if self.ir as usize + x >= MEMORY_SIZE {
                    Err(Fault::MemoryFault)
                } else {
                    let base = self.ir as usize;
                    let mut i: usize = 0;
                    while i <= x
                        invariant
                            x < 16,
                            i <= x + 1,
                            base + x < MEMORY_SIZE,
                            self@.memory.len() == MEMORY_SIZE,
                            self@.regs.len() == 16,
                            forall|j: int| 0 <= j < i ==> self@.regs[j] == self@.memory[base + j],
                            forall|j: int|
                                i <= j < 16 ==> self@.regs[j] == old(self)@.regs[j],
                            self@ == (MachineView { regs: self@.regs, ..old(self)@ }),
                        decreases x + 1 - i,
                    {
                        let v = self.memory[base + i];
                        self.regs.set(i, v);
                        i = i + 1;
                    }
                    self.ir = (base + x + 1) as u16;
                    proof {
                        assert(self@.regs =~= load_regs(
                            old(self)@.regs,
                            old(self)@.memory,
                            base as int,
                            x as int,
                        ));
                    }
                    Ok(true)
                }
            },
            _ => Ok(false),
        }
    }

    /// Composite an `n`-row sprite, read from memory at the index register,
    /// onto the display at the coordinates held in registers `x` and `y`:
    /// XOR blending, with rows and columns outside the display clipped.
    /// Register 15 becomes 1 exactly when this call lands a lit sprite bit
    /// on a lit cell, else 0. A sprite extending past the addressable range
    /// is a `MemoryFault` and changes nothing.
    #[verifier::rlimit(50)]
    pub fn draw_sprite(&mut self, regx: u8, regy: u8, n: u8) -> (r: Result<(), Fault>)
        requires
            regx < 16,
            regy < 16,
            n < 16,
            old(self)@.wf(),
        ensures
            old(self)@.ir + n > MEMORY_SIZE ==> r == Err::<(), Fault>(Fault::MemoryFault)
                && final(self)@ == old(self)@,
            old(self)@.ir + n <= MEMORY_SIZE ==> r == Ok::<(), Fault>(()) && ({
                let sprite = old(self)@.memory.subrange(old(self)@.ir, old(self)@.ir + n);
                let x = old(self)@.regs[regx as int] as int;
                let y = old(self)@.regs[regy as int] as int;
                final(self)@ == (MachineView {
                    display: drawn_display(old(self)@.display, sprite, x, y),
                    regs: old(self)@.regs.update(
                        15,
                        if draw_collides(old(self)@.display, sprite, x, y) {
                            1u8
                        } else {
                            0u8
                        },
                    ),
                    ..old(self)@
                })
            }),
    {
        if self.ir as usize + n as usize > MEMORY_SIZE {
            return Err(Fault::MemoryFault);
        }
        let base = self.ir as usize;
        let ghost sprite = self@.memory.subrange(base as int, base + n);
        let ghost disp0 = self@.display;
        let x0 = self.regs[regx as usize] as usize;
        let y0 = self.regs[regy as usize] as usize;
        let mut collided = false;
        let mut row: usize = 0;
        while row < n as usize
            invariant
                regx < 16,
                regy < 16,
                n < 16,
                old(self)@.wf(),
                base == old(self)@.ir,
                base + n <= MEMORY_SIZE,
                x0 == old(self)@.regs[regx as int],
                y0 == old(self)@.regs[regy as int],
                x0 < 256,
                y0 < 256,
                sprite == old(self)@.memory.subrange(base as int, base + n),
                sprite.len() == n,
                disp0 == old(self)@.display,
                row <= n,
                self@ == (MachineView { display: self@.display, ..old(self)@ }),
                self@.display.len() == DISPLAY_CELLS,
                forall|rr: int, cc: int|
                    0 <= rr < 32 && 0 <= cc < 64 ==> self@.display[rr * 64 + cc] == (disp0[rr * 64
                        + cc] != covers_before(sprite, x0 as int, y0 as int, rr, cc, row as int, 0)),
                collided == collides_before(disp0, sprite, x0 as int, y0 as int, row as int, 0),
            decreases n - row,
        {
            if y0 + row < DISPLAY_HEIGHT {
                let byte = self.memory[base + row];
                proof {
                    assert(byte == sprite[row as int]);
                }
                let mut col: usize = 0;
                while col < 8
                    invariant
                        n < 16,
                        old(self)@.wf(),
                        base + n <= MEMORY_SIZE,
                        sprite.len() == n,
                        disp0 == old(self)@.display,
                        row < n,
                        x0 < 256,
                        y0 + row < 32,
                        byte == sprite[row as int],
                        col <= 8,
                        self@ == (MachineView { display: self@.display, ..old(self)@ }),
                        self@.display.len() == DISPLAY_CELLS,
                        forall|rr: int, cc: int|
                            0 <= rr < 32 && 0 <= cc < 64 ==> self@.display[rr * 64 + cc] == (
                            disp0[rr * 64 + cc] != covers_before(
                                sprite,
                                x0 as int,
                                y0 as int,
                                rr,
                                cc,
                                row as int,
                                col as int,
                            )),
                        collided == collides_before(
                            disp0,
                            sprite,
                            x0 as int,
                            y0 as int,
                            row as int,
                            col as int,
                        ),
                    decreases 8 - col,
                {
                    let ghost disp_in = self@.display;
                    let ghost xi = x0 as int;
                    let ghost yi = y0 as int;
                    let ghost ri = row as int;
                    let ghost ci = col as int;
                    if x0 + col < DISPLAY_WIDTH {
                        let shift: u8 = (7 - col) as u8;
                        let bit: u8 = (byte >> shift) & 1;
                        proof {
                            assert(sprite_bit(sprite[ri], ci) == (bit == 1));
                        }
                        if bit == 1 {
                            let idx = (y0 + row) * 64 + (x0 + col);
                            proof {
                                lemma_rowcol(yi + ri, xi + ci);
                            }
                            let cur = self.display[idx];
                            proof {
                                assert(!covers_before(sprite, xi, yi, yi + ri, xi + ci, ri, ci));
                                assert(cur == disp0[idx as int]);
                            }
                            if cur {
                                collided = true;
                                self.display.set(idx, false);
                                proof {
                                    assert(collides_before(disp0, sprite, xi, yi, ri, ci + 1)) by {
                                        assert(lex_before(ri, ci, ri, ci + 1));
                                        assert(disp0[(yi + ri) * 64 + (xi + ci)]);
                                    }
                                }
                            } else {
                                self.display.set(idx, true);
                                proof {
                                    lemma_collides_step(disp0, sprite, xi, yi, ri, ci);
                                }
                            }
                            proof {
                                assert forall|rr: int, cc: int|
                                    0 <= rr < 32 && 0 <= cc < 64 implies self@.display[rr * 64 + cc]
                                    == (disp0[rr * 64 + cc] != #[trigger] covers_before(
                                    sprite,
                                    xi,
                                    yi,
                                    rr,
                                    cc,
                                    ri,
                                    ci + 1,
                                )) by {
                                    lemma_rowcol(rr, cc);
                                    lemma_rowcol(yi + ri, xi + ci);
                                    if rr == yi + ri && cc == xi + ci {
                                        assert(covers_before(sprite, xi, yi, rr, cc, ri, ci + 1));
                                    } else {
                                        assert(rr * 64 + cc != idx);
                                        assert(covers_before(sprite, xi, yi, rr, cc, ri, ci + 1)
                                            == covers_before(sprite, xi, yi, rr, cc, ri, ci));
                                    }
                                }
                            }
                        } else {
                            proof {
                                lemma_collides_step(disp0, sprite, xi, yi, ri, ci);
                                assert forall|rr: int, cc: int|
                                    0 <= rr < 32 && 0 <= cc < 64 implies #[trigger] covers_before(
                                    sprite,
                                    xi,
                                    yi,
                                    rr,
                                    cc,
                                    ri,
                                    ci + 1,
                                ) == covers_before(sprite, xi, yi, rr, cc, ri, ci) by {}
                            }
                        }
                    } else {
                        proof {
                            lemma_collides_step(disp0, sprite, xi, yi, ri, ci);
                            assert forall|rr: int, cc: int|
                                0 <= rr < 32 && 0 <= cc < 64 implies #[trigger] covers_before(
                                sprite,
                                xi,
                                yi,
                                rr,
                                cc,
                                ri,
                                ci + 1,
                            ) == covers_before(sprite, xi, yi, rr, cc, ri, ci) by {
                                assert(cc < 64 <= xi + ci);
                            }
                        }
                    }
                    col = col + 1;
                }
                proof {
                    lemma_row_wrap(disp0, sprite, x0 as int, y0 as int, row as int);
                    assert forall|rr: int, cc: int| 0 <= rr < 32 && 0 <= cc < 64 implies
                        self@.display[rr * 64 + cc] == (disp0[rr * 64 + cc]
                            != #[trigger] covers_before(
                            sprite,
                            x0 as int,
                            y0 as int,
                            rr,
                            cc,
                            row as int + 1,
                            0,
                        )) by {
                        assert(covers_before(sprite, x0 as int, y0 as int, rr, cc, row as int, 8)
                            == covers_before(
                            sprite,
                            x0 as int,
                            y0 as int,
                            rr,
                            cc,
                            row as int + 1,
                            0,
                        ));
                    }
                }
            } else {
                proof {
                    lemma_skip_row(disp0, sprite, x0 as int, y0 as int, row as int);
                    assert forall|rr: int, cc: int| 0 <= rr < 32 && 0 <= cc < 64 implies
                        self@.display[rr * 64 + cc] == (disp0[rr * 64 + cc]
                            != #[trigger] covers_before(
                            sprite,
                            x0 as int,
                            y0 as int,
                            rr,
                            cc,
                            row as int + 1,
                            0,
                        )) by {
                        assert(covers_before(sprite, x0 as int, y0 as int, rr, cc, row as int + 1, 0)
                            == covers_before(sprite, x0 as int, y0 as int, rr, cc, row as int, 0));
                    }
                }
            }
            row = row + 1;
        }
        self.regs.set(15, if collided { 1 } else { 0 });
        proof {
            let xi = x0 as int;
            let yi = y0 as int;
            assert forall|rr: int, cc: int| 0 <= rr < 32 && 0 <= cc < 64 implies #[trigger] covers_before(
                sprite,
                xi,
                yi,
                rr,
                cc,
                n as int,
                0,
            ) == sprite_covers(sprite, xi, yi, rr, cc) by {}
            assert(self@.display =~= drawn_display(disp0, sprite, xi, yi)) by {
                assert forall|idx: int| 0 <= idx < DISPLAY_CELLS implies self@.display[idx] == (
                disp0[idx] != sprite_covers(sprite, xi, yi, idx / 64, idx % 64)) by {
                    lemma_idx_decomp(idx);
                    let rr = idx / 64;
                    let cc = idx % 64;
                    assert(covers_before(sprite, xi, yi, rr, cc, n as int, 0) == sprite_covers(
                        sprite,
                        xi,
                        yi,
                        rr,
                        cc,
                    ));
                    assert(self@.display[rr * 64 + cc] == (disp0[rr * 64 + cc] != covers_before(
                        sprite,
                        xi,
                        yi,
                        rr,
                        cc,
                        n as int,
                        0,
                    )));
                }
            }
            if collided {
                let (i, j) = choose|i: int, j: int|
                    0 <= i < sprite.len() && 0 <= j < 8 && lex_before(i, j, n as int, 0) && yi + i
                        < 32 && xi + j < 64 && sprite_bit(sprite[i], j) && disp0[(yi + i) * 64 + (xi
                        + j)];
                assert(draw_collides(disp0, sprite, xi, yi));
            } else {
                assert(!draw_collides(disp0, sprite, xi, yi)) by {
                    if draw_collides(disp0, sprite, xi, yi) {
                        let (i, j) = choose|i: int, j: int|
                            0 <= i < sprite.len() && 0 <= j < 8 && yi + i < 32 && xi + j < 64
                                && sprite_bit(sprite[i], j) && disp0[(yi + i) * 64 + (xi + j)];
                        assert(lex_before(i, j, n as int, 0));
                        assert(collides_before(disp0, sprite, xi, yi, n as int, 0));
                    }
                }
            }
        }
        Ok(())
    }

    /// Clear the display: every cell becomes 0.
    pub fn clear_screen(&mut self)
        requires
            old(self)@.wf(),
        ensures
            final(self)@ == (MachineView {
                display: Seq::new(DISPLAY_CELLS as nat, |i: int| false),
                ..old(self)@
            }),
    {
        let mut i: usize = 0;
        while i < DISPLAY_CELLS
            invariant
                i <= DISPLAY_CELLS,
                self@.display.len() == DISPLAY_CELLS,
                forall|j: int| 0 <= j < i ==> !self@.display[j],
                self@ == (MachineView { display: self@.display, ..old(self)@ }),
            decreases DISPLAY_CELLS - i,
        {
            self.display.set(i, false);
            i = i + 1;
        }
        proof {
            assert(self@.display =~= Seq::new(DISPLAY_CELLS as nat, |i: int| false));
        }
    }
}

} // verus!
