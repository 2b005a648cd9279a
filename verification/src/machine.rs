//! The CHIP-8 machine state: memory, registers, display, call stack, timers,
//! and its abstract view.

use vstd::prelude::*;

verus! {

/// Number of addressable memory cells.
pub const MEMORY_SIZE: usize = 4096;
/// Width of the display in pixels.
pub const DISPLAY_WIDTH: usize = 64;
/// Height of the display in pixels.
pub const DISPLAY_HEIGHT: usize = 32;
/// Total number of display cells, row-major.
pub const DISPLAY_CELLS: usize = 64 * 32;
/// Number of general-purpose registers.
pub const REGISTER_COUNT: usize = 16;
/// Address where a loaded program begins.
pub const PROGRAM_OFFSET: usize = 0x200;
/// Address where the font glyphs begin.
pub const FONT_OFFSET: usize = 0x50;
/// Size in bytes of the font region: 16 glyphs of 5 bytes each.
pub const FONT_SIZE: usize = 80;
/// Number of logical keys on the input surface.
pub const KEY_COUNT: usize = 16;
/// Length in microseconds of one 1/60-second timer interval.
pub const TICK_MICROS: u64 = 16666;

/// Whether at least one 1/60-second interval has elapsed since the last
/// timer decrement, so that the timers owe one tick. The cadence is
/// measured against elapsed wall-clock time, never instruction count.
pub fn timer_tick_due(elapsed_micros: u64) -> (r: bool)
    ensures
        r == (elapsed_micros >= TICK_MICROS),
{
    elapsed_micros >= TICK_MICROS
}

/// The mathematical model of one machine state.
#[verifier::ext_equal]
pub struct MachineView {
    pub memory: Seq<u8>,
    pub display: Seq<bool>,
    pub regs: Seq<u8>,
    pub stack: Seq<u16>,
    pub pc: int,
    pub ir: int,
    pub delay: u8,
    pub sound: u8,
}

impl MachineView {
    /// Well-formedness: the fixed-size regions have their fixed sizes.
    pub open spec fn wf(self) -> bool {
        &&& self.memory.len() == MEMORY_SIZE
        &&& self.display.len() == DISPLAY_CELLS
        &&& self.regs.len() == REGISTER_COUNT
    }
}

/// One CHIP-8 machine: 4096 bytes of memory, a 64x32 single-bit display,
/// 16 general registers (register 15 doubles as the flag register), an
/// index register, a call stack of 16-bit return addresses, a program
/// counter, and two 8-bit countdown timers.
pub struct Machine {
    pub memory: Vec<u8>,
    pub display: Vec<bool>,
    pub regs: Vec<u8>,
    pub stack: Vec<u16>,
    pub pc: usize,
    pub ir: u16,
    pub delay: u8,
    pub sound: u8,
}

impl View for Machine {
    type V = MachineView;

    open spec fn view(&self) -> MachineView {
        MachineView {
            memory: self.memory@,
            display: self.display@,
            regs: self.regs@,
            stack: self.stack@,
            pc: self.pc as int,
            ir: self.ir as int,
            delay: self.delay,
            sound: self.sound,
        }
    }
}

/// A vector of `n` zero bytes.
fn zero_bytes(n: usize) -> (r: Vec<u8>)
    ensures
        r@.len() == n,
        forall|i: int| 0 <= i < n ==> r@[i] == 0u8,
{
    let mut v: Vec<u8> = Vec::new();
    let mut k: usize = 0;
    while k < n
        invariant
            k <= n,
            v@.len() == k,
            forall|i: int| 0 <= i < k ==> v@[i] == 0u8,
        decreases n - k,
    {
        v.push(0u8);
        k = k + 1;
    }
    v
}

/// A vector of `n` cleared pixels.
fn zero_pixels(n: usize) -> (r: Vec<bool>)
    ensures
        r@.len() == n,
        forall|i: int| 0 <= i < n ==> !r@[i],
{
    let mut v: Vec<bool> = Vec::new();
    let mut k: usize = 0;
    while k < n
        invariant
            k <= n,
            v@.len() == k,
            forall|i: int| 0 <= i < k ==> !v@[i],
        decreases n - k,
    {
        v.push(false);
        k = k + 1;
    }
    v
}

/// Memory with `data` written over it starting at address `at`.
pub open spec fn overlay(mem: Seq<u8>, data: Seq<u8>, at: int) -> Seq<u8> {
    Seq::new(mem.len(), |i: int| if at <= i < at + data.len() {
        data[i - at]
    } else {
        mem[i]
    })
}

impl Machine {
    /// A machine at start: program counter at the program offset, memory
    /// zero-filled, registers, timers, stack and display all zero.
    pub fn new() -> (m: Machine)
        ensures
            m@.wf(),
            m@.pc == PROGRAM_OFFSET,
            m@.ir == 0,
            m@.delay == 0,
            m@.sound == 0,
            m@.stack.len() == 0,
            forall|i: int| 0 <= i < MEMORY_SIZE ==> m@.memory[i] == 0u8,
            forall|i: int| 0 <= i < DISPLAY_CELLS ==> !m@.display[i],
            forall|i: int| 0 <= i < REGISTER_COUNT ==> m@.regs[i] == 0u8,
    {
        Machine {
            memory: zero_bytes(MEMORY_SIZE),
            display: zero_pixels(DISPLAY_CELLS),
            regs: zero_bytes(REGISTER_COUNT),
            stack: Vec::new(),
            pc: PROGRAM_OFFSET,
            ir: 0,
            delay: 0,
            sound: 0,
        }
    }

    /// Copy a program image into memory starting at the program offset,
    /// verbatim; what does not fit in memory is silently left off.
    pub fn load_program(&mut self, data: &Vec<u8>)
        requires
            old(self)@.wf(),
        ensures
            ({
                let copied: int = if data@.len() <= MEMORY_SIZE - PROGRAM_OFFSET {
                    data@.len() as int
                } else {
                    MEMORY_SIZE - PROGRAM_OFFSET
                };
                final(self)@ == (MachineView {
                    memory: overlay(
                        old(self)@.memory,
                        data@.take(copied),
                        PROGRAM_OFFSET as int,
                    ),
                    ..old(self)@
                })
            }),
    {
        let mut i: usize = 0;
        while i < data.len() && PROGRAM_OFFSET + i < MEMORY_SIZE
            invariant
                old(self)@.wf(),
                i <= data@.len(),
                PROGRAM_OFFSET + i <= MEMORY_SIZE,
                self@.memory.len() == MEMORY_SIZE,
                forall|j: int|
                    0 <= j < i ==> self@.memory[PROGRAM_OFFSET + j] == data@[j],
                forall|j: int|
                    0 <= j < MEMORY_SIZE && !(PROGRAM_OFFSET <= j < PROGRAM_OFFSET + i)
                        ==> self@.memory[j] == old(self)@.memory[j],
                self@ == (MachineView { memory: self@.memory, ..old(self)@ }),
            decreases data@.len() - i,
        {
            let b = data[i];
            self.memory.set(PROGRAM_OFFSET + i, b);
            i = i + 1;
        }
        proof {
            let copied: int = if data@.len() <= MEMORY_SIZE - PROGRAM_OFFSET {
                data@.len() as int
            } else {
                MEMORY_SIZE - PROGRAM_OFFSET
            };
            assert(i == copied);
            assert(self@.memory =~= overlay(
                old(self)@.memory,
                data@.take(copied),
                PROGRAM_OFFSET as int,
            ));
        }
    }

    /// Copy the 80-byte font table, 16 glyphs of 5 bytes each, into memory
    /// at the font offset.
    pub fn load_font(&mut self, font: &Vec<u8>)
        requires
            old(self)@.wf(),
            font@.len() == FONT_SIZE,
        ensures
            final(self)@ == (MachineView {
                memory: overlay(old(self)@.memory, font@, FONT_OFFSET as int),
                ..old(self)@
            }),
    {
        let mut i: usize = 0;
        while i < FONT_SIZE
            invariant
                old(self)@.wf(),
                font@.len() == FONT_SIZE,
                i <= FONT_SIZE,
                self@.memory.len() == MEMORY_SIZE,
                forall|j: int| 0 <= j < i ==> self@.memory[FONT_OFFSET + j] == font@[j],
                forall|j: int|
                    0 <= j < MEMORY_SIZE && !(FONT_OFFSET <= j < FONT_OFFSET + i)
                        ==> self@.memory[j] == old(self)@.memory[j],
                self@ == (MachineView { memory: self@.memory, ..old(self)@ }),
            decreases FONT_SIZE - i,
        {
            let b = font[i];
            self.memory.set(FONT_OFFSET + i, b);
            i = i + 1;
        }
        proof {
            assert(self@.memory =~= overlay(old(self)@.memory, font@, FONT_OFFSET as int));
        }
    }

    /// One tick of the 60 Hz timer clock: each timer that is nonzero is
    /// decremented by 1; a timer at 0 stays at 0.
    pub fn decrement_timers(&mut self)
        ensures
            final(self)@ == (MachineView {
                delay: if old(self).delay > 0 {
                    (old(self).delay - 1) as u8
                } else {
                    0u8
                },
                sound: if old(self).sound > 0 {
                    (old(self).sound - 1) as u8
                } else {
                    0u8
                },
                ..old(self)@
            }),
    {
        if self.sound > 0 {
            self.sound = self.sound - 1;
        }
        if self.delay > 0 {
            self.delay = self.delay - 1;
        }
    }

    /// The value of general register `x`.
    pub fn get_register(&self, x: u8) -> (r: u8)
        requires
            x < 16,
            self@.wf(),
        ensures
            r == self@.regs[x as int],
    {
        self.regs[x as usize]
    }

    /// The display cell at the given row and column.
    pub fn pixel(&self, row: usize, col: usize) -> (r: bool)
        requires
            row < DISPLAY_HEIGHT,
            col < DISPLAY_WIDTH,
            self@.wf(),
        ensures
            r == self@.display[row * 64 + col],
    {
        self.display[row * 64 + col]
    }

    /// The memory byte at the given address.
    pub fn read_memory(&self, addr: usize) -> (r: u8)
        requires
            addr < MEMORY_SIZE,
            self@.wf(),
        ensures
            r == self@.memory[addr as int],
    {
        self.memory[addr]
    }

    /// The program counter.
    pub fn get_pc(&self) -> (r: usize)
        ensures
            r == self@.pc,
    {
        self.pc
    }

    /// The index register.
    pub fn get_index_register(&self) -> (r: u16)
        ensures
            r == self@.ir,
    {
        self.ir
    }

    /// The delay timer.
    pub fn get_delay(&self) -> (r: u8)
        ensures
            r == self@.delay,
    {
        self.delay
    }

    /// The sound timer.
    pub fn get_sound(&self) -> (r: u8)
        ensures
            r == self@.sound,
    {
        self.sound
    }

    /// How many return addresses the call stack holds.
    pub fn stack_depth(&self) -> (r: usize)
        ensures
            r == self@.stack.len(),
    {
        self.stack.len()
    }

    /// The display as text, row by row: a lit cell prints as `@`, a dark
    /// cell as a space, and each row ends with a newline.
    pub fn render_text(&self) -> (r: String)
        requires
            self@.wf(),
        ensures
            r@.len() == DISPLAY_HEIGHT * (DISPLAY_WIDTH + 1),
            forall|row: int, col: int|
                0 <= row < DISPLAY_HEIGHT && 0 <= col < DISPLAY_WIDTH ==> #[trigger] r@[row * 65
                    + col] == (if self@.display[row * 64 + col] {
                    '@'
                } else {
                    ' '
                }),
            forall|row: int| 0 <= row < DISPLAY_HEIGHT ==> #[trigger] r@[row * 65 + 64] == '\n',
    {
        proof {
            reveal_strlit("@");
            reveal_strlit(" ");
            reveal_strlit("\n");
        }
        let mut out = String::new();
        let mut row: usize = 0;
        while row < DISPLAY_HEIGHT
            invariant
                self@.wf(),
                row <= DISPLAY_HEIGHT,
                out@.len() == row * 65,
                forall|r2: int, c2: int|
                    0 <= r2 < row && 0 <= c2 < DISPLAY_WIDTH ==> #[trigger] out@[r2 * 65 + c2] == (
                    if self@.display[r2 * 64 + c2] {
                        '@'
                    } else {
                        ' '
                    }),
                forall|r2: int| 0 <= r2 < row ==> #[trigger] out@[r2 * 65 + 64] == '\n',
            decreases DISPLAY_HEIGHT - row,
        {
            let mut col: usize = 0;
            while col < DISPLAY_WIDTH
                invariant
                    self@.wf(),
                    row < DISPLAY_HEIGHT,
                    col <= DISPLAY_WIDTH,
                    out@.len() == row * 65 + col,
                    forall|r2: int, c2: int|
                        0 <= r2 < row && 0 <= c2 < DISPLAY_WIDTH ==> #[trigger] out@[r2 * 65 + c2]
                            == (if self@.display[r2 * 64 + c2] {
                            '@'
                        } else {
                            ' '
                        }),
                    forall|r2: int| 0 <= r2 < row ==> #[trigger] out@[r2 * 65 + 64] == '\n',
                    forall|c2: int|
                        0 <= c2 < col ==> #[trigger] out@[row * 65 + c2] == (
                        if self@.display[row * 64 + c2] {
                            '@'
                        } else {
                            ' '
                        }),
                decreases DISPLAY_WIDTH - col,
            {
                proof {
                    reveal_strlit("@");
                    reveal_strlit(" ");
                }
                if self.display[row * 64 + col] {
                    out.append("@");
                } else {
                    out.append(" ");
                }
                col = col + 1;
            }
            proof {
                reveal_strlit("\n");
            }
            out.append("\n");
            row = row + 1;
        }
        out
    }
}

} // verus!
