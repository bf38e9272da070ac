//! The abstract machine: a mathematical model of the machine state and of
//! what one instruction does to it.
use vstd::prelude::*;

use crate::opcode::{decoded, lemma_decoded_fields_in_range, OpCode};

verus! {

/// Size of the addressable memory, in bytes.
pub const MEM_SIZE: usize = 4096;

/// Where a program image is loaded and where execution starts.
pub const PROG_OFFSET: usize = 512;

/// Start of the region reserved for the display.
pub const DISP_OFFSET: usize = MEM_SIZE - 256;

/// Start of the call stack; it grows up to `DISP_OFFSET`.
pub const INT_OFFSET: usize = DISP_OFFSET - 96;

/// Largest program image that `load` accepts.
pub const MAX_PROGRAM_LEN: usize = INT_OFFSET - PROG_OFFSET;

/// Framebuffer width in cells.
pub const SCREEN_WIDTH: usize = 64;

/// Framebuffer height in cells.
pub const SCREEN_HEIGHT: usize = 32;

/// Number of framebuffer cells.
pub const GFX_SIZE: usize = SCREEN_WIDTH * SCREEN_HEIGHT;

/// Number of general-purpose registers.
pub const NUM_REGS: usize = 16;

/// The register that receives carry, borrow and collision flags.
pub const FLAG_REG: usize = 15;

/// Number of keys on the keypad.
pub const NUM_KEYS: usize = 16;

/// Bytes per glyph in the built-in glyph table.
pub const GLYPH_BYTES: usize = 5;

/// Length of the built-in glyph table, stored at address 0.
pub const GLYPH_TABLE_LEN: usize = 80;

/// The built-in glyph table: one 5-row sprite for each hexadecimal digit.
pub open spec fn glyph_table() -> Seq<u8> {
    seq![
        0xF0u8, 0x90, 0x90, 0x90, 0xF0, // 0
        0x20, 0x60, 0x20, 0x20, 0x70, // 1
        0xF0, 0x10, 0xF0, 0x80, 0xF0, // 2
        0xF0, 0x10, 0xF0, 0x10, 0xF0, // 3
        0x90, 0x90, 0xF0, 0x10, 0x10, // 4
        0xF0, 0x80, 0xF0, 0x10, 0xF0, // 5
        0xF0, 0x80, 0xF0, 0x90, 0xF0, // 6
        0xF0, 0x10, 0x20, 0x40, 0x40, // 7
        0xF0, 0x90, 0xF0, 0x90, 0xF0, // 8
        0xF0, 0x90, 0xF0, 0x10, 0xF0, // 9
        0xF0, 0x90, 0xF0, 0x90, 0x90, // A
        0xE0, 0x90, 0xE0, 0x90, 0xE0, // B
        0xF0, 0x80, 0x80, 0x80, 0xF0, // C
        0xE0, 0x90, 0x90, 0x90, 0xE0, // D
        0xF0, 0x80, 0xF0, 0x80, 0xF0, // E
        0xF0, 0x80, 0xF0, 0x80, 0x80, // F
    ]
}

/// A fatal condition raised by one step of the machine. The machine state is
/// left exactly as it was before the step.
#[derive(Debug, Clone, Copy, PartialEq, Eq, Structural)]
pub enum ExecutionFault {
    /// An instruction fetch, or a memory access made by an instruction, fell
    /// outside memory or would overwrite the glyph table.
    MemoryFault { addr: usize },
    /// The word at `addr` is no instruction.
    IllegalInstruction { word: u16, addr: usize },
    /// A call found the stack full.
    StackOverflow { addr: usize },
    /// A return found the stack empty.
    StackUnderflow { addr: usize },
}

/// The whole observable state of a machine.
#[verifier::ext_equal]
pub struct MachineView {
    /// `V0..=VF`.
    pub regs: Seq<u8>,
    /// The index register.
    pub i: int,
    /// The program counter.
    pub pc: int,
    /// The stack pointer: address of the next free stack slot.
    pub sp: int,
    /// The addressable memory.
    pub mem: Seq<u8>,
    /// The framebuffer, row after row, one cell (0 or 1) per byte.
    pub gfx: Seq<u8>,
    /// Bit `k` is set while key `k` is held.
    pub keys: u16,
    /// Number of instructions executed.
    pub cycles: int,
    pub delay_timer: u8,
    pub sound_timer: u8,
    /// Set when the framebuffer may have changed since the host last cleared it.
    pub draw: bool,
    /// Cleared by the halt instruction.
    pub running: bool,
}

/// The invariant of every machine state.
pub open spec fn well_formed(s: MachineView) -> bool {
    &&& s.regs.len() == NUM_REGS
    &&& s.mem.len() == MEM_SIZE
    &&& s.gfx.len() == GFX_SIZE
    &&& forall|k: int| 0 <= k < GFX_SIZE ==> #[trigger] s.gfx[k] <= 1
    &&& s.mem.subrange(0, GLYPH_TABLE_LEN as int) == glyph_table()
    &&& INT_OFFSET <= s.sp <= DISP_OFFSET
    &&& 0 <= s.i < 0x10000
    &&& 0 <= s.pc < 0x10000
}

/// The state of a freshly built machine.
pub open spec fn initial_state() -> MachineView {
    MachineView {
        regs: Seq::new(NUM_REGS as nat, |k: int| 0u8),
        i: 0,
        pc: PROG_OFFSET as int,
        sp: INT_OFFSET as int,
        mem: Seq::new(
            MEM_SIZE as nat,
            |k: int|
                if k < GLYPH_TABLE_LEN {
                    glyph_table()[k]
                } else {
                    0u8
                },
        ),
        gfx: blank_screen(),
        keys: 0,
        cycles: 0,
        delay_timer: 0,
        sound_timer: 0,
        draw: true,
        running: true,
    }
}

/// Memory after a program image is copied to the program window.
pub open spec fn loaded_memory(mem: Seq<u8>, prog: Seq<u8>) -> Seq<u8> {
    Seq::new(
        mem.len(),
        |k: int|
            if PROG_OFFSET <= k < PROG_OFFSET + prog.len() {
                prog[k - PROG_OFFSET]
            } else {
                mem[k]
            },
    )
}

/// The big-endian 16-bit word stored at `a, a + 1`.
pub open spec fn word_at(mem: Seq<u8>, a: int) -> u16 {
    (mem[a] as int * 0x100 + mem[a + 1] as int) as u16
}

/// Whether key `k` is held in the mask `keys`.
pub open spec fn key_held(keys: u16, k: int) -> bool {
    0 <= k < NUM_KEYS && (keys >> (k as u16)) & 1 == 1
}

/// The lowest held key at or above `k`, or `NUM_KEYS` when there is none.
pub open spec fn first_held_from(keys: u16, k: int) -> int
    decreases NUM_KEYS - k,
{
    if k >= NUM_KEYS || k < 0 {
        NUM_KEYS as int
    } else if key_held(keys, k) {
        k
    } else {
        first_held_from(keys, k + 1)
    }
}

/// The lowest held key, or `NUM_KEYS` when no key is held.
pub open spec fn first_held(keys: u16) -> int {
    first_held_from(keys, 0)
}

/// Whether column `b` (0 = leftmost) of a sprite row is lit.
pub open spec fn pixel_set(row: u8, b: int) -> bool {
    row & (0x80u8 >> (b as u8)) != 0
}

/// Whether the sprite of `n` rows read from `mem[i..]`, drawn with its top-left
/// corner at `(vx, vy)`, lights framebuffer cell `k`. Parts of the sprite that
/// fall beyond the right or bottom edge are clipped.
pub open spec fn sprite_hits(mem: Seq<u8>, i: int, vx: int, vy: int, n: int, k: int) -> bool {
    let cx = k % SCREEN_WIDTH as int;
    let cy = k / SCREEN_WIDTH as int;
    &&& 0 <= k < GFX_SIZE
    &&& vx <= cx < vx + 8
    &&& vy <= cy < vy + n
    &&& pixel_set(mem[i + cy - vy], cx - vx)
}

/// A cell value with its pixel flipped.
pub open spec fn toggled(c: u8) -> u8 {
    if c == 1 {
        0
    } else {
        1
    }
}

/// The framebuffer after the sprite is XORed onto it.
pub open spec fn drawn(s: MachineView, vx: int, vy: int, n: int) -> Seq<u8> {
    Seq::new(
        s.gfx.len(),
        |k: int|
            if sprite_hits(s.mem, s.i, vx, vy, n, k) {
                toggled(s.gfx[k])
            } else {
                s.gfx[k]
            },
    )
}

/// Whether the sprite turns off a lit cell.
pub open spec fn collides(s: MachineView, vx: int, vy: int, n: int) -> bool {
    exists|k: int| sprite_hits(s.mem, s.i, vx, vy, n, k) && s.gfx[k] == 1
}

/// Result and flag of the register-register ALU operations.
pub open spec fn alu_add(a: u8, b: u8) -> (u8, u8) {
    (((a + b) % 256) as u8, if a + b > 255 { 1 } else { 0 })
}

/// `a - b` wrapped to 8 bits; the flag is 1 when there is no borrow.
pub open spec fn alu_sub(a: u8, b: u8) -> (u8, u8) {
    (((a - b + 256) % 256) as u8, if a >= b { 1 } else { 0 })
}

/// `a >> 1`; the flag is the bit shifted out.
pub open spec fn alu_shr(a: u8) -> (u8, u8) {
    ((a / 2) as u8, (a % 2) as u8)
}

/// `a << 1` wrapped to 8 bits; the flag is the bit shifted out.
pub open spec fn alu_shl(a: u8) -> (u8, u8) {
    (((a * 2) % 256) as u8, (a / 128) as u8)
}

/// Decimal digits of a byte: hundreds, tens, ones.
pub open spec fn bcd_digits(v: u8) -> Seq<u8> {
    seq![(v / 100) as u8, ((v % 100) / 10) as u8, (v % 10) as u8]
}

/// Memory after `V0..=VX` are stored at `I..=I+X`.
pub open spec fn regs_dumped(s: MachineView, x: int) -> Seq<u8> {
    Seq::new(
        s.mem.len(),
        |k: int|
            if s.i <= k <= s.i + x {
                s.regs[k - s.i]
            } else {
                s.mem[k]
            },
    )
}

/// Registers after `V0..=VX` are loaded from `I..=I+X`.
pub open spec fn regs_loaded(s: MachineView, x: int) -> Seq<u8> {
    Seq::new(
        s.regs.len(),
        |k: int|
            if k <= x {
                s.mem[s.i + k]
            } else {
                s.regs[k]
            },
    )
}

/// The framebuffer with every cell dark.
pub open spec fn blank_screen() -> Seq<u8> {
    Seq::new(GFX_SIZE as nat, |k: int| 0u8)
}

/// Both timers after one tick: each drops by one and stops at zero.
pub open spec fn ticked(s: MachineView) -> MachineView {
    MachineView {
        delay_timer: if s.delay_timer > 0 { (s.delay_timer - 1) as u8 } else { 0 },
        sound_timer: if s.sound_timer > 0 { (s.sound_timer - 1) as u8 } else { 0 },
        ..s
    }
}

impl MachineView {
    /// The same state with the program counter at `pc`.
    pub open spec fn goto(self, pc: int) -> MachineView {
        MachineView { pc, ..self }
    }

    /// The same state with register `x` set to `v`.
    pub open spec fn with_reg(self, x: int, v: u8) -> MachineView {
        MachineView { regs: self.regs.update(x, v), ..self }
    }

    /// The same state with `VX := r` after `VF := f`: when `X` is the flag
    /// register itself, the result wins.
    pub open spec fn with_result(self, x: int, rf: (u8, u8)) -> MachineView {
        self.with_reg(FLAG_REG as int, rf.1).with_reg(x, rf.0)
    }

    /// Whether the next instruction word can be fetched.
    pub open spec fn can_fetch(self) -> bool {
        0 <= self.pc && self.pc + 1 < MEM_SIZE
    }

    /// The instruction word at the program counter.
    pub open spec fn fetched(self) -> u16 {
        word_at(self.mem, self.pc)
    }

    /// Whether `len` bytes at `a` lie in memory and may be written.
    pub open spec fn writable(self, a: int, len: int) -> bool {
        GLYPH_TABLE_LEN <= a && a + len <= MEM_SIZE
    }

    /// Whether `len` bytes at `a` lie in memory.
    pub open spec fn readable(self, a: int, len: int) -> bool {
        0 <= a && a + len <= MEM_SIZE
    }
}

/// The effect of instruction `op`, fetched as `w` at `s.pc`, on `s`. The
/// random byte `rnd` is used by `Rand` alone. The cycle counter is left to
/// `step_result`.
pub open spec fn execute(s: MachineView, w: u16, op: OpCode, rnd: u8) -> Result<
    MachineView,
    ExecutionFault,
> {
    let next = s.pc + 2;
    let skip = s.pc + 4;
    let pc = s.pc as usize;
    match op {
        OpCode::NativeCall(_) => Ok(s.goto(next)),
        OpCode::DispClear => Ok(
            MachineView { gfx: blank_screen(), draw: true, ..s.goto(next) },
        ),
        OpCode::Ret => if s.sp < INT_OFFSET + 2 {
            Err(ExecutionFault::StackUnderflow { addr: pc })
        } else {
            Ok(MachineView { sp: s.sp - 2, ..s.goto(word_at(s.mem, s.sp - 2) as int) })
        },
        OpCode::Jmp(a) => Ok(s.goto(a as int)),
        OpCode::Call(a) => if s.sp + 2 > DISP_OFFSET {
            Err(ExecutionFault::StackOverflow { addr: pc })
        } else {
            Ok(
                MachineView {
                    mem: s.mem.update(s.sp, (next / 0x100) as u8).update(
                        s.sp + 1,
                        (next % 0x100) as u8,
                    ),
                    sp: s.sp + 2,
                    ..s.goto(a as int)
                },
            )
        },
        OpCode::ImEq(x, v) => Ok(s.goto(if s.regs[x as int] == v { skip } else { next })),
        OpCode::ImNeq(x, v) => Ok(s.goto(if s.regs[x as int] != v { skip } else { next })),
        OpCode::RREq(x, y) => Ok(
            s.goto(if s.regs[x as int] == s.regs[y as int] { skip } else { next }),
        ),
        OpCode::RRNeq(x, y) => Ok(
            s.goto(if s.regs[x as int] != s.regs[y as int] { skip } else { next }),
        ),
        OpCode::IRMov(x, v) => Ok(s.with_reg(x as int, v).goto(next)),
        OpCode::IRAdd(x, v) => Ok(
            s.with_reg(x as int, ((s.regs[x as int] + v) % 256) as u8).goto(next),
        ),
        OpCode::RRMov(x, y) => Ok(s.with_reg(x as int, s.regs[y as int]).goto(next)),
        OpCode::RROr(x, y) => Ok(
            s.with_reg(x as int, s.regs[x as int] | s.regs[y as int]).goto(next),
        ),
        OpCode::RRAnd(x, y) => Ok(
            s.with_reg(x as int, s.regs[x as int] & s.regs[y as int]).goto(next),
        ),
        OpCode::RRXor(x, y) => Ok(
            s.with_reg(x as int, s.regs[x as int] ^ s.regs[y as int]).goto(next),
        ),
        OpCode::RRAdd(x, y) => Ok(
            s.with_result(x as int, alu_add(s.regs[x as int], s.regs[y as int])).goto(next),
        ),
        OpCode::RRSub(x, y) => Ok(
            s.with_result(x as int, alu_sub(s.regs[x as int], s.regs[y as int])).goto(next),
        ),
        OpCode::RRSub2(x, y) => Ok(
            s.with_result(x as int, alu_sub(s.regs[y as int], s.regs[x as int])).goto(next),
        ),
        OpCode::RRShr(x) => Ok(s.with_result(x as int, alu_shr(s.regs[x as int])).goto(next)),
        OpCode::RRShl(x) => Ok(s.with_result(x as int, alu_shl(s.regs[x as int])).goto(next)),
        OpCode::Index(a) => Ok(MachineView { i: a as int, ..s.goto(next) }),
        OpCode::JmpAdd(a) => Ok(s.goto(s.regs[0] + a)),
        OpCode::Rand(x, v) => Ok(s.with_reg(x as int, rnd & v).goto(next)),
        // The coordinates are the registers' values before the flag is written.
        OpCode::Draw(x, y, n) => {
            let vx = s.regs[x as int] as int;
            let vy = s.regs[y as int] as int;
            if !s.readable(s.i, n as int) {
                Err(ExecutionFault::MemoryFault { addr: s.i as usize })
            } else {
                Ok(
                    MachineView {
                        gfx: drawn(s, vx, vy, n as int),
                        draw: true,
                        ..s.with_reg(
                            FLAG_REG as int,
                            if collides(s, vx, vy, n as int) { 1 } else { 0 },
                        ).goto(next)
                    },
                )
            }
        },
        OpCode::KeyEq(x) => Ok(
            s.goto(if key_held(s.keys, s.regs[x as int] as int) { skip } else { next }),
        ),
        OpCode::KeyNeq(x) => Ok(
            s.goto(if !key_held(s.keys, s.regs[x as int] as int) { skip } else { next }),
        ),
        OpCode::DelayGet(x) => Ok(s.with_reg(x as int, s.delay_timer).goto(next)),
        OpCode::KeyWait(x) => {
            let k = first_held(s.keys);
            if k < NUM_KEYS {
                Ok(s.with_reg(x as int, k as u8).goto(next))
            } else {
                Ok(s)
            }
        },
        OpCode::DelaySet(x) => Ok(MachineView { delay_timer: s.regs[x as int], ..s.goto(next) }),
        OpCode::SoundSet(x) => Ok(MachineView { sound_timer: s.regs[x as int], ..s.goto(next) }),
        OpCode::IncIndex(x) => Ok(
            MachineView { i: (s.i + s.regs[x as int]) % 0x10000, ..s.goto(next) },
        ),
        OpCode::SpriteAddr(x) => Ok(
            MachineView { i: s.regs[x as int] * GLYPH_BYTES, ..s.goto(next) },
        ),
        OpCode::BCD(x) => if !s.writable(s.i, 3) {
            Err(ExecutionFault::MemoryFault { addr: s.i as usize })
        } else {
            let d = bcd_digits(s.regs[x as int]);
            Ok(
                MachineView {
                    mem: s.mem.update(s.i, d[0]).update(s.i + 1, d[1]).update(s.i + 2, d[2]),
                    ..s.goto(next)
                },
            )
        },
        OpCode::RegDump(x) => if !s.writable(s.i, x + 1) {
            Err(ExecutionFault::MemoryFault { addr: s.i as usize })
        } else {
            Ok(
                MachineView {
                    mem: regs_dumped(s, x as int),
                    i: (s.i + x + 1) % 0x10000,
                    ..s.goto(next)
                },
            )
        },
        OpCode::RegLoad(x) => if !s.readable(s.i, x + 1) {
            Err(ExecutionFault::MemoryFault { addr: s.i as usize })
        } else {
            Ok(
                MachineView {
                    regs: regs_loaded(s, x as int),
                    i: (s.i + x + 1) % 0x10000,
                    ..s.goto(next)
                },
            )
        },
        OpCode::Halt => Ok(MachineView { running: false, ..s.goto(next) }),
        OpCode::Invalid => Err(ExecutionFault::IllegalInstruction { word: w, addr: pc }),
    }
}

/// One step of the machine: fetch, decode, execute, count the cycle. On a
/// fault the state is unchanged.
pub open spec fn step_result(s: MachineView, rnd: u8) -> Result<MachineView, ExecutionFault> {
    if !s.can_fetch() {
        Err(ExecutionFault::MemoryFault { addr: s.pc as usize })
    } else {
        match execute(s, s.fetched(), decoded(s.fetched()), rnd) {
            Ok(t) => Ok(MachineView { cycles: s.cycles + 1, ..t }),
            Err(e) => Err(e),
        }
    }
}

/// Whether state `t` and outcome `r` are what `res` prescribes for `s`: the
/// new state on success, the old state and the same fault on failure.
pub open spec fn follows(
    s: MachineView,
    res: Result<MachineView, ExecutionFault>,
    t: MachineView,
    r: Result<(), ExecutionFault>,
) -> bool {
    match res {
        Ok(next) => r is Ok && t == next,
        Err(e) => r == Err::<(), ExecutionFault>(e) && t == s,
    }
}

/// Whether going from `s` to `t` with outcome `r` is one step of the machine
/// that drew the random byte `rnd`.
pub open spec fn is_step(s: MachineView, rnd: u8, t: MachineView, r: Result<(), ExecutionFault>) -> bool {
    follows(s, step_result(s, rnd), t, r)
}

/// Every step keeps the machine well formed: registers, memory and
/// framebuffer keep their sizes, cells stay 0 or 1, the glyph table is never
/// overwritten, and the stack pointer stays within the stack region.
pub proof fn lemma_step_keeps_well_formed(s: MachineView, rnd: u8)
    requires
        well_formed(s),
        step_result(s, rnd) is Ok,
    ensures
        well_formed(step_result(s, rnd)->Ok_0),
{
    let w = s.fetched();
    lemma_decoded_fields_in_range(w);
    let t = step_result(s, rnd)->Ok_0;
    assert(t.mem.subrange(0, GLYPH_TABLE_LEN as int) =~= s.mem.subrange(0, GLYPH_TABLE_LEN as int));
    match decoded(w) {
        // The coordinates are the registers' values before the flag is written.
        OpCode::Draw(x, y, n) => {
            let vx = s.regs[x as int] as int;
            let vy = s.regs[y as int] as int;
            assert forall|k: int| 0 <= k < GFX_SIZE implies #[trigger] t.gfx[k] <= 1 by {
                assert(s.gfx[k] <= 1);
            }
        },
        _ => {},
    }
}

} // verus!
