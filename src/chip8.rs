//! The machine itself: registers, memory, framebuffer, keypad and timers,
//! and the executor that runs one instruction at a time.
use vstd::prelude::*;

use crate::machine::{
    alu_add, alu_shl, alu_shr, alu_sub, blank_screen, collides, drawn, execute, first_held,
    first_held_from, follows, glyph_table, initial_state, is_step, key_held,
    lemma_step_keeps_well_formed, loaded_memory, pixel_set, regs_dumped, regs_loaded,
    sprite_hits, ticked, toggled, well_formed, ExecutionFault, MachineView, DISP_OFFSET,
    FLAG_REG, GFX_SIZE, GLYPH_BYTES, GLYPH_TABLE_LEN, INT_OFFSET, MAX_PROGRAM_LEN, MEM_SIZE,
    NUM_KEYS, NUM_REGS, PROG_OFFSET, SCREEN_HEIGHT, SCREEN_WIDTH,
};
use crate::opcode::{decoded, fields_in_range, lemma_fields, Addr, OpCode, RegId};
use crate::rng::random_byte;

verus! {

/// The register file.
#[derive(Debug)]
pub struct Cpu {
    /// `V0..=VF`.
    pub regs: Vec<u8>,
    /// The index register.
    pub i: u16,
    /// The program counter.
    pub pc: usize,
    /// The stack pointer: address of the next free stack slot.
    pub sp: usize,
}

impl Cpu {
    /// All registers zero, execution at the program offset, empty stack.
    pub fn new() -> (c: Cpu)
        ensures
            c.regs@ == Seq::new(NUM_REGS as nat, |k: int| 0u8),
            c.i == 0,
            c.pc == PROG_OFFSET,
            c.sp == INT_OFFSET,
    {
        let regs = vec![0u8; NUM_REGS];
        assert(regs@ =~= Seq::new(NUM_REGS as nat, |k: int| 0u8));
        Cpu { regs, i: 0, pc: PROG_OFFSET, sp: INT_OFFSET }
    }
}

/// How the host drives the machine: freely, or with a trace of each step.
#[derive(Debug, Clone, Copy, PartialEq, Eq, Structural)]
pub enum StepMode {
    Cycle,
    Debug,
}

/// Why a program image was refused. Nothing is copied in that case.
#[derive(Debug, Clone, Copy, PartialEq, Eq, Structural)]
pub enum LoadFault {
    /// The image has `len` bytes; the program window holds `max`.
    TooLarge { len: usize, max: usize },
}

/// One machine instance. It owns all of its state.
pub struct Chip8 {
    cpu: Cpu,
    mem: Vec<u8>,
    gfx: Vec<u8>,
    keys: u16,
    /// Number of instructions executed.
    pub cycles: u32,
    delay_timer: u8,
    sound_timer: u8,
    /// Set when the framebuffer may have changed; the host clears it after
    /// presenting.
    pub draw: bool,
    pub step_mode: StepMode,
    rng: rand::rngs::ThreadRng,
    /// Cleared when the program halts.
    pub running: bool,
}

impl View for Chip8 {
    type V = MachineView;

    closed spec fn view(&self) -> MachineView {
        MachineView {
            regs: self.cpu.regs@,
            i: self.cpu.i as int,
            pc: self.cpu.pc as int,
            sp: self.cpu.sp as int,
            mem: self.mem@,
            gfx: self.gfx@,
            keys: self.keys,
            cycles: self.cycles as int,
            delay_timer: self.delay_timer,
            sound_timer: self.sound_timer,
            draw: self.draw,
            running: self.running,
        }
    }
}

proof fn lemma_word(hi: u8, lo: u8)
    ensures
        ((hi as u16) << 8u16) | (lo as u16) == hi as int * 0x100 + lo as int,
{
    assert(((hi as u16) << 8u16) | (lo as u16) == (hi as u16) * 0x100 + (lo as u16))
        by (bit_vector);
}

proof fn lemma_alu_bits(a: u8)
    ensures
        a & 1 == a % 2,
        a >> 1u8 == a / 2,
        (a & 0x80) >> 7u8 == a / 128,
        (a << 1u8) as int == (a * 2) % 256,
{
    assert(a & 1 == a % 2) by (bit_vector);
    assert(a >> 1u8 == a / 2) by (bit_vector);
    assert((a & 0x80) >> 7u8 == a / 128) by (bit_vector);
    assert((a << 1u8) == ((a as u16 * 2) % 256) as u8) by (bit_vector);
}

/// Cells that a sprite has lit once all rows before `row`, and the first
/// `col` columns of row `row`, are drawn.
spec fn painted(mem: Seq<u8>, i: int, vx: int, vy: int, row: int, col: int, k: int) -> bool {
    let cx = k % SCREEN_WIDTH as int;
    let cy = k / SCREEN_WIDTH as int;
    &&& 0 <= k < GFX_SIZE
    &&& vx <= cx < vx + 8
    &&& vy <= cy
    &&& (cy < vy + row || (cy == vy + row && cx < vx + col))
    &&& pixel_set(mem[i + cy - vy], cx - vx)
}

proof fn lemma_cell(cx: int, cy: int)
    requires
        0 <= cx < SCREEN_WIDTH,
        0 <= cy < SCREEN_HEIGHT,
    ensures
        0 <= cy * SCREEN_WIDTH + cx < GFX_SIZE,
        (cy * SCREEN_WIDTH + cx) % SCREEN_WIDTH as int == cx,
        (cy * SCREEN_WIDTH + cx) / SCREEN_WIDTH as int == cy,
        forall|k: int|
            0 <= k < GFX_SIZE && k != cy * SCREEN_WIDTH + cx ==> !(#[trigger] (k
                % SCREEN_WIDTH as int) == cx && k / SCREEN_WIDTH as int == cy),
{
    vstd::arithmetic::div_mod::lemma_fundamental_div_mod_converse(
        cy * SCREEN_WIDTH + cx,
        SCREEN_WIDTH as int,
        cy,
        cx,
    );
    assert forall|k: int|
        0 <= k < GFX_SIZE && k != cy * SCREEN_WIDTH + cx implies !(#[trigger] (k
            % SCREEN_WIDTH as int) == cx && k / SCREEN_WIDTH as int == cy) by {
        vstd::arithmetic::div_mod::lemma_fundamental_div_mod(k, SCREEN_WIDTH as int);
    }
}

/// Instructions that change control flow.
spec fn is_flow(op: OpCode) -> bool {
    match op {
        OpCode::NativeCall(_) | OpCode::DispClear | OpCode::Ret | OpCode::Jmp(_)
        | OpCode::Call(_) | OpCode::JmpAdd(_) | OpCode::Halt => true,
        _ => false,
    }
}

/// Conditional skips.
spec fn is_skip(op: OpCode) -> bool {
    match op {
        OpCode::ImEq(..) | OpCode::ImNeq(..) | OpCode::RREq(..) | OpCode::RRNeq(..)
        | OpCode::KeyEq(_) | OpCode::KeyNeq(_) => true,
        _ => false,
    }
}

/// Register writes that leave the flag register alone.
spec fn is_move(op: OpCode) -> bool {
    match op {
        OpCode::IRMov(..) | OpCode::IRAdd(..) | OpCode::RRMov(..) | OpCode::RROr(..)
        | OpCode::RRAnd(..) | OpCode::RRXor(..) | OpCode::Rand(..) => true,
        _ => false,
    }
}

/// Arithmetic that sets the flag register.
spec fn is_flagged(op: OpCode) -> bool {
    match op {
        OpCode::RRAdd(..) | OpCode::RRSub(..) | OpCode::RRSub2(..) | OpCode::RRShr(_)
        | OpCode::RRShl(_) => true,
        _ => false,
    }
}

/// Index register, timers and keypad wait.
spec fn is_special(op: OpCode) -> bool {
    match op {
        OpCode::Index(_) | OpCode::DelayGet(_) | OpCode::KeyWait(_) | OpCode::DelaySet(_)
        | OpCode::SoundSet(_) | OpCode::IncIndex(_) | OpCode::SpriteAddr(_) => true,
        _ => false,
    }
}

/// Instructions that read or write memory at `I`.
spec fn is_memory(op: OpCode) -> bool {
    match op {
        OpCode::Draw(..) | OpCode::BCD(_) | OpCode::RegDump(_) | OpCode::RegLoad(_) => true,
        _ => false,
    }
}

fn is_flow_op(op: &OpCode) -> (b: bool)
    ensures
        b == is_flow(*op),
{
    match op {
        OpCode::NativeCall(_) | OpCode::DispClear | OpCode::Ret | OpCode::Jmp(_)
        | OpCode::Call(_) | OpCode::JmpAdd(_) | OpCode::Halt => true,
        _ => false,
    }
}

fn is_skip_op(op: &OpCode) -> (b: bool)
    ensures
        b == is_skip(*op),
{
    match op {
        OpCode::ImEq(..) | OpCode::ImNeq(..) | OpCode::RREq(..) | OpCode::RRNeq(..)
        | OpCode::KeyEq(_) | OpCode::KeyNeq(_) => true,
        _ => false,
    }
}

fn is_move_op(op: &OpCode) -> (b: bool)
    ensures
        b == is_move(*op),
{
    match op {
        OpCode::IRMov(..) | OpCode::IRAdd(..) | OpCode::RRMov(..) | OpCode::RROr(..)
        | OpCode::RRAnd(..) | OpCode::RRXor(..) | OpCode::Rand(..) => true,
        _ => false,
    }
}

fn is_flagged_op(op: &OpCode) -> (b: bool)
    ensures
        b == is_flagged(*op),
{
    match op {
        OpCode::RRAdd(..) | OpCode::RRSub(..) | OpCode::RRSub2(..) | OpCode::RRShr(_)
        | OpCode::RRShl(_) => true,
        _ => false,
    }
}

fn is_special_op(op: &OpCode) -> (b: bool)
    ensures
        b == is_special(*op),
{
    match op {
        OpCode::Index(_) | OpCode::DelayGet(_) | OpCode::KeyWait(_) | OpCode::DelaySet(_)
        | OpCode::SoundSet(_) | OpCode::IncIndex(_) | OpCode::SpriteAddr(_) => true,
        _ => false,
    }
}

fn is_memory_op(op: &OpCode) -> (b: bool)
    ensures
        b == is_memory(*op),
{
    match op {
        OpCode::Draw(..) | OpCode::BCD(_) | OpCode::RegDump(_) | OpCode::RegLoad(_) => true,
        _ => false,
    }
}

/// The random byte matters to `CXNN` alone.
proof fn lemma_random_only_for_rand(s: MachineView, w: u16, op: OpCode, random: u8)
    requires
        !(op is Rand),
    ensures
        execute(s, w, op, random) == execute(s, w, op, 0),
{
}

proof fn lemma_set_bit(keys: u16, key: u16, k: u16)
    requires
        key < 16,
        k < 16,
    ensures
        ((keys | (1u16 << key)) >> k) & 1 == 1 <==> (k == key || (keys >> k) & 1 == 1),
{
    assert(((keys | (1u16 << key)) >> k) & 1 == 1 <==> (k == key || (keys >> k) & 1 == 1))
        by (bit_vector)
        requires
            key < 16,
            k < 16,
    ;
}

proof fn lemma_clear_bit(keys: u16, key: u16, k: u16)
    requires
        key < 16,
        k < 16,
    ensures
        ((keys & !(1u16 << key)) >> k) & 1 == 1 <==> (k != key && (keys >> k) & 1 == 1),
{
    assert(((keys & !(1u16 << key)) >> k) & 1 == 1 <==> (k != key && (keys >> k) & 1 == 1))
        by (bit_vector)
        requires
            key < 16,
            k < 16,
    ;
}

impl Chip8 {
    /// The machine invariant.
    pub open spec fn wf(&self) -> bool {
        well_formed(self@)
    }

    /// The step mode the host asked for.
    pub closed spec fn mode(&self) -> StepMode {
        self.step_mode
    }

    /// A fresh machine: glyph table in place, everything else zero, execution
    /// at the program offset.
    pub fn new() -> (m: Chip8)
        ensures
            m.wf(),
            m@ == initial_state(),
            m.mode() == StepMode::Cycle,
    {
        let glyphs: [u8; 80] = [
            0xF0, 0x90, 0x90, 0x90, 0xF0, // 0
            0x20, 0x60, 0x20, 0x20, 0x70, // 1
            0xF0, 0x10, 0xF0, 0x80, 0xF0, // 2
            0xF0, 0x10, 0xF0, 0x10, 0xF0, // 3
            0x90, 0x90, 0xF0, 0x10, 0x10, // 4
            0xF0, 0x80, 0xF0, 0x10, 0xF0, // 5
            0xF0, 0x80, 0xF0, 0x90, 0xF0, // 6
            0xF0, 0x10, 0x20, 0x40, 0x40, // 7
            0xF0, 0x90, 0xF0, 0x90, 0xF0, // 8
            0xF0, 0x90, 0xF0, 0x10, 0xF0, // 9
            0xF0, 0x90, 0xF0, 0x90, 0x90, // A
            0xE0, 0x90, 0xE0, 0x90, 0xE0, // B
            0xF0, 0x80, 0x80, 0x80, 0xF0, // C
            0xE0, 0x90, 0x90, 0x90, 0xE0, // D
            0xF0, 0x80, 0xF0, 0x80, 0xF0, // E
            0xF0, 0x80, 0xF0, 0x80, 0x80, // F
        ];
        assert(glyphs@ =~= glyph_table());
        let mut mem = vec![0u8; MEM_SIZE];
        let mut k: usize = 0;
        while k < GLYPH_TABLE_LEN
            invariant
                k <= GLYPH_TABLE_LEN,
                glyphs@ == glyph_table(),
                mem@.len() == MEM_SIZE,
                forall|j: int| 0 <= j < k ==> mem@[j] == glyph_table()[j],
                forall|j: int| k <= j < MEM_SIZE ==> mem@[j] == 0u8,
            decreases GLYPH_TABLE_LEN - k,
        {
            mem.set(k, glyphs[k]);
            k = k + 1;
        }
        let gfx = vec![0u8; GFX_SIZE];
        let m = Chip8 {
            cpu: Cpu::new(),
            mem,
            gfx,
            keys: 0,
            cycles: 0,
            delay_timer: 0,
            sound_timer: 0,
            draw: true,
            step_mode: StepMode::Cycle,
            rng: rand::thread_rng(),
            running: true,
        };
        assert(m@.mem =~= initial_state().mem);
        assert(m@.gfx =~= initial_state().gfx);
        assert(m@ =~= initial_state());
        assert(m@.mem.subrange(0, GLYPH_TABLE_LEN as int) =~= glyph_table());
        m
    }

    /// The same machine, driven in `mode`.
    pub fn with_mode(self, mode: StepMode) -> (m: Chip8)
        ensures
            m@ == self@,
            m.mode() == mode,
    {
        let mut m = self;
        m.step_mode = mode;
        m
    }

    /// Copies a program image to the program window. An image longer than
    /// the window is refused and nothing is copied.
    pub fn load(&mut self, prog: &[u8]) -> (r: Result<(), LoadFault>)
        requires
            old(self).wf(),
        ensures
            final(self).wf(),
            final(self).mode() == old(self).mode(),
            prog@.len() <= MAX_PROGRAM_LEN ==> r is Ok
                && final(self)@ == (MachineView { mem: loaded_memory(old(self)@.mem, prog@), ..old(self)@ }),
            prog@.len() > MAX_PROGRAM_LEN ==> r == Err::<(), LoadFault>(
                LoadFault::TooLarge { len: prog@.len() as usize, max: MAX_PROGRAM_LEN },
            ) && final(self)@ == old(self)@,
    {
        if prog.len() > MAX_PROGRAM_LEN {
            return Err(LoadFault::TooLarge { len: prog.len(), max: MAX_PROGRAM_LEN });
        }
        let ghost start = self@;
        let mut k: usize = 0;
        while k < prog.len()
            invariant
                k <= prog@.len() <= MAX_PROGRAM_LEN,
                well_formed(start),
                self@ == (MachineView { mem: self@.mem, ..start }),
                self@.mem.len() == MEM_SIZE,
                forall|j: int|
                    0 <= j < MEM_SIZE ==> #[trigger] self@.mem[j] == if PROG_OFFSET <= j
                        < PROG_OFFSET + k {
                        prog@[j - PROG_OFFSET]
                    } else {
                        start.mem[j]
                    },
                self.mode() == old(self).mode(),
            decreases prog@.len() - k,
        {
            self.mem.set(PROG_OFFSET + k, prog[k]);
            k = k + 1;
        }
        assert(self@.mem =~= loaded_memory(start.mem, prog@));
        assert(self@ =~= (MachineView { mem: loaded_memory(start.mem, prog@), ..start }));
        assert(self@.mem.subrange(0, GLYPH_TABLE_LEN as int) =~= start.mem.subrange(
            0,
            GLYPH_TABLE_LEN as int,
        ));
        Ok(())
    }

    /// XORs the `n`-row sprite at `I` onto the framebuffer at `(vx, vy)`,
    /// clipping at the right and bottom edges; returns whether a lit cell
    /// was turned off.
    #[verifier::rlimit(40)]
    fn draw_sprite(&mut self, vx: usize, vy: usize, n: usize) -> (collided: bool)
        requires
            old(self).wf(),
            vx < 256,
            vy < 256,
            old(self)@.readable(old(self)@.i, n as int),
        ensures
            final(self)@ == (MachineView { gfx: drawn(old(self)@, vx as int, vy as int, n as int), ..old(self)@ }),
            collided == collides(old(self)@, vx as int, vy as int, n as int),
            final(self).mode() == old(self).mode(),
    {
        let ghost s = self@;
        let base = self.cpu.i as usize;
        let mut collided = false;
        let mut row: usize = 0;
        while row < n
            invariant
                row <= n,
                base == s.i,
                well_formed(s),
                s.readable(s.i, n as int),
                vx < 256,
                vy < 256,
                self@ == (MachineView { gfx: self@.gfx, ..s }),
                self@.gfx.len() == GFX_SIZE,
                forall|k: int|
                    0 <= k < GFX_SIZE ==> #[trigger] self@.gfx[k] == if painted(
                        s.mem,
                        s.i,
                        vx as int,
                        vy as int,
                        row as int,
                        0,
                        k,
                    ) {
                        toggled(s.gfx[k])
                    } else {
                        s.gfx[k]
                    },
                collided == exists|k: int|
                    painted(s.mem, s.i, vx as int, vy as int, row as int, 0, k) && #[trigger] s.gfx[k]
                        == 1,
                self.mode() == old(self).mode(),
            decreases n - row,
        {
            let byte = self.mem[base + row];
            let mut col: usize = 0;
            while col < 8
                invariant
                    row < n,
                    col <= 8,
                    base == s.i,
                    byte == s.mem[s.i + row],
                    well_formed(s),
                    s.readable(s.i, n as int),
                    vx < 256,
                    vy < 256,
                    self@ == (MachineView { gfx: self@.gfx, ..s }),
                    self@.gfx.len() == GFX_SIZE,
                    forall|k: int|
                        0 <= k < GFX_SIZE ==> #[trigger] self@.gfx[k] == if painted(
                            s.mem,
                            s.i,
                            vx as int,
                            vy as int,
                            row as int,
                            col as int,
                            k,
                        ) {
                            toggled(s.gfx[k])
                        } else {
                            s.gfx[k]
                        },
                    collided == exists|k: int|
                        painted(s.mem, s.i, vx as int, vy as int, row as int, col as int, k)
                            && #[trigger] s.gfx[k] == 1,
                    self.mode() == old(self).mode(),
                decreases 8 - col,
            {
                let cx = vx + col;
                let cy = vy + row;
                if byte & (0x80u8 >> (col as u8)) != 0 && cx < SCREEN_WIDTH && cy < SCREEN_HEIGHT {
                    let idx = cy * SCREEN_WIDTH + cx;
                    proof {
                        lemma_cell(cx as int, cy as int);
                    }
                    let cell = self.gfx[idx];
                    if cell == 1 {
                        collided = true;
                        self.gfx.set(idx, 0);
                    } else {
                        self.gfx.set(idx, 1);
                    }
                    proof {
                        assert(!painted(s.mem, s.i, vx as int, vy as int, row as int, col as int, idx as int));
                        assert(painted(s.mem, s.i, vx as int, vy as int, row as int, col as int + 1, idx as int));
                        assert(cell == s.gfx[idx as int]);
                        assert forall|k: int| 0 <= k < GFX_SIZE && k != idx implies
                            painted(s.mem, s.i, vx as int, vy as int, row as int, col as int + 1, k)
                            == painted(s.mem, s.i, vx as int, vy as int, row as int, col as int, k) by {}
                        if cell == 1 {
                            assert(painted(s.mem, s.i, vx as int, vy as int, row as int, col as int + 1, idx as int) && s.gfx[idx as int] == 1);
                        } else {
                            assert(s.gfx[idx as int] == 0) by { assert(s.gfx[idx as int] <= 1); }
                        }
                    }
                } else {
                    proof {
                        assert forall|k: int| 0 <= k < GFX_SIZE implies
                            painted(s.mem, s.i, vx as int, vy as int, row as int, col as int + 1, k)
                            == painted(s.mem, s.i, vx as int, vy as int, row as int, col as int, k) by {}
                    }
                }
                col = col + 1;
            }
            proof {
                assert forall|k: int| 0 <= k < GFX_SIZE implies
                    painted(s.mem, s.i, vx as int, vy as int, row as int + 1, 0, k)
                    == painted(s.mem, s.i, vx as int, vy as int, row as int, 8, k) by {}
            }
            row = row + 1;
        }
        proof {
            assert forall|k: int| 0 <= k < GFX_SIZE implies
                painted(s.mem, s.i, vx as int, vy as int, n as int, 0, k)
                == sprite_hits(s.mem, s.i, vx as int, vy as int, n as int, k) by {}
            assert(self@.gfx =~= drawn(s, vx as int, vy as int, n as int));
            assert(self@ =~= (MachineView { gfx: drawn(s, vx as int, vy as int, n as int), ..s }));
        }
        collided
    }

    /// Darkens every framebuffer cell.
    fn clear_screen(&mut self)
        requires
            old(self).wf(),
        ensures
            final(self)@ == (MachineView { gfx: blank_screen(), ..old(self)@ }),
            final(self).mode() == old(self).mode(),
    {
        let ghost s = self@;
        let mut k: usize = 0;
        while k < GFX_SIZE
            invariant
                k <= GFX_SIZE,
                self@ == (MachineView { gfx: self@.gfx, ..s }),
                self@.gfx.len() == GFX_SIZE,
                forall|j: int| 0 <= j < k ==> #[trigger] self@.gfx[j] == 0u8,
                self.mode() == old(self).mode(),
            decreases GFX_SIZE - k,
        {
            self.gfx.set(k, 0);
            k = k + 1;
        }
        assert(self@.gfx =~= blank_screen());
        assert(self@ =~= (MachineView { gfx: blank_screen(), ..s }));
    }

    /// Whether key `k` is held; indices past the keypad are never held.
    fn key_is_held(&self, k: u8) -> (held: bool)
        ensures
            held == key_held(self@.keys, k as int),
    {
        k < NUM_KEYS as u8 && (self.keys >> (k as u16)) & 1 == 1
    }

    /// The lowest held key, or `NUM_KEYS` when none is held.
    fn first_held_key(&self) -> (k: usize)
        ensures
            k == first_held(self@.keys),
    {
        let mut k: usize = 0;
        while k < NUM_KEYS
            invariant
                k <= NUM_KEYS,
                first_held(self@.keys) == first_held_from(self@.keys, k as int),
            decreases NUM_KEYS - k,
        {
            if (self.keys >> (k as u16)) & 1 == 1 {
                return k;
            }
            k = k + 1;
        }
        k
    }

    /// Stores `V0..=VX` at `I..=I+X`.
    fn dump_regs(&mut self, x: usize)
        requires
            old(self).wf(),
            x < NUM_REGS,
            old(self)@.writable(old(self)@.i, x + 1),
        ensures
            final(self)@ == (MachineView { mem: regs_dumped(old(self)@, x as int), ..old(self)@ }),
            final(self).mode() == old(self).mode(),
    {
        let ghost s = self@;
        let base = self.cpu.i as usize;
        let mut k: usize = 0;
        while k <= x
            invariant
                k <= x + 1,
                x < NUM_REGS,
                base == s.i,
                well_formed(s),
                s.writable(s.i, x + 1),
                self@ == (MachineView { mem: self@.mem, ..s }),
                self@.mem.len() == MEM_SIZE,
                forall|j: int|
                    0 <= j < MEM_SIZE ==> #[trigger] self@.mem[j] == if s.i <= j < s.i + k {
                        s.regs[j - s.i]
                    } else {
                        s.mem[j]
                    },
                self.mode() == old(self).mode(),
            decreases x + 1 - k,
        {
            let v = self.cpu.regs[k];
            self.mem.set(base + k, v);
            k = k + 1;
        }
        assert(self@.mem =~= regs_dumped(s, x as int));
        assert(self@ =~= (MachineView { mem: regs_dumped(s, x as int), ..s }));
    }

    /// Loads `V0..=VX` from `I..=I+X`.
    fn load_regs(&mut self, x: usize)
        requires
            old(self).wf(),
            x < NUM_REGS,
            old(self)@.readable(old(self)@.i, x + 1),
        ensures
            final(self)@ == (MachineView { regs: regs_loaded(old(self)@, x as int), ..old(self)@ }),
            final(self).mode() == old(self).mode(),
    {
        let ghost s = self@;
        let base = self.cpu.i as usize;
        let mut k: usize = 0;
        while k <= x
            invariant
                k <= x + 1,
                x < NUM_REGS,
                base == s.i,
                well_formed(s),
                s.readable(s.i, x + 1),
                self@ == (MachineView { regs: self@.regs, ..s }),
                self@.regs.len() == NUM_REGS,
                forall|j: int|
                    0 <= j < NUM_REGS ==> #[trigger] self@.regs[j] == if j < k {
                        s.mem[s.i + j]
                    } else {
                        s.regs[j]
                    },
                self.mode() == old(self).mode(),
            decreases x + 1 - k,
        {
            let v = self.mem[base + k];
            self.cpu.regs.set(k, v);
            k = k + 1;
        }
        assert(self@.regs =~= regs_loaded(s, x as int));
        assert(self@ =~= (MachineView { regs: regs_loaded(s, x as int), ..s }));
    }

    /// Control flow: `0NNN`, `00E0`, `00EE`, `1NNN`, `2NNN`, `BNNN`, `FXFF`.
    #[verifier::rlimit(40)]
    fn exec_flow(&mut self, word: u16, op: OpCode) -> (r: Result<(), ExecutionFault>)
        requires
            old(self).wf(),
            old(self)@.can_fetch(),
            word == old(self)@.fetched(),
            op == decoded(word),
            is_flow(op),
        ensures
            follows(old(self)@, execute(old(self)@, word, op, 0), final(self)@, r),
            final(self).mode() == old(self).mode(),
    {
        let pc = self.cpu.pc;
        let next = pc + 2;
        let mut next_pc = next;
        match op {
            OpCode::DispClear => {
                self.clear_screen();
                self.draw = true;
            },
            OpCode::Ret => {
                if self.cpu.sp < INT_OFFSET + 2 {
                    return Err(ExecutionFault::StackUnderflow { addr: pc });
                }
                let sp = self.cpu.sp - 2;
                self.cpu.sp = sp;
                next_pc = (self.mem[sp] as usize) * 0x100 + self.mem[sp + 1] as usize;
            },
            OpCode::Jmp(addr) => {
                next_pc = addr;
            },
            OpCode::Call(addr) => {
                let sp = self.cpu.sp;
                if sp + 2 > DISP_OFFSET {
                    return Err(ExecutionFault::StackOverflow { addr: pc });
                }
                self.mem.set(sp, (next / 0x100) as u8);
                self.mem.set(sp + 1, (next % 0x100) as u8);
                self.cpu.sp = sp + 2;
                next_pc = addr;
            },
            OpCode::JmpAdd(addr) => {
                next_pc = self.cpu.regs[0] as usize + addr;
            },
            OpCode::Halt => {
                self.running = false;
            },
            _ => {},
        }
        self.cpu.pc = next_pc;
        Ok(())
    }

    /// Conditional skips: `3XNN`, `4XNN`, `5XY0`, `9XY0`, `EX9E`, `EXA1`.
    #[verifier::rlimit(40)]
    fn exec_skip(&mut self, word: u16, op: OpCode) -> (r: Result<(), ExecutionFault>)
        requires
            old(self).wf(),
            old(self)@.can_fetch(),
            word == old(self)@.fetched(),
            op == decoded(word),
            is_skip(op),
        ensures
            follows(old(self)@, execute(old(self)@, word, op, 0), final(self)@, r),
            final(self).mode() == old(self).mode(),
    {
        let skip = match op {
            OpCode::ImEq(x, v) => self.cpu.regs[x] == v,
            OpCode::ImNeq(x, v) => self.cpu.regs[x] != v,
            OpCode::RREq(x, y) => self.cpu.regs[x] == self.cpu.regs[y],
            OpCode::RRNeq(x, y) => self.cpu.regs[x] != self.cpu.regs[y],
            OpCode::KeyEq(x) => self.key_is_held(self.cpu.regs[x]),
            OpCode::KeyNeq(x) => !self.key_is_held(self.cpu.regs[x]),
            _ => false,
        };
        self.cpu.pc = if skip { self.cpu.pc + 4 } else { self.cpu.pc + 2 };
        Ok(())
    }

    /// Register writes that leave the flag alone: `6XNN`, `7XNN`, `8XY0`-`8XY3`,
    /// `CXNN`.
    #[verifier::rlimit(40)]
    fn exec_move(&mut self, word: u16, op: OpCode, random: u8) -> (r: Result<(), ExecutionFault>)
        requires
            old(self).wf(),
            old(self)@.can_fetch(),
            word == old(self)@.fetched(),
            op == decoded(word),
            is_move(op),
        ensures
            follows(old(self)@, execute(old(self)@, word, op, random), final(self)@, r),
            final(self).mode() == old(self).mode(),
    {
        match op {
            OpCode::IRMov(x, v) => {
                self.cpu.regs.set(x, v);
            },
            OpCode::IRAdd(x, v) => {
                let a = self.cpu.regs[x];
                self.cpu.regs.set(x, a.wrapping_add(v));
            },
            OpCode::RRMov(x, y) => {
                let b = self.cpu.regs[y];
                self.cpu.regs.set(x, b);
            },
            OpCode::RROr(x, y) => {
                let v = self.cpu.regs[x] | self.cpu.regs[y];
                self.cpu.regs.set(x, v);
            },
            OpCode::RRAnd(x, y) => {
                let v = self.cpu.regs[x] & self.cpu.regs[y];
                self.cpu.regs.set(x, v);
            },
            OpCode::RRXor(x, y) => {
                let v = self.cpu.regs[x] ^ self.cpu.regs[y];
                self.cpu.regs.set(x, v);
            },
            OpCode::Rand(x, v) => {
                self.cpu.regs.set(x, random & v);
            },
            _ => {},
        }
        self.cpu.pc = self.cpu.pc + 2;
        Ok(())
    }

    /// Arithmetic that sets the flag register: `8XY4`-`8XY7`, `8XYE`. The
    /// flag is written first, so when `X` is the flag register the result
    /// wins.
    #[verifier::rlimit(40)]
    fn exec_flagged(&mut self, word: u16, op: OpCode) -> (r: Result<(), ExecutionFault>)
        requires
            old(self).wf(),
            old(self)@.can_fetch(),
            word == old(self)@.fetched(),
            op == decoded(word),
            is_flagged(op),
        ensures
            follows(old(self)@, execute(old(self)@, word, op, 0), final(self)@, r),
            final(self).mode() == old(self).mode(),
    {
        let ghost s = self@;
        let (x, res, flag) = match op {
            OpCode::RRAdd(x, y) => {
                let a = self.cpu.regs[x];
                let b = self.cpu.regs[y];
                let rf = (a.wrapping_add(b), if a as u16 + b as u16 > 0xff { 1u8 } else { 0u8 });
                assert(rf == alu_add(a, b));
                (x, rf.0, rf.1)
            },
            OpCode::RRSub(x, y) => {
                let a = self.cpu.regs[x];
                let b = self.cpu.regs[y];
                let rf = (a.wrapping_sub(b), if a >= b { 1u8 } else { 0u8 });
                assert(rf == alu_sub(a, b));
                (x, rf.0, rf.1)
            },
            OpCode::RRSub2(x, y) => {
                let a = self.cpu.regs[x];
                let b = self.cpu.regs[y];
                let rf = (b.wrapping_sub(a), if b >= a { 1u8 } else { 0u8 });
                assert(rf == alu_sub(b, a));
                (x, rf.0, rf.1)
            },
            OpCode::RRShr(x) => {
                let a = self.cpu.regs[x];
                proof {
                    lemma_alu_bits(a);
                }
                let rf = (a >> 1u8, a & 1);
                assert(rf == alu_shr(a));
                (x, rf.0, rf.1)
            },
            OpCode::RRShl(x) => {
                let a = self.cpu.regs[x];
                proof {
                    lemma_alu_bits(a);
                }
                let rf = (a << 1u8, (a & 0x80) >> 7u8);
                assert(rf == alu_shl(a));
                (x, rf.0, rf.1)
            },
            _ => (0, 0, 0),
        };
        assert(execute(s, word, op, 0) == Ok::<MachineView, ExecutionFault>(
            s.with_result(x as int, (res, flag)).goto(s.pc + 2),
        ));
        self.cpu.regs.set(FLAG_REG, flag);
        self.cpu.regs.set(x, res);
        self.cpu.pc = self.cpu.pc + 2;
        Ok(())
    }

    /// Index register, timers and keypad wait: `ANNN`, `FX07`, `FX0A`,
    /// `FX15`, `FX18`, `FX1E`, `FX29`.
    #[verifier::rlimit(40)]
    fn exec_special(&mut self, word: u16, op: OpCode) -> (r: Result<(), ExecutionFault>)
        requires
            old(self).wf(),
            old(self)@.can_fetch(),
            word == old(self)@.fetched(),
            op == decoded(word),
            is_special(op),
        ensures
            follows(old(self)@, execute(old(self)@, word, op, 0), final(self)@, r),
            final(self).mode() == old(self).mode(),
    {
        let pc = self.cpu.pc;
        let mut next_pc = pc + 2;
        match op {
            OpCode::Index(addr) => {
                self.cpu.i = addr as u16;
            },
            OpCode::DelayGet(x) => {
                self.cpu.regs.set(x, self.delay_timer);
            },
            OpCode::KeyWait(x) => {
                let k = self.first_held_key();
                if k < NUM_KEYS {
                    self.cpu.regs.set(x, k as u8);
                } else {
                    next_pc = pc;
                }
            },
            OpCode::DelaySet(x) => {
                self.delay_timer = self.cpu.regs[x];
            },
            OpCode::SoundSet(x) => {
                self.sound_timer = self.cpu.regs[x];
            },
            OpCode::IncIndex(x) => {
                self.cpu.i = self.cpu.i.wrapping_add(self.cpu.regs[x] as u16);
            },
            OpCode::SpriteAddr(x) => {
                self.cpu.i = self.cpu.regs[x] as u16 * GLYPH_BYTES as u16;
            },
            _ => {},
        }
        self.cpu.pc = next_pc;
        Ok(())
    }

    /// Memory at `I`: `DXYN`, `FX33`, `FX55`, `FX65`. Every access is
    /// bounds-checked before anything changes.
    #[verifier::rlimit(40)]
    fn exec_memory(&mut self, word: u16, op: OpCode) -> (r: Result<(), ExecutionFault>)
        requires
            old(self).wf(),
            old(self)@.can_fetch(),
            word == old(self)@.fetched(),
            op == decoded(word),
            is_memory(op),
        ensures
            follows(old(self)@, execute(old(self)@, word, op, 0), final(self)@, r),
            final(self).mode() == old(self).mode(),
    {
        let a = self.cpu.i as usize;
        match op {
            OpCode::Draw(x, y, n) => {
                let vx = self.cpu.regs[x] as usize;
                let vy = self.cpu.regs[y] as usize;
                if a + n as usize > MEM_SIZE {
                    return Err(ExecutionFault::MemoryFault { addr: a });
                }
                let collided = self.draw_sprite(vx, vy, n as usize);
                self.cpu.regs.set(FLAG_REG, if collided { 1 } else { 0 });
                self.draw = true;
            },
            OpCode::BCD(x) => {
                if a < GLYPH_TABLE_LEN || a + 3 > MEM_SIZE {
                    return Err(ExecutionFault::MemoryFault { addr: a });
                }
                let v = self.cpu.regs[x];
                self.mem.set(a, v / 100);
                self.mem.set(a + 1, (v % 100) / 10);
                self.mem.set(a + 2, v % 10);
            },
            OpCode::RegDump(x) => {
                if a < GLYPH_TABLE_LEN || a + x + 1 > MEM_SIZE {
                    return Err(ExecutionFault::MemoryFault { addr: a });
                }
                self.dump_regs(x);
                self.cpu.i = self.cpu.i.wrapping_add(x as u16 + 1);
            },
            OpCode::RegLoad(x) => {
                if a + x + 1 > MEM_SIZE {
                    return Err(ExecutionFault::MemoryFault { addr: a });
                }
                self.load_regs(x);
                self.cpu.i = self.cpu.i.wrapping_add(x as u16 + 1);
            },
            _ => {},
        }
        self.cpu.pc = self.cpu.pc + 2;
        Ok(())
    }

    /// Runs one instruction, with `random` as the byte that `CXNN` draws.
    /// On a fault the machine is left exactly as it was.
    #[verifier::rlimit(40)]
    pub fn step_with(&mut self, random: u8) -> (r: Result<(), ExecutionFault>)
        requires
            old(self).wf(),
            old(self)@.cycles < u32::MAX,
        ensures
            final(self).wf(),
            is_step(old(self)@, random, final(self)@, r),
            final(self).mode() == old(self).mode(),
    {
        let ghost s = self@;
        let pc = self.cpu.pc;
        let word = match self.fetch() {
            Ok(w) => w,
            Err(e) => return Err(e),
        };
        let op = Chip8::decode(word);
        let r = if is_flow_op(&op) {
            self.exec_flow(word, op)
        } else if is_skip_op(&op) {
            self.exec_skip(word, op)
        } else if is_move_op(&op) {
            self.exec_move(word, op, random)
        } else if is_flagged_op(&op) {
            self.exec_flagged(word, op)
        } else if is_special_op(&op) {
            self.exec_special(word, op)
        } else if is_memory_op(&op) {
            self.exec_memory(word, op)
        } else {
            return Err(ExecutionFault::IllegalInstruction { word, addr: pc });
        };
        proof {
            if !(op is Rand) {
                lemma_random_only_for_rand(s, word, op, random);
            }
        }
        match r {
            Ok(()) => {
                self.cycles = self.cycles + 1;
                proof {
                    lemma_step_keeps_well_formed(s, random);
                }
                Ok(())
            },
            Err(e) => Err(e),
        }
    }

    /// Runs one instruction. `CXNN` draws its byte from the machine's random
    /// generator; every other instruction ignores it.
    pub fn step(&mut self) -> (r: Result<(), ExecutionFault>)
        requires
            old(self).wf(),
            old(self)@.cycles < u32::MAX,
        ensures
            final(self).wf(),
            exists|rnd: u8| is_step(old(self)@, rnd, final(self)@, r),
            !(old(self)@.can_fetch() && decoded(old(self)@.fetched()) is Rand) ==> is_step(
                old(self)@,
                0,
                final(self)@,
                r,
            ),
            final(self).mode() == old(self).mode(),
    {
        let ghost s = self@;
        let random = match self.fetch() {
            Ok(w) => match Chip8::decode(w) {
                OpCode::Rand(..) => random_byte(&mut self.rng),
                _ => 0,
            },
            Err(_) => 0,
        };
        let r = self.step_with(random);
        proof {
            if s.can_fetch() && !(decoded(s.fetched()) is Rand) {
                lemma_random_only_for_rand(s, s.fetched(), decoded(s.fetched()), random);
            }
        }
        r
    }

    /// Marks key `key` as held.
    pub fn key_down(&mut self, key: usize)
        requires
            old(self).wf(),
            key < NUM_KEYS,
        ensures
            final(self).wf(),
            final(self)@ == (MachineView { keys: old(self)@.keys | (1u16 << key as u16), ..old(self)@ }),
            forall|k: int|
                #[trigger] key_held(final(self)@.keys, k) == (k == key || key_held(old(self)@.keys, k)),
            final(self).mode() == old(self).mode(),
    {
        let ghost before = self.keys;
        self.keys = self.keys | (1u16 << key as u16);
        proof {
            assert forall|k: int| #[trigger] key_held(self.keys, k) == (k == key || key_held(before, k)) by {
                if 0 <= k < NUM_KEYS {
                    lemma_set_bit(before, key as u16, k as u16);
                }
            }
        }
    }

    /// Marks key `key` as released.
    pub fn key_up(&mut self, key: usize)
        requires
            old(self).wf(),
            key < NUM_KEYS,
        ensures
            final(self).wf(),
            final(self)@ == (MachineView { keys: old(self)@.keys & !(1u16 << key as u16), ..old(self)@ }),
            forall|k: int|
                #[trigger] key_held(final(self)@.keys, k) == (k != key && key_held(old(self)@.keys, k)),
            final(self).mode() == old(self).mode(),
    {
        let ghost before = self.keys;
        self.keys = self.keys & !(1u16 << key as u16);
        proof {
            assert forall|k: int| #[trigger] key_held(self.keys, k) == (k != key && key_held(before, k)) by {
                if 0 <= k < NUM_KEYS {
                    lemma_clear_bit(before, key as u16, k as u16);
                }
            }
        }
    }

    /// One timer tick: both timers drop by one, stopping at zero. Returns
    /// whether a tone should sound, which is when the sound timer runs out
    /// on this tick.
    pub fn dec_timers(&mut self) -> (beep: bool)
        requires
            old(self).wf(),
        ensures
            final(self).wf(),
            final(self)@ == ticked(old(self)@),
            beep == (old(self)@.sound_timer == 1),
            final(self).mode() == old(self).mode(),
    {
        let beep = self.sound_timer == 1;
        if self.delay_timer > 0 {
            self.delay_timer = self.delay_timer - 1;
        }
        if self.sound_timer > 0 {
            self.sound_timer = self.sound_timer - 1;
        }
        beep
    }

    /// The register file.
    pub fn cpu(&self) -> (c: &Cpu)
        ensures
            c.regs@ == self@.regs,
            c.i as int == self@.i,
            c.pc as int == self@.pc,
            c.sp as int == self@.sp,
    {
        &self.cpu
    }

    /// The whole addressable memory.
    pub fn memory(&self) -> (m: &[u8])
        ensures
            m@ == self@.mem,
    {
        self.mem.as_slice()
    }

    /// The framebuffer, row after row, one cell (0 or 1) per byte.
    pub fn gfx(&self) -> (g: &[u8])
        ensures
            g@ == self@.gfx,
    {
        self.gfx.as_slice()
    }

    /// The mask of held keys.
    pub fn keys(&self) -> (k: u16)
        ensures
            k == self@.keys,
    {
        self.keys
    }

    /// The delay timer.
    pub fn delay_timer(&self) -> (t: u8)
        ensures
            t == self@.delay_timer,
    {
        self.delay_timer
    }

    /// The sound timer.
    pub fn sound_timer(&self) -> (t: u8)
        ensures
            t == self@.sound_timer,
    {
        self.sound_timer
    }

    /// Decodes one instruction word. Total and free of side effects: the
    /// result is a function of the word alone, and no machine is involved.
    pub fn decode(word: u16) -> (op: OpCode)
        ensures
            op == decoded(word),
            fields_in_range(op),
    {
        proof {
            lemma_fields(word);
        }
        let icode = word >> 12;
        let ifun = word & 0x0f;
        let addr = (word & 0x0fff) as Addr;
        let vx = ((word >> 8) & 0x0f) as RegId;
        let vy = ((word >> 4) & 0x0f) as RegId;
        let vi = (word & 0xff) as u8;
        match icode {
            0x0 => match vi {
                0xEE => OpCode::Ret,
                0xE0 => OpCode::DispClear,
                _ => OpCode::NativeCall(addr),
            },
            0x1 => OpCode::Jmp(addr),
            0x2 => OpCode::Call(addr),
            0x3 => OpCode::ImEq(vx, vi),
            0x4 => OpCode::ImNeq(vx, vi),
            0x5 => match ifun {
                0x0 => OpCode::RREq(vx, vy),
                _ => OpCode::Invalid,
            },
            0x6 => OpCode::IRMov(vx, vi),
            0x7 => OpCode::IRAdd(vx, vi),
            0x8 => match ifun {
                0x0 => OpCode::RRMov(vx, vy),
                0x1 => OpCode::RROr(vx, vy),
                0x2 => OpCode::RRAnd(vx, vy),
                0x3 => OpCode::RRXor(vx, vy),
                0x4 => OpCode::RRAdd(vx, vy),
                0x5 => OpCode::RRSub(vx, vy),
                0x6 => OpCode::RRShr(vx),
                0x7 => OpCode::RRSub2(vx, vy),
                0xE => OpCode::RRShl(vx),
                _ => OpCode::Invalid,
            },
            0x9 => match ifun {
                0x0 => OpCode::RRNeq(vx, vy),
                _ => OpCode::Invalid,
            },
            0xA => OpCode::Index(addr),
            0xB => OpCode::JmpAdd(addr),
            0xC => OpCode::Rand(vx, vi),
            0xD => OpCode::Draw(vx, vy, ifun as u8),
            0xE => match vi {
                0x9E => OpCode::KeyEq(vx),
                0xA1 => OpCode::KeyNeq(vx),
                _ => OpCode::Invalid,
            },
            _ => match vi {
                0x07 => OpCode::DelayGet(vx),
                0x0A => OpCode::KeyWait(vx),
                0x15 => OpCode::DelaySet(vx),
                0x18 => OpCode::SoundSet(vx),
                0x1E => OpCode::IncIndex(vx),
                0x29 => OpCode::SpriteAddr(vx),
                0x33 => OpCode::BCD(vx),
                0x55 => OpCode::RegDump(vx),
                0x65 => OpCode::RegLoad(vx),
                0xFF => OpCode::Halt,
                _ => OpCode::Invalid,
            },
        }
    }

    /// The instruction word at the program counter.
    pub fn fetch(&self) -> (r: Result<u16, ExecutionFault>)
        requires
            self.wf(),
        ensures
            self@.can_fetch() ==> r == Ok::<u16, ExecutionFault>(self@.fetched()),
            !self@.can_fetch() ==> r == Err::<u16, ExecutionFault>(
                ExecutionFault::MemoryFault { addr: self@.pc as usize },
            ),
    {
        let pc = self.cpu.pc;
        if pc >= MEM_SIZE - 1 {
            return Err(ExecutionFault::MemoryFault { addr: pc });
        }
        let hi = self.mem[pc];
        let lo = self.mem[pc + 1];
        proof {
            lemma_word(hi, lo);
        }
        Ok(((hi as u16) << 8u16) | (lo as u16))
    }
}

} // verus!
