//! Laws of the machine, stated over the abstract model and proved from the
//! step semantics that the executor is verified against.
use vstd::prelude::*;

use crate::machine::{
    collides, drawn, key_held, loaded_memory, sprite_hits, step_result, well_formed, word_at,
    MachineView, FLAG_REG, GFX_SIZE, MAX_PROGRAM_LEN, MEM_SIZE, NUM_KEYS, PROG_OFFSET,
};
use crate::opcode::{decoded, lemma_decoded_fields_in_range, OpCode};

verus! {

/// The big-endian word at byte offset `off` of a program image: what a
/// disassembly of the raw image lists at that offset.
pub open spec fn listed_word(prog: Seq<u8>, off: int) -> u16 {
    (prog[off] as int * 0x100 + prog[off + 1] as int) as u16
}

/// Instructions after which execution always falls through to the next word.
pub open spec fn falls_through(op: OpCode) -> bool {
    match op {
        OpCode::NativeCall(_) | OpCode::DispClear | OpCode::IRMov(..) | OpCode::IRAdd(..)
        | OpCode::RRMov(..) | OpCode::RROr(..) | OpCode::RRAnd(..) | OpCode::RRXor(..)
        | OpCode::RRAdd(..) | OpCode::RRSub(..) | OpCode::RRShr(_) | OpCode::RRSub2(..)
        | OpCode::RRShl(_) | OpCode::Index(_) | OpCode::Rand(..) | OpCode::Draw(..)
        | OpCode::DelayGet(_) | OpCode::DelaySet(_) | OpCode::SoundSet(_)
        | OpCode::IncIndex(_) | OpCode::SpriteAddr(_) | OpCode::BCD(_) | OpCode::RegDump(_)
        | OpCode::RegLoad(_) | OpCode::Halt => true,
        _ => false,
    }
}

/// Loading places the image in the program window: while it is in place,
/// the machine fetches at each program offset exactly the word that a
/// disassembly of the raw image lists there, and decodes it as the
/// disassembler does. After an instruction that falls through, the program
/// counter moves to the next listed word.
pub proof fn lemma_program_trace(s: MachineView, base: Seq<u8>, prog: Seq<u8>, rnd: u8)
    requires
        well_formed(s),
        base.len() == MEM_SIZE,
        prog.len() <= MAX_PROGRAM_LEN,
        s.mem == loaded_memory(base, prog),
        PROG_OFFSET <= s.pc,
        s.pc + 2 <= PROG_OFFSET + prog.len(),
    ensures
        s.can_fetch(),
        s.fetched() == listed_word(prog, s.pc - PROG_OFFSET),
        decoded(s.fetched()) == decoded(listed_word(prog, s.pc - PROG_OFFSET)),
        falls_through(decoded(s.fetched())) && step_result(s, rnd) is Ok ==> step_result(
            s,
            rnd,
        )->Ok_0.pc == s.pc + 2,
{
}

/// `8XY4` sets the flag exactly when `VX + VY` exceeds 255, and leaves the
/// sum modulo 256 in `VX` (for `X` other than the flag register, which
/// receives the sum itself).
pub proof fn lemma_add_flag(s: MachineView, rnd: u8, x: usize, y: usize)
    requires
        well_formed(s),
        s.can_fetch(),
        decoded(s.fetched()) == OpCode::RRAdd(x, y),
        x != FLAG_REG,
    ensures
        step_result(s, rnd) is Ok,
        step_result(s, rnd)->Ok_0.regs[FLAG_REG as int] == if s.regs[x as int] + s.regs[y as int]
            > 255 {
            1u8
        } else {
            0u8
        },
        step_result(s, rnd)->Ok_0.regs[x as int] == (s.regs[x as int] + s.regs[y as int]) % 256,
{
    lemma_decoded_fields_in_range(s.fetched());
}

/// `8XY5` sets the flag exactly when `VX >= VY` (no borrow), and `8XY7`
/// exactly when `VY >= VX`; the wrapped difference goes to `VX`.
pub proof fn lemma_sub_flag(s: MachineView, rnd: u8, x: usize, y: usize)
    requires
        well_formed(s),
        s.can_fetch(),
        decoded(s.fetched()) == OpCode::RRSub(x, y) || decoded(s.fetched()) == OpCode::RRSub2(
            x,
            y,
        ),
        x != FLAG_REG,
    ensures
        step_result(s, rnd) is Ok,
        decoded(s.fetched()) is RRSub ==> {
            &&& step_result(s, rnd)->Ok_0.regs[FLAG_REG as int] == if s.regs[x as int]
                >= s.regs[y as int] {
                1u8
            } else {
                0u8
            }
            &&& step_result(s, rnd)->Ok_0.regs[x as int] == (s.regs[x as int] - s.regs[y as int]
                + 256) % 256
        },
        decoded(s.fetched()) is RRSub2 ==> {
            &&& step_result(s, rnd)->Ok_0.regs[FLAG_REG as int] == if s.regs[y as int]
                >= s.regs[x as int] {
                1u8
            } else {
                0u8
            }
            &&& step_result(s, rnd)->Ok_0.regs[x as int] == (s.regs[y as int] - s.regs[x as int]
                + 256) % 256
        },
{
    lemma_decoded_fields_in_range(s.fetched());
}

/// `8XY6` and `8XYE` set the flag to the bit shifted out: the lowest bit of
/// `VX` for a right shift, the highest for a left shift.
pub proof fn lemma_shift_flag(s: MachineView, rnd: u8, x: usize)
    requires
        well_formed(s),
        s.can_fetch(),
        decoded(s.fetched()) == OpCode::RRShr(x) || decoded(s.fetched()) == OpCode::RRShl(x),
        x != FLAG_REG,
    ensures
        step_result(s, rnd) is Ok,
        decoded(s.fetched()) is RRShr ==> {
            &&& step_result(s, rnd)->Ok_0.regs[FLAG_REG as int] == s.regs[x as int] % 2
            &&& step_result(s, rnd)->Ok_0.regs[x as int] == s.regs[x as int] / 2
        },
        decoded(s.fetched()) is RRShl ==> {
            &&& step_result(s, rnd)->Ok_0.regs[FLAG_REG as int] == s.regs[x as int] / 128
            &&& step_result(s, rnd)->Ok_0.regs[x as int] == (s.regs[x as int] * 2) % 256
        },
{
    lemma_decoded_fields_in_range(s.fetched());
}

/// A call followed at once by a return comes back to the instruction after
/// the call, with the stack pointer where it was before the call.
pub proof fn lemma_call_then_return(s: MachineView, r1: u8, r2: u8)
    requires
        well_formed(s),
        s.can_fetch(),
        decoded(s.fetched()) is Call,
        step_result(s, r1) is Ok,
        step_result(s, r1)->Ok_0.can_fetch(),
        decoded(step_result(s, r1)->Ok_0.fetched()) is Ret,
    ensures
        step_result(step_result(s, r1)->Ok_0, r2) is Ok,
        step_result(step_result(s, r1)->Ok_0, r2)->Ok_0.pc == s.pc + 2,
        step_result(step_result(s, r1)->Ok_0, r2)->Ok_0.sp == s.sp,
{
    let t = step_result(s, r1)->Ok_0;
    let next = s.pc + 2;
    assert(t.sp == s.sp + 2);
    assert(t.mem[s.sp] == (next / 0x100) as u8);
    assert(t.mem[s.sp + 1] == (next % 0x100) as u8);
    assert(word_at(t.mem, t.sp - 2) == next);
}

/// Drawing the same sprite twice at the same place puts the framebuffer
/// back as it was, and the second draw reports a collision exactly when the
/// first one lit some cell.
pub proof fn lemma_draw_twice(s: MachineView, rnd: u8, x: usize, y: usize, n: u8)
    requires
        well_formed(s),
        s.can_fetch(),
        decoded(s.fetched()) == OpCode::Draw(x, y, n),
        x != FLAG_REG,
        y != FLAG_REG,
        step_result(s, rnd) is Ok,
    ensures
        ({
            let t = step_result(s, rnd)->Ok_0.goto(s.pc);
            &&& t.can_fetch()
            &&& t.fetched() == s.fetched()
            &&& step_result(t, rnd) is Ok
            &&& step_result(t, rnd)->Ok_0.gfx == s.gfx
            &&& step_result(t, rnd)->Ok_0.regs[FLAG_REG as int] == if exists|k: int|
                sprite_hits(s.mem, s.i, s.regs[x as int] as int, s.regs[y as int] as int, n as int, k)
                    && #[trigger] s.gfx[k] == 0 {
                1u8
            } else {
                0u8
            }
        }),
{
    lemma_decoded_fields_in_range(s.fetched());
    let vx = s.regs[x as int] as int;
    let vy = s.regs[y as int] as int;
    let t1 = step_result(s, rnd)->Ok_0;
    let t = t1.goto(s.pc);
    assert(t.regs[x as int] == s.regs[x as int]);
    assert(t.regs[y as int] == s.regs[y as int]);
    assert(t.mem == s.mem);
    assert(t.gfx == drawn(s, vx, vy, n as int));
    let t2 = step_result(t, rnd)->Ok_0;
    assert forall|k: int| 0 <= k < GFX_SIZE implies #[trigger] t2.gfx[k] == s.gfx[k] by {
        assert(s.gfx[k] <= 1);
    }
    assert(t2.gfx =~= s.gfx);
    if collides(t, vx, vy, n as int) {
        let k = choose|k: int| sprite_hits(t.mem, t.i, vx, vy, n as int, k) && t.gfx[k] == 1;
        assert(s.gfx[k] <= 1);
        assert(sprite_hits(s.mem, s.i, vx, vy, n as int, k) && s.gfx[k] == 0);
    }
    if exists|k: int| sprite_hits(s.mem, s.i, vx, vy, n as int, k) && #[trigger] s.gfx[k] == 0 {
        let k = choose|k: int| sprite_hits(s.mem, s.i, vx, vy, n as int, k) && #[trigger] s.gfx[k]
            == 0;
        assert(sprite_hits(t.mem, t.i, vx, vy, n as int, k) && t.gfx[k] == 1);
    }
}

/// While no key is held, `FX0A` leaves the machine waiting at the same
/// instruction: only the cycle counter moves, so every further step does the
/// same. Once a key is held, the step stores the lowest held key in `VX` and
/// moves on.
pub proof fn lemma_key_wait(s: MachineView, rnd: u8, x: usize)
    requires
        well_formed(s),
        s.can_fetch(),
        decoded(s.fetched()) == OpCode::KeyWait(x),
    ensures
        step_result(s, rnd) is Ok,
        (forall|k: int| 0 <= k < NUM_KEYS ==> !#[trigger] key_held(s.keys, k)) ==> step_result(
            s,
            rnd,
        )->Ok_0 == (MachineView { cycles: s.cycles + 1, ..s }),
        (exists|k: int| 0 <= k < NUM_KEYS && #[trigger] key_held(s.keys, k)) ==> {
            &&& step_result(s, rnd)->Ok_0.pc == s.pc + 2
            &&& key_held(s.keys, step_result(s, rnd)->Ok_0.regs[x as int] as int)
            &&& forall|k: int|
                0 <= k < step_result(s, rnd)->Ok_0.regs[x as int] ==> !#[trigger] key_held(
                    s.keys,
                    k,
                )
        },
{
    lemma_decoded_fields_in_range(s.fetched());
    lemma_first_held(s.keys, 0);
}

proof fn lemma_first_held(keys: u16, k: int)
    requires
        0 <= k <= NUM_KEYS,
    ensures
        ({
            let f = crate::machine::first_held_from(keys, k);
            &&& k <= f <= NUM_KEYS
            &&& forall|j: int| k <= j < f ==> !#[trigger] key_held(keys, j)
            &&& f < NUM_KEYS ==> key_held(keys, f)
            &&& f == NUM_KEYS ==> forall|j: int| k <= j < NUM_KEYS ==> !#[trigger] key_held(keys, j)
        }),
    decreases NUM_KEYS - k,
{
    if k < NUM_KEYS {
        lemma_first_held(keys, k + 1);
    }
}

} // verus!
