use chip8::{Chip8, ExecutionFault, LoadFault, OpCode, StepMode};

const PROG: usize = 0x200;

fn machine(prog: &[u8]) -> Chip8 {
    let mut m = Chip8::new();
    m.load(prog).unwrap();
    m
}

fn run(m: &mut Chip8, steps: usize) {
    for _ in 0..steps {
        m.step().unwrap();
    }
}

#[test]
fn add_program_scenario() {
    let mut m = machine(&[0x60, 0x05, 0x61, 0x03, 0x80, 0x14]);
    run(&mut m, 3);
    assert_eq!(m.cpu().regs[0], 8);
    assert_eq!(m.cpu().regs[0xF], 0);
    assert_eq!(m.cpu().pc, PROG + 6);
    assert_eq!(m.cycles, 3);
}

#[test]
fn call_then_return_scenario() {
    // 0x200: call 0x204; 0x202: halt; 0x204: return
    let mut m = machine(&[0x22, 0x04, 0xFF, 0xFF, 0x00, 0xEE]);
    let sp0 = m.cpu().sp;
    m.step().unwrap();
    assert_eq!(m.cpu().pc, 0x204);
    assert_eq!(m.cpu().sp, sp0 + 2);
    assert_eq!(m.memory()[sp0], 0x02);
    assert_eq!(m.memory()[sp0 + 1], 0x02);
    m.step().unwrap();
    assert_eq!(m.cpu().pc, 0x202);
    assert_eq!(m.cpu().sp, sp0);
    m.step().unwrap();
    assert!(!m.running);
}

#[test]
fn bcd_scenario() {
    // V3 := 234; I := 0x300; BCD V3
    let mut m = machine(&[0x63, 234, 0xA3, 0x00, 0xF3, 0x33]);
    run(&mut m, 3);
    assert_eq!(&m.memory()[0x300..0x303], &[2, 3, 4]);
    assert_eq!(m.cpu().i, 0x300);
}

#[test]
fn decode_is_a_function_of_the_word() {
    for w in [0x0000u16, 0x00E0, 0x00EE, 0x8AB4, 0xD125, 0xF00A, 0xFFFF, 0x5121, 0xE000] {
        assert_eq!(Chip8::decode(w), Chip8::decode(w));
    }
    assert_eq!(Chip8::decode(0x00E0), OpCode::DispClear);
    assert_eq!(Chip8::decode(0x00EE), OpCode::Ret);
    assert_eq!(Chip8::decode(0x0123), OpCode::NativeCall(0x123));
    assert_eq!(Chip8::decode(0x1ABC), OpCode::Jmp(0xABC));
    assert_eq!(Chip8::decode(0x2ABC), OpCode::Call(0xABC));
    assert_eq!(Chip8::decode(0x3A12), OpCode::ImEq(0xA, 0x12));
    assert_eq!(Chip8::decode(0x4A12), OpCode::ImNeq(0xA, 0x12));
    assert_eq!(Chip8::decode(0x5AB0), OpCode::RREq(0xA, 0xB));
    assert_eq!(Chip8::decode(0x5AB1), OpCode::Invalid);
    assert_eq!(Chip8::decode(0x6A12), OpCode::IRMov(0xA, 0x12));
    assert_eq!(Chip8::decode(0x7A12), OpCode::IRAdd(0xA, 0x12));
    assert_eq!(Chip8::decode(0x8AB0), OpCode::RRMov(0xA, 0xB));
    assert_eq!(Chip8::decode(0x8AB1), OpCode::RROr(0xA, 0xB));
    assert_eq!(Chip8::decode(0x8AB2), OpCode::RRAnd(0xA, 0xB));
    assert_eq!(Chip8::decode(0x8AB3), OpCode::RRXor(0xA, 0xB));
    assert_eq!(Chip8::decode(0x8AB4), OpCode::RRAdd(0xA, 0xB));
    assert_eq!(Chip8::decode(0x8AB5), OpCode::RRSub(0xA, 0xB));
    assert_eq!(Chip8::decode(0x8AB6), OpCode::RRShr(0xA));
    assert_eq!(Chip8::decode(0x8AB7), OpCode::RRSub2(0xA, 0xB));
    assert_eq!(Chip8::decode(0x8ABE), OpCode::RRShl(0xA));
    assert_eq!(Chip8::decode(0x8AB8), OpCode::Invalid);
    assert_eq!(Chip8::decode(0x9AB0), OpCode::RRNeq(0xA, 0xB));
    assert_eq!(Chip8::decode(0x9AB1), OpCode::Invalid);
    assert_eq!(Chip8::decode(0xA123), OpCode::Index(0x123));
    assert_eq!(Chip8::decode(0xB123), OpCode::JmpAdd(0x123));
    assert_eq!(Chip8::decode(0xC1FF), OpCode::Rand(1, 0xFF));
    assert_eq!(Chip8::decode(0xD125), OpCode::Draw(1, 2, 5));
    assert_eq!(Chip8::decode(0xE19E), OpCode::KeyEq(1));
    assert_eq!(Chip8::decode(0xE1A1), OpCode::KeyNeq(1));
    assert_eq!(Chip8::decode(0xE100), OpCode::Invalid);
    assert_eq!(Chip8::decode(0xF107), OpCode::DelayGet(1));
    assert_eq!(Chip8::decode(0xF10A), OpCode::KeyWait(1));
    assert_eq!(Chip8::decode(0xF115), OpCode::DelaySet(1));
    assert_eq!(Chip8::decode(0xF118), OpCode::SoundSet(1));
    assert_eq!(Chip8::decode(0xF11E), OpCode::IncIndex(1));
    assert_eq!(Chip8::decode(0xF129), OpCode::SpriteAddr(1));
    assert_eq!(Chip8::decode(0xF133), OpCode::BCD(1));
    assert_eq!(Chip8::decode(0xF155), OpCode::RegDump(1));
    assert_eq!(Chip8::decode(0xF165), OpCode::RegLoad(1));
    assert_eq!(Chip8::decode(0xF0FF), OpCode::Halt);
    assert_eq!(Chip8::decode(0xF100), OpCode::Invalid);
}

#[test]
fn pc_trace_matches_listing() {
    let prog = [0x60, 0x01, 0x70, 0x02, 0xA2, 0x10, 0x81, 0x00, 0xF0, 0x15, 0x00, 0xE0];
    let mut m = machine(&prog);
    for k in 0..prog.len() / 2 {
        let pc = m.cpu().pc;
        assert_eq!(pc, PROG + 2 * k);
        let listed = ((prog[2 * k] as u16) << 8) | prog[2 * k + 1] as u16;
        assert_eq!(m.fetch(), Ok(listed));
        m.step().unwrap();
    }
    assert_eq!(m.cpu().pc, PROG + prog.len());
}

#[test]
fn add_sets_carry_flag() {
    // V1 := 0xFF; V2 := 0x01; V1 += V2
    let mut m = machine(&[0x61, 0xFF, 0x62, 0x01, 0x81, 0x24]);
    run(&mut m, 3);
    assert_eq!(m.cpu().regs[1], 0);
    assert_eq!(m.cpu().regs[0xF], 1);
    // 0x80 + 0x7F = 0xFF: no carry
    let mut m = machine(&[0x61, 0x80, 0x62, 0x7F, 0x81, 0x24]);
    run(&mut m, 3);
    assert_eq!(m.cpu().regs[1], 0xFF);
    assert_eq!(m.cpu().regs[0xF], 0);
}

#[test]
fn sub_sets_no_borrow_flag() {
    let mut m = machine(&[0x61, 0x05, 0x62, 0x05, 0x81, 0x25]);
    run(&mut m, 3);
    assert_eq!(m.cpu().regs[1], 0);
    assert_eq!(m.cpu().regs[0xF], 1);
    let mut m = machine(&[0x61, 0x03, 0x62, 0x05, 0x81, 0x25]);
    run(&mut m, 3);
    assert_eq!(m.cpu().regs[1], 0xFE);
    assert_eq!(m.cpu().regs[0xF], 0);
    // VX := VY - VX
    let mut m = machine(&[0x61, 0x03, 0x62, 0x05, 0x81, 0x27]);
    run(&mut m, 3);
    assert_eq!(m.cpu().regs[1], 2);
    assert_eq!(m.cpu().regs[0xF], 1);
    let mut m = machine(&[0x61, 0x05, 0x62, 0x03, 0x81, 0x27]);
    run(&mut m, 3);
    assert_eq!(m.cpu().regs[1], 0xFE);
    assert_eq!(m.cpu().regs[0xF], 0);
}

#[test]
fn shifts_set_shifted_out_bit() {
    let mut m = machine(&[0x61, 0x81, 0x81, 0x06]);
    run(&mut m, 2);
    assert_eq!(m.cpu().regs[1], 0x40);
    assert_eq!(m.cpu().regs[0xF], 1);
    let mut m = machine(&[0x61, 0x81, 0x81, 0x0E]);
    run(&mut m, 2);
    assert_eq!(m.cpu().regs[1], 0x02);
    assert_eq!(m.cpu().regs[0xF], 1);
    let mut m = machine(&[0x61, 0x40, 0x81, 0x0E]);
    run(&mut m, 2);
    assert_eq!(m.cpu().regs[1], 0x80);
    assert_eq!(m.cpu().regs[0xF], 0);
}

#[test]
fn flag_register_as_target_keeps_result() {
    // VF := 0xFF; V1 := 1; VF += V1 -> result 0 overwrites carry
    let mut m = machine(&[0x6F, 0xFF, 0x61, 0x01, 0x8F, 0x14]);
    run(&mut m, 3);
    assert_eq!(m.cpu().regs[0xF], 0);
}

#[test]
fn bitwise_and_moves() {
    let mut m = machine(&[0x61, 0xF0, 0x62, 0x3C, 0x83, 0x10, 0x83, 0x21, 0x84, 0x10, 0x84, 0x22, 0x85, 0x10, 0x85, 0x23]);
    run(&mut m, 8);
    assert_eq!(m.cpu().regs[3], 0xFC);
    assert_eq!(m.cpu().regs[4], 0x30);
    assert_eq!(m.cpu().regs[5], 0xCC);
    // 7XNN wraps and leaves the flag alone
    let mut m = machine(&[0x61, 0xFF, 0x71, 0x02]);
    run(&mut m, 2);
    assert_eq!(m.cpu().regs[1], 0x01);
    assert_eq!(m.cpu().regs[0xF], 0);
}

#[test]
fn drawing_twice_restores_screen() {
    // V0 := 0; I := glyph 0; draw at (V0, V0) twice
    let mut m = machine(&[0x60, 0x00, 0xF0, 0x29, 0xD0, 0x05, 0xD0, 0x05]);
    run(&mut m, 3);
    assert_eq!(m.cpu().regs[0xF], 0);
    assert!(m.draw);
    let lit: usize = m.gfx().iter().map(|&c| c as usize).sum();
    assert_eq!(lit, 14);
    assert_eq!(&m.gfx()[0..4], &[1, 1, 1, 1]);
    assert_eq!(&m.gfx()[64..68], &[1, 0, 0, 1]);
    m.draw = false;
    m.step().unwrap();
    assert_eq!(m.cpu().regs[0xF], 1);
    assert!(m.draw);
    assert!(m.gfx().iter().all(|&c| c == 0));
}

#[test]
fn draw_clips_at_the_edges() {
    // V0 := 62; V1 := 30; I := glyph 0; draw 5 rows at (62, 30)
    let mut m = machine(&[0x60, 62, 0x61, 30, 0xA0, 0x00, 0xD0, 0x15]);
    run(&mut m, 4);
    let g = m.gfx();
    assert_eq!(g.len(), 64 * 32);
    assert_eq!(&g[30 * 64 + 62..30 * 64 + 64], &[1, 1]);
    assert_eq!(&g[31 * 64 + 62..31 * 64 + 64], &[1, 0]);
    let lit: usize = g.iter().map(|&c| c as usize).sum();
    assert_eq!(lit, 3);
    assert_eq!(m.cpu().regs[0xF], 0);
}

#[test]
fn draw_out_of_memory_faults() {
    // I := 0xFFE; draw 5 rows
    let mut m = machine(&[0xAF, 0xFE, 0xD0, 0x05]);
    m.step().unwrap();
    assert_eq!(m.step(), Err(ExecutionFault::MemoryFault { addr: 0xFFE }));
    assert_eq!(m.cpu().pc, PROG + 2);
    assert_eq!(m.cycles, 1);
}

#[test]
fn clear_screen() {
    let mut m = machine(&[0xD0, 0x05, 0x00, 0xE0]);
    m.step().unwrap();
    assert!(m.gfx().iter().any(|&c| c == 1));
    m.draw = false;
    m.step().unwrap();
    assert!(m.gfx().iter().all(|&c| c == 0));
    assert!(m.draw);
}

#[test]
fn key_wait_stalls_until_key() {
    let mut m = machine(&[0xF3, 0x0A, 0x00, 0xE0]);
    for _ in 0..5 {
        m.step().unwrap();
        assert_eq!(m.cpu().pc, PROG);
    }
    assert_eq!(m.cycles, 5);
    m.key_down(9);
    m.key_down(7);
    m.step().unwrap();
    assert_eq!(m.cpu().regs[3], 7);
    assert_eq!(m.cpu().pc, PROG + 2);
}

#[test]
fn key_skips() {
    // V1 := 4; skip if key V1; V2 := 1; skip if not key V1; V3 := 1
    let prog = [0x61, 0x04, 0xE1, 0x9E, 0x62, 0x01, 0xE1, 0xA1, 0x63, 0x01];
    let mut m = machine(&prog);
    run(&mut m, 4);
    assert_eq!(m.cpu().regs[2], 1);
    assert_eq!(m.cpu().regs[3], 0);
    assert_eq!(m.cpu().pc, PROG + 10);
    let mut m = machine(&prog);
    m.key_down(4);
    run(&mut m, 4);
    assert_eq!(m.cpu().regs[2], 0);
    assert_eq!(m.cpu().regs[3], 1);
    assert_eq!(m.cpu().pc, PROG + 10);
}

#[test]
fn key_index_past_keypad_is_never_held() {
    // V1 := 0x20; skip if key V1 held; V2 := 1
    let mut m = machine(&[0x61, 0x20, 0xE1, 0x9E, 0x62, 0x01]);
    m.key_down(0);
    run(&mut m, 3);
    assert_eq!(m.cpu().regs[2], 1);
}

#[test]
fn key_down_and_up() {
    let mut m = Chip8::new();
    m.key_down(3);
    m.key_down(15);
    assert_eq!(m.keys(), 0x8008);
    m.key_up(3);
    assert_eq!(m.keys(), 0x8000);
    m.key_up(3);
    assert_eq!(m.keys(), 0x8000);
}

#[test]
fn immediate_and_register_skips() {
    // V1 := 5; skip if V1 == 5; (skipped) V2 := 1; skip if V1 != 5; V3 := 1;
    // V4 := 5; skip if V1 == V4; (skipped) V5 := 1; skip if V1 != V4; V6 := 1
    let mut m = machine(&[
        0x61, 0x05, 0x31, 0x05, 0x62, 0x01, 0x41, 0x05, 0x63, 0x01, 0x64, 0x05, 0x51, 0x40,
        0x65, 0x01, 0x91, 0x40, 0x66, 0x01,
    ]);
    run(&mut m, 8);
    assert_eq!(m.cpu().regs[2], 0);
    assert_eq!(m.cpu().regs[3], 1);
    assert_eq!(m.cpu().regs[5], 0);
    assert_eq!(m.cpu().regs[6], 1);
    assert_eq!(m.cpu().pc, PROG + 20);
}

#[test]
fn jumps() {
    let mut m = machine(&[0x13, 0x00]);
    m.step().unwrap();
    assert_eq!(m.cpu().pc, 0x300);
    // V0 := 4; jump to V0 + 0x300
    let mut m = machine(&[0x60, 0x04, 0xB3, 0x00]);
    run(&mut m, 2);
    assert_eq!(m.cpu().pc, 0x304);
}

#[test]
fn native_call_is_a_no_op() {
    let mut m = machine(&[0x03, 0x00]);
    let sp0 = m.cpu().sp;
    m.step().unwrap();
    assert_eq!(m.cpu().pc, PROG + 2);
    assert_eq!(m.cpu().sp, sp0);
}

#[test]
fn halt_stops_the_machine() {
    let mut m = machine(&[0xFF, 0xFF]);
    assert!(m.running);
    m.step().unwrap();
    assert!(!m.running);
    assert_eq!(m.cpu().pc, PROG + 2);
}

#[test]
fn timers_tick_down_and_beep() {
    // V1 := 2; delay := V1; sound := V1; V2 := delay
    let mut m = machine(&[0x61, 0x02, 0xF1, 0x15, 0xF1, 0x18, 0xF2, 0x07]);
    run(&mut m, 3);
    assert_eq!(m.delay_timer(), 2);
    assert_eq!(m.sound_timer(), 2);
    assert!(!m.dec_timers());
    assert_eq!(m.sound_timer(), 1);
    m.step().unwrap();
    assert_eq!(m.cpu().regs[2], 1);
    assert!(m.dec_timers());
    assert_eq!(m.delay_timer(), 0);
    assert_eq!(m.sound_timer(), 0);
    assert!(!m.dec_timers());
    assert_eq!(m.delay_timer(), 0);
    assert_eq!(m.sound_timer(), 0);
}

#[test]
fn step_does_not_touch_timers() {
    let mut m = machine(&[0x61, 0x05, 0xF1, 0x15, 0x00, 0xE0, 0x00, 0xE0]);
    run(&mut m, 4);
    assert_eq!(m.delay_timer(), 5);
}

#[test]
fn index_register_ops() {
    // I := 0x123; V1 := 0x10; I += V1; V2 := 0xA; I := glyph(V2)
    let mut m = machine(&[0xA1, 0x23, 0x61, 0x10, 0xF1, 0x1E, 0x62, 0x0A, 0xF2, 0x29]);
    run(&mut m, 3);
    assert_eq!(m.cpu().i, 0x133);
    run(&mut m, 2);
    assert_eq!(m.cpu().i, 50);
    assert_eq!(&m.memory()[50..55], &[0xF0, 0x90, 0xF0, 0x90, 0x90]);
}

#[test]
fn register_dump_and_load() {
    // V0..V2 := 1, 2, 3; I := 0x300; dump V0..=V2; I := 0x300; load V0..=V1 into fresh values
    let mut m = machine(&[
        0x60, 0x01, 0x61, 0x02, 0x62, 0x03, 0xA3, 0x00, 0xF2, 0x55, 0x60, 0x00, 0x61, 0x00,
        0x62, 0x00, 0xA3, 0x00, 0xF1, 0x65,
    ]);
    run(&mut m, 5);
    assert_eq!(&m.memory()[0x300..0x304], &[1, 2, 3, 0]);
    assert_eq!(m.cpu().i, 0x303);
    run(&mut m, 5);
    assert_eq!(&m.cpu().regs[0..3], &[1, 2, 0]);
    assert_eq!(m.cpu().i, 0x302);
}

#[test]
fn random_is_masked() {
    let mut m = machine(&[0xC1, 0x00, 0xC2, 0x0F, 0xC3, 0xF0]);
    m.key_down(0);
    run(&mut m, 3);
    assert_eq!(m.cpu().regs[1], 0);
    assert!(m.cpu().regs[2] <= 0x0F);
    assert_eq!(m.cpu().regs[3] & 0x0F, 0);
}

#[test]
fn step_with_uses_given_byte() {
    let mut m = machine(&[0xC1, 0x3C]);
    m.step_with(0xA5).unwrap();
    assert_eq!(m.cpu().regs[1], 0x24);
}

#[test]
fn new_machine_state() {
    let m = Chip8::new();
    assert_eq!(m.memory().len(), 4096);
    assert_eq!(&m.memory()[0..5], &[0xF0, 0x90, 0x90, 0x90, 0xF0]);
    assert_eq!(&m.memory()[75..80], &[0xF0, 0x80, 0xF0, 0x80, 0x80]);
    assert!(m.memory()[80..].iter().all(|&b| b == 0));
    assert_eq!(m.gfx().len(), 64 * 32);
    assert!(m.gfx().iter().all(|&c| c == 0));
    assert_eq!(m.cpu().pc, 0x200);
    assert_eq!(m.cpu().i, 0);
    assert_eq!(m.cpu().regs, vec![0u8; 16]);
    assert_eq!(m.cycles, 0);
    assert!(m.draw);
    assert!(m.running);
    assert_eq!(m.step_mode, StepMode::Cycle);
    let m = m.with_mode(StepMode::Debug);
    assert_eq!(m.step_mode, StepMode::Debug);
}

#[test]
fn cpu_new() {
    let c = chip8::Cpu::new();
    assert_eq!(c.regs, vec![0u8; 16]);
    assert_eq!(c.i, 0);
    assert_eq!(c.pc, 0x200);
    assert_eq!(c.sp, 4096 - 256 - 96);
}

#[test]
fn load_limits() {
    let mut m = Chip8::new();
    let max = 4096 - 256 - 96 - 512;
    let big = vec![0xAAu8; max + 1];
    assert_eq!(m.load(&big), Err(LoadFault::TooLarge { len: max + 1, max }));
    assert!(m.memory()[0x200..].iter().all(|&b| b == 0));
    let fits = vec![0xABu8; max];
    assert_eq!(m.load(&fits), Ok(()));
    assert_eq!(m.memory()[0x200 + max - 1], 0xAB);
    assert_eq!(m.memory()[0x200 + max], 0);
    assert_eq!(m.load(&[]), Ok(()));
}

#[test]
fn illegal_instruction_faults() {
    let mut m = machine(&[0x60, 0x01, 0x51, 0x21]);
    m.step().unwrap();
    assert_eq!(m.step(), Err(ExecutionFault::IllegalInstruction { word: 0x5121, addr: 0x202 }));
    assert_eq!(m.cpu().pc, 0x202);
    assert_eq!(m.cycles, 1);
    let mut m = machine(&[0xE1, 0x00]);
    assert_eq!(m.step(), Err(ExecutionFault::IllegalInstruction { word: 0xE100, addr: 0x200 }));
}

#[test]
fn fetch_out_of_memory_faults() {
    let mut m = machine(&[0x1F, 0xFF]);
    m.step().unwrap();
    assert_eq!(m.fetch(), Err(ExecutionFault::MemoryFault { addr: 0xFFF }));
    assert_eq!(m.step(), Err(ExecutionFault::MemoryFault { addr: 0xFFF }));
    assert_eq!(m.cpu().pc, 0xFFF);
}

#[test]
fn stack_underflow_faults() {
    let mut m = machine(&[0x00, 0xEE]);
    assert_eq!(m.step(), Err(ExecutionFault::StackUnderflow { addr: 0x200 }));
    assert_eq!(m.cpu().pc, 0x200);
}

#[test]
fn stack_overflow_faults() {
    // call self forever: 48 frames fit
    let mut m = machine(&[0x22, 0x00]);
    run(&mut m, 48);
    assert_eq!(m.cpu().sp, 4096 - 256);
    assert_eq!(m.step(), Err(ExecutionFault::StackOverflow { addr: 0x200 }));
    assert_eq!(m.cpu().sp, 4096 - 256);
}

#[test]
fn glyph_table_is_write_protected() {
    // V0 := 1; I := 0x010; BCD V0
    let mut m = machine(&[0x60, 0x01, 0xA0, 0x10, 0xF0, 0x33]);
    run(&mut m, 2);
    assert_eq!(m.step(), Err(ExecutionFault::MemoryFault { addr: 0x10 }));
    assert_eq!(m.memory()[0x10], 0x10);
    // I := 0x04E; dump V0..=V2 would reach the table
    let mut m = machine(&[0xA0, 0x4E, 0xF2, 0x55]);
    m.step().unwrap();
    assert_eq!(m.step(), Err(ExecutionFault::MemoryFault { addr: 0x4E }));
    // loading from the table is fine
    let mut m = machine(&[0xA0, 0x00, 0xF1, 0x65]);
    run(&mut m, 2);
    assert_eq!(&m.cpu().regs[0..2], &[0xF0, 0x90]);
}

#[test]
fn bcd_of_small_values() {
    let mut m = machine(&[0x63, 7, 0xA3, 0x00, 0xF3, 0x33]);
    run(&mut m, 3);
    assert_eq!(&m.memory()[0x300..0x303], &[0, 0, 7]);
    let mut m = machine(&[0x63, 255, 0xA3, 0x00, 0xF3, 0x33]);
    run(&mut m, 3);
    assert_eq!(&m.memory()[0x300..0x303], &[2, 5, 5]);
}
