use vstd::prelude::*;

verus! {

/// Index of a general-purpose register (`0..16`).
pub type RegId = usize;

/// A 12-bit memory address taken from an instruction word.
pub type Addr = usize;

/// One decoded instruction.
#[derive(Debug, Clone, Copy, PartialEq, Eq, Structural)]
pub enum OpCode {
    /// `0NNN`: legacy machine-code routine call, executed as a no-op.
    NativeCall(Addr),
    /// `00E0`: clear the framebuffer.
    DispClear,
    /// `00EE`: return from a subroutine.
    Ret,
    /// `1NNN`: jump to `NNN`.
    Jmp(Addr),
    /// `2NNN`: call the subroutine at `NNN`.
    Call(Addr),
    /// `3XNN`: skip if `VX == NN`.
    ImEq(RegId, u8),
    /// `4XNN`: skip if `VX != NN`.
    ImNeq(RegId, u8),
    /// `5XY0`: skip if `VX == VY`.
    RREq(RegId, RegId),
    /// `6XNN`: `VX := NN`.
    IRMov(RegId, u8),
    /// `7XNN`: `VX := VX + NN`, wrapping, flag untouched.
    IRAdd(RegId, u8),
    /// `8XY0`: `VX := VY`.
    RRMov(RegId, RegId),
    /// `8XY1`: `VX := VX | VY`.
    RROr(RegId, RegId),
    /// `8XY2`: `VX := VX & VY`.
    RRAnd(RegId, RegId),
    /// `8XY3`: `VX := VX ^ VY`.
    RRXor(RegId, RegId),
    /// `8XY4`: `VX := VX + VY`, `VF := carry`.
    RRAdd(RegId, RegId),
    /// `8XY5`: `VX := VX - VY`, `VF := no borrow`.
    RRSub(RegId, RegId),
    /// `8XY6`: `VX := VX >> 1`, `VF := bit shifted out`.
    RRShr(RegId),
    /// `8XY7`: `VX := VY - VX`, `VF := no borrow`.
    RRSub2(RegId, RegId),
    /// `8XYE`: `VX := VX << 1`, `VF := bit shifted out`.
    RRShl(RegId),
    /// `9XY0`: skip if `VX != VY`.
    RRNeq(RegId, RegId),
    /// `ANNN`: `I := NNN`.
    Index(Addr),
    /// `BNNN`: jump to `V0 + NNN`.
    JmpAdd(Addr),
    /// `CXNN`: `VX := random & NN`.
    Rand(RegId, u8),
    /// `DXYN`: draw an `N`-row sprite from `I` at `(VX, VY)`.
    Draw(RegId, RegId, u8),
    /// `EX9E`: skip if key `VX` is held.
    KeyEq(RegId),
    /// `EXA1`: skip if key `VX` is not held.
    KeyNeq(RegId),
    /// `FX07`: `VX := delay timer`.
    DelayGet(RegId),
    /// `FX0A`: wait for a key press, store its index in `VX`.
    KeyWait(RegId),
    /// `FX15`: `delay timer := VX`.
    DelaySet(RegId),
    /// `FX18`: `sound timer := VX`.
    SoundSet(RegId),
    /// `FX1E`: `I := I + VX`.
    IncIndex(RegId),
    /// `FX29`: `I := address of the glyph for VX`.
    SpriteAddr(RegId),
    /// `FX33`: store the decimal digits of `VX` at `I, I+1, I+2`.
    BCD(RegId),
    /// `FX55`: store `V0..=VX` at `I..`, then advance `I`.
    RegDump(RegId),
    /// `FX65`: load `V0..=VX` from `I..`, then advance `I`.
    RegLoad(RegId),
    /// `FXFF`: stop the machine.
    Halt,
    /// Any word that matches no instruction.
    Invalid,
}

/// Operation class: the top nibble of an instruction word.
pub open spec fn class_of(w: u16) -> int {
    w as int / 0x1000
}

/// The `X` register field (second nibble).
pub open spec fn x_of(w: u16) -> int {
    (w as int / 0x100) % 0x10
}

/// The `Y` register field (third nibble).
pub open spec fn y_of(w: u16) -> int {
    (w as int / 0x10) % 0x10
}

/// The sub-operation field (lowest nibble).
pub open spec fn n_of(w: u16) -> int {
    w as int % 0x10
}

/// The 8-bit immediate field.
pub open spec fn kk_of(w: u16) -> int {
    w as int % 0x100
}

/// The 12-bit address field.
pub open spec fn nnn_of(w: u16) -> int {
    w as int % 0x1000
}

/// What a 16-bit instruction word means.
pub open spec fn decoded(w: u16) -> OpCode {
    let x = x_of(w) as usize;
    let y = y_of(w) as usize;
    let n = n_of(w);
    let kk = kk_of(w) as u8;
    let nnn = nnn_of(w) as usize;
    let c = class_of(w);
    if c == 0x0 {
        if kk == 0xEE {
            OpCode::Ret
        } else if kk == 0xE0 {
            OpCode::DispClear
        } else {
            OpCode::NativeCall(nnn)
        }
    } else if c == 0x1 {
        OpCode::Jmp(nnn)
    } else if c == 0x2 {
        OpCode::Call(nnn)
    } else if c == 0x3 {
        OpCode::ImEq(x, kk)
    } else if c == 0x4 {
        OpCode::ImNeq(x, kk)
    } else if c == 0x5 {
        if n == 0 { OpCode::RREq(x, y) } else { OpCode::Invalid }
    } else if c == 0x6 {
        OpCode::IRMov(x, kk)
    } else if c == 0x7 {
        OpCode::IRAdd(x, kk)
    } else if c == 0x8 {
        if n == 0x0 {
            OpCode::RRMov(x, y)
        } else if n == 0x1 {
            OpCode::RROr(x, y)
        } else if n == 0x2 {
            OpCode::RRAnd(x, y)
        } else if n == 0x3 {
            OpCode::RRXor(x, y)
        } else if n == 0x4 {
            OpCode::RRAdd(x, y)
        } else if n == 0x5 {
            OpCode::RRSub(x, y)
        } else if n == 0x6 {
            OpCode::RRShr(x)
        } else if n == 0x7 {
            OpCode::RRSub2(x, y)
        } else if n == 0xE {
            OpCode::RRShl(x)
        } else {
            OpCode::Invalid
        }
    } else if c == 0x9 {
        if n == 0 { OpCode::RRNeq(x, y) } else { OpCode::Invalid }
    } else if c == 0xA {
        OpCode::Index(nnn)
    } else if c == 0xB {
        OpCode::JmpAdd(nnn)
    } else if c == 0xC {
        OpCode::Rand(x, kk)
    } else if c == 0xD {
        OpCode::Draw(x, y, n as u8)
    } else if c == 0xE {
        if kk == 0x9E {
            OpCode::KeyEq(x)
        } else if kk == 0xA1 {
            OpCode::KeyNeq(x)
        } else {
            OpCode::Invalid
        }
    } else {
        if kk == 0x07 {
            OpCode::DelayGet(x)
        } else if kk == 0x0A {
            OpCode::KeyWait(x)
        } else if kk == 0x15 {
            OpCode::DelaySet(x)
        } else if kk == 0x18 {
            OpCode::SoundSet(x)
        } else if kk == 0x1E {
            OpCode::IncIndex(x)
        } else if kk == 0x29 {
            OpCode::SpriteAddr(x)
        } else if kk == 0x33 {
            OpCode::BCD(x)
        } else if kk == 0x55 {
            OpCode::RegDump(x)
        } else if kk == 0x65 {
            OpCode::RegLoad(x)
        } else if kk == 0xFF {
            OpCode::Halt
        } else {
            OpCode::Invalid
        }
    }
}

/// Register and address fields of every decoded instruction are in range.
pub open spec fn fields_in_range(op: OpCode) -> bool {
    match op {
        OpCode::NativeCall(a) | OpCode::Jmp(a) | OpCode::Call(a) | OpCode::Index(a)
        | OpCode::JmpAdd(a) => a < 0x1000,
        OpCode::ImEq(x, _) | OpCode::ImNeq(x, _) | OpCode::IRMov(x, _) | OpCode::IRAdd(x, _)
        | OpCode::Rand(x, _) => x < 16,
        OpCode::RREq(x, y) | OpCode::RRMov(x, y) | OpCode::RROr(x, y) | OpCode::RRAnd(x, y)
        | OpCode::RRXor(x, y) | OpCode::RRAdd(x, y) | OpCode::RRSub(x, y)
        | OpCode::RRSub2(x, y) | OpCode::RRNeq(x, y) => x < 16 && y < 16,
        OpCode::Draw(x, y, n) => x < 16 && y < 16 && n < 16,
        OpCode::RRShr(x) | OpCode::RRShl(x) | OpCode::KeyEq(x) | OpCode::KeyNeq(x)
        | OpCode::DelayGet(x) | OpCode::KeyWait(x) | OpCode::DelaySet(x)
        | OpCode::SoundSet(x) | OpCode::IncIndex(x) | OpCode::SpriteAddr(x) | OpCode::BCD(x)
        | OpCode::RegDump(x) | OpCode::RegLoad(x) => x < 16,
        OpCode::DispClear | OpCode::Ret | OpCode::Halt | OpCode::Invalid => true,
    }
}

/// Every word decodes to an instruction whose fields are in range.
pub proof fn lemma_decoded_fields_in_range(w: u16)
    ensures
        fields_in_range(decoded(w)),
{
}

/// The field extractors agree with shifts and masks.
pub proof fn lemma_fields(w: u16)
    ensures
        (w >> 12) as int == class_of(w),
        ((w >> 8) & 0x0f) as int == x_of(w),
        ((w >> 4) & 0x0f) as int == y_of(w),
        (w & 0x0f) as int == n_of(w),
        (w & 0xff) as int == kk_of(w),
        (w & 0x0fff) as int == nnn_of(w),
{
    assert((w >> 12) == w / 0x1000) by (bit_vector);
    assert(((w >> 8) & 0x0f) == (w / 0x100) % 0x10) by (bit_vector);
    assert(((w >> 4) & 0x0f) == (w / 0x10) % 0x10) by (bit_vector);
    assert((w & 0x0f) == w % 0x10) by (bit_vector);
    assert((w & 0xff) == w % 0x100) by (bit_vector);
    assert((w & 0x0fff) == w % 0x1000) by (bit_vector);
}

} // verus!
