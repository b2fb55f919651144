//! Instruction decoding: a 16-bit big-endian word is split into nibble
//! fields and mapped to one tagged variant per defined opcode form, plus an
//! `Unknown` case for every word outside the instruction set.

use vstd::prelude::*;

verus! {

/// One decoded instruction. Field order follows the opcode fields:
/// register indices `x` and `y` are always below 16, immediates are the
/// low byte `nn` or the low twelve bits `nnn` of the word.
#[derive(Clone, Copy, Debug, PartialEq, Eq, Structural)]
pub enum Instr {
    /// `00E0`: clear the framebuffer.
    Cls,
    /// `00EE`: return from a subroutine.
    Ret,
    /// `1nnn`: jump to `nnn`.
    Jump(u16),
    /// `2nnn`: call the subroutine at `nnn`.
    Call(u16),
    /// `3xnn`: skip the next instruction if Vx equals `nn`.
    SkipEqImm(u8, u8),
    /// `4xnn`: skip the next instruction if Vx differs from `nn`.
    SkipNeImm(u8, u8),
    /// `5xy0`: skip the next instruction if Vx equals Vy.
    SkipEqReg(u8, u8),
    /// `6xnn`: Vx = `nn`.
    SetImm(u8, u8),
    /// `7xnn`: Vx = Vx + `nn`, wrapping; the carry flag is untouched.
    AddImm(u8, u8),
    /// `8xy0`: Vx = Vy.
    Mov(u8, u8),
    /// `8xy1`: Vx = Vx | Vy; VF is cleared.
    Or(u8, u8),
    /// `8xy2`: Vx = Vx & Vy; VF is cleared.
    And(u8, u8),
    /// `8xy3`: Vx = Vx ^ Vy; VF is cleared.
    Xor(u8, u8),
    /// `8xy4`: Vx = Vx + Vy with VF as the carry flag.
    Add(u8, u8),
    /// `8xy5`: Vx = Vx - Vy with VF as the no-borrow flag.
    Sub(u8, u8),
    /// `8xy6`: shift right by one; VF receives the bit shifted out.
    Shr(u8, u8),
    /// `8xy7`: Vx = Vy - Vx with VF as the no-borrow flag.
    Subn(u8, u8),
    /// `8xyE`: shift left by one; VF receives the bit shifted out.
    Shl(u8, u8),
    /// `9xy0`: skip the next instruction if Vx differs from Vy.
    SkipNeReg(u8, u8),
    /// `Annn`: I = `nnn`.
    SetIndex(u16),
    /// `Bnnn`: jump to `nnn` + V0.
    JumpPlusV0(u16),
    /// `Cxnn`: Vx = random byte & `nn`.
    Random(u8, u8),
    /// `Dxyn`: draw the `n`-row sprite at memory[I..] at column Vx, row Vy.
    Sprite(u8, u8, u8),
    /// `Ex9E`: skip the next instruction if the key with code Vx is pressed.
    SkipIfKey(u8),
    /// `ExA1`: skip the next instruction if the key with code Vx is not pressed.
    SkipIfNoKey(u8),
    /// `Fx07`: Vx = delay timer.
    ReadDelay(u8),
    /// `Fx0A`: block until a key is pressed; its code goes into Vx.
    WaitKey(u8),
    /// `Fx15`: delay timer = Vx.
    SetDelay(u8),
    /// `Fx18`: sound timer = Vx.
    SetSound(u8),
    /// `Fx1E`: I = I + Vx.
    AddIndex(u8),
    /// `Fx29`: I = address of the built-in glyph for digit Vx.
    GlyphAddr(u8),
    /// `Fx33`: write the decimal digits of Vx to memory[I..I+3).
    StoreBcd(u8),
    /// `Fx55`: copy V0..=Vx to memory starting at I.
    StoreRegs(u8),
    /// `Fx65`: load V0..=Vx from memory starting at I.
    LoadRegs(u8),
    /// Any word outside the instruction set; execution halts on it.
    Unknown(u16),
}

/// The meaning of each instruction word as a decoded variant.
pub open spec fn decode_spec(w: u16) -> Instr {
    let op = w / 0x1000;
    let x = ((w / 0x100) % 0x10) as u8;
    let y = ((w / 0x10) % 0x10) as u8;
    let n = (w % 0x10) as u8;
    let nn = (w % 0x100) as u8;
    let nnn = w % 0x1000;
    if w == 0x00E0 {
        Instr::Cls
    } else if w == 0x00EE {
        Instr::Ret
    } else if op == 0x1 {
        Instr::Jump(nnn)
    } else if op == 0x2 {
        Instr::Call(nnn)
    } else if op == 0x3 {
        Instr::SkipEqImm(x, nn)
    } else if op == 0x4 {
        Instr::SkipNeImm(x, nn)
    } else if op == 0x5 && n == 0 {
        Instr::SkipEqReg(x, y)
    } else if op == 0x6 {
        Instr::SetImm(x, nn)
    } else if op == 0x7 {
        Instr::AddImm(x, nn)
    } else if op == 0x8 {
        match n {
            0x0 => Instr::Mov(x, y),
            0x1 => Instr::Or(x, y),
            0x2 => Instr::And(x, y),
            0x3 => Instr::Xor(x, y),
            0x4 => Instr::Add(x, y),
            0x5 => Instr::Sub(x, y),
            0x6 => Instr::Shr(x, y),
            0x7 => Instr::Subn(x, y),
            0xE => Instr::Shl(x, y),
            _ => Instr::Unknown(w),
        }
    } else if op == 0x9 && n == 0 {
        Instr::SkipNeReg(x, y)
    } else if op == 0xA {
        Instr::SetIndex(nnn)
    } else if op == 0xB {
        Instr::JumpPlusV0(nnn)
    } else if op == 0xC {
        Instr::Random(x, nn)
    } else if op == 0xD {
        Instr::Sprite(x, y, n)
    } else if op == 0xE && nn == 0x9E {
        Instr::SkipIfKey(x)
    } else if op == 0xE && nn == 0xA1 {
        Instr::SkipIfNoKey(x)
    } else if op == 0xF {
        match nn {
            0x07 => Instr::ReadDelay(x),
            0x0A => Instr::WaitKey(x),
            0x15 => Instr::SetDelay(x),
            0x18 => Instr::SetSound(x),
            0x1E => Instr::AddIndex(x),
            0x29 => Instr::GlyphAddr(x),
            0x33 => Instr::StoreBcd(x),
            0x55 => Instr::StoreRegs(x),
            0x65 => Instr::LoadRegs(x),
            _ => Instr::Unknown(w),
        }
    } else {
        Instr::Unknown(w)
    }
}

/// Register indices and row counts decoded from a word are nibbles, and
/// addresses are twelve bits, so every decoded field is in range.
pub proof fn lemma_decode_fields_bounded(w: u16)
    ensures
        match decode_spec(w) {
            Instr::Jump(nnn) => nnn < 0x1000,
            Instr::Call(nnn) => nnn < 0x1000,
            Instr::SkipEqImm(x, _) => x < 16,
            Instr::SkipNeImm(x, _) => x < 16,
            Instr::SkipEqReg(x, y) => x < 16 && y < 16,
            Instr::SetImm(x, _) => x < 16,
            Instr::AddImm(x, _) => x < 16,
            Instr::Mov(x, y) => x < 16 && y < 16,
            Instr::Or(x, y) => x < 16 && y < 16,
            Instr::And(x, y) => x < 16 && y < 16,
            Instr::Xor(x, y) => x < 16 && y < 16,
            Instr::Add(x, y) => x < 16 && y < 16,
            Instr::Sub(x, y) => x < 16 && y < 16,
            Instr::Shr(x, y) => x < 16 && y < 16,
            Instr::Subn(x, y) => x < 16 && y < 16,
            Instr::Shl(x, y) => x < 16 && y < 16,
            Instr::SkipNeReg(x, y) => x < 16 && y < 16,
            Instr::SetIndex(nnn) => nnn < 0x1000,
            Instr::JumpPlusV0(nnn) => nnn < 0x1000,
            Instr::Random(x, _) => x < 16,
            Instr::Sprite(x, y, n) => x < 16 && y < 16 && n < 16,
            Instr::SkipIfKey(x) => x < 16,
            Instr::SkipIfNoKey(x) => x < 16,
            Instr::ReadDelay(x) => x < 16,
            Instr::WaitKey(x) => x < 16,
            Instr::SetDelay(x) => x < 16,
            Instr::SetSound(x) => x < 16,
            Instr::AddIndex(x) => x < 16,
            Instr::GlyphAddr(x) => x < 16,
            Instr::StoreBcd(x) => x < 16,
            Instr::StoreRegs(x) => x < 16,
            Instr::LoadRegs(x) => x < 16,
            _ => true,
        },
{
}

/// Splits an instruction word into its decoded variant.
pub fn decode(w: u16) -> (instr: Instr)
    ensures
        instr == decode_spec(w),
{
    let op = w / 0x1000;
    let x = ((w / 0x100) % 0x10) as u8;
    let y = ((w / 0x10) % 0x10) as u8;
    let n = (w % 0x10) as u8;
    let nn = (w % 0x100) as u8;
    let nnn = w % 0x1000;
    if w == 0x00E0 {
        Instr::Cls
    } else if w == 0x00EE {
        Instr::Ret
    } else if op == 0x1 {
        Instr::Jump(nnn)
    } else if op == 0x2 {
        Instr::Call(nnn)
    } else if op == 0x3 {
        Instr::SkipEqImm(x, nn)
    } else if op == 0x4 {
        Instr::SkipNeImm(x, nn)
    } else if op == 0x5 && n == 0 {
        Instr::SkipEqReg(x, y)
    } else if op == 0x6 {
        Instr::SetImm(x, nn)
    } else if op == 0x7 {
        Instr::AddImm(x, nn)
    } else if op == 0x8 {
        match n {
            0x0 => Instr::Mov(x, y),
            0x1 => Instr::Or(x, y),
            0x2 => Instr::And(x, y),
            0x3 => Instr::Xor(x, y),
            0x4 => Instr::Add(x, y),
            0x5 => Instr::Sub(x, y),
            0x6 => Instr::Shr(x, y),
            0x7 => Instr::Subn(x, y),
            0xE => Instr::Shl(x, y),
            _ => Instr::Unknown(w),
        }
    } else if op == 0x9 && n == 0 {
        Instr::SkipNeReg(x, y)
    } else if op == 0xA {
        Instr::SetIndex(nnn)
    } else if op == 0xB {
        Instr::JumpPlusV0(nnn)
    } else if op == 0xC {
        Instr::Random(x, nn)
    } else if op == 0xD {
        Instr::Sprite(x, y, n)
    } else if op == 0xE && nn == 0x9E {
        Instr::SkipIfKey(x)
    } else if op == 0xE && nn == 0xA1 {
        Instr::SkipIfNoKey(x)
    } else if op == 0xF {
        match nn {
            0x07 => Instr::ReadDelay(x),
            0x0A => Instr::WaitKey(x),
            0x15 => Instr::SetDelay(x),
            0x18 => Instr::SetSound(x),
            0x1E => Instr::AddIndex(x),
            0x29 => Instr::GlyphAddr(x),
            0x33 => Instr::StoreBcd(x),
            0x55 => Instr::StoreRegs(x),
            0x65 => Instr::LoadRegs(x),
            _ => Instr::Unknown(w),
        }
    } else {
        Instr::Unknown(w)
    }
}

} // verus!
