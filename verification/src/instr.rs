use vstd::prelude::*;

verus! {

/// A decoded instruction. Operand fields come from the nibbles of the
/// 16-bit opcode: x and y name registers, kk is a byte literal, nnn a
/// 12-bit address, n a 4-bit sprite height.
#[derive(Clone, Copy, Debug, PartialEq, Eq, Structural)]
pub enum Instr {
    /// 00E0: clear the screen.
    Cls,
    /// 00EE: return from a subroutine.
    Ret,
    /// 1nnn: jump to nnn.
    Jump { nnn: u16 },
    /// 2nnn: call the subroutine at nnn.
    Call { nnn: u16 },
    /// 3xkk: skip the next instruction if Vx == kk.
    SkipEqImm { x: u8, kk: u8 },
    /// 4xkk: skip the next instruction if Vx != kk.
    SkipNeImm { x: u8, kk: u8 },
    /// 5xy0: skip the next instruction if Vx == Vy.
    SkipEqReg { x: u8, y: u8 },
    /// 6xkk: Vx = kk.
    LoadImm { x: u8, kk: u8 },
    /// 7xkk: Vx = Vx + kk, wrapping, flags untouched.
    AddImm { x: u8, kk: u8 },
    /// 8xy0: Vx = Vy.
    CopyReg { x: u8, y: u8 },
    /// 8xy1: Vx = Vx | Vy.
    OrReg { x: u8, y: u8 },
    /// 8xy2: Vx = Vx & Vy.
    AndReg { x: u8, y: u8 },
    /// 8xy3: Vx = Vx ^ Vy.
    XorReg { x: u8, y: u8 },
    /// 8xy4: Vx = Vx + Vy, VF = carry.
    AddReg { x: u8, y: u8 },
    /// 8xy5: Vx = Vx - Vy, VF = 1 when no borrow.
    SubReg { x: u8, y: u8 },
    /// 8xy6: shift right by one, VF = the bit shifted out.
    ShrReg { x: u8, y: u8 },
    /// 8xy7: Vx = Vy - Vx, VF = 1 when no borrow.
    SubRevReg { x: u8, y: u8 },
    /// 8xyE: shift left by one, VF = the bit shifted out.
    ShlReg { x: u8, y: u8 },
    /// 9xy0: skip the next instruction if Vx != Vy.
    SkipNeReg { x: u8, y: u8 },
    /// Annn: I = nnn.
    LoadIndex { nnn: u16 },
    /// Bnnn: jump to nnn + V0.
    JumpOffset { nnn: u16 },
    /// Cxkk: Vx = random byte & kk.
    Rand { x: u8, kk: u8 },
    /// Dxyn: draw the n-byte sprite at memory[I..] at (Vx, Vy), VF = collision.
    Draw { x: u8, y: u8, n: u8 },
    /// Ex9E: skip the next instruction if the key Vx is pressed.
    SkipKey { x: u8 },
    /// ExA1: skip the next instruction if the key Vx is not pressed.
    SkipNoKey { x: u8 },
    /// Fx07: Vx = delay timer.
    ReadDelay { x: u8 },
    /// Fx0A: wait for a key press; the cycle does not move past this
    /// instruction until some key is down, then Vx = the lowest such key.
    WaitKey { x: u8 },
    /// Fx15: delay timer = Vx.
    WriteDelay { x: u8 },
    /// Fx18: sound timer = Vx.
    WriteSound { x: u8 },
    /// Fx1E: I = I + Vx, wrapping in 16 bits.
    AddIndex { x: u8 },
    /// Fx29: I = the address of the built-in font sprite for the digit Vx.
    FontIndex { x: u8 },
    /// Fx33: store the three decimal digits of Vx at memory[I..I+3).
    StoreBcd { x: u8 },
    /// Fx55: store V0..=Vx at memory[I..].
    StoreRegs { x: u8 },
    /// Fx65: load V0..=Vx from memory[I..].
    LoadRegs { x: u8 },
}

/// Decode a 16-bit opcode. None means the word is not an instruction of
/// this machine (the classic CHIP-8 set; 0nnn system calls are refused).
pub open spec fn spec_decode(op: u16) -> Option<Instr> {
    let hi = op / 0x1000;
    let x = ((op / 0x100) % 0x10) as u8;
    let y = ((op / 0x10) % 0x10) as u8;
    let n = (op % 0x10) as u8;
    let kk = (op % 0x100) as u8;
    let nnn = op % 0x1000;
    if op == 0x00E0 {
        Some(Instr::Cls)
    } else if op == 0x00EE {
        Some(Instr::Ret)
    } else if hi == 0x1 {
        Some(Instr::Jump { nnn })
    } else if hi == 0x2 {
        Some(Instr::Call { nnn })
    } else if hi == 0x3 {
        Some(Instr::SkipEqImm { x, kk })
    } else if hi == 0x4 {
        Some(Instr::SkipNeImm { x, kk })
    } else if hi == 0x5 && n == 0 {
        Some(Instr::SkipEqReg { x, y })
    } else if hi == 0x6 {
        Some(Instr::LoadImm { x, kk })
    } else if hi == 0x7 {
        Some(Instr::AddImm { x, kk })
    } else if hi == 0x8 {
        if n == 0x0 { Some(Instr::CopyReg { x, y }) }
        else if n == 0x1 { Some(Instr::OrReg { x, y }) }
        else if n == 0x2 { Some(Instr::AndReg { x, y }) }
        else if n == 0x3 { Some(Instr::XorReg { x, y }) }
        else if n == 0x4 { Some(Instr::AddReg { x, y }) }
        else if n == 0x5 { Some(Instr::SubReg { x, y }) }
        else if n == 0x6 { Some(Instr::ShrReg { x, y }) }
        else if n == 0x7 { Some(Instr::SubRevReg { x, y }) }
        else if n == 0xE { Some(Instr::ShlReg { x, y }) }
        else { None }
    } else if hi == 0x9 && n == 0 {
        Some(Instr::SkipNeReg { x, y })
    } else if hi == 0xA {
        Some(Instr::LoadIndex { nnn })
    } else if hi == 0xB {
        Some(Instr::JumpOffset { nnn })
    } else if hi == 0xC {
        Some(Instr::Rand { x, kk })
    } else if hi == 0xD {
        Some(Instr::Draw { x, y, n })
    } else if hi == 0xE && kk == 0x9E {
        Some(Instr::SkipKey { x })
    } else if hi == 0xE && kk == 0xA1 {
        Some(Instr::SkipNoKey { x })
    } else if hi == 0xF {
        if kk == 0x07 { Some(Instr::ReadDelay { x }) }
        else if kk == 0x0A { Some(Instr::WaitKey { x }) }
        else if kk == 0x15 { Some(Instr::WriteDelay { x }) }
        else if kk == 0x18 { Some(Instr::WriteSound { x }) }
        else if kk == 0x1E { Some(Instr::AddIndex { x }) }
        else if kk == 0x29 { Some(Instr::FontIndex { x }) }
        else if kk == 0x33 { Some(Instr::StoreBcd { x }) }
        else if kk == 0x55 { Some(Instr::StoreRegs { x }) }
        else if kk == 0x65 { Some(Instr::LoadRegs { x }) }
        else { None }
    } else {
        None
    }
}

/// Every operand field of a decoded instruction is in range: register
/// numbers below 16, addresses below 4096, heights below 16.
pub open spec fn instr_bounds(ins: Instr) -> bool {
    match ins {
        Instr::Cls => true,
        Instr::Ret => true,
        Instr::Jump { nnn } => nnn < 0x1000,
        Instr::Call { nnn } => nnn < 0x1000,
        Instr::SkipEqImm { x, kk } => x < 16,
        Instr::SkipNeImm { x, kk } => x < 16,
        Instr::SkipEqReg { x, y } => x < 16 && y < 16,
        Instr::LoadImm { x, kk } => x < 16,
        Instr::AddImm { x, kk } => x < 16,
        Instr::CopyReg { x, y } => x < 16 && y < 16,
        Instr::OrReg { x, y } => x < 16 && y < 16,
        Instr::AndReg { x, y } => x < 16 && y < 16,
        Instr::XorReg { x, y } => x < 16 && y < 16,
        Instr::AddReg { x, y } => x < 16 && y < 16,
        Instr::SubReg { x, y } => x < 16 && y < 16,
        Instr::ShrReg { x, y } => x < 16 && y < 16,
        Instr::SubRevReg { x, y } => x < 16 && y < 16,
        Instr::ShlReg { x, y } => x < 16 && y < 16,
        Instr::SkipNeReg { x, y } => x < 16 && y < 16,
        Instr::LoadIndex { nnn } => nnn < 0x1000,
        Instr::JumpOffset { nnn } => nnn < 0x1000,
        Instr::Rand { x, kk } => x < 16,
        Instr::Draw { x, y, n } => x < 16 && y < 16 && n < 16,
        Instr::SkipKey { x } => x < 16,
        Instr::SkipNoKey { x } => x < 16,
        Instr::ReadDelay { x } => x < 16,
        Instr::WaitKey { x } => x < 16,
        Instr::WriteDelay { x } => x < 16,
        Instr::WriteSound { x } => x < 16,
        Instr::AddIndex { x } => x < 16,
        Instr::FontIndex { x } => x < 16,
        Instr::StoreBcd { x } => x < 16,
        Instr::StoreRegs { x } => x < 16,
        Instr::LoadRegs { x } => x < 16,
    }
}

/// Every instruction that spec_decode yields has in-range operand fields.
pub proof fn lemma_decode_bounds(op: u16)
    ensures
        spec_decode(op) matches Some(ins) ==> instr_bounds(ins),
{
}

/// Executable decoder; it computes exactly spec_decode.
pub fn decode(op: u16) -> (r: Option<Instr>)
    ensures
        r == spec_decode(op),
        r matches Some(ins) ==> instr_bounds(ins),
{
    let hi = op / 0x1000;
    let x = ((op / 0x100) % 0x10) as u8;
    let y = ((op / 0x10) % 0x10) as u8;
    let n = (op % 0x10) as u8;
    let kk = (op % 0x100) as u8;
    let nnn = op % 0x1000;
    proof {
        lemma_decode_bounds(op);
    }
    if op == 0x00E0 {
        Some(Instr::Cls)
    } else if op == 0x00EE {
        Some(Instr::Ret)
    } else if hi == 0x1 {
        Some(Instr::Jump { nnn })
    } else if hi == 0x2 {
        Some(Instr::Call { nnn })
    } else if hi == 0x3 {
        Some(Instr::SkipEqImm { x, kk })
    } else if hi == 0x4 {
        Some(Instr::SkipNeImm { x, kk })
    } else if hi == 0x5 && n == 0 {
        Some(Instr::SkipEqReg { x, y })
    } else if hi == 0x6 {
        Some(Instr::LoadImm { x, kk })
    } else if hi == 0x7 {
        Some(Instr::AddImm { x, kk })
    } else if hi == 0x8 {
        if n == 0x0 { Some(Instr::CopyReg { x, y }) }
        else if n == 0x1 { Some(Instr::OrReg { x, y }) }
        else if n == 0x2 { Some(Instr::AndReg { x, y }) }
        else if n == 0x3 { Some(Instr::XorReg { x, y }) }
        else if n == 0x4 { Some(Instr::AddReg { x, y }) }
        else if n == 0x5 { Some(Instr::SubReg { x, y }) }
        else if n == 0x6 { Some(Instr::ShrReg { x, y }) }
        else if n == 0x7 { Some(Instr::SubRevReg { x, y }) }
        else if n == 0xE { Some(Instr::ShlReg { x, y }) }
        else { None }
    } else if hi == 0x9 && n == 0 {
        Some(Instr::SkipNeReg { x, y })
    } else if hi == 0xA {
        Some(Instr::LoadIndex { nnn })
    } else if hi == 0xB {
        Some(Instr::JumpOffset { nnn })
    } else if hi == 0xC {
        Some(Instr::Rand { x, kk })
    } else if hi == 0xD {
        Some(Instr::Draw { x, y, n })
    } else if hi == 0xE && kk == 0x9E {
        Some(Instr::SkipKey { x })
    } else if hi == 0xE && kk == 0xA1 {
        Some(Instr::SkipNoKey { x })
    } else if hi == 0xF {
        if kk == 0x07 { Some(Instr::ReadDelay { x }) }
        else if kk == 0x0A { Some(Instr::WaitKey { x }) }
        else if kk == 0x15 { Some(Instr::WriteDelay { x }) }
        else if kk == 0x18 { Some(Instr::WriteSound { x }) }
        else if kk == 0x1E { Some(Instr::AddIndex { x }) }
        else if kk == 0x29 { Some(Instr::FontIndex { x }) }
        else if kk == 0x33 { Some(Instr::StoreBcd { x }) }
        else if kk == 0x55 { Some(Instr::StoreRegs { x }) }
        else if kk == 0x65 { Some(Instr::LoadRegs { x }) }
        else { None }
    } else {
        None
    }
}

} // verus!
