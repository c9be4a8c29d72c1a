use vstd::prelude::*;

verus! {

/// The first (most significant) nibble of an instruction word.
pub open spec fn nib1(op: u16) -> u8 {
    ((op >> 12) & 0xF) as u8
}

/// The second nibble: the `x` register selector.
pub open spec fn nib_x(op: u16) -> u8 {
    ((op >> 8) & 0xF) as u8
}

/// The third nibble: the `y` register selector.
pub open spec fn nib_y(op: u16) -> u8 {
    ((op >> 4) & 0xF) as u8
}

/// The fourth (least significant) nibble.
pub open spec fn nib4(op: u16) -> u8 {
    (op & 0xF) as u8
}

/// The low twelve bits: an address immediate.
pub open spec fn imm_nnn(op: u16) -> u16 {
    op & 0xFFF
}

/// The low byte: an eight-bit immediate.
pub open spec fn imm_kk(op: u16) -> u8 {
    (op & 0xFF) as u8
}

/// One decoded instruction of the interpreter core.  `Nop` stands for every
/// unrecognized opcode pattern: decoding is deliberately permissive, and an
/// unknown word executes as a no-op.
#[derive(Clone, Copy, Debug, PartialEq, Eq, Structural)]
pub enum Instr {
    /// `00E0`: zero the entire display.
    Cls,
    /// `00EE`: return from a subroutine.
    Ret,
    /// `1nnn`: jump to `nnn`.
    Jump(u16),
    /// `2nnn`: call the subroutine at `nnn`.
    Call(u16),
    /// `3xkk`: skip the next instruction if `Vx == kk`.
    SkipEqImm(u8, u8),
    /// `4xkk`: skip the next instruction if `Vx != kk`.
    SkipNeImm(u8, u8),
    /// `5xy0`: skip the next instruction if `Vx == Vy`.
    SkipEqReg(u8, u8),
    /// `6xkk`: `Vx := kk`.
    LoadImm(u8, u8),
    /// `7xkk`: `Vx := Vx + kk`, wrapping, flags untouched.
    AddImm(u8, u8),
    /// `8xy0`: `Vx := Vy`.
    Move(u8, u8),
    /// `8xy1`: `Vx := Vx | Vy`.
    Or(u8, u8),
    /// `8xy2`: `Vx := Vx & Vy`.
    And(u8, u8),
    /// `8xy3`: `Vx := Vx ^ Vy`.
    Xor(u8, u8),
    /// `8xy4`: `Vx := Vx + Vy` wrapping, `VF` set to the carry.
    Add(u8, u8),
    /// `8xy5`: `Vx := Vx - Vy` wrapping, `VF` set when no borrow occurs.
    Sub(u8, u8),
    /// `8xy6`: `VF :=` the least significant bit of `Vx`; `Vx := Vx >> 1`.
    Shr(u8),
    /// `8xy7`: `Vx := Vy - Vx` wrapping, `VF` set when no borrow occurs.
    Subn(u8, u8),
    /// `8xyE`: `VF :=` the most significant bit of `Vx`; `Vx := Vx << 1`.
    Shl(u8),
    /// `9xy0`: skip the next instruction if `Vx != Vy`.
    SkipNeReg(u8, u8),
    /// `Annn`: `I := nnn`.
    LoadIndex(u16),
    /// `Bnnn`: jump to `nnn + V0`.
    JumpOffset(u16),
    /// `Cxkk`: `Vx := kk &` the caller-supplied random byte.
    Rand(u8, u8),
    /// `Dxyn`: draw the 8-by-`n` sprite at `memory[I..I+n]` at `(Vx, Vy)`;
    /// `VF` set to the collision signal.
    Draw(u8, u8, u8),
    /// `Ex9E`: skip the next instruction if key number `Vx` is pressed.
    SkipKey(u8),
    /// `ExA1`: skip the next instruction if key number `Vx` is not pressed.
    SkipNoKey(u8),
    /// `Fx07`: `Vx := delay timer`.
    LoadDelay(u8),
    /// `Fx0A`: stall until a key is pressed, then store its index in `Vx`.
    WaitKey(u8),
    /// `Fx15`: `delay timer := Vx`.
    SetDelay(u8),
    /// `Fx18`: `sound timer := Vx`.
    SetSound(u8),
    /// `Fx1E`: `I := I + Vx`.
    AddIndex(u8),
    /// `Fx29`: `I :=` the font glyph address of digit `Vx`.
    FontAddr(u8),
    /// `Fx33`: write the decimal digits of `Vx` at `memory[I..I+3]`.
    Bcd(u8),
    /// `Fx55`: copy `V0..=Vx` into `memory[I..]`.
    StoreRegs(u8),
    /// `Fx65`: copy `memory[I..]` into `V0..=Vx`.
    LoadRegs(u8),
    /// Any unrecognized opcode: state is left unchanged.
    Nop,
}

/// Every register selector and immediate of a decoded instruction lies in
/// the range its bit width allows.
pub open spec fn instr_wf(instr: Instr) -> bool {
    match instr {
        Instr::Cls => true,
        Instr::Ret => true,
        Instr::Jump(nnn) => nnn < 4096,
        Instr::Call(nnn) => nnn < 4096,
        Instr::SkipEqImm(x, _kk) => x < 16,
        Instr::SkipNeImm(x, _kk) => x < 16,
        Instr::SkipEqReg(x, y) => x < 16 && y < 16,
        Instr::LoadImm(x, _kk) => x < 16,
        Instr::AddImm(x, _kk) => x < 16,
        Instr::Move(x, y) => x < 16 && y < 16,
        Instr::Or(x, y) => x < 16 && y < 16,
        Instr::And(x, y) => x < 16 && y < 16,
        Instr::Xor(x, y) => x < 16 && y < 16,
        Instr::Add(x, y) => x < 16 && y < 16,
        Instr::Sub(x, y) => x < 16 && y < 16,
        Instr::Shr(x) => x < 16,
        Instr::Subn(x, y) => x < 16 && y < 16,
        Instr::Shl(x) => x < 16,
        Instr::SkipNeReg(x, y) => x < 16 && y < 16,
        Instr::LoadIndex(nnn) => nnn < 4096,
        Instr::JumpOffset(nnn) => nnn < 4096,
        Instr::Rand(x, _kk) => x < 16,
        Instr::Draw(x, y, n) => x < 16 && y < 16 && n < 16,
        Instr::SkipKey(x) => x < 16,
        Instr::SkipNoKey(x) => x < 16,
        Instr::LoadDelay(x) => x < 16,
        Instr::WaitKey(x) => x < 16,
        Instr::SetDelay(x) => x < 16,
        Instr::SetSound(x) => x < 16,
        Instr::AddIndex(x) => x < 16,
        Instr::FontAddr(x) => x < 16,
        Instr::Bcd(x) => x < 16,
        Instr::StoreRegs(x) => x < 16,
        Instr::LoadRegs(x) => x < 16,
        Instr::Nop => true,
    }
}

/// The decode table: splits the word into its four nibbles and dispatches
/// on the same patterns the execution unit recognizes.
pub open spec fn decode_s(op: u16) -> Instr {
    let n1 = nib1(op);
    let x = nib_x(op);
    let y = nib_y(op);
    let n4 = nib4(op);
    let nnn = imm_nnn(op);
    let kk = imm_kk(op);
    if n1 == 0x0 {
        if x == 0 && y == 0xE && n4 == 0x0 {
            Instr::Cls
        } else if x == 0 && y == 0xE && n4 == 0xE {
            Instr::Ret
        } else {
            Instr::Nop
        }
    } else if n1 == 0x1 {
        Instr::Jump(nnn)
    } else if n1 == 0x2 {
        Instr::Call(nnn)
    } else if n1 == 0x3 {
        Instr::SkipEqImm(x, kk)
    } else if n1 == 0x4 {
        Instr::SkipNeImm(x, kk)
    } else if n1 == 0x5 {
        if n4 == 0x0 {
            Instr::SkipEqReg(x, y)
        } else {
            Instr::Nop
        }
    } else if n1 == 0x6 {
        Instr::LoadImm(x, kk)
    } else if n1 == 0x7 {
        Instr::AddImm(x, kk)
    } else if n1 == 0x8 {
        if n4 == 0x0 {
            Instr::Move(x, y)
        } else if n4 == 0x1 {
            Instr::Or(x, y)
        } else if n4 == 0x2 {
            Instr::And(x, y)
        } else if n4 == 0x3 {
            Instr::Xor(x, y)
        } else if n4 == 0x4 {
            Instr::Add(x, y)
        } else if n4 == 0x5 {
            Instr::Sub(x, y)
        } else if n4 == 0x6 {
            Instr::Shr(x)
        } else if n4 == 0x7 {
            Instr::Subn(x, y)
        } else if n4 == 0xE {
            Instr::Shl(x)
        } else {
            Instr::Nop
        }
    } else if n1 == 0x9 {
        if n4 == 0x0 {
            Instr::SkipNeReg(x, y)
        } else {
            Instr::Nop
        }
    } else if n1 == 0xA {
        Instr::LoadIndex(nnn)
    } else if n1 == 0xB {
        Instr::JumpOffset(nnn)
    } else if n1 == 0xC {
        Instr::Rand(x, kk)
    } else if n1 == 0xD {
        Instr::Draw(x, y, n4)
    } else if n1 == 0xE {
        if y == 0x9 && n4 == 0xE {
            Instr::SkipKey(x)
        } else if y == 0xA && n4 == 0x1 {
            Instr::SkipNoKey(x)
        } else {
            Instr::Nop
        }
    } else if n1 == 0xF {
        if y == 0x0 && n4 == 0x7 {
            Instr::LoadDelay(x)
        } else if y == 0x0 && n4 == 0xA {
            Instr::WaitKey(x)
        } else if y == 0x1 && n4 == 0x5 {
            Instr::SetDelay(x)
        } else if y == 0x1 && n4 == 0x8 {
            Instr::SetSound(x)
        } else if y == 0x1 && n4 == 0xE {
            Instr::AddIndex(x)
        } else if y == 0x2 && n4 == 0x9 {
            Instr::FontAddr(x)
        } else if y == 0x3 && n4 == 0x3 {
            Instr::Bcd(x)
        } else if y == 0x5 && n4 == 0x5 {
            Instr::StoreRegs(x)
        } else if y == 0x6 && n4 == 0x5 {
            Instr::LoadRegs(x)
        } else {
            Instr::Nop
        }
    } else {
        Instr::Nop
    }
}

/// The four nibble fields and both immediates of any word lie inside the
/// ranges their widths allow.
pub proof fn lemma_field_bounds(op: u16)
    by (bit_vector)
    ensures
        (op >> 12) & 0xF < 16,
        (op >> 8) & 0xF < 16,
        (op >> 4) & 0xF < 16,
        op & 0xF < 16,
        op & 0xFFF < 4096,
        op & 0xFF < 256,
{
}

/// Every decoded instruction is well formed.
pub proof fn lemma_decode_wf(op: u16)
    ensures
        instr_wf(decode_s(op)),
{
    lemma_field_bounds(op);
}

/// Decodes one instruction word.
pub fn decode(op: u16) -> (instr: Instr)
    ensures
        instr == decode_s(op),
        instr_wf(instr),
{
    proof {
        lemma_decode_wf(op);
    }
    let n1 = ((op >> 12) & 0xF) as u8;
    let x = ((op >> 8) & 0xF) as u8;
    let y = ((op >> 4) & 0xF) as u8;
    let n4 = (op & 0xF) as u8;
    let nnn = op & 0xFFF;
    let kk = (op & 0xFF) as u8;
    match (n1, x, y, n4) {
        (0x0, 0x0, 0xE, 0x0) => Instr::Cls,
        (0x0, 0x0, 0xE, 0xE) => Instr::Ret,
        (0x1, _, _, _) => Instr::Jump(nnn),
        (0x2, _, _, _) => Instr::Call(nnn),
        (0x3, _, _, _) => Instr::SkipEqImm(x, kk),
        (0x4, _, _, _) => Instr::SkipNeImm(x, kk),
        (0x5, _, _, 0x0) => Instr::SkipEqReg(x, y),
        (0x6, _, _, _) => Instr::LoadImm(x, kk),
        (0x7, _, _, _) => Instr::AddImm(x, kk),
        (0x8, _, _, 0x0) => Instr::Move(x, y),
        (0x8, _, _, 0x1) => Instr::Or(x, y),
        (0x8, _, _, 0x2) => Instr::And(x, y),
        (0x8, _, _, 0x3) => Instr::Xor(x, y),
        (0x8, _, _, 0x4) => Instr::Add(x, y),
        (0x8, _, _, 0x5) => Instr::Sub(x, y),
        (0x8, _, _, 0x6) => Instr::Shr(x),
        (0x8, _, _, 0x7) => Instr::Subn(x, y),
        (0x8, _, _, 0xE) => Instr::Shl(x),
        (0x9, _, _, 0x0) => Instr::SkipNeReg(x, y),
        (0xA, _, _, _) => Instr::LoadIndex(nnn),
        (0xB, _, _, _) => Instr::JumpOffset(nnn),
        (0xC, _, _, _) => Instr::Rand(x, kk),
        (0xD, _, _, _) => Instr::Draw(x, y, n4),
        (0xE, _, 0x9, 0xE) => Instr::SkipKey(x),
        (0xE, _, 0xA, 0x1) => Instr::SkipNoKey(x),
        (0xF, _, 0x0, 0x7) => Instr::LoadDelay(x),
        (0xF, _, 0x0, 0xA) => Instr::WaitKey(x),
        (0xF, _, 0x1, 0x5) => Instr::SetDelay(x),
        (0xF, _, 0x1, 0x8) => Instr::SetSound(x),
        (0xF, _, 0x1, 0xE) => Instr::AddIndex(x),
        (0xF, _, 0x2, 0x9) => Instr::FontAddr(x),
        (0xF, _, 0x3, 0x3) => Instr::Bcd(x),
        (0xF, _, 0x5, 0x5) => Instr::StoreRegs(x),
        (0xF, _, 0x6, 0x5) => Instr::LoadRegs(x),
        _ => Instr::Nop,
    }
}

} // verus!
