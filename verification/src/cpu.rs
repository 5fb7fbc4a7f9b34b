use vstd::prelude::*;

verus! {

/// Address in machine memory (4096 bytes, byte-addressable).
pub type Addr = u16;

/// One instruction word, as stored big-endian in two consecutive bytes.
pub type Instr = u16;

/// Value held by a general register.
pub type Reg = u8;

/// Number of general registers.
pub const REGS_COUNT: usize = 0x10;

/// One operation of the instruction set. Register operands are register
/// numbers; `Addr` operands are twelve-bit addresses.
#[derive(Debug, PartialEq, Eq, Clone, Copy, Structural)]
pub enum Opcode {
    /// Clear the display.
    CLS,
    /// Return from a subroutine.
    RET,
    /// Jump to an address.
    JP(Addr),
    /// Call the subroutine at an address.
    CALL(Addr),
    /// Skip the next instruction if the register equals the byte.
    SE(usize, Reg),
    /// Skip the next instruction if the register differs from the byte.
    SNE(usize, Reg),
    /// Skip the next instruction if the two registers are equal.
    SER(usize, usize),
    /// Set the register to the byte.
    LD(usize, Reg),
    /// Add the byte to the register, wrapping, flag untouched.
    ADD(usize, Reg),
    /// Copy the second register into the first.
    LDR(usize, usize),
    /// Bitwise or of the second register into the first.
    OR(usize, usize),
    /// Bitwise and of the second register into the first.
    AND(usize, usize),
    /// Bitwise exclusive or of the second register into the first.
    XOR(usize, usize),
    /// Add the second register to the first; the flag gets the carry.
    ADDR(usize, usize),
    /// Subtract the second register from the first; the flag is 1 when
    /// nothing was borrowed.
    SUBR(usize, usize),
    /// Shift the first register right by one; the flag gets the bit that
    /// left. The word has a second operand, which the shift does not read.
    SHR(usize, usize),
    /// Set the first register to the second minus the first; the flag is 1
    /// when nothing was borrowed.
    SUBRN(usize, usize),
    /// Shift the first register left by one; the flag gets the bit that
    /// left. The word has a second operand, which the shift does not read.
    SHL(usize, usize),
    /// Skip the next instruction if the two registers differ.
    SNER(usize, usize),
    /// Set the address register.
    LDI(u16),
    /// Jump to the address plus register 0.
    JPOFF(u16),
    /// Set the register to a random byte masked by the given byte.
    RND(usize, u8),
    /// Draw a sprite of the given number of rows at the position held by
    /// the two registers, reading it from memory at the address register.
    DRW(usize, usize, u8),
    /// Skip the next instruction if the key named by the register is down.
    SKP(usize),
    /// Skip the next instruction if the key named by the register is up.
    SKNP(usize),
    /// Put the number of a key that is down into the register, if any is.
    KEYSET(usize),
    /// Set the delay timer from the register.
    DTSET(usize),
    /// Read the delay timer into the register.
    DTGET(usize),
    /// Set the sound timer from the register.
    STSET(usize),
    /// Add the register to the address register.
    IINC(usize),
    /// Point the address register at the glyph of the digit in the register.
    IDIG(usize),
    /// Store the three decimal digits of the register at the address register.
    BCD(usize),
    /// Store registers 0 up to the given one at the address register.
    REGSSTORE(usize),
    /// Load registers 0 up to the given one from the address register.
    REGLOAD(usize),
}

/// The `x` field of an instruction word: bits 8 to 11.
pub open spec fn field_x(w: u16) -> usize {
    ((w >> 8) & 0xF) as usize
}

/// The `y` field of an instruction word: bits 4 to 7.
pub open spec fn field_y(w: u16) -> usize {
    ((w >> 4) & 0xF) as usize
}

/// The `n` field of an instruction word: bits 0 to 3.
pub open spec fn field_n(w: u16) -> u8 {
    (w & 0xF) as u8
}

/// The `kk` field of an instruction word: the low byte.
pub open spec fn field_kk(w: u16) -> u8 {
    (w & 0xFF) as u8
}

/// The `nnn` field of an instruction word: the low twelve bits.
pub open spec fn field_nnn(w: u16) -> u16 {
    w & 0x0FFF
}

/// The family of an instruction word: its top four bits.
pub open spec fn family(w: u16) -> u16 {
    w >> 12
}

/// The operation that an instruction word stands for, if it stands for one.
pub open spec fn decode(w: u16) -> Option<Opcode> {
    let x = field_x(w);
    let y = field_y(w);
    let n = field_n(w);
    let kk = field_kk(w);
    let nnn = field_nnn(w);
    let f = family(w);
    if f == 0x0 {
        if w == 0x00E0 {
            Some(Opcode::CLS)
        } else if w == 0x00EE {
            Some(Opcode::RET)
        } else {
            None
        }
    } else if f == 0x1 {
        Some(Opcode::JP(nnn))
    } else if f == 0x2 {
        Some(Opcode::CALL(nnn))
    } else if f == 0x3 {
        Some(Opcode::SE(x, kk))
    } else if f == 0x4 {
        Some(Opcode::SNE(x, kk))
    } else if f == 0x5 {
        if n == 0 {
            Some(Opcode::SER(x, y))
        } else {
            None
        }
    } else if f == 0x6 {
        Some(Opcode::LD(x, kk))
    } else if f == 0x7 {
        Some(Opcode::ADD(x, kk))
    } else if f == 0x8 {
        if n == 0x0 {
            Some(Opcode::LDR(x, y))
        } else if n == 0x1 {
            Some(Opcode::OR(x, y))
        } else if n == 0x2 {
            Some(Opcode::AND(x, y))
        } else if n == 0x3 {
            Some(Opcode::XOR(x, y))
        } else if n == 0x4 {
            Some(Opcode::ADDR(x, y))
        } else if n == 0x5 {
            Some(Opcode::SUBR(x, y))
        } else if n == 0x6 {
            Some(Opcode::SHR(x, y))
        } else if n == 0x7 {
            Some(Opcode::SUBRN(x, y))
        } else if n == 0xE {
            Some(Opcode::SHL(x, y))
        } else {
            None
        }
    } else if f == 0x9 {
        if n == 0 {
            Some(Opcode::SNER(x, y))
        } else {
            None
        }
    } else if f == 0xA {
        Some(Opcode::LDI(nnn))
    } else if f == 0xB {
        Some(Opcode::JPOFF(nnn))
    } else if f == 0xC {
        Some(Opcode::RND(x, kk))
    } else if f == 0xD {
        Some(Opcode::DRW(x, y, n))
    } else if f == 0xE {
        if kk == 0x9E {
            Some(Opcode::SKP(x))
        } else if kk == 0xA1 {
            Some(Opcode::SKNP(x))
        } else {
            None
        }
    } else if f == 0xF {
        if kk == 0x07 {
            Some(Opcode::DTGET(x))
        } else if kk == 0x0A {
            Some(Opcode::KEYSET(x))
        } else if kk == 0x15 {
            Some(Opcode::DTSET(x))
        } else if kk == 0x18 {
            Some(Opcode::STSET(x))
        } else if kk == 0x1E {
            Some(Opcode::IINC(x))
        } else if kk == 0x29 {
            Some(Opcode::IDIG(x))
        } else if kk == 0x33 {
            Some(Opcode::BCD(x))
        } else if kk == 0x55 {
            Some(Opcode::REGSSTORE(x))
        } else if kk == 0x65 {
            Some(Opcode::REGLOAD(x))
        } else {
            None
        }
    } else {
        None
    }
}

/// Word of the form `mask | x << 8 | kk`.
pub open spec fn word_x_kk(mask: u16, x: usize, kk: u8) -> u16 {
    mask | ((x as u16) << 8) | (kk as u16)
}

/// Word of the form `mask | x << 8 | y << 4`.
pub open spec fn word_x_y(mask: u16, x: usize, y: usize) -> u16 {
    mask | ((x as u16) << 8) | ((y as u16) << 4)
}

/// Word of the form `mask | x << 8 | y << 4 | n`.
pub open spec fn word_x_y_n(mask: u16, x: usize, y: usize, n: u8) -> u16 {
    mask | ((x as u16) << 8) | ((y as u16) << 4) | (n as u16)
}

/// Word of the form `mask | x << 8`.
pub open spec fn word_x(mask: u16, x: usize) -> u16 {
    mask | ((x as u16) << 8)
}

/// The instruction word of an operation.
pub open spec fn encode(op: Opcode) -> u16 {
    match op {
        Opcode::CLS => 0x00E0,
        Opcode::RET => 0x00EE,
        Opcode::JP(a) => 0x1000 | a,
        Opcode::CALL(a) => 0x2000 | a,
        Opcode::SE(x, kk) => word_x_kk(0x3000, x, kk),
        Opcode::SNE(x, kk) => word_x_kk(0x4000, x, kk),
        Opcode::SER(x, y) => word_x_y(0x5000, x, y),
        Opcode::LD(x, kk) => word_x_kk(0x6000, x, kk),
        Opcode::ADD(x, kk) => word_x_kk(0x7000, x, kk),
        Opcode::LDR(x, y) => word_x_y(0x8000, x, y),
        Opcode::OR(x, y) => word_x_y(0x8001, x, y),
        Opcode::AND(x, y) => word_x_y(0x8002, x, y),
        Opcode::XOR(x, y) => word_x_y(0x8003, x, y),
        Opcode::ADDR(x, y) => word_x_y(0x8004, x, y),
        Opcode::SUBR(x, y) => word_x_y(0x8005, x, y),
        Opcode::SHR(x, y) => word_x_y(0x8006, x, y),
        Opcode::SUBRN(x, y) => word_x_y(0x8007, x, y),
        Opcode::SHL(x, y) => word_x_y(0x800E, x, y),
        Opcode::SNER(x, y) => word_x_y(0x9000, x, y),
        Opcode::LDI(a) => 0xA000 | a,
        Opcode::JPOFF(a) => 0xB000 | a,
        Opcode::RND(x, kk) => word_x_kk(0xC000, x, kk),
        Opcode::DRW(x, y, n) => word_x_y_n(0xD000, x, y, n),
        Opcode::SKP(x) => word_x(0xE09E, x),
        Opcode::SKNP(x) => word_x(0xE0A1, x),
        Opcode::KEYSET(x) => word_x(0xF00A, x),
        Opcode::DTSET(x) => word_x(0xF015, x),
        Opcode::DTGET(x) => word_x(0xF007, x),
        Opcode::STSET(x) => word_x(0xF018, x),
        Opcode::IINC(x) => word_x(0xF01E, x),
        Opcode::IDIG(x) => word_x(0xF029, x),
        Opcode::BCD(x) => word_x(0xF033, x),
        Opcode::REGSSTORE(x) => word_x(0xF055, x),
        Opcode::REGLOAD(x) => word_x(0xF065, x),
    }
}

impl Opcode {
    /// Every operand fits the bits that carry it in the instruction word:
    /// register numbers and row counts below 16, addresses below 0x1000.
    pub open spec fn wf(self) -> bool {
        match self {
            Opcode::CLS | Opcode::RET => true,
            Opcode::JP(a) | Opcode::CALL(a) | Opcode::LDI(a) | Opcode::JPOFF(a) => a < 0x1000,
            Opcode::SE(x, _) | Opcode::SNE(x, _) | Opcode::LD(x, _) | Opcode::ADD(x, _)
            | Opcode::RND(x, _) => x < 16,
            Opcode::SER(x, y) | Opcode::LDR(x, y) | Opcode::OR(x, y) | Opcode::AND(x, y)
            | Opcode::XOR(x, y) | Opcode::ADDR(x, y) | Opcode::SUBR(x, y) | Opcode::SHR(x, y)
            | Opcode::SUBRN(x, y) | Opcode::SHL(x, y) | Opcode::SNER(x, y) => x < 16 && y < 16,
            Opcode::DRW(x, y, n) => x < 16 && y < 16 && n < 16,
            Opcode::SKP(x) | Opcode::SKNP(x) | Opcode::KEYSET(x) | Opcode::DTSET(x)
            | Opcode::DTGET(x) | Opcode::STSET(x) | Opcode::IINC(x) | Opcode::IDIG(x)
            | Opcode::BCD(x) | Opcode::REGSSTORE(x) | Opcode::REGLOAD(x) => x < 16,
        }
    }

    fn xyn(op: u16) -> (r: (usize, usize, u8))
        ensures
            r.0 == field_x(op),
            r.1 == field_y(op),
            r.2 == field_n(op),
            r.0 < 16,
            r.1 < 16,
            r.2 < 16,
    {
        assert((op >> 8) & 0xF < 16 && (op >> 4) & 0xF < 16 && op & 0xF < 16) by (bit_vector);
        ((op >> 8 & 0xF) as usize, (op >> 4 & 0xF) as usize, (op & 0xF) as u8)
    }

    /// The last three hexadecimal digits of the word.
    fn nnn(op: u16) -> (r: u16)
        ensures
            r == field_nnn(op),
            r < 0x1000,
    {
        assert(op & 0x0FFF < 0x1000) by (bit_vector);
        op & 0x0FFF
    }

    fn xkk(op: u16) -> (r: (usize, u8))
        ensures
            r.0 == field_x(op),
            r.1 == field_kk(op),
            r.0 < 16,
    {
        assert((op >> 8) & 0xF < 16 && op & 0xFF < 256) by (bit_vector);
        ((op >> 8 & 0xF) as usize, (op & 0x00FF) as u8)
    }

    fn xy(op: u16) -> (r: (usize, usize))
        ensures
            r.0 == field_x(op),
            r.1 == field_y(op),
            r.0 < 16,
            r.1 < 16,
    {
        assert((op >> 8) & 0xF < 16 && (op >> 4) & 0xF < 16) by (bit_vector);
        ((op >> 8 & 0xF) as usize, (op >> 4 & 0xF) as usize)
    }

    fn xs(op: u16) -> (x: usize)
        ensures
            x == field_x(op),
            x < 16,
    {
        assert((op >> 8) & 0xF < 16) by (bit_vector);
        (op >> 8 & 0xF) as usize
    }

    /// Decodes an instruction word. Words outside the instruction set give
    /// `None`; operands of a decoded operation always fit their fields.
    #[verifier::rlimit(60)]
    pub fn from(op: Instr) -> (r: Option<Opcode>)
        ensures
            r == decode(op),
            r matches Some(o) ==> o.wf(),
    {
        let nnn = Opcode::nnn(op);
        let (x, kk) = Opcode::xkk(op);
        let (xm, ym) = Opcode::xy(op);
        let (xn, yn, nn) = Opcode::xyn(op);
        let xs = Opcode::xs(op);
        assert(op & 0xF000 == (op >> 12) * 0x1000 && op >> 12 < 16 && op & 0xF < 16 && op & 0xFF
            < 256) by (bit_vector);
        match op & 0xF000 {
            0x0000 => match op {
                0x00E0 => Some(Opcode::CLS),
                0x00EE => Some(Opcode::RET),
                _ => None,
            },
            0x1000 => Some(Opcode::JP(nnn)),
            0x2000 => Some(Opcode::CALL(nnn)),
            0x3000 => Some(Opcode::SE(x, kk)),
            0x4000 => Some(Opcode::SNE(x, kk)),
            0x5000 => match op & 0xF {
                0 => Some(Opcode::SER(xm, ym)),
                _ => None,
            },
            0x6000 => Some(Opcode::LD(x, kk)),
            0x7000 => Some(Opcode::ADD(x, kk)),
            0x8000 => match op & 0xF {
                0x0 => Some(Opcode::LDR(xm, ym)),
                0x1 => Some(Opcode::OR(xm, ym)),
                0x2 => Some(Opcode::AND(xm, ym)),
                0x3 => Some(Opcode::XOR(xm, ym)),
                0x4 => Some(Opcode::ADDR(xm, ym)),
                0x5 => Some(Opcode::SUBR(xm, ym)),
                0x6 => Some(Opcode::SHR(xm, ym)),
                0x7 => Some(Opcode::SUBRN(xm, ym)),
                0xE => Some(Opcode::SHL(xm, ym)),
                _ => None,
            },
            0x9000 => match op & 0xF {
                0 => Some(Opcode::SNER(xm, ym)),
                _ => None,
            },
            0xA000 => Some(Opcode::LDI(nnn)),
            0xB000 => Some(Opcode::JPOFF(nnn)),
            0xC000 => Some(Opcode::RND(x, kk)),
            0xD000 => Some(Opcode::DRW(xn, yn, nn)),
            0xE000 => match op & 0xFF {
                0x9E => Some(Opcode::SKP(xs)),
                0xA1 => Some(Opcode::SKNP(xs)),
                _ => None,
            },
            0xF000 => match op & 0xFF {
                0x07 => Some(Opcode::DTGET(xs)),
                0x0A => Some(Opcode::KEYSET(xs)),
                0x15 => Some(Opcode::DTSET(xs)),
                0x18 => Some(Opcode::STSET(xs)),
                0x1E => Some(Opcode::IINC(xs)),
                0x29 => Some(Opcode::IDIG(xs)),
                0x33 => Some(Opcode::BCD(xs)),
                0x55 => Some(Opcode::REGSSTORE(xs)),
                0x65 => Some(Opcode::REGLOAD(xs)),
                _ => None,
            },
            _ => None,
        }
    }

    fn vx_byte(mask: u16, vx: &usize, byte: &u8) -> (r: Instr)
        ensures
            r == word_x_kk(mask, *vx, *byte),
    {
        mask | (*vx as u16) << 8 | *byte as u16
    }

    fn vx_vy(mask: u16, vx: &usize, vy: &usize) -> (r: Instr)
        ensures
            r == word_x_y(mask, *vx, *vy),
    {
        mask | (*vx as u16) << 8 | (*vy as u16) << 4
    }

    fn innn(mask: u16, a: &u16) -> (r: Instr)
        ensures
            r == mask | *a,
    {
        mask | *a
    }

    fn vx_vy_n(mask: u16, vx: &usize, vy: &usize, n: &u8) -> (r: Instr)
        ensures
            r == word_x_y_n(mask, *vx, *vy, *n),
    {
        mask | (*vx as u16) << 8 | (*vy as u16) << 4 | (*n as u16)
    }

    fn ibyte(mask: u16, vx: &usize) -> (r: Instr)
        ensures
            r == word_x(mask, *vx),
    {
        mask | (*vx as u16) << 8
    }

    /// Encodes the operation as its instruction word.
    pub fn to_instr(&self) -> (r: Instr)
        ensures
            r == encode(*self),
    {
        let res = match self {
            Opcode::CLS => 0x00E0,
            Opcode::RET => 0x00EE,
            Opcode::JP(a) => Opcode::innn(0x1000, a),
            Opcode::CALL(a) => Opcode::innn(0x2000, a),
            Opcode::SE(vx, byte) => Opcode::vx_byte(0x3000, vx, byte),
            Opcode::SNE(vx, byte) => Opcode::vx_byte(0x4000, vx, byte),
            Opcode::SER(vx, vy) => Opcode::vx_vy(0x5000, vx, vy),
            Opcode::LD(vx, byte) => Opcode::vx_byte(0x6000, vx, byte),
            Opcode::ADD(vx, byte) => Opcode::vx_byte(0x7000, vx, byte),
            Opcode::LDR(vx, vy) => Opcode::vx_vy(0x8000, vx, vy),
            Opcode::OR(vx, vy) => Opcode::vx_vy(0x8001, vx, vy),
            Opcode::AND(vx, vy) => Opcode::vx_vy(0x8002, vx, vy),
            Opcode::XOR(vx, vy) => Opcode::vx_vy(0x8003, vx, vy),
            Opcode::ADDR(vx, vy) => Opcode::vx_vy(0x8004, vx, vy),
            Opcode::SUBR(vx, vy) => Opcode::vx_vy(0x8005, vx, vy),
            Opcode::SHR(vx, vy) => Opcode::vx_vy(0x8006, vx, vy),
            Opcode::SUBRN(vx, vy) => Opcode::vx_vy(0x8007, vx, vy),
            Opcode::SHL(vx, vy) => Opcode::vx_vy(0x800E, vx, vy),
            Opcode::SNER(vx, vy) => Opcode::vx_vy(0x9000, vx, vy),
            Opcode::LDI(a) => Opcode::innn(0xA000, a),
            Opcode::JPOFF(a) => Opcode::innn(0xB000, a),
            Opcode::RND(vx, byte) => Opcode::vx_byte(0xC000, vx, byte),
            Opcode::DRW(vx, vy, n) => Opcode::vx_vy_n(0xD000, vx, vy, n),
            Opcode::SKP(a) => Opcode::ibyte(0xE09E, a),
            Opcode::SKNP(a) => Opcode::ibyte(0xE0A1, a),
            Opcode::KEYSET(a) => Opcode::ibyte(0xF00A, a),
            Opcode::DTSET(a) => Opcode::ibyte(0xF015, a),
            Opcode::DTGET(a) => Opcode::ibyte(0xF007, a),
            Opcode::STSET(a) => Opcode::ibyte(0xF018, a),
            Opcode::IINC(a) => Opcode::ibyte(0xF01E, a),
            Opcode::IDIG(a) => Opcode::ibyte(0xF029, a),
            Opcode::BCD(a) => Opcode::ibyte(0xF033, a),
            Opcode::REGSSTORE(a) => Opcode::ibyte(0xF055, a),
            Opcode::REGLOAD(a) => Opcode::ibyte(0xF065, a),
        };
        res
    }
}

/// Fields of a word put together from a family digit, `x` and `kk`.
proof fn lemma_word_x_kk(f: u16, mask: u16, a: u16, b: u16)
    by (bit_vector)
    requires
        f < 16,
        mask == f * 0x1000,
        a < 16,
        b < 256,
    ensures
        (mask | (a << 8) | b) >> 12 == f,
        ((mask | (a << 8) | b) >> 8) & 0xF == a,
        (mask | (a << 8) | b) & 0xFF == b,
{
}

/// Fields of a word put together from a family digit, a last digit, `x`
/// and `y`.
proof fn lemma_word_x_y(f: u16, n: u16, mask: u16, a: u16, b: u16)
    by (bit_vector)
    requires
        f < 16,
        n < 16,
        mask == f * 0x1000 + n,
        a < 16,
        b < 16,
    ensures
        (mask | (a << 8) | (b << 4)) >> 12 == f,
        ((mask | (a << 8) | (b << 4)) >> 8) & 0xF == a,
        ((mask | (a << 8) | (b << 4)) >> 4) & 0xF == b,
        (mask | (a << 8) | (b << 4)) & 0xF == n,
{
}

/// Fields of a word put together from a family digit, `x`, `y` and `n`.
proof fn lemma_word_x_y_n(f: u16, mask: u16, a: u16, b: u16, n: u16)
    by (bit_vector)
    requires
        f < 16,
        mask == f * 0x1000,
        a < 16,
        b < 16,
        n < 16,
    ensures
        (mask | (a << 8) | (b << 4) | n) >> 12 == f,
        ((mask | (a << 8) | (b << 4) | n) >> 8) & 0xF == a,
        ((mask | (a << 8) | (b << 4) | n) >> 4) & 0xF == b,
        (mask | (a << 8) | (b << 4) | n) & 0xF == n,
{
}

/// Fields of a word put together from a family digit, a low byte and `x`.
proof fn lemma_word_x(f: u16, low: u16, mask: u16, a: u16)
    by (bit_vector)
    requires
        f < 16,
        low < 256,
        mask == f * 0x1000 + low,
        a < 16,
    ensures
        (mask | (a << 8)) >> 12 == f,
        ((mask | (a << 8)) >> 8) & 0xF == a,
        (mask | (a << 8)) & 0xFF == low,
{
}

/// Fields of a word put together from a family digit and an address.
proof fn lemma_word_nnn(f: u16, mask: u16, a: u16)
    by (bit_vector)
    requires
        f < 16,
        mask == f * 0x1000,
        a < 0x1000,
    ensures
        (mask | a) >> 12 == f,
        (mask | a) & 0x0FFF == a,
{
}

/// A word put together again from its fields.
proof fn lemma_word_parts(w: u16)
    by (bit_vector)
    ensures
        w >> 12 < 16,
        (w >> 8) & 0xF < 16,
        (w >> 4) & 0xF < 16,
        w & 0xF < 16,
        w & 0xFF < 256,
        w & 0x0FFF < 0x1000,
        w == ((w >> 12) * 0x1000) as u16 | (w & 0x0FFF),
        w == ((w >> 12) * 0x1000) as u16 | (((w >> 8) & 0xF) << 8) | (w & 0xFF),
        w == ((w >> 12) * 0x1000 + (w & 0xF)) as u16 | (((w >> 8) & 0xF) << 8) | (((w >> 4) & 0xF)
            << 4),
        w == ((w >> 12) * 0x1000) as u16 | (((w >> 8) & 0xF) << 8) | (((w >> 4) & 0xF) << 4) | (w
            & 0xF),
        w == ((w >> 12) * 0x1000 + (w & 0xFF)) as u16 | (((w >> 8) & 0xF) << 8),
{
}

/// The word of a decoded operation is the word that was decoded.
#[verifier::rlimit(60)]
pub proof fn lemma_encode_decode(w: u16)
    ensures
        decode(w) matches Some(op) ==> encode(op) == w,
{
    lemma_word_parts(w);
}

/// Decoded operations are well formed: their operands fit their fields.
#[verifier::rlimit(60)]
pub proof fn lemma_decode_wf(w: u16)
    ensures
        decode(w) matches Some(op) ==> op.wf(),
{
    lemma_word_parts(w);
}

/// Round trip: decoding the word of a well-formed operation gives that
/// operation back.
#[verifier::rlimit(60)]
pub proof fn lemma_decode_encode(op: Opcode)
    requires
        op.wf(),
    ensures
        decode(encode(op)) == Some(op),
{
    match op {
        Opcode::CLS | Opcode::RET => {
            assert(0x00E0u16 >> 12 == 0 && 0x00EEu16 >> 12 == 0) by (bit_vector);
        },
        Opcode::JP(a) => lemma_word_nnn(0x1, 0x1000, a),
        Opcode::CALL(a) => lemma_word_nnn(0x2, 0x2000, a),
        Opcode::LDI(a) => lemma_word_nnn(0xA, 0xA000, a),
        Opcode::JPOFF(a) => lemma_word_nnn(0xB, 0xB000, a),
        Opcode::SE(x, kk) => lemma_word_x_kk(0x3, 0x3000, x as u16, kk as u16),
        Opcode::SNE(x, kk) => lemma_word_x_kk(0x4, 0x4000, x as u16, kk as u16),
        Opcode::LD(x, kk) => lemma_word_x_kk(0x6, 0x6000, x as u16, kk as u16),
        Opcode::ADD(x, kk) => lemma_word_x_kk(0x7, 0x7000, x as u16, kk as u16),
        Opcode::RND(x, kk) => lemma_word_x_kk(0xC, 0xC000, x as u16, kk as u16),
        Opcode::SER(x, y) => lemma_word_x_y(0x5, 0x0, 0x5000, x as u16, y as u16),
        Opcode::LDR(x, y) => lemma_word_x_y(0x8, 0x0, 0x8000, x as u16, y as u16),
        Opcode::OR(x, y) => lemma_word_x_y(0x8, 0x1, 0x8001, x as u16, y as u16),
        Opcode::AND(x, y) => lemma_word_x_y(0x8, 0x2, 0x8002, x as u16, y as u16),
        Opcode::XOR(x, y) => lemma_word_x_y(0x8, 0x3, 0x8003, x as u16, y as u16),
        Opcode::ADDR(x, y) => lemma_word_x_y(0x8, 0x4, 0x8004, x as u16, y as u16),
        Opcode::SUBR(x, y) => lemma_word_x_y(0x8, 0x5, 0x8005, x as u16, y as u16),
        Opcode::SUBRN(x, y) => lemma_word_x_y(0x8, 0x7, 0x8007, x as u16, y as u16),
        Opcode::SNER(x, y) => lemma_word_x_y(0x9, 0x0, 0x9000, x as u16, y as u16),
        Opcode::SHR(x, y) => lemma_word_x_y(0x8, 0x6, 0x8006, x as u16, y as u16),
        Opcode::SHL(x, y) => lemma_word_x_y(0x8, 0xE, 0x800E, x as u16, y as u16),
        Opcode::DRW(x, y, n) => lemma_word_x_y_n(0xD, 0xD000, x as u16, y as u16, n as u16),
        Opcode::SKP(x) => lemma_word_x(0xE, 0x9E, 0xE09E, x as u16),
        Opcode::SKNP(x) => lemma_word_x(0xE, 0xA1, 0xE0A1, x as u16),
        Opcode::KEYSET(x) => lemma_word_x(0xF, 0x0A, 0xF00A, x as u16),
        Opcode::DTSET(x) => lemma_word_x(0xF, 0x15, 0xF015, x as u16),
        Opcode::DTGET(x) => lemma_word_x(0xF, 0x07, 0xF007, x as u16),
        Opcode::STSET(x) => lemma_word_x(0xF, 0x18, 0xF018, x as u16),
        Opcode::IINC(x) => lemma_word_x(0xF, 0x1E, 0xF01E, x as u16),
        Opcode::IDIG(x) => lemma_word_x(0xF, 0x29, 0xF029, x as u16),
        Opcode::BCD(x) => lemma_word_x(0xF, 0x33, 0xF033, x as u16),
        Opcode::REGSSTORE(x) => lemma_word_x(0xF, 0x55, 0xF055, x as u16),
        Opcode::REGLOAD(x) => lemma_word_x(0xF, 0x65, 0xF065, x as u16),
    }
}

/// The processor state as plain values: what the contracts of [`CPU`] speak of.
#[verifier::ext_equal]
pub struct CpuView {
    /// Program counter.
    pub pc: u16,
    /// Address register.
    pub i: u16,
    /// The sixteen general registers; register 15 is the flag.
    pub regs: Seq<u8>,
    /// Stack pointer: the number of active calls.
    pub sp: u16,
    /// Return addresses, the most recent call last.
    pub stack: Seq<u16>,
    /// The operation fetched last.
    pub instr: Option<Opcode>,
    /// Delay timer.
    pub dt: u8,
    /// Sound timer.
    pub st: u8,
}

impl CpuView {
    /// There are sixteen registers and the stack pointer equals the depth
    /// of the call stack.
    pub open spec fn wf(self) -> bool {
        self.regs.len() == 16 && self.sp == self.stack.len()
    }

    /// The state of a processor that has just been made.
    pub open spec fn reset() -> CpuView {
        CpuView {
            pc: 0,
            i: 0,
            regs: Seq::new(16, |k: int| 0u8),
            sp: 0,
            stack: Seq::empty(),
            instr: None,
            dt: 0,
            st: 0,
        }
    }

    /// Register `x` set to `v`.
    pub open spec fn with_reg(self, x: int, v: u8) -> CpuView {
        CpuView { regs: self.regs.update(x, v), ..self }
    }

    /// The flag register set to 1 or 0.
    pub open spec fn with_flag(self, set: bool) -> CpuView {
        self.with_reg(0xF, if set { 1u8 } else { 0u8 })
    }

    /// Program counter set to `pc`.
    pub open spec fn with_pc(self, pc: u16) -> CpuView {
        CpuView { pc, ..self }
    }

    /// Program counter moved forward by `by` bytes.
    pub open spec fn advanced(self, by: int) -> CpuView {
        CpuView { pc: (self.pc + by) as u16, ..self }
    }

    /// Program counter moved past the next instruction if `pred` holds,
    /// and to the next instruction otherwise.
    pub open spec fn skipped(self, pred: bool) -> CpuView {
        self.advanced(if pred { 4 } else { 2 })
    }

    /// The program counter can move forward by `by` bytes and stay an
    /// address.
    pub open spec fn can_advance(self, by: int) -> bool {
        self.pc + by <= u16::MAX
    }

    /// The program counter can skip or not skip, as `pred` has it.
    pub open spec fn can_skip(self, pred: bool) -> bool {
        self.can_advance(if pred { 4 } else { 2 })
    }

    /// A call: the program counter is pushed and then set to `a`.
    pub open spec fn called(self, a: u16) -> CpuView {
        CpuView { pc: a, sp: (self.sp + 1) as u16, stack: self.stack.push(self.pc), ..self }
    }

    /// A return: the most recent return address is popped into the program
    /// counter. With no call active the state stays as it is.
    pub open spec fn returned(self) -> CpuView {
        if self.stack.len() == 0 {
            self
        } else {
            CpuView {
                pc: self.stack.last(),
                sp: (self.sp - 1) as u16,
                stack: self.stack.drop_last(),
                ..self
            }
        }
    }

    /// `Vx <- Vx + kk`, wrapping, flag untouched.
    pub open spec fn add_imm(self, x: int, kk: u8) -> CpuView {
        self.with_reg(x, ((self.regs[x] + kk) % 256) as u8)
    }

    /// `Vx <- Vx | Vy`.
    pub open spec fn or_reg(self, x: int, y: int) -> CpuView {
        self.with_reg(x, self.regs[x] | self.regs[y])
    }

    /// `Vx <- Vx & Vy`.
    pub open spec fn and_reg(self, x: int, y: int) -> CpuView {
        self.with_reg(x, self.regs[x] & self.regs[y])
    }

    /// `Vx <- Vx ^ Vy`.
    pub open spec fn xor_reg(self, x: int, y: int) -> CpuView {
        self.with_reg(x, self.regs[x] ^ self.regs[y])
    }

    /// `Vx <- Vx + Vy` modulo 256, then the flag is 1 iff the sum passed 255.
    pub open spec fn add_reg(self, x: int, y: int) -> CpuView {
        let sum = self.regs[x] + self.regs[y];
        self.with_reg(x, (sum % 256) as u8).with_flag(sum > 255)
    }

    /// `Vx <- Vx - Vy` modulo 256, then the flag is 1 iff `Vx >= Vy` held.
    pub open spec fn sub_reg(self, x: int, y: int) -> CpuView {
        let diff = self.regs[x] - self.regs[y];
        self.with_reg(x, (diff % 256) as u8).with_flag(diff >= 0)
    }

    /// `Vx <- Vy - Vx` modulo 256, then the flag is 1 iff `Vy >= Vx` held.
    pub open spec fn sub_reg_rev(self, x: int, y: int) -> CpuView {
        let diff = self.regs[y] - self.regs[x];
        self.with_reg(x, (diff % 256) as u8).with_flag(diff >= 0)
    }

    /// `Vx` halved, then the flag is the bit that left: bit 0.
    pub open spec fn shifted_right(self, x: int) -> CpuView {
        let v = self.regs[x];
        self.with_reg(x, v / 2).with_flag(v % 2 == 1)
    }

    /// `Vx` doubled modulo 256, then the flag is the bit that left: bit 7.
    pub open spec fn shifted_left(self, x: int) -> CpuView {
        let v = self.regs[x];
        self.with_reg(x, ((2 * v) % 256) as u8).with_flag(v >= 128)
    }

    /// `Vx <- random & kk`.
    pub open spec fn randomized(self, x: int, kk: u8, random: u8) -> CpuView {
        self.with_reg(x, random & kk)
    }
}

/// Draws one byte with `rand::random`. The value depends on chance, so
/// nothing is promised of it. `rand` panics if the operating system gives
/// the thread's generator no seed.
#[verifier::external_body]
fn random_byte() -> (byte: u8) {
    rand::random::<u8>()
}

/// Register file, program counter, address register, call stack and timers.
#[derive(PartialEq, Debug)]
pub struct CPU {
    /// Program counter.
    pub pc: Addr,
    /// Address register, used by the operations that read or write memory.
    pub i: Addr,
    /// The sixteen general registers.
    pub regs: [Reg; REGS_COUNT],
    /// Stack pointer: the number of active calls.
    pub sp: Addr,
    /// Return addresses of the active calls, the most recent last.
    pub stack: Vec<Addr>,
    /// The operation fetched last.
    pub instr: Option<Opcode>,
    /// Delay timer.
    pub dt: Reg,
    /// Sound timer.
    pub st: Reg,
}

impl View for CPU {
    type V = CpuView;

    open spec fn view(&self) -> CpuView {
        CpuView {
            pc: self.pc,
            i: self.i,
            regs: self.regs@,
            sp: self.sp,
            stack: self.stack@,
            instr: self.instr,
            dt: self.dt,
            st: self.st,
        }
    }
}

impl CPU {
    /// The stack pointer equals the depth of the call stack.
    pub open spec fn wf(&self) -> bool {
        self@.wf()
    }

    /// A processor with the given registers and no active call.
    pub fn from(
        pc: Addr,
        i: Addr,
        regs: [Reg; REGS_COUNT],
        sp: Addr,
        instr: Option<Opcode>,
        dt: Reg,
        st: Reg,
    ) -> (cpu: Self)
        ensures
            cpu@ == (CpuView { pc, i, regs: regs@, sp, stack: Seq::empty(), instr, dt, st }),
            cpu.wf() <==> sp == 0,
    {
        CPU { pc, i, regs, sp, stack: Vec::new(), instr, dt, st }
    }

    /// A processor with every register zero and no active call.
    pub fn new() -> (cpu: Self)
        ensures
            cpu@ == CpuView::reset(),
            cpu.wf(),
    {
        CPU { pc: 0, i: 0, regs: [0; REGS_COUNT], sp: 0, stack: Vec::new(), instr: None, dt: 0, st: 0 }
    }

    /// Sets the program counter.
    pub fn pc(&mut self, pc: Addr) -> (r: &Self)
        ensures
            final(self)@ == old(self)@.with_pc(pc),
            r@ == old(self)@.with_pc(pc),
    {
        self.pc = pc;
        self
    }

    /// Moves the program counter to the next instruction.
    pub fn inc_pc(&mut self)
        requires
            old(self)@.can_advance(2),
        ensures
            final(self)@ == old(self)@.advanced(2),
    {
        self.pc += 2;
    }

    /// Returns from a subroutine: pops the most recent return address into
    /// the program counter. With no call active nothing changes.
    pub fn ret(&mut self)
        requires
            old(self).wf(),
        ensures
            final(self)@ == old(self)@.returned(),
            final(self).wf(),
    {
        if let Some(addr) = self.stack.pop() {
            self.sp -= 1;
            self.pc = addr;
        }
    }

    /// Calls the subroutine at `a`: pushes the program counter and jumps.
    pub fn call(&mut self, a: Addr)
        requires
            old(self).wf(),
            old(self).sp < u16::MAX,
        ensures
            final(self)@ == old(self)@.called(a),
            final(self).wf(),
    {
        self.stack.push(self.pc);
        self.sp += 1;
        self.pc = a;
    }

    /// Moves the program counter by 4 if `pred` holds and by 2 otherwise.
    pub fn skip_if(&mut self, pred: bool)
        requires
            old(self)@.can_skip(pred),
        ensures
            final(self)@ == old(self)@.skipped(pred),
    {
        self.pc += if pred { 4 } else { 2 };
    }

    /// Skips the next instruction if register `vx` equals `byte`.
    pub fn skip_eq(&mut self, vx: usize, byte: Reg)
        requires
            vx < REGS_COUNT,
            old(self)@.can_skip(old(self).regs[vx as int] == byte),
        ensures
            final(self)@ == old(self)@.skipped(old(self).regs[vx as int] == byte),
    {
        self.skip_if(self.regs[vx] == byte);
    }

    /// Skips the next instruction if register `vx` differs from `byte`.
    pub fn skip_neq(&mut self, vx: usize, byte: Reg)
        requires
            vx < REGS_COUNT,
            old(self)@.can_skip(old(self).regs[vx as int] != byte),
        ensures
            final(self)@ == old(self)@.skipped(old(self).regs[vx as int] != byte),
    {
        self.skip_if(self.regs[vx] != byte);
    }

    /// Skips the next instruction if registers `vx` and `vy` are equal.
    pub fn skip_eq_reg(&mut self, vx: usize, vy: usize)
        requires
            vx < REGS_COUNT,
            vy < REGS_COUNT,
            old(self)@.can_skip(old(self).regs[vx as int] == old(self).regs[vy as int]),
        ensures
            final(self)@ == old(self)@.skipped(
                old(self).regs[vx as int] == old(self).regs[vy as int],
            ),
    {
        self.skip_if(self.regs[vx] == self.regs[vy]);
    }

    /// Skips the next instruction if registers `vx` and `vy` differ.
    pub fn skip_neq_reg(&mut self, vx: usize, vy: usize)
        requires
            vx < REGS_COUNT,
            vy < REGS_COUNT,
            old(self)@.can_skip(old(self).regs[vx as int] != old(self).regs[vy as int]),
        ensures
            final(self)@ == old(self)@.skipped(
                old(self).regs[vx as int] != old(self).regs[vy as int],
            ),
    {
        self.skip_if(self.regs[vx] != self.regs[vy]);
    }

    /// `Vx <- byte`.
    pub fn load(&mut self, vx: usize, byte: u8)
        requires
            vx < REGS_COUNT,
        ensures
            final(self)@ == old(self)@.with_reg(vx as int, byte),
    {
        self.regs[vx] = byte;
    }

    /// `Vx <- Vy`.
    pub fn load_r(&mut self, vx: usize, vy: usize)
        requires
            vx < REGS_COUNT,
            vy < REGS_COUNT,
        ensures
            final(self)@ == old(self)@.with_reg(vx as int, old(self).regs[vy as int]),
    {
        self.regs[vx] = self.regs[vy];
    }

    /// `Vx <- Vx + byte`, wrapping; the flag is left alone.
    pub fn add(&mut self, vx: usize, byte: u8)
        requires
            vx < REGS_COUNT,
        ensures
            final(self)@ == old(self)@.add_imm(vx as int, byte),
    {
        let sum = self.regs[vx].wrapping_add(byte);
        self.regs[vx] = sum;
    }

    /// `Vx <- Vx | Vy`.
    pub fn or(&mut self, vx: usize, vy: usize)
        requires
            vx < REGS_COUNT,
            vy < REGS_COUNT,
        ensures
            final(self)@ == old(self)@.or_reg(vx as int, vy as int),
    {
        self.regs[vx] |= self.regs[vy];
    }

    /// `Vx <- Vx & Vy`.
    pub fn and(&mut self, vx: usize, vy: usize)
        requires
            vx < REGS_COUNT,
            vy < REGS_COUNT,
        ensures
            final(self)@ == old(self)@.and_reg(vx as int, vy as int),
    {
        self.regs[vx] &= self.regs[vy];
    }

    /// `Vx <- Vx ^ Vy`.
    pub fn xor(&mut self, vx: usize, vy: usize)
        requires
            vx < REGS_COUNT,
            vy < REGS_COUNT,
        ensures
            final(self)@ == old(self)@.xor_reg(vx as int, vy as int),
    {
        self.regs[vx] ^= self.regs[vy];
    }

    /// `Vx <- Vx + Vy` modulo 256; the flag register is then set to 1 if
    /// the sum passed 255 and to 0 if it did not.
    pub fn addr(&mut self, vx: usize, vy: usize)
        requires
            vx < REGS_COUNT,
            vy < REGS_COUNT,
        ensures
            final(self)@ == old(self)@.add_reg(vx as int, vy as int),
            final(self).regs[0xF] == 1 <==> old(self).regs[vx as int] + old(self).regs[vy as int]
                > 255,
            final(self).regs[0xF] == 0 || final(self).regs[0xF] == 1,
    {
        let a = self.regs[vx];
        let b = self.regs[vy];
        let overflow = a as u16 + b as u16 > 0xFF;
        self.regs[vx] = a.wrapping_add(b);
        self.regs[0xF] = if overflow { 1 } else { 0 };
    }

    /// `Vx <- Vx - Vy` modulo 256; the flag register is then set to 1 if
    /// nothing was borrowed, that is if `Vx >= Vy` held, and to 0 otherwise.
    pub fn subr(&mut self, vx: usize, vy: usize)
        requires
            vx < REGS_COUNT,
            vy < REGS_COUNT,
        ensures
            final(self)@ == old(self)@.sub_reg(vx as int, vy as int),
            final(self).regs[0xF] == 1 <==> old(self).regs[vx as int] >= old(self).regs[vy as int],
            final(self).regs[0xF] == 0 || final(self).regs[0xF] == 1,
    {
        let a = self.regs[vx];
        let b = self.regs[vy];
        let overflow = a < b;
        self.regs[vx] = a.wrapping_sub(b);
        self.regs[0xF] = if !overflow { 1 } else { 0 };
    }

    /// `Vx <- Vx >> 1`; the flag register is then set to the bit that left.
    pub fn shr(&mut self, vx: usize)
        requires
            vx < REGS_COUNT,
        ensures
            final(self)@ == old(self)@.shifted_right(vx as int),
    {
        let v = self.regs[vx];
        assert(v >> 1 == v / 2 && (v & 1 == 1 <==> v % 2 == 1)) by (bit_vector);
        self.regs[vx] = v >> 1;
        self.regs[0xF] = if v & 1 == 1 { 1 } else { 0 };
    }

    /// `Vx <- Vy - Vx` modulo 256; the flag register is then set to 1 if
    /// nothing was borrowed, that is if `Vy >= Vx` held, and to 0 otherwise.
    pub fn subrn(&mut self, vx: usize, vy: usize)
        requires
            vx < REGS_COUNT,
            vy < REGS_COUNT,
        ensures
            final(self)@ == old(self)@.sub_reg_rev(vx as int, vy as int),
            final(self).regs[0xF] == 1 <==> old(self).regs[vy as int] >= old(self).regs[vx as int],
            final(self).regs[0xF] == 0 || final(self).regs[0xF] == 1,
    {
        let a = self.regs[vy];
        let b = self.regs[vx];
        let overflow = a < b;
        self.regs[vx] = a.wrapping_sub(b);
        self.regs[0xF] = if !overflow { 1 } else { 0 };
    }

    /// `Vx <- Vx << 1`; the flag register is then set to the bit that left.
    pub fn shl(&mut self, vx: usize)
        requires
            vx < REGS_COUNT,
        ensures
            final(self)@ == old(self)@.shifted_left(vx as int),
    {
        let v = self.regs[vx];
        assert(v << 1 == (2 * v) % 256 && (v & 0x80 == 0x80 <==> v >= 128)) by (bit_vector);
        self.regs[vx] = v << 1;
        self.regs[0xF] = if v & 0x80 == 0x80 { 1 } else { 0 };
    }

    /// Sets the address register.
    pub fn ldi(&mut self, addr: Addr)
        ensures
            final(self)@ == (CpuView { i: addr, ..old(self)@ }),
    {
        self.i = addr;
    }

    /// Jumps to `addr` plus register 0.
    pub fn jpoff(&mut self, addr: Addr)
        requires
            old(self).regs[0] + addr <= u16::MAX,
        ensures
            final(self)@ == old(self)@.with_pc((old(self).regs[0] + addr) as u16),
    {
        self.pc = self.regs[0] as u16 + addr;
    }

    /// `Vx <- random & byte`, for a byte drawn at random.
    pub fn rnd(&mut self, vx: usize, byte: u8)
        requires
            vx < REGS_COUNT,
        ensures
            exists|random: u8| final(self)@ == #[trigger] old(self)@.randomized(vx as int, byte, random),
    {
        let random = random_byte();
        self.rnd_with(vx, byte, random);
    }

    /// `Vx <- random & byte`, for the random byte given.
    pub fn rnd_with(&mut self, vx: usize, byte: u8, random: u8)
        requires
            vx < REGS_COUNT,
        ensures
            final(self)@ == old(self)@.randomized(vx as int, byte, random),
    {
        self.regs[vx] = random & byte;
    }

    /// Sets the delay timer from register `vx`.
    pub fn dtset(&mut self, vx: usize)
        requires
            vx < REGS_COUNT,
        ensures
            final(self)@ == (CpuView { dt: old(self).regs[vx as int], ..old(self)@ }),
    {
        self.dt = self.regs[vx];
    }

    /// Reads the delay timer into register `vx`.
    pub fn dtget(&mut self, vx: usize)
        requires
            vx < REGS_COUNT,
        ensures
            final(self)@ == old(self)@.with_reg(vx as int, old(self).dt),
    {
        self.regs[vx] = self.dt;
    }

    /// Sets the sound timer from register `vx`.
    pub fn stset(&mut self, vx: usize)
        requires
            vx < REGS_COUNT,
        ensures
            final(self)@ == (CpuView { st: old(self).regs[vx as int], ..old(self)@ }),
    {
        self.st = self.regs[vx];
    }

    /// Adds register `vx` to the address register.
    pub fn iinc(&mut self, vx: usize)
        requires
            vx < REGS_COUNT,
            old(self).i + old(self).regs[vx as int] <= u16::MAX,
        ensures
            final(self)@ == (CpuView {
                i: (old(self).i + old(self).regs[vx as int]) as u16,
                ..old(self)@
            }),
    {
        self.i += self.regs[vx] as u16;
    }
}

impl Default for CPU {
    fn default() -> (cpu: Self)
        ensures
            cpu@ == CpuView::reset(),
            cpu.wf(),
    {
        CPU::new()
    }
}

} // verus!
