//! The instruction word: sixteen bits, from the low end
//! `src2` (5), `src1` (3), `dest` (3), `sign` (1), `opcode` (4).
use vstd::prelude::*;

verus! {

/// The operations of the machine. Fifteen of the sixteen opcode values are assigned.
#[derive(PartialEq, Eq, Structural, Clone, Copy, Debug)]
pub enum Anti80Opcode {
    Prefix,
    Sw,
    Sb,
    Jal,
    Li,
    Lw,
    Lb,
    Lbu,
    Skipc,
    Add,
    Subr,
    And,
    Or,
    Xor,
    Shr,
}

/// The one table from opcodes to their numeric codes.
pub open spec fn opcode_code(op: Anti80Opcode) -> u16 {
    match op {
        Anti80Opcode::Prefix => 0,
        Anti80Opcode::Sw => 1,
        Anti80Opcode::Sb => 2,
        Anti80Opcode::Jal => 3,
        Anti80Opcode::Li => 4,
        Anti80Opcode::Lw => 5,
        Anti80Opcode::Lb => 6,
        Anti80Opcode::Lbu => 7,
        Anti80Opcode::Skipc => 8,
        Anti80Opcode::Add => 9,
        Anti80Opcode::Subr => 10,
        Anti80Opcode::And => 11,
        Anti80Opcode::Or => 12,
        Anti80Opcode::Xor => 13,
        Anti80Opcode::Shr => 14,
    }
}

/// The opcode that a numeric code stands for, if any.
pub open spec fn opcode_of_code(c: u16) -> Option<Anti80Opcode> {
    if exists|op: Anti80Opcode| opcode_code(op) == c {
        Some(choose|op: Anti80Opcode| opcode_code(op) == c)
    } else {
        None
    }
}

/// A register index, R0 to R7. R7 is the link register of `Jal`.
#[derive(PartialEq, Eq, Structural, Clone, Copy, Debug)]
pub enum Anti80Reg {
    R0,
    R1,
    R2,
    R3,
    R4,
    R5,
    R6,
    R7,
}

pub open spec fn reg_index(r: Anti80Reg) -> u16 {
    match r {
        Anti80Reg::R0 => 0,
        Anti80Reg::R1 => 1,
        Anti80Reg::R2 => 2,
        Anti80Reg::R3 => 3,
        Anti80Reg::R4 => 4,
        Anti80Reg::R5 => 5,
        Anti80Reg::R6 => 6,
        Anti80Reg::R7 => 7,
    }
}

/// The condition of a `Skipc`, held in its `dest` field. Codes 2 and 3 are reserved.
#[derive(PartialEq, Eq, Structural, Clone, Copy, Debug)]
pub enum Anti80SkipCond {
    Beq,
    Bne,
    Uimp2,
    Uimp3,
    Blt,
    Bge,
    Bltu,
    Bgeu,
}

pub open spec fn cond_code(c: Anti80SkipCond) -> u16 {
    match c {
        Anti80SkipCond::Beq => 0,
        Anti80SkipCond::Bne => 1,
        Anti80SkipCond::Uimp2 => 2,
        Anti80SkipCond::Uimp3 => 3,
        Anti80SkipCond::Blt => 4,
        Anti80SkipCond::Bge => 5,
        Anti80SkipCond::Bltu => 6,
        Anti80SkipCond::Bgeu => 7,
    }
}

pub open spec fn cond_of_code(c: u16) -> Anti80SkipCond {
    if c == 0 {
        Anti80SkipCond::Beq
    } else if c == 1 {
        Anti80SkipCond::Bne
    } else if c == 2 {
        Anti80SkipCond::Uimp2
    } else if c == 3 {
        Anti80SkipCond::Uimp3
    } else if c == 4 {
        Anti80SkipCond::Blt
    } else if c == 5 {
        Anti80SkipCond::Bge
    } else if c == 6 {
        Anti80SkipCond::Bltu
    } else {
        Anti80SkipCond::Bgeu
    }
}

impl Anti80Opcode {
    /// The numeric code of this opcode.
    pub fn code(self) -> (r: u16)
        ensures
            r == opcode_code(self),
            r < 15,
    {
        match self {
            Anti80Opcode::Prefix => 0,
            Anti80Opcode::Sw => 1,
            Anti80Opcode::Sb => 2,
            Anti80Opcode::Jal => 3,
            Anti80Opcode::Li => 4,
            Anti80Opcode::Lw => 5,
            Anti80Opcode::Lb => 6,
            Anti80Opcode::Lbu => 7,
            Anti80Opcode::Skipc => 8,
            Anti80Opcode::Add => 9,
            Anti80Opcode::Subr => 10,
            Anti80Opcode::And => 11,
            Anti80Opcode::Or => 12,
            Anti80Opcode::Xor => 13,
            Anti80Opcode::Shr => 14,
        }
    }

    /// The opcode of a numeric code; `None` for a code that no opcode has.
    pub fn from_code(c: u16) -> (r: Option<Anti80Opcode>)
        ensures
            r == opcode_of_code(c),
            r is None <==> c >= 15,
            r matches Some(op) ==> opcode_code(op) == c,
    {
        let r = if c == 0 {
            Some(Anti80Opcode::Prefix)
        } else if c == 1 {
            Some(Anti80Opcode::Sw)
        } else if c == 2 {
            Some(Anti80Opcode::Sb)
        } else if c == 3 {
            Some(Anti80Opcode::Jal)
        } else if c == 4 {
            Some(Anti80Opcode::Li)
        } else if c == 5 {
            Some(Anti80Opcode::Lw)
        } else if c == 6 {
            Some(Anti80Opcode::Lb)
        } else if c == 7 {
            Some(Anti80Opcode::Lbu)
        } else if c == 8 {
            Some(Anti80Opcode::Skipc)
        } else if c == 9 {
            Some(Anti80Opcode::Add)
        } else if c == 10 {
            Some(Anti80Opcode::Subr)
        } else if c == 11 {
            Some(Anti80Opcode::And)
        } else if c == 12 {
            Some(Anti80Opcode::Or)
        } else if c == 13 {
            Some(Anti80Opcode::Xor)
        } else if c == 14 {
            Some(Anti80Opcode::Shr)
        } else {
            None
        };
        proof {
            lemma_opcode_code_injective();
            if let Some(op) = r {
                assert(opcode_code(op) == c);
            } else {
                assert forall|op: Anti80Opcode| opcode_code(op) != c by {
                    assert(opcode_code(op) < 15);
                }
            }
        }
        r
    }
}

/// Two opcodes with one code are the same opcode.
pub proof fn lemma_opcode_code_injective()
    ensures
        forall|a: Anti80Opcode, b: Anti80Opcode| opcode_code(a) == opcode_code(b) ==> a == b,
{
}

impl Anti80Reg {
    /// The register's index, 0 to 7.
    pub fn index(self) -> (r: u16)
        ensures
            r == reg_index(self),
            r < 8,
    {
        match self {
            Anti80Reg::R0 => 0,
            Anti80Reg::R1 => 1,
            Anti80Reg::R2 => 2,
            Anti80Reg::R3 => 3,
            Anti80Reg::R4 => 4,
            Anti80Reg::R5 => 5,
            Anti80Reg::R6 => 6,
            Anti80Reg::R7 => 7,
        }
    }
}

impl Anti80SkipCond {
    /// The condition with code `c`.
    pub fn from_code(c: u16) -> (r: Anti80SkipCond)
        requires
            c < 8,
        ensures
            cond_code(r) == c,
            r == cond_of_code(c),
    {
        if c == 0 {
            Anti80SkipCond::Beq
        } else if c == 1 {
            Anti80SkipCond::Bne
        } else if c == 2 {
            Anti80SkipCond::Uimp2
        } else if c == 3 {
            Anti80SkipCond::Uimp3
        } else if c == 4 {
            Anti80SkipCond::Blt
        } else if c == 5 {
            Anti80SkipCond::Bge
        } else if c == 6 {
            Anti80SkipCond::Bltu
        } else {
            Anti80SkipCond::Bgeu
        }
    }

    /// The condition's code, 0 to 7.
    pub fn code(self) -> (r: u16)
        ensures
            r == cond_code(self),
            r < 8,
            cond_of_code(r) == self,
    {
        match self {
            Anti80SkipCond::Beq => 0,
            Anti80SkipCond::Bne => 1,
            Anti80SkipCond::Uimp2 => 2,
            Anti80SkipCond::Uimp3 => 3,
            Anti80SkipCond::Blt => 4,
            Anti80SkipCond::Bge => 5,
            Anti80SkipCond::Bltu => 6,
            Anti80SkipCond::Bgeu => 7,
        }
    }
}

pub open spec fn src2_of(w: u16) -> u16 {
    w & 31
}

pub open spec fn src1_of(w: u16) -> u16 {
    (w >> 5) & 7
}

pub open spec fn dest_of(w: u16) -> u16 {
    (w >> 8) & 7
}

pub open spec fn sign_of(w: u16) -> u16 {
    (w >> 11) & 1
}

pub open spec fn opcode_bits_of(w: u16) -> u16 {
    w >> 12
}

/// The word that holds the given field values, each within its width.
pub open spec fn pack(opcode: u16, sign: u16, dest: u16, src1: u16, src2: u16) -> u16 {
    (opcode * 4096 + sign * 2048 + dest * 256 + src1 * 32 + src2) as u16
}

pub open spec fn fields_fit(opcode: u16, sign: u16, dest: u16, src1: u16, src2: u16) -> bool {
    opcode < 16 && sign < 2 && dest < 8 && src1 < 8 && src2 < 32
}

/// Each field of a word lies within its width.
pub proof fn lemma_field_bounds(w: u16)
    ensures
        src2_of(w) < 32,
        src1_of(w) < 8,
        dest_of(w) < 8,
        sign_of(w) < 2,
        opcode_bits_of(w) < 16,
{
    assert(w & 31 < 32 && (w >> 5) & 7 < 8 && (w >> 8) & 7 < 8 && (w >> 11) & 1 < 2 && w >> 12
        < 16) by (bit_vector);
}

/// Packing fields and reading them back gives the same fields.
pub proof fn lemma_pack_unpack(opcode: u16, sign: u16, dest: u16, src1: u16, src2: u16)
    requires
        fields_fit(opcode, sign, dest, src1, src2),
    ensures
        ({
            let w = pack(opcode, sign, dest, src1, src2);
            opcode_bits_of(w) == opcode && sign_of(w) == sign && dest_of(w) == dest
                && src1_of(w) == src1 && src2_of(w) == src2
        }),
{
    let w = pack(opcode, sign, dest, src1, src2);
    assert(opcode_bits_of(w) == opcode && sign_of(w) == sign && dest_of(w) == dest && src1_of(w)
        == src1 && src2_of(w) == src2) by (bit_vector)
        requires
            opcode < 16 && sign < 2 && dest < 8 && src1 < 8 && src2 < 32,
            w == (opcode * 4096 + sign * 2048 + dest * 256 + src1 * 32 + src2) as u16,
    ;
}

/// Every word is the packing of its own fields.
pub proof fn lemma_unpack_pack(w: u16)
    ensures
        fields_fit(opcode_bits_of(w), sign_of(w), dest_of(w), src1_of(w), src2_of(w)),
        pack(opcode_bits_of(w), sign_of(w), dest_of(w), src1_of(w), src2_of(w)) == w,
{
    assert(((w >> 12) < 16 && ((w >> 11) & 1) < 2 && ((w >> 8) & 7) < 8 && ((w >> 5) & 7) < 8 && (w
        & 31) < 32) && ((w >> 12) * 4096 + ((w >> 11) & 1) * 2048 + ((w >> 8) & 7) * 256 + ((w
        >> 5) & 7) * 32 + (w & 31)) as u16 == w) by (bit_vector);
}

/// Why an instruction could not be encoded.
#[derive(PartialEq, Eq, Structural, Clone, Copy, Debug)]
pub enum Anti80EncodeError {
    /// A field value does not fit the field's width.
    EncodingRange,
    /// A prefix was to follow another prefix.
    PrefixAfterPrefix,
    /// The operation has no encoder yet.
    Unsupported,
}

/// One instruction word.
#[derive(PartialEq, Eq, Structural, Clone, Copy, Debug)]
pub struct Anti80Insn {
    pub word: u16,
}

impl Anti80Insn {
    /// The all-zero word.
    pub fn new() -> (r: Anti80Insn)
        ensures
            r.word == 0,
    {
        Anti80Insn { word: 0 }
    }

    /// Packs the fields into a word; every field must fit its width.
    pub fn encode(op: Anti80Opcode, sign: u8, dest: u8, src1: u8, src2: u8) -> (r: Result<
        Anti80Insn,
        Anti80EncodeError,
    >)
        ensures
            r is Err <==> !fields_fit(
                opcode_code(op),
                sign as u16,
                dest as u16,
                src1 as u16,
                src2 as u16,
            ),
            r is Err ==> r == Err::<Anti80Insn, Anti80EncodeError>(
                Anti80EncodeError::EncodingRange,
            ),
            r matches Ok(i) ==> i.word == pack(
                opcode_code(op),
                sign as u16,
                dest as u16,
                src1 as u16,
                src2 as u16,
            ),
    {
        if sign < 2 && dest < 8 && src1 < 8 && src2 < 32 {
            Ok(Self::encode_fields(op.code(), sign as u16, dest as u16, src1 as u16, src2 as u16))
        } else {
            Err(Anti80EncodeError::EncodingRange)
        }
    }

    pub(crate) fn encode_fields(opcode: u16, sign: u16, dest: u16, src1: u16, src2: u16) -> (r:
        Anti80Insn)
        requires
            fields_fit(opcode, sign, dest, src1, src2),
        ensures
            r.word == pack(opcode, sign, dest, src1, src2),
    {
        Anti80Insn { word: opcode * 4096 + sign * 2048 + dest * 256 + src1 * 32 + src2 }
    }

    /// The word from its two bytes, low byte first.
    pub fn from_bytes(bytes: [u8; 2]) -> (r: Anti80Insn)
        ensures
            r.word == bytes@[0] as u16 + 256 * bytes@[1] as u16,
    {
        Anti80Insn { word: bytes[0] as u16 + 256 * (bytes[1] as u16) }
    }

    /// The word's two bytes, low byte first.
    pub fn into_bytes(self) -> (r: [u8; 2])
        ensures
            r@.len() == 2,
            r@[0] == self.word % 256,
            r@[1] == self.word / 256,
    {
        [(self.word % 256) as u8, (self.word / 256) as u8]
    }

    /// The opcode, or `None` where the opcode field holds no assigned code.
    pub fn opcode(self) -> (r: Option<Anti80Opcode>)
        ensures
            r == opcode_of_code(opcode_bits_of(self.word)),
    {
        Anti80Opcode::from_code(self.word >> 12)
    }

    pub fn sign(self) -> (r: u16)
        ensures
            r == sign_of(self.word),
            r < 2,
    {
        proof {
            lemma_field_bounds(self.word);
        }
        (self.word >> 11) & 1
    }

    pub fn dest(self) -> (r: u16)
        ensures
            r == dest_of(self.word),
            r < 8,
    {
        proof {
            lemma_field_bounds(self.word);
        }
        (self.word >> 8) & 7
    }

    pub fn src1(self) -> (r: u16)
        ensures
            r == src1_of(self.word),
            r < 8,
    {
        proof {
            lemma_field_bounds(self.word);
        }
        (self.word >> 5) & 7
    }

    pub fn src2(self) -> (r: u16)
        ensures
            r == src2_of(self.word),
            r < 32,
    {
        proof {
            lemma_field_bounds(self.word);
        }
        self.word & 31
    }
}

} // verus!
