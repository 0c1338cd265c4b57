//! The assembler: builds instruction words at the assembly cursor, with a prefix
//! in front wherever an immediate does not fit the instruction's own fields.
use vstd::prelude::*;

use crate::codec::{
    Anti80EncodeError,
    Anti80Insn,
    Anti80Opcode,
    Anti80Reg,
    Anti80SkipCond,
    cond_code,
    fields_fit,
    opcode_bits_of,
    opcode_code,
    pack,
    reg_index,
};
use crate::machine::{Anti80, Anti80State, lemma_u16_wrap};

verus! {

/// The state after writing word `w` at the assembly cursor and advancing it.
pub open spec fn emit(s: Anti80State, w: u16) -> Anti80State {
    let a = s.asm_addr as u16;
    Anti80State {
        asm_addr: (a + 2) as u16 as i16,
        asm_prefixed: opcode_bits_of(w) == 0,
        ..s.with_byte(a, w as u8).with_byte((a + 1) as u16, (w >> 8u16) as u8)
    }
}

/// The state after writing one or two words.
pub open spec fn emit_words(s: Anti80State, ws: Seq<u16>) -> Anti80State {
    if ws.len() == 1 {
        emit(s, ws[0])
    } else {
        emit(emit(s, ws[0]), ws[1])
    }
}

pub open spec fn sign_bit(v: i16) -> u16 {
    if v < 0 {
        1
    } else {
        0
    }
}

/// The prefix word that supplies bits 5 to 14 of `v`.
pub open spec fn prefix_word(v: u16) -> u16 {
    pack(0, 0, (v >> 13u16) & 3, (v >> 10u16) & 7, (v >> 5u16) & 31)
}

/// `w`, with the prefix word for `v` in front where `needed`.
pub open spec fn prefixed(needed: bool, v: u16, w: u16) -> Seq<u16> {
    if needed {
        seq![prefix_word(v), w]
    } else {
        seq![w]
    }
}

/// The values that `Li` holds without a prefix.
pub open spec fn li_fits(v: i16) -> bool {
    -256 <= v < 256
}

/// The values that the register-or-immediate formats hold without a prefix; the
/// values -32 to -25 would read as a register.
pub open spec fn alui_fits(v: i16) -> bool {
    -24 <= v < 32
}

/// The offsets that loads and stores hold without a prefix.
pub open spec fn offset_fits(v: i16) -> bool {
    -32 <= v < 32
}

/// The word offsets that `Jal` holds without a prefix; a negative offset above
/// -512 would read as a register jump.
pub open spec fn jal_fits(delta: i16) -> bool {
    -512 <= delta < 2048
}

pub open spec fn li_words(d: u16, v: i16) -> Seq<u16> {
    prefixed(
        !li_fits(v),
        v as u16,
        pack(opcode_code(Anti80Opcode::Li), sign_bit(v), d, ((v as u16) >> 5u16) & 7, (v as u16) & 31),
    )
}

pub open spec fn alui_words(op: u16, d: u16, rs1: u16, v: i16) -> Seq<u16> {
    prefixed(!alui_fits(v), v as u16, pack(op, sign_bit(v), d, rs1, (v as u16) & 31))
}

pub open spec fn store_words(op: u16, rs1: u16, rs2: u16, v: i16) -> Seq<u16> {
    prefixed(
        !offset_fits(v),
        v as u16,
        pack(op, sign_bit(v), (v as u16) & 7, rs1, ((((v as u16) >> 3u16) & 3) * 8 + rs2) as u16),
    )
}

pub open spec fn load_words(op: u16, d: u16, rs1: u16, v: i16) -> Seq<u16> {
    prefixed(!offset_fits(v), v as u16, pack(op, sign_bit(v), d, rs1, (v as u16) & 31))
}

/// The `Jal` word for a word offset; a negative offset keeps the top bits of
/// `src2` set, so that it never reads as a register jump.
pub open spec fn jal_word(delta: i16) -> u16 {
    let u = delta as u16;
    pack(
        opcode_code(Anti80Opcode::Jal),
        sign_bit(delta),
        u & 7,
        (u >> 3u16) & 7,
        ((u >> 6u16) & 31) | (if delta < 0 {
            24u16
        } else {
            0u16
        }),
    )
}

/// Half the distance from `from` to `target`, as a signed word offset.
pub open spec fn word_offset(from: u16, target: u16) -> i16 {
    (((target - from) as u16) as i16) >> 1u16
}

/// The words that jump from a `Jal` assembled at `a` to `target`.
pub open spec fn jali_words(a: u16, target: u16) -> Seq<u16> {
    let d0 = word_offset((a + 2) as u16, target);
    let d1 = word_offset((a + 4) as u16, target);
    if jal_fits(d0) {
        seq![jal_word(d0)]
    } else {
        seq![prefix_word(d1 as u16), jal_word(d1)]
    }
}

/// Shift encodings: logical right, left and arithmetic right by a register;
/// logical and arithmetic right by 0 to 15; left by 0 to 7.
pub open spec fn shift_word(d: u16, rs1: u16, sign: u16, src2: u16) -> u16 {
    pack(opcode_code(Anti80Opcode::Shr), sign, d, rs1, src2)
}

pub proof fn lemma_bits(v: u16)
    ensures
        v & 31 < 32,
        v & 7 < 8,
        (v >> 3u16) & 3 < 4,
        (v >> 3u16) & 7 < 8,
        (v >> 5u16) & 7 < 8,
        (v >> 5u16) & 31 < 32,
        (v >> 6u16) & 31 < 32,
        ((v >> 6u16) & 31) | 24 < 32,
        ((v >> 6u16) & 31) | 0 == (v >> 6u16) & 31,
        (v >> 10u16) & 7 < 8,
        (v >> 13u16) & 3 < 4,
{
    assert(v & 31 < 32 && v & 7 < 8 && (v >> 3u16) & 3 < 4 && (v >> 3u16) & 7 < 8 && (v >> 5u16)
        & 7 < 8 && (v >> 5u16) & 31 < 32 && (v >> 6u16) & 31 < 32 && ((v >> 6u16) & 31) | 24 < 32
        && ((v >> 6u16) & 31) | 0 == (v >> 6u16) & 31 && (v >> 10u16) & 7 < 8 && (v >> 13u16) & 3 < 4) by (bit_vector);
}

impl Anti80 {
    /// Writes one word at the assembly cursor and advances the cursor by two.
    fn asm_internal(&mut self, op: Anti80Opcode, sign: u16, dest: u16, src1: u16, src2: u16)
        requires
            old(self)@.wf(),
            fields_fit(opcode_code(op), sign, dest, src1, src2),
        ensures
            final(self)@.wf(),
            final(self)@ == emit(old(self)@, pack(opcode_code(op), sign, dest, src1, src2)),
    {
        let code = op.code();
        let insn = Anti80Insn::encode_fields(code, sign, dest, src1, src2);
        proof {
            crate::codec::lemma_pack_unpack(code, sign, dest, src1, src2);
        }
        self.store_insn(self.asm_addr, insn);
        let a = self.asm_addr as u16;
        proof {
            lemma_u16_wrap(a, 2);
        }
        self.asm_addr = a.wrapping_add(2) as i16;
        self.asm_prefixed = code == 0;
    }

    /// Assembles a register-operand instruction: sign bit set, `rs2` in `src2`.
    pub fn asm_alu(&mut self, op: Anti80Opcode, dest: Anti80Reg, rs1: Anti80Reg, rs2: Anti80Reg)
        requires
            old(self)@.wf(),
        ensures
            final(self)@.wf(),
            final(self)@ == emit(
                old(self)@,
                pack(opcode_code(op), 1, reg_index(dest), reg_index(rs1), reg_index(rs2)),
            ),
    {
        self.asm_internal(op, 1, dest.index(), rs1.index(), rs2.index())
    }

    /// Assembles a prefix that supplies bits 5 to 14 of `imm` to the next
    /// instruction; refused right after another prefix.
    pub fn asm_prefix(&mut self, imm: i16) -> (r: Result<(), Anti80EncodeError>)
        requires
            old(self)@.wf(),
        ensures
            final(self)@.wf(),
            r is Err <==> old(self).asm_prefixed,
            r is Err ==> r == Err::<(), Anti80EncodeError>(Anti80EncodeError::PrefixAfterPrefix)
                && final(self)@ == old(self)@,
            r is Ok ==> final(self)@ == emit(old(self)@, prefix_word(imm as u16)),
    {
        if self.asm_prefixed {
            return Err(Anti80EncodeError::PrefixAfterPrefix);
        }
        let v = imm as u16;
        proof {
            lemma_bits(v);
        }
        self.asm_internal(Anti80Opcode::Prefix, 0, (v >> 13u16) & 3, (v >> 10u16) & 7, (v >> 5u16) & 31);
        Ok(())
    }

    /// Assembles a register-or-immediate instruction with an immediate operand.
    fn asm_alui(&mut self, op: Anti80Opcode, dest: u16, rs1: Anti80Reg, imm: i16) -> (r: Result<
        (),
        Anti80EncodeError,
    >)
        requires
            old(self)@.wf(),
            dest < 8,
        ensures
            final(self)@.wf(),
            r is Err <==> old(self).asm_prefixed && !alui_fits(imm),
            r is Err ==> r == Err::<(), Anti80EncodeError>(Anti80EncodeError::PrefixAfterPrefix)
                && final(self)@ == old(self)@,
            r is Ok ==> final(self)@ == emit_words(
                old(self)@,
                alui_words(opcode_code(op), dest, reg_index(rs1), imm),
            ),
    {
        if !(-24 <= imm && imm < 32) {
            self.asm_prefix(imm)?;
        }
        let v = imm as u16;
        proof {
            lemma_bits(v);
        }
        let sign: u16 = if imm < 0 {
            1
        } else {
            0
        };
        self.asm_internal(op, sign, dest, rs1.index(), v & 31);
        Ok(())
    }

    /// Assembles a store of `rs2` at `rs1 + offset`.
    pub fn asm_store(&mut self, op: Anti80Opcode, rs1: Anti80Reg, rs2: Anti80Reg, offset: i16) -> (r:
        Result<(), Anti80EncodeError>)
        requires
            old(self)@.wf(),
        ensures
            final(self)@.wf(),
            r is Err <==> old(self).asm_prefixed && !offset_fits(offset),
            r is Err ==> r == Err::<(), Anti80EncodeError>(Anti80EncodeError::PrefixAfterPrefix)
                && final(self)@ == old(self)@,
            r is Ok ==> final(self)@ == emit_words(
                old(self)@,
                store_words(opcode_code(op), reg_index(rs1), reg_index(rs2), offset),
            ),
    {
        if !(-32 <= offset && offset < 32) {
            self.asm_prefix(offset)?;
        }
        let v = offset as u16;
        proof {
            lemma_bits(v);
        }
        let imm43 = (v >> 3u16) & 3;
        let imm20 = v & 7;
        let sign: u16 = if offset < 0 {
            1
        } else {
            0
        };
        self.asm_internal(op, sign, imm20, rs1.index(), imm43 * 8 + rs2.index());
        Ok(())
    }

    pub fn asm_sw(&mut self, rs1: Anti80Reg, rs2: Anti80Reg, offset: i16) -> (r: Result<
        (),
        Anti80EncodeError,
    >)
        requires
            old(self)@.wf(),
        ensures
            final(self)@.wf(),
            r is Err <==> old(self).asm_prefixed && !offset_fits(offset),
            r is Err ==> r == Err::<(), Anti80EncodeError>(Anti80EncodeError::PrefixAfterPrefix)
                && final(self)@ == old(self)@,
            r is Ok ==> final(self)@ == emit_words(
                old(self)@,
                store_words(opcode_code(Anti80Opcode::Sw), reg_index(rs1), reg_index(rs2), offset),
            ),
    {
        self.asm_store(Anti80Opcode::Sw, rs1, rs2, offset)
    }

    pub fn asm_sb(&mut self, rs1: Anti80Reg, rs2: Anti80Reg, offset: i16) -> (r: Result<
        (),
        Anti80EncodeError,
    >)
        requires
            old(self)@.wf(),
        ensures
            final(self)@.wf(),
            r is Err <==> old(self).asm_prefixed && !offset_fits(offset),
            r is Err ==> r == Err::<(), Anti80EncodeError>(Anti80EncodeError::PrefixAfterPrefix)
                && final(self)@ == old(self)@,
            r is Ok ==> final(self)@ == emit_words(
                old(self)@,
                store_words(opcode_code(Anti80Opcode::Sb), reg_index(rs1), reg_index(rs2), offset),
            ),
    {
        self.asm_store(Anti80Opcode::Sb, rs1, rs2, offset)
    }

    /// Assembles a jump to the address in `rs2`, linking in R7.
    pub fn asm_jal(&mut self, rs2: Anti80Reg)
        requires
            old(self)@.wf(),
        ensures
            final(self)@.wf(),
            final(self)@ == emit(
                old(self)@,
                pack(opcode_code(Anti80Opcode::Jal), 1, 0, 0, reg_index(rs2)),
            ),
    {
        self.asm_internal(Anti80Opcode::Jal, 1, 0, 0, rs2.index());
    }

    fn asm_jal_offset(&mut self, delta: i16)
        requires
            old(self)@.wf(),
        ensures
            final(self)@.wf(),
            final(self)@ == emit(old(self)@, jal_word(delta)),
    {
        let u = delta as u16;
        proof {
            lemma_bits(u);
        }
        let sign: u16 = if delta < 0 {
            1
        } else {
            0
        };
        let high: u16 = if delta < 0 {
            24
        } else {
            0
        };
        self.asm_internal(Anti80Opcode::Jal, sign, u & 7, (u >> 3u16) & 7, ((u >> 6u16) & 31) | high);
    }

    /// Assembles a jump to the absolute address `target`, linking in R7. The
    /// distance from the address after the jump must be even.
    pub fn asm_jali(&mut self, target: i16) -> (r: Result<(), Anti80EncodeError>)
        requires
            old(self)@.wf(),
        ensures
            final(self)@.wf(),
            r is Err <==> ((target as u16 - old(self).asm_addr as u16) as u16) % 2 != 0 || (
            old(self).asm_prefixed && !jal_fits(
                word_offset((old(self).asm_addr as u16 + 2) as u16, target as u16),
            )),
            r is Err ==> final(self)@ == old(self)@,
            ((target as u16 - old(self).asm_addr as u16) as u16) % 2 != 0 ==> r == Err::<
                (),
                Anti80EncodeError,
            >(Anti80EncodeError::EncodingRange),
            ((target as u16 - old(self).asm_addr as u16) as u16) % 2 == 0 && r is Err ==> r
                == Err::<(), Anti80EncodeError>(Anti80EncodeError::PrefixAfterPrefix),
            r is Ok ==> final(self)@ == emit_words(
                old(self)@,
                jali_words(old(self).asm_addr as u16, target as u16),
            ),
    {
        let a = self.asm_addr as u16;
        let t = target as u16;
        let diff = t.wrapping_sub(a);
        proof {
            lemma_u16_wrap(t, a);
        }
        if diff % 2 != 0 {
            return Err(Anti80EncodeError::EncodingRange);
        }
        let a2 = a.wrapping_add(2);
        let d0 = (t.wrapping_sub(a2) as i16) >> 1u16;
        proof {
            lemma_u16_wrap(a, 2);
            lemma_u16_wrap(t, a2);
            lemma_u16_wrap(t, a);
        }
        if -512 <= d0 && d0 < 2048 {
            self.asm_jal_offset(d0);
        } else {
            if self.asm_prefixed {
                return Err(Anti80EncodeError::PrefixAfterPrefix);
            }
            let a4 = a.wrapping_add(4);
            let d1 = (t.wrapping_sub(a4) as i16) >> 1u16;
            proof {
                lemma_u16_wrap(a, 4);
                lemma_u16_wrap(t, a4);
            }
            let _ = self.asm_prefix(d1);
            self.asm_jal_offset(d1);
        }
        Ok(())
    }

    /// Assembles a load-immediate of `imm` into `dest`.
    pub fn asm_li(&mut self, dest: Anti80Reg, imm: i16) -> (r: Result<(), Anti80EncodeError>)
        requires
            old(self)@.wf(),
        ensures
            final(self)@.wf(),
            r is Err <==> old(self).asm_prefixed && !li_fits(imm),
            r is Err ==> r == Err::<(), Anti80EncodeError>(Anti80EncodeError::PrefixAfterPrefix)
                && final(self)@ == old(self)@,
            r is Ok ==> final(self)@ == emit_words(old(self)@, li_words(reg_index(dest), imm)),
    {
        if !(-256 <= imm && imm < 256) {
            self.asm_prefix(imm)?;
        }
        let v = imm as u16;
        proof {
            lemma_bits(v);
        }
        let sign: u16 = if imm < 0 {
            1
        } else {
            0
        };
        self.asm_internal(Anti80Opcode::Li, sign, dest.index(), (v >> 5u16) & 7, v & 31);
        Ok(())
    }

    pub fn asm_add(&mut self, dest: Anti80Reg, rs1: Anti80Reg, rs2: Anti80Reg)
        requires
            old(self)@.wf(),
        ensures
            final(self)@.wf(),
            final(self)@ == emit(
                old(self)@,
                pack(opcode_code(Anti80Opcode::Add), 1, reg_index(dest), reg_index(rs1), reg_index(rs2)),
            ),
    {
        self.asm_alu(Anti80Opcode::Add, dest, rs1, rs2)
    }

    pub fn asm_addi(&mut self, dest: Anti80Reg, rs1: Anti80Reg, imm: i16) -> (r: Result<
        (),
        Anti80EncodeError,
    >)
        requires
            old(self)@.wf(),
        ensures
            final(self)@.wf(),
            r is Err <==> old(self).asm_prefixed && !alui_fits(imm),
            r is Err ==> r == Err::<(), Anti80EncodeError>(Anti80EncodeError::PrefixAfterPrefix)
                && final(self)@ == old(self)@,
            r is Ok ==> final(self)@ == emit_words(
                old(self)@,
                alui_words(opcode_code(Anti80Opcode::Add), reg_index(dest), reg_index(rs1), imm),
            ),
    {
        self.asm_alui(Anti80Opcode::Add, dest.index(), rs1, imm)
    }

    fn asm_load(&mut self, op: Anti80Opcode, dest: Anti80Reg, rs1: Anti80Reg, offset: i16) -> (r:
        Result<(), Anti80EncodeError>)
        requires
            old(self)@.wf(),
        ensures
            final(self)@.wf(),
            r is Err <==> old(self).asm_prefixed && !offset_fits(offset),
            r is Err ==> r == Err::<(), Anti80EncodeError>(Anti80EncodeError::PrefixAfterPrefix)
                && final(self)@ == old(self)@,
            r is Ok ==> final(self)@ == emit_words(
                old(self)@,
                load_words(opcode_code(op), reg_index(dest), reg_index(rs1), offset),
            ),
    {
        if !(-32 <= offset && offset < 32) {
            self.asm_prefix(offset)?;
        }
        let v = offset as u16;
        proof {
            lemma_bits(v);
        }
        let sign: u16 = if offset < 0 {
            1
        } else {
            0
        };
        self.asm_internal(op, sign, dest.index(), rs1.index(), v & 31);
        Ok(())
    }

    /// Assembles a skip of the next instruction when `cond` holds between `rs1`
    /// and `rs2`; the reserved conditions are refused.
    pub fn asm_skipc(&mut self, cond: Anti80SkipCond, rs1: Anti80Reg, rs2: Anti80Reg) -> (r:
        Result<(), Anti80EncodeError>)
        requires
            old(self)@.wf(),
        ensures
            final(self)@.wf(),
            r is Err <==> cond == Anti80SkipCond::Uimp2 || cond == Anti80SkipCond::Uimp3,
            r is Err ==> r == Err::<(), Anti80EncodeError>(Anti80EncodeError::Unsupported)
                && final(self)@ == old(self)@,
            r is Ok ==> final(self)@ == emit(
                old(self)@,
                pack(opcode_code(Anti80Opcode::Skipc), 1, cond_code(cond), reg_index(rs1), reg_index(rs2)),
            ),
    {
        if cond == Anti80SkipCond::Uimp2 || cond == Anti80SkipCond::Uimp3 {
            return Err(Anti80EncodeError::Unsupported);
        }
        self.asm_internal(Anti80Opcode::Skipc, 1, cond.code(), rs1.index(), rs2.index());
        Ok(())
    }

    /// Assembles a skip of the next instruction when `cond` holds between `rs1`
    /// and `imm`; the reserved conditions are refused.
    pub fn asm_skipci(&mut self, cond: Anti80SkipCond, rs1: Anti80Reg, imm: i16) -> (r: Result<
        (),
        Anti80EncodeError,
    >)
        requires
            old(self)@.wf(),
        ensures
            final(self)@.wf(),
            r is Err <==> cond == Anti80SkipCond::Uimp2 || cond == Anti80SkipCond::Uimp3 || (
            old(self).asm_prefixed && !alui_fits(imm)),
            r is Err ==> final(self)@ == old(self)@,
            (cond == Anti80SkipCond::Uimp2 || cond == Anti80SkipCond::Uimp3) ==> r == Err::<
                (),
                Anti80EncodeError,
            >(Anti80EncodeError::Unsupported),
            !(cond == Anti80SkipCond::Uimp2 || cond == Anti80SkipCond::Uimp3) && r is Err ==> r
                == Err::<(), Anti80EncodeError>(Anti80EncodeError::PrefixAfterPrefix),
            r is Ok ==> final(self)@ == emit_words(
                old(self)@,
                alui_words(opcode_code(Anti80Opcode::Skipc), cond_code(cond), reg_index(rs1), imm),
            ),
    {
        if cond == Anti80SkipCond::Uimp2 || cond == Anti80SkipCond::Uimp3 {
            return Err(Anti80EncodeError::Unsupported);
        }
        self.asm_alui(Anti80Opcode::Skipc, cond.code(), rs1, imm)
    }

    /// Assembles a load into `dest` from `rs1 + offset`.
    pub fn asm_lw(&mut self, dest: Anti80Reg, rs1: Anti80Reg, offset: i16) -> (r: Result<
        (),
        Anti80EncodeError,
    >)
        requires
            old(self)@.wf(),
        ensures
            final(self)@.wf(),
            r is Err <==> old(self).asm_prefixed && !offset_fits(offset),
            r is Err ==> r == Err::<(), Anti80EncodeError>(Anti80EncodeError::PrefixAfterPrefix)
                && final(self)@ == old(self)@,
            r is Ok ==> final(self)@ == emit_words(
                old(self)@,
                load_words(opcode_code(Anti80Opcode::Lw), reg_index(dest), reg_index(rs1), offset),
            ),
    {
        self.asm_load(Anti80Opcode::Lw, dest, rs1, offset)
    }

    /// Not encodable yet: always refused, nothing written.
    pub fn asm_lwi(&mut self) -> (r: Result<(), Anti80EncodeError>)
        ensures
            r == Err::<(), Anti80EncodeError>(Anti80EncodeError::Unsupported),
            final(self)@ == old(self)@,
    {
        Err(Anti80EncodeError::Unsupported)
    }

    /// Assembles a load into `dest` from `rs1 + offset`.
    pub fn asm_lb(&mut self, dest: Anti80Reg, rs1: Anti80Reg, offset: i16) -> (r: Result<
        (),
        Anti80EncodeError,
    >)
        requires
            old(self)@.wf(),
        ensures
            final(self)@.wf(),
            r is Err <==> old(self).asm_prefixed && !offset_fits(offset),
            r is Err ==> r == Err::<(), Anti80EncodeError>(Anti80EncodeError::PrefixAfterPrefix)
                && final(self)@ == old(self)@,
            r is Ok ==> final(self)@ == emit_words(
                old(self)@,
                load_words(opcode_code(Anti80Opcode::Lb), reg_index(dest), reg_index(rs1), offset),
            ),
    {
        self.asm_load(Anti80Opcode::Lb, dest, rs1, offset)
    }

    /// Not encodable yet: always refused, nothing written.
    pub fn asm_lbi(&mut self) -> (r: Result<(), Anti80EncodeError>)
        ensures
            r == Err::<(), Anti80EncodeError>(Anti80EncodeError::Unsupported),
            final(self)@ == old(self)@,
    {
        Err(Anti80EncodeError::Unsupported)
    }

    /// Assembles a load into `dest` from `rs1 + offset`.
    pub fn asm_lbu(&mut self, dest: Anti80Reg, rs1: Anti80Reg, offset: i16) -> (r: Result<
        (),
        Anti80EncodeError,
    >)
        requires
            old(self)@.wf(),
        ensures
            final(self)@.wf(),
            r is Err <==> old(self).asm_prefixed && !offset_fits(offset),
            r is Err ==> r == Err::<(), Anti80EncodeError>(Anti80EncodeError::PrefixAfterPrefix)
                && final(self)@ == old(self)@,
            r is Ok ==> final(self)@ == emit_words(
                old(self)@,
                load_words(opcode_code(Anti80Opcode::Lbu), reg_index(dest), reg_index(rs1), offset),
            ),
    {
        self.asm_load(Anti80Opcode::Lbu, dest, rs1, offset)
    }

    /// Not encodable yet: always refused, nothing written.
    pub fn asm_lbui(&mut self) -> (r: Result<(), Anti80EncodeError>)
        ensures
            r == Err::<(), Anti80EncodeError>(Anti80EncodeError::Unsupported),
            final(self)@ == old(self)@,
    {
        Err(Anti80EncodeError::Unsupported)
    }

    pub fn asm_subr(&mut self, dest: Anti80Reg, rs1: Anti80Reg, rs2: Anti80Reg)
        requires
            old(self)@.wf(),
        ensures
            final(self)@.wf(),
            final(self)@ == emit(
                old(self)@,
                pack(opcode_code(Anti80Opcode::Subr), 1, reg_index(dest), reg_index(rs1), reg_index(rs2)),
            ),
    {
        self.asm_alu(Anti80Opcode::Subr, dest, rs1, rs2)
    }

    pub fn asm_subri(&mut self, dest: Anti80Reg, rs1: Anti80Reg, imm: i16) -> (r: Result<
        (),
        Anti80EncodeError,
    >)
        requires
            old(self)@.wf(),
        ensures
            final(self)@.wf(),
            r is Err <==> old(self).asm_prefixed && !alui_fits(imm),
            r is Err ==> r == Err::<(), Anti80EncodeError>(Anti80EncodeError::PrefixAfterPrefix)
                && final(self)@ == old(self)@,
            r is Ok ==> final(self)@ == emit_words(
                old(self)@,
                alui_words(opcode_code(Anti80Opcode::Subr), reg_index(dest), reg_index(rs1), imm),
            ),
    {
        self.asm_alui(Anti80Opcode::Subr, dest.index(), rs1, imm)
    }

    pub fn asm_and(&mut self, dest: Anti80Reg, rs1: Anti80Reg, rs2: Anti80Reg)
        requires
            old(self)@.wf(),
        ensures
            final(self)@.wf(),
            final(self)@ == emit(
                old(self)@,
                pack(opcode_code(Anti80Opcode::And), 1, reg_index(dest), reg_index(rs1), reg_index(rs2)),
            ),
    {
        self.asm_alu(Anti80Opcode::And, dest, rs1, rs2)
    }

    pub fn asm_andi(&mut self, dest: Anti80Reg, rs1: Anti80Reg, imm: i16) -> (r: Result<
        (),
        Anti80EncodeError,
    >)
        requires
            old(self)@.wf(),
        ensures
            final(self)@.wf(),
            r is Err <==> old(self).asm_prefixed && !alui_fits(imm),
            r is Err ==> r == Err::<(), Anti80EncodeError>(Anti80EncodeError::PrefixAfterPrefix)
                && final(self)@ == old(self)@,
            r is Ok ==> final(self)@ == emit_words(
                old(self)@,
                alui_words(opcode_code(Anti80Opcode::And), reg_index(dest), reg_index(rs1), imm),
            ),
    {
        self.asm_alui(Anti80Opcode::And, dest.index(), rs1, imm)
    }

    pub fn asm_or(&mut self, dest: Anti80Reg, rs1: Anti80Reg, rs2: Anti80Reg)
        requires
            old(self)@.wf(),
        ensures
            final(self)@.wf(),
            final(self)@ == emit(
                old(self)@,
                pack(opcode_code(Anti80Opcode::Or), 1, reg_index(dest), reg_index(rs1), reg_index(rs2)),
            ),
    {
        self.asm_alu(Anti80Opcode::Or, dest, rs1, rs2)
    }

    pub fn asm_ori(&mut self, dest: Anti80Reg, rs1: Anti80Reg, imm: i16) -> (r: Result<
        (),
        Anti80EncodeError,
    >)
        requires
            old(self)@.wf(),
        ensures
            final(self)@.wf(),
            r is Err <==> old(self).asm_prefixed && !alui_fits(imm),
            r is Err ==> r == Err::<(), Anti80EncodeError>(Anti80EncodeError::PrefixAfterPrefix)
                && final(self)@ == old(self)@,
            r is Ok ==> final(self)@ == emit_words(
                old(self)@,
                alui_words(opcode_code(Anti80Opcode::Or), reg_index(dest), reg_index(rs1), imm),
            ),
    {
        self.asm_alui(Anti80Opcode::Or, dest.index(), rs1, imm)
    }

    pub fn asm_xor(&mut self, dest: Anti80Reg, rs1: Anti80Reg, rs2: Anti80Reg)
        requires
            old(self)@.wf(),
        ensures
            final(self)@.wf(),
            final(self)@ == emit(
                old(self)@,
                pack(opcode_code(Anti80Opcode::Xor), 1, reg_index(dest), reg_index(rs1), reg_index(rs2)),
            ),
    {
        self.asm_alu(Anti80Opcode::Xor, dest, rs1, rs2)
    }

    pub fn asm_xori(&mut self, dest: Anti80Reg, rs1: Anti80Reg, imm: i16) -> (r: Result<
        (),
        Anti80EncodeError,
    >)
        requires
            old(self)@.wf(),
        ensures
            final(self)@.wf(),
            r is Err <==> old(self).asm_prefixed && !alui_fits(imm),
            r is Err ==> r == Err::<(), Anti80EncodeError>(Anti80EncodeError::PrefixAfterPrefix)
                && final(self)@ == old(self)@,
            r is Ok ==> final(self)@ == emit_words(
                old(self)@,
                alui_words(opcode_code(Anti80Opcode::Xor), reg_index(dest), reg_index(rs1), imm),
            ),
    {
        self.asm_alui(Anti80Opcode::Xor, dest.index(), rs1, imm)
    }

    /// Assembles a arithmetic right shift of `rs1` by the low four bits of `rs2`.
    pub fn asm_sra(&mut self, dest: Anti80Reg, rs1: Anti80Reg, rs2: Anti80Reg)
        requires
            old(self)@.wf(),
        ensures
            final(self)@.wf(),
            final(self)@ == emit(
                old(self)@,
                shift_word(reg_index(dest), reg_index(rs1), 1, (16 + reg_index(rs2)) as u16),
            ),
    {
        self.asm_internal(Anti80Opcode::Shr, 1, dest.index(), rs1.index(), 16 + rs2.index());
    }

    /// Assembles a arithmetic right shift of `rs1` by `amount`, which must be below 16.
    pub fn asm_srai(&mut self, dest: Anti80Reg, rs1: Anti80Reg, amount: u16) -> (r: Result<
        (),
        Anti80EncodeError,
    >)
        requires
            old(self)@.wf(),
        ensures
            final(self)@.wf(),
            r is Err <==> amount >= 16,
            r is Err ==> r == Err::<(), Anti80EncodeError>(Anti80EncodeError::EncodingRange)
                && final(self)@ == old(self)@,
            r is Ok ==> final(self)@ == emit(
                old(self)@,
                shift_word(reg_index(dest), reg_index(rs1), 0, (16 + amount) as u16),
            ),
    {
        if amount >= 16 {
            return Err(Anti80EncodeError::EncodingRange);
        }
        self.asm_internal(Anti80Opcode::Shr, 0, dest.index(), rs1.index(), 16 + amount);
        Ok(())
    }

    /// Assembles a logical right shift of `rs1` by the low four bits of `rs2`.
    pub fn asm_srl(&mut self, dest: Anti80Reg, rs1: Anti80Reg, rs2: Anti80Reg)
        requires
            old(self)@.wf(),
        ensures
            final(self)@.wf(),
            final(self)@ == emit(
                old(self)@,
                shift_word(reg_index(dest), reg_index(rs1), 1, (0 + reg_index(rs2)) as u16),
            ),
    {
        self.asm_internal(Anti80Opcode::Shr, 1, dest.index(), rs1.index(), 0 + rs2.index());
    }

    /// Assembles a logical right shift of `rs1` by `amount`, which must be below 16.
    pub fn asm_srli(&mut self, dest: Anti80Reg, rs1: Anti80Reg, amount: u16) -> (r: Result<
        (),
        Anti80EncodeError,
    >)
        requires
            old(self)@.wf(),
        ensures
            final(self)@.wf(),
            r is Err <==> amount >= 16,
            r is Err ==> r == Err::<(), Anti80EncodeError>(Anti80EncodeError::EncodingRange)
                && final(self)@ == old(self)@,
            r is Ok ==> final(self)@ == emit(
                old(self)@,
                shift_word(reg_index(dest), reg_index(rs1), 0, (0 + amount) as u16),
            ),
    {
        if amount >= 16 {
            return Err(Anti80EncodeError::EncodingRange);
        }
        self.asm_internal(Anti80Opcode::Shr, 0, dest.index(), rs1.index(), 0 + amount);
        Ok(())
    }

    /// Assembles a left shift of `rs1` by the low four bits of `rs2`.
    pub fn asm_sl(&mut self, dest: Anti80Reg, rs1: Anti80Reg, rs2: Anti80Reg)
        requires
            old(self)@.wf(),
        ensures
            final(self)@.wf(),
            final(self)@ == emit(
                old(self)@,
                shift_word(reg_index(dest), reg_index(rs1), 1, (8 + reg_index(rs2)) as u16),
            ),
    {
        self.asm_internal(Anti80Opcode::Shr, 1, dest.index(), rs1.index(), 8 + rs2.index());
    }

    /// Assembles a left shift of `rs1` by `amount`, which must be below 8.
    pub fn asm_sli(&mut self, dest: Anti80Reg, rs1: Anti80Reg, amount: u16) -> (r: Result<
        (),
        Anti80EncodeError,
    >)
        requires
            old(self)@.wf(),
        ensures
            final(self)@.wf(),
            r is Err <==> amount >= 8,
            r is Err ==> r == Err::<(), Anti80EncodeError>(Anti80EncodeError::EncodingRange)
                && final(self)@ == old(self)@,
            r is Ok ==> final(self)@ == emit(
                old(self)@,
                shift_word(reg_index(dest), reg_index(rs1), 1, (24 + amount) as u16),
            ),
    {
        if amount >= 8 {
            return Err(Anti80EncodeError::EncodingRange);
        }
        self.asm_internal(Anti80Opcode::Shr, 1, dest.index(), rs1.index(), 24 + amount);
        Ok(())
    }
}

} // verus!
