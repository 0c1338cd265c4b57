//! Machine state and the fetch-decode-execute step.
use vstd::prelude::*;

use crate::codec::{
    Anti80Insn,
    Anti80Opcode,
    Anti80SkipCond,
    cond_of_code,
    dest_of,
    lemma_field_bounds,
    opcode_bits_of,
    opcode_of_code,
    sign_of,
    src1_of,
    src2_of,
};

verus! {

/// The extension mask that a prefix installs: bits 5 to 14 come from the prefix.
pub const PREFIX_MASK: u16 = 0x801f;

/// Why a step could not be executed. The machine is left as it was.
#[derive(PartialEq, Eq, Structural, Clone, Copy, Debug)]
pub enum Anti80Fault {
    /// The program counter is odd.
    UnalignedFetch { pc: i16 },
    /// The opcode field of the fetched word holds no assigned code.
    IllegalOpcode { pc: i16, word: u16 },
    /// A 16-bit load or store at an odd address.
    UnalignedAccess { pc: i16, word: u16, addr: u16 },
    /// A prefix while the extension of another prefix is pending.
    PrefixAfterPrefix { pc: i16, word: u16 },
}

/// The processor: memory, registers, program counter, extension state, and the
/// assembly cursor with a note of whether the last word assembled was a prefix.
#[derive(Debug)]
pub struct Anti80 {
    pub memory: Vec<u8>,
    pub pc: i16,
    pub reg: Vec<i16>,
    pub asm_addr: i16,
    pub prefix_mask: i16,
    pub prefix_bits: i16,
    pub asm_prefixed: bool,
}

/// The model of a processor.
pub ghost struct Anti80State {
    pub memory: Seq<u8>,
    pub pc: i16,
    pub reg: Seq<i16>,
    pub asm_addr: i16,
    pub prefix_mask: i16,
    pub prefix_bits: i16,
    pub asm_prefixed: bool,
}

impl View for Anti80 {
    type V = Anti80State;

    open spec fn view(&self) -> Anti80State {
        Anti80State {
            memory: self.memory@,
            pc: self.pc,
            reg: self.reg@,
            asm_addr: self.asm_addr,
            prefix_mask: self.prefix_mask,
            prefix_bits: self.prefix_bits,
            asm_prefixed: self.asm_prefixed,
        }
    }
}

impl Anti80State {
    /// 65536 bytes of memory and eight registers.
    pub open spec fn wf(self) -> bool {
        self.memory.len() == 65536 && self.reg.len() == 8
    }

    /// No prefix extension is pending.
    pub open spec fn no_extension(self) -> bool {
        self.prefix_mask == -1 && self.prefix_bits == 0
    }

    pub open spec fn byte(self, addr: u16) -> u8 {
        self.memory[addr as int]
    }

    /// The 16-bit little-endian value at an even address.
    pub open spec fn word_at(self, addr: u16) -> u16 {
        (self.byte(addr) + 256 * self.byte((addr + 1) as u16)) as u16
    }

    pub open spec fn r(self, i: u16) -> u16 {
        self.reg[(i % 8) as int] as u16
    }

    /// A locally derived immediate with the pending extension spliced in.
    pub open spec fn combine(self, local: u16) -> u16 {
        (local & (self.prefix_mask as u16)) | (self.prefix_bits as u16)
    }

    /// The second operand of the register-or-immediate formats: a register where
    /// no extension is pending, the sign bit is set and `src2` is below 8.
    pub open spec fn operand(self, w: u16) -> u16 {
        if self.prefix_mask == -1 && sign_of(w) == 1 && src2_of(w) < 8 {
            self.r(src2_of(w))
        } else {
            self.combine(alu_local(w))
        }
    }

    pub open spec fn with_reg(self, i: u16, v: u16) -> Anti80State {
        Anti80State { reg: self.reg.update(i as int, v as i16), ..self }
    }

    pub open spec fn with_byte(self, addr: u16, v: u8) -> Anti80State {
        Anti80State { memory: self.memory.update(addr as int, v), ..self }
    }

    pub open spec fn at(self, pc: u16) -> Anti80State {
        Anti80State { pc: pc as i16, ..self }
    }

    pub open spec fn cleared(self) -> Anti80State {
        Anti80State { prefix_mask: -1i16, prefix_bits: 0i16, ..self }
    }
}

pub open spec fn fill(w: u16, ones: u16) -> u16 {
    if sign_of(w) == 1 {
        ones
    } else {
        0
    }
}

/// The six-bit signed immediate of the register-or-immediate and load formats.
pub open spec fn alu_local(w: u16) -> u16 {
    fill(w, 0xffe0) | src2_of(w)
}

/// The nine-bit signed immediate of `Li`.
pub open spec fn li_local(w: u16) -> u16 {
    fill(w, 0xff00) | (src1_of(w) << 5u16) | src2_of(w)
}

/// The six-bit signed offset of the stores: bits 3 and 4 from the top of `src2`,
/// bits 0 to 2 from `dest`.
pub open spec fn store_local(w: u16) -> u16 {
    fill(w, 0xffe0) | (src2_of(w) & 0x18) | dest_of(w)
}

/// The twelve-bit signed word offset of `Jal`.
pub open spec fn jal_local(w: u16) -> u16 {
    fill(w, 0xf800) | (src2_of(w) << 6u16) | (src1_of(w) << 3u16) | dest_of(w)
}

/// The extension bits that a prefix word installs.
pub open spec fn prefix_bits_of(w: u16) -> u16 {
    (dest_of(w) << 13u16) | (src1_of(w) << 10u16) | (src2_of(w) << 5u16)
}

/// Whether a `Skipc` condition holds; the reserved conditions never hold.
pub open spec fn cond_holds(c: Anti80SkipCond, a: u16, b: u16) -> bool {
    match c {
        Anti80SkipCond::Beq => a == b,
        Anti80SkipCond::Bne => a != b,
        Anti80SkipCond::Blt => (a as i16) < (b as i16),
        Anti80SkipCond::Bge => (a as i16) >= (b as i16),
        Anti80SkipCond::Bltu => a < b,
        Anti80SkipCond::Bgeu => a >= b,
        _ => false,
    }
}

/// The result of `Shr`, by the sign bit and the top two bits of `src2`.
pub open spec fn shift_result(w: u16, a: u16, rs2: u16) -> u16 {
    let sel = sign_of(w) * 4 + (src2_of(w) >> 3u16);
    let amount = rs2 & 15;
    if sel < 2 {
        a >> (src2_of(w) & 15)
    } else if sel < 4 {
        ((a as i16) >> (src2_of(w) & 15)) as u16
    } else if sel == 4 {
        a >> amount
    } else if sel == 5 {
        (a << amount) as u16
    } else if sel == 6 {
        ((a as i16) >> amount) as u16
    } else {
        (a << (src2_of(w) & 7)) as u16
    }
}

/// The state after executing word `w`, fetched at `s.pc`, with opcode `op`;
/// `next` is the address after the word.
pub open spec fn execute(s: Anti80State, w: u16, op: Anti80Opcode) -> Result<
    Anti80State,
    Anti80Fault,
> {
    let next = (s.pc as u16 + 2) as u16;
    let d = dest_of(w);
    let rs1 = s.r(src1_of(w));
    let rs2 = s.r(src2_of(w));
    let t = s.cleared().at(next);
    match op {
        Anti80Opcode::Prefix => if s.prefix_mask != -1 {
            Err(Anti80Fault::PrefixAfterPrefix { pc: s.pc, word: w })
        } else {
            Ok(
                Anti80State {
                    prefix_mask: PREFIX_MASK as i16,
                    prefix_bits: prefix_bits_of(w) as i16,
                    ..s.at(next)
                },
            )
        },
        Anti80Opcode::Sw => {
            let addr = (rs1 + s.combine(store_local(w))) as u16;
            if addr % 2 != 0 {
                Err(Anti80Fault::UnalignedAccess { pc: s.pc, word: w, addr })
            } else {
                Ok(t.with_byte(addr, rs2 as u8).with_byte((addr + 1) as u16, (rs2 >> 8u16) as u8))
            }
        },
        Anti80Opcode::Sb => {
            let addr = (rs1 + s.combine(store_local(w))) as u16;
            Ok(t.with_byte(addr, rs2 as u8))
        },
        Anti80Opcode::Jal => {
            let target = if sign_of(w) == 1 && src2_of(w) < 24 {
                rs2
            } else {
                (next + 2 * s.combine(jal_local(w))) as u16
            };
            Ok(t.with_reg(7, next).at(target))
        },
        Anti80Opcode::Li => Ok(t.with_reg(d, s.combine(li_local(w)))),
        Anti80Opcode::Lw => {
            let addr = (rs1 + s.combine(alu_local(w))) as u16;
            if addr % 2 != 0 {
                Err(Anti80Fault::UnalignedAccess { pc: s.pc, word: w, addr })
            } else {
                Ok(t.with_reg(d, s.word_at(addr)))
            }
        },
        Anti80Opcode::Lb => {
            let addr = (rs1 + s.combine(alu_local(w))) as u16;
            Ok(t.with_reg(d, (s.byte(addr) as i8) as u16))
        },
        Anti80Opcode::Lbu => {
            let addr = (rs1 + s.combine(alu_local(w))) as u16;
            Ok(t.with_reg(d, s.byte(addr) as u16))
        },
        Anti80Opcode::Skipc => {
            if cond_holds(cond_of_code(d), rs1, s.operand(w)) {
                Ok(t.at((next + 2) as u16))
            } else {
                Ok(t)
            }
        },
        Anti80Opcode::Add => Ok(t.with_reg(d, (s.operand(w) + rs1) as u16)),
        // Subr subtracts the first source from the operand.
        Anti80Opcode::Subr => Ok(t.with_reg(d, (s.operand(w) - rs1) as u16)),
        Anti80Opcode::And => Ok(t.with_reg(d, s.operand(w) & rs1)),
        Anti80Opcode::Or => Ok(t.with_reg(d, s.operand(w) | rs1)),
        Anti80Opcode::Xor => Ok(t.with_reg(d, s.operand(w) ^ rs1)),
        Anti80Opcode::Shr => Ok(t.with_reg(d, shift_result(w, rs1, rs2))),
    }
}

/// One fetch-decode-execute transition.
pub open spec fn step_spec(s: Anti80State) -> Result<Anti80State, Anti80Fault> {
    let pc = s.pc as u16;
    if pc % 2 != 0 {
        Err(Anti80Fault::UnalignedFetch { pc: s.pc })
    } else {
        let w = s.word_at(pc);
        match opcode_of_code(opcode_bits_of(w)) {
            None => Err(Anti80Fault::IllegalOpcode { pc: s.pc, word: w }),
            Some(op) => execute(s, w, op),
        }
    }
}

/// Truncation to 16 bits of a sum and of a difference of two 16-bit values.
pub proof fn lemma_u16_wrap(a: u16, b: u16)
    ensures
        a + b <= 65535 ==> (a + b) as u16 == a + b,
        a + b > 65535 ==> (a + b) as u16 == a + b - 65536,
        a >= b ==> (a - b) as u16 == a - b,
        a < b ==> (a - b) as u16 == a - b + 65536,
{
    assert(a + b <= 65535 ==> (a + b) as u16 == a + b) by (bit_vector);
    assert(a + b > 65535 ==> (a + b) as u16 == a + b - 65536) by (bit_vector);
    assert(a >= b ==> (a - b) as u16 == a - b) by (bit_vector);
    assert(a < b ==> (a - b) as u16 == a - b + 65536) by (bit_vector);
}

/// Doubling a 16-bit offset before a wrapping addition is the same as doubling it after.
proof fn lemma_wrap_twice(a: u16, b: u16)
    ensures
        (a + 2 * b) as u16 == (a + ((b + b) as u16)) as u16,
{
    assert((a + 2 * b) as u16 == (a + ((b + b) as u16)) as u16) by (bit_vector);
}

fn alu_imm(w: u16) -> (r: u16)
    ensures
        r == alu_local(w),
{
    let fill: u16 = if (w >> 11) & 1 == 1 {
        0xffe0
    } else {
        0
    };
    fill | (w & 31)
}

fn li_imm(w: u16) -> (r: u16)
    ensures
        r == li_local(w),
{
    let fill: u16 = if (w >> 11) & 1 == 1 {
        0xff00
    } else {
        0
    };
    fill | ((((w >> 5) & 7)) << 5u16) | (w & 31)
}

fn store_imm(w: u16) -> (r: u16)
    ensures
        r == store_local(w),
{
    let fill: u16 = if (w >> 11) & 1 == 1 {
        0xffe0
    } else {
        0
    };
    fill | ((w & 31) & 0x18) | ((w >> 8) & 7)
}

fn jal_imm(w: u16) -> (r: u16)
    ensures
        r == jal_local(w),
{
    let fill: u16 = if (w >> 11) & 1 == 1 {
        0xf800
    } else {
        0
    };
    fill | ((w & 31) << 6u16) | (((w >> 5) & 7) << 3u16) | ((w >> 8) & 7)
}

fn cond_holds_exec(c: Anti80SkipCond, a: u16, b: u16) -> (r: bool)
    ensures
        r == cond_holds(c, a, b),
{
    match c {
        Anti80SkipCond::Beq => a == b,
        Anti80SkipCond::Bne => a != b,
        Anti80SkipCond::Blt => (a as i16) < (b as i16),
        Anti80SkipCond::Bge => (a as i16) >= (b as i16),
        Anti80SkipCond::Bltu => a < b,
        Anti80SkipCond::Bgeu => a >= b,
        _ => false,
    }
}

fn shift_exec(w: u16, a: u16, rs2: u16) -> (r: u16)
    ensures
        r == shift_result(w, a, rs2),
{
    let src2 = w & 31;
    let amount = rs2 & 15;
    proof {
        lemma_field_bounds(w);
        assert(src2 & 15 < 16 && src2 & 7 < 8 && amount < 16 && src2 >> 3u16 < 4) by (bit_vector)
            requires
                src2 == w & 31,
                amount == rs2 & 15,
        ;
    }
    let sel = ((w >> 11) & 1) * 4 + (src2 >> 3u16);
    if sel < 2 {
        a >> (src2 & 15)
    } else if sel < 4 {
        ((a as i16) >> (src2 & 15)) as u16
    } else if sel == 4 {
        a >> amount
    } else if sel == 5 {
        a << amount
    } else if sel == 6 {
        ((a as i16) >> amount) as u16
    } else {
        a << (src2 & 7)
    }
}

impl Anti80 {
    /// A machine with zeroed memory and registers, `pc` 0 and no extension pending.
    pub fn new() -> (r: Anti80)
        ensures
            r@.wf(),
            r@.no_extension(),
            r@.memory == Seq::new(65536, |i: int| 0u8),
            r@.reg == Seq::new(8, |i: int| 0i16),
            r.pc == 0,
            r.asm_addr == 0,
            !r.asm_prefixed,
    {
        let r = Anti80 {
            memory: vec![0u8; 65536],
            pc: 0,
            reg: vec![0i16; 8],
            asm_addr: 0,
            prefix_mask: -1,
            prefix_bits: 0,
            asm_prefixed: false,
        };
        assert(r.memory@ =~= Seq::new(65536, |i: int| 0u8));
        assert(r.reg@ =~= Seq::new(8, |i: int| 0i16));
        r
    }

    /// The byte at `addr`, zero-extended.
    pub fn load8(&self, addr: i16) -> (r: i16)
        requires
            self@.wf(),
        ensures
            r == self@.byte(addr as u16) as i16,
    {
        self.memory[addr as u16 as usize] as i16
    }

    /// Stores the low byte of `data` at `addr`.
    pub fn store8(&mut self, addr: i16, data: i16)
        requires
            old(self)@.wf(),
        ensures
            final(self)@ == old(self)@.with_byte(addr as u16, data as u8),
    {
        self.memory.set(addr as u16 as usize, data as u8);
        assert(self@.memory =~= old(self)@.with_byte(addr as u16, data as u8).memory);
    }

    /// The two bytes at an even address, low byte first.
    pub fn load16(&self, addr: i16) -> (r: Option<[u8; 2]>)
        requires
            self@.wf(),
        ensures
            r is None <==> (addr as u16) % 2 != 0,
            r matches Some(b) ==> b@[0] == self@.byte(addr as u16) && b@[1] == self@.byte(
                (addr as u16 + 1) as u16,
            ),
    {
        let a = addr as u16;
        if a % 2 != 0 {
            None
        } else {
            Some([self.memory[a as usize], self.memory[a as usize + 1]])
        }
    }

    /// Writes an instruction word at `addr`, low byte first.
    pub fn store_insn(&mut self, addr: i16, insn: Anti80Insn)
        requires
            old(self)@.wf(),
        ensures
            final(self)@ == old(self)@.with_byte(addr as u16, insn.word as u8).with_byte(
                (addr as u16 + 1) as u16,
                (insn.word >> 8u16) as u8,
            ),
    {
        let bytes = insn.into_bytes();
        let a = addr as u16;
        let lo = bytes[0];
        let hi = bytes[1];
        let w = insn.word;
        assert(lo == w as u8 && hi == (w >> 8u16) as u8) by (bit_vector)
            requires
                lo == w % 256,
                hi == w / 256,
        ;
        self.memory.set(a as usize, lo);
        let a1 = a.wrapping_add(1);
        proof {
            lemma_u16_wrap(a, 1);
        }
        self.memory.set(a1 as usize, hi);
        assert(self@.memory =~= old(self)@.with_byte(addr as u16, insn.word as u8).with_byte(
            (addr as u16 + 1) as u16,
            (insn.word >> 8u16) as u8,
        ).memory);
    }

    fn reg_value(&self, i: u16) -> (r: u16)
        requires
            self@.wf(),
        ensures
            r == self@.r(i),
    {
        self.reg[(i % 8) as usize] as u16
    }

    fn set_reg(&mut self, i: u16, v: u16)
        requires
            old(self)@.wf(),
            i < 8,
        ensures
            final(self)@ == old(self)@.with_reg(i, v),
    {
        self.reg.set(i as usize, v as i16);
        assert(self@.reg =~= old(self)@.with_reg(i, v).reg);
    }

    fn write_byte(&mut self, addr: u16, v: u8)
        requires
            old(self)@.wf(),
        ensures
            final(self)@ == old(self)@.with_byte(addr, v),
    {
        self.memory.set(addr as usize, v);
        assert(self@.memory =~= old(self)@.with_byte(addr, v).memory);
    }

    fn combine(&self, local: u16) -> (r: u16)
        ensures
            r == self@.combine(local),
    {
        (local & (self.prefix_mask as u16)) | (self.prefix_bits as u16)
    }

    fn operand(&self, w: u16) -> (r: u16)
        requires
            self@.wf(),
        ensures
            r == self@.operand(w),
    {
        let insn = Anti80Insn { word: w };
        if self.prefix_mask == -1 && insn.sign() == 1 && insn.src2() < 8 {
            self.reg_value(insn.src2())
        } else {
            self.combine(alu_imm(w))
        }
    }

    /// Leaves the extension state at identity and the program counter at `pc`.
    fn retire(&mut self, pc: u16)
        ensures
            final(self)@ == old(self)@.cleared().at(pc),
    {
        self.prefix_mask = -1;
        self.prefix_bits = 0;
        self.pc = pc as i16;
    }

    /// Executes one instruction: fetches the word at `pc`, decodes it and performs
    /// its effect. On a fault the machine is left unchanged.
    pub fn step(&mut self) -> (r: Result<(), Anti80Fault>)
        requires
            old(self)@.wf(),
        ensures
            final(self)@.wf(),
            match step_spec(old(self)@) {
                Ok(t) => r is Ok && final(self)@ == t,
                Err(f) => r == Err::<(), Anti80Fault>(f) && final(self)@ == old(self)@,
            },
    {
        let bytes = match self.load16(self.pc) {
            None => {
                return Err(Anti80Fault::UnalignedFetch { pc: self.pc });
            },
            Some(b) => b,
        };
        let insn = Anti80Insn::from_bytes(bytes);
        proof {
            let pc = self.pc as u16;
            lemma_u16_wrap(pc, 1);
            assert(insn.word == self@.word_at(pc));
        }
        match insn.opcode() {
            None => Err(Anti80Fault::IllegalOpcode { pc: self.pc, word: insn.word }),
            Some(op) => self.execute(insn.word, op),
        }
    }

    fn execute(&mut self, w: u16, op: Anti80Opcode) -> (r: Result<(), Anti80Fault>)
        requires
            old(self)@.wf(),
        ensures
            final(self)@.wf(),
            match execute(old(self)@, w, op) {
                Ok(t) => r is Ok && final(self)@ == t,
                Err(f) => r == Err::<(), Anti80Fault>(f) && final(self)@ == old(self)@,
            },
    {
        let insn = Anti80Insn { word: w };
        let pc = self.pc as u16;
        let next = pc.wrapping_add(2);
        let d = insn.dest();
        let rs1 = self.reg_value(insn.src1());
        let rs2 = self.reg_value(insn.src2());
        proof {
            lemma_u16_wrap(pc, 2);
        }
        match op {
            Anti80Opcode::Prefix => {
                if self.prefix_mask != -1 {
                    return Err(Anti80Fault::PrefixAfterPrefix { pc: self.pc, word: w });
                }
                self.prefix_mask = PREFIX_MASK as i16;
                self.prefix_bits = ((insn.dest() << 13u16) | (insn.src1() << 10u16) | (
                insn.src2() << 5u16)) as i16;
                self.pc = next as i16;
            },
            Anti80Opcode::Sw => {
                let off = self.combine(store_imm(w));
                let addr = rs1.wrapping_add(off);
                proof {
                    lemma_u16_wrap(rs1, off);
                }
                if addr % 2 != 0 {
                    return Err(Anti80Fault::UnalignedAccess { pc: self.pc, word: w, addr });
                }
                self.retire(next);
                self.write_byte(addr, rs2 as u8);
                self.write_byte(addr + 1, (rs2 >> 8u16) as u8);
            },
            Anti80Opcode::Sb => {
                let off = self.combine(store_imm(w));
                let addr = rs1.wrapping_add(off);
                proof {
                    lemma_u16_wrap(rs1, off);
                }
                self.retire(next);
                self.write_byte(addr, rs2 as u8);
            },
            Anti80Opcode::Jal => {
                let target = if insn.sign() == 1 && insn.src2() < 24 {
                    rs2
                } else {
                    let off = self.combine(jal_imm(w));
                    let twice = off.wrapping_add(off);
                    proof {
                        lemma_u16_wrap(off, off);
                        lemma_u16_wrap(next, twice);
                        lemma_wrap_twice(next, off);
                    }
                    next.wrapping_add(twice)
                };
                self.retire(next);
                self.set_reg(7, next);
                self.pc = target as i16;
            },
            Anti80Opcode::Li => {
                let v = self.combine(li_imm(w));
                self.retire(next);
                self.set_reg(d, v);
            },
            Anti80Opcode::Lw | Anti80Opcode::Lb | Anti80Opcode::Lbu => {
                let off = self.combine(alu_imm(w));
                let addr = rs1.wrapping_add(off);
                proof {
                    lemma_u16_wrap(rs1, off);
                }
                let v: u16 = match op {
                    Anti80Opcode::Lw => {
                        if addr % 2 != 0 {
                            return Err(
                                Anti80Fault::UnalignedAccess { pc: self.pc, word: w, addr },
                            );
                        }
                        let lo = self.memory[addr as usize] as u16;
                        let hi = self.memory[addr as usize + 1] as u16;
                        proof {
                            lemma_u16_wrap(addr, 1);
                        }
                        lo + 256 * hi
                    },
                    Anti80Opcode::Lb => (self.memory[addr as usize] as i8) as u16,
                    _ => self.memory[addr as usize] as u16,
                };
                self.retire(next);
                self.set_reg(d, v);
            },
            Anti80Opcode::Skipc => {
                let b = self.operand(w);
                let taken = cond_holds_exec(Anti80SkipCond::from_code(d), rs1, b);
                let after = if taken {
                    proof {
                        lemma_u16_wrap(next, 2);
                    }
                    next.wrapping_add(2)
                } else {
                    next
                };
                self.retire(after);
            },
            Anti80Opcode::Add => {
                let b = self.operand(w);
                let v = b.wrapping_add(rs1);
                proof {
                    lemma_u16_wrap(b, rs1);
                }
                self.retire(next);
                self.set_reg(d, v);
            },
            Anti80Opcode::Subr => {
                let b = self.operand(w);
                let v = b.wrapping_sub(rs1);
                proof {
                    lemma_u16_wrap(b, rs1);
                }
                self.retire(next);
                self.set_reg(d, v);
            },
            Anti80Opcode::And => {
                let v = self.operand(w) & rs1;
                self.retire(next);
                self.set_reg(d, v);
            },
            Anti80Opcode::Or => {
                let v = self.operand(w) | rs1;
                self.retire(next);
                self.set_reg(d, v);
            },
            Anti80Opcode::Xor => {
                let v = self.operand(w) ^ rs1;
                self.retire(next);
                self.set_reg(d, v);
            },
            Anti80Opcode::Shr => {
                let v = shift_exec(w, rs1, rs2);
                self.retire(next);
                self.set_reg(d, v);
            },
        }
        Ok(())
    }
}

} // verus!
