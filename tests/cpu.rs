use anti80::{Anti80, Anti80EncodeError, Anti80Fault, Anti80Insn, Anti80Opcode, Anti80SkipCond};
use anti80::Anti80Opcode::{Add, Prefix};
use anti80::Anti80Reg::{R0, R1, R2, R3, R4, R5, R6, R7};

fn word_at(cpu: &Anti80, addr: i16) -> Anti80Insn {
    Anti80Insn::from_bytes(cpu.load16(addr).unwrap())
}

#[test]
fn li_all_values() {
    let mut cpu = Anti80::new();
    assert_eq!(cpu.reg, [0, 0, 0, 0, 0, 0, 0, 0]);

    for v in -32768..=32767 {
        cpu.asm_addr = 0;
        cpu.pc = 0;
        cpu.asm_li(R6, v).unwrap();
        if word_at(&cpu, cpu.pc).opcode() == Some(Prefix) {
            cpu.step().unwrap();
        }
        cpu.step().unwrap();
        assert_eq!(cpu.reg, [0, 0, 0, 0, 0, 0, v, 0]);
    }
}

#[test]
fn addi_all_values() {
    let mut cpu = Anti80::new();
    assert_eq!(cpu.reg, [0, 0, 0, 0, 0, 0, 0, 0]);
    cpu.reg[2] = 42;

    for v in -32768..=32767 {
        cpu.asm_addr = 0;
        cpu.pc = 0;
        cpu.asm_addi(R4, R2, v).unwrap();
        if word_at(&cpu, cpu.pc).opcode() == Some(Prefix) {
            cpu.step().unwrap();
        }
        cpu.step().unwrap();
        assert_eq!(cpu.reg, [0, 0, 42, 0, v.wrapping_add(42) as i16, 0, 0, 0]);
    }
}

#[test]
fn init_and_step() {
    let mut cpu = Anti80::new();
    cpu.reg[5] = 14;
    cpu.reg[6] = 7;

    cpu.asm_alu(Add, R7, R5, R6);
    assert_eq!(cpu.reg, [0, 0, 0, 0, 0, 14, 7, 0]);

    cpu.step().unwrap();
    assert_eq!(cpu.reg, [0, 0, 0, 0, 0, 14, 7, 21]);
}

#[test]
fn encode_decode_fields() {
    let i = Anti80Insn::encode(Anti80Opcode::Shr, 1, 5, 3, 27).unwrap();
    assert_eq!(i.word, 14 * 4096 + 2048 + 5 * 256 + 3 * 32 + 27);
    assert_eq!(i.opcode(), Some(Anti80Opcode::Shr));
    assert_eq!(i.sign(), 1);
    assert_eq!(i.dest(), 5);
    assert_eq!(i.src1(), 3);
    assert_eq!(i.src2(), 27);
    assert_eq!(Anti80Insn::from_bytes(i.into_bytes()), i);
    assert_eq!(i.into_bytes(), [(i.word % 256) as u8, (i.word / 256) as u8]);
}

#[test]
fn encode_out_of_range() {
    assert_eq!(Anti80Insn::encode(Add, 2, 0, 0, 0), Err(Anti80EncodeError::EncodingRange));
    assert_eq!(Anti80Insn::encode(Add, 0, 8, 0, 0), Err(Anti80EncodeError::EncodingRange));
    assert_eq!(Anti80Insn::encode(Add, 0, 0, 8, 0), Err(Anti80EncodeError::EncodingRange));
    assert_eq!(Anti80Insn::encode(Add, 0, 0, 0, 32), Err(Anti80EncodeError::EncodingRange));
    assert!(Anti80Insn::encode(Add, 1, 7, 7, 31).is_ok());
}

#[test]
fn opcode_table() {
    for c in 0..15u16 {
        let op = Anti80Opcode::from_code(c).unwrap();
        assert_eq!(op.code(), c);
    }
    assert_eq!(Anti80Opcode::from_code(15), None);
}

#[test]
fn round_trip_with_prefix() {
    let mut cpu = Anti80::new();
    cpu.asm_li(R3, 1000).unwrap();
    let p = word_at(&cpu, 0);
    let w = word_at(&cpu, 2);
    assert_eq!(p.opcode(), Some(Prefix));
    assert_eq!(w.opcode(), Some(Anti80Opcode::Li));
    assert_eq!(w.dest(), 3);
    assert_eq!(cpu.asm_addr, 4);
    let mut small = Anti80::new();
    small.asm_li(R3, -200).unwrap();
    assert_eq!(word_at(&small, 0).opcode(), Some(Anti80Opcode::Li));
    assert_eq!(small.asm_addr, 2);
}

#[test]
fn illegal_opcode_faults() {
    let mut cpu = Anti80::new();
    cpu.store_insn(0, Anti80Insn { word: 0xf123 });
    assert_eq!(cpu.step(), Err(Anti80Fault::IllegalOpcode { pc: 0, word: 0xf123 }));
    assert_eq!(cpu.pc, 0);
    assert_eq!(word_at(&cpu, 0).opcode(), None);
}

#[test]
fn unaligned_fetch_faults() {
    let mut cpu = Anti80::new();
    cpu.pc = 3;
    assert_eq!(cpu.step(), Err(Anti80Fault::UnalignedFetch { pc: 3 }));
    assert!(cpu.load16(3).is_none());
}

#[test]
fn prefix_after_prefix() {
    let mut cpu = Anti80::new();
    cpu.asm_prefix(0x1000).unwrap();
    assert_eq!(cpu.asm_prefix(0x2000), Err(Anti80EncodeError::PrefixAfterPrefix));
    assert_eq!(cpu.asm_li(R1, 5000), Err(Anti80EncodeError::PrefixAfterPrefix));
    assert_eq!(cpu.asm_addr, 2);

    let mut m = Anti80::new();
    m.step().unwrap();
    assert_eq!(m.step(), Err(Anti80Fault::PrefixAfterPrefix { pc: 2, word: 0 }));
}

#[test]
fn unsupported_emitters() {
    let mut cpu = Anti80::new();
    assert_eq!(cpu.asm_lwi(), Err(Anti80EncodeError::Unsupported));
    assert_eq!(cpu.asm_lbi(), Err(Anti80EncodeError::Unsupported));
    assert_eq!(cpu.asm_lbui(), Err(Anti80EncodeError::Unsupported));
    assert_eq!(cpu.asm_skipc(Anti80SkipCond::Uimp2, R1, R2), Err(Anti80EncodeError::Unsupported));
    assert_eq!(cpu.asm_skipci(Anti80SkipCond::Uimp3, R1, 3), Err(Anti80EncodeError::Unsupported));
    assert_eq!(cpu.asm_addr, 0);
}

#[test]
fn skip_when_equal() {
    let mut cpu = Anti80::new();
    cpu.reg[1] = 5;
    cpu.reg[2] = 5;
    cpu.asm_skipc(Anti80SkipCond::Beq, R1, R2).unwrap();
    cpu.asm_li(R3, 9).unwrap();
    cpu.step().unwrap();
    assert_eq!(cpu.pc, 4);
    assert_eq!(cpu.reg[3], 0);
}

#[test]
fn no_skip_when_different() {
    let mut cpu = Anti80::new();
    cpu.reg[1] = 5;
    cpu.reg[2] = 6;
    cpu.asm_skipc(Anti80SkipCond::Beq, R1, R2).unwrap();
    cpu.asm_li(R3, 9).unwrap();
    cpu.step().unwrap();
    assert_eq!(cpu.pc, 2);
    cpu.step().unwrap();
    assert_eq!(cpu.reg[3], 9);
    assert_eq!(cpu.pc, 4);
}

#[test]
fn skip_signed_and_unsigned() {
    let mut cpu = Anti80::new();
    cpu.reg[1] = -1;
    cpu.reg[2] = 1;
    cpu.asm_skipc(Anti80SkipCond::Blt, R1, R2).unwrap();
    cpu.step().unwrap();
    assert_eq!(cpu.pc, 4);

    cpu.pc = 0;
    cpu.asm_addr = 0;
    cpu.asm_skipc(Anti80SkipCond::Bltu, R1, R2).unwrap();
    cpu.step().unwrap();
    assert_eq!(cpu.pc, 2);

    cpu.pc = 0;
    cpu.asm_addr = 0;
    cpu.asm_skipci(Anti80SkipCond::Bne, R2, 1).unwrap();
    cpu.step().unwrap();
    assert_eq!(cpu.pc, 2);
}

#[test]
fn jump_and_link_near() {
    let mut cpu = Anti80::new();
    cpu.asm_addr = 100;
    cpu.pc = 100;
    cpu.asm_jali(1000).unwrap();
    cpu.step().unwrap();
    assert_eq!(cpu.reg[7], 102);
    assert_eq!(cpu.pc, 1000);
}

#[test]
fn jump_and_link_backward() {
    let mut cpu = Anti80::new();
    cpu.asm_addr = 600;
    cpu.pc = 600;
    cpu.asm_jali(200).unwrap();
    cpu.step().unwrap();
    assert_eq!(cpu.reg[7], 602);
    assert_eq!(cpu.pc, 200);
}

#[test]
fn jump_and_link_far() {
    let mut cpu = Anti80::new();
    cpu.asm_jali(20000).unwrap();
    assert_eq!(word_at(&cpu, 0).opcode(), Some(Prefix));
    cpu.step().unwrap();
    cpu.step().unwrap();
    assert_eq!(cpu.reg[7], 4);
    assert_eq!(cpu.pc, 20000);

    let mut back = Anti80::new();
    back.asm_addr = 30000;
    back.pc = 30000;
    back.asm_jali(-30000).unwrap();
    back.step().unwrap();
    back.step().unwrap();
    assert_eq!(back.reg[7], 30004);
    assert_eq!(back.pc, -30000);
}

#[test]
fn jump_odd_distance_refused() {
    let mut cpu = Anti80::new();
    assert_eq!(cpu.asm_jali(7), Err(Anti80EncodeError::EncodingRange));
    assert_eq!(cpu.asm_addr, 0);
}

#[test]
fn jump_through_register() {
    let mut cpu = Anti80::new();
    cpu.reg[3] = 500;
    cpu.asm_jal(R3);
    cpu.step().unwrap();
    assert_eq!(cpu.pc, 500);
    assert_eq!(cpu.reg[7], 2);
}

#[test]
fn store_and_load_word() {
    let mut cpu = Anti80::new();
    cpu.reg[1] = 0x100;
    cpu.reg[2] = 0x1234;
    cpu.asm_sw(R1, R2, 6).unwrap();
    cpu.asm_lw(R3, R1, 6).unwrap();
    cpu.asm_sw(R1, R2, 1000).unwrap();
    cpu.asm_lw(R4, R1, 1000).unwrap();
    for _ in 0..6 {
        cpu.step().unwrap();
    }
    assert_eq!(cpu.load8(0x106), 0x34);
    assert_eq!(cpu.load8(0x107), 0x12);
    assert_eq!(cpu.load8(0x100 + 1000), 0x34);
    assert_eq!(cpu.reg[3], 0x1234);
    assert_eq!(cpu.reg[4], 0x1234);
}

#[test]
fn store_negative_offset() {
    let mut cpu = Anti80::new();
    cpu.reg[1] = 0x200;
    cpu.reg[2] = -2;
    cpu.asm_sw(R1, R2, -32).unwrap();
    cpu.step().unwrap();
    assert_eq!(cpu.load8(0x200 - 32), 0xfe);
    assert_eq!(cpu.load8(0x200 - 31), 0xff);
}

#[test]
fn unaligned_word_access_faults() {
    let mut cpu = Anti80::new();
    cpu.reg[1] = 0x101;
    cpu.asm_lw(R3, R1, 0).unwrap();
    let w = word_at(&cpu, 0).word;
    assert_eq!(cpu.step(), Err(Anti80Fault::UnalignedAccess { pc: 0, word: w, addr: 0x101 }));
    cpu.asm_addr = 0;
    cpu.asm_sw(R1, R2, 0).unwrap();
    let w = word_at(&cpu, 0).word;
    assert_eq!(cpu.step(), Err(Anti80Fault::UnalignedAccess { pc: 0, word: w, addr: 0x101 }));
}

#[test]
fn byte_loads_extend() {
    let mut cpu = Anti80::new();
    cpu.reg[1] = 0x301;
    cpu.reg[2] = 0x80;
    cpu.asm_sb(R1, R2, 0).unwrap();
    cpu.asm_lb(R3, R1, 0).unwrap();
    cpu.asm_lbu(R4, R1, 0).unwrap();
    for _ in 0..3 {
        cpu.step().unwrap();
    }
    assert_eq!(cpu.reg[3], -128);
    assert_eq!(cpu.reg[4], 128);
}

#[test]
fn logic_and_subtract() {
    let mut cpu = Anti80::new();
    cpu.reg[1] = 0b1100;
    cpu.reg[2] = 0b1010;
    cpu.asm_and(R3, R1, R2);
    cpu.asm_or(R4, R1, R2);
    cpu.asm_xor(R5, R1, R2);
    cpu.asm_subr(R6, R1, R2);
    for _ in 0..4 {
        cpu.step().unwrap();
    }
    assert_eq!(cpu.reg[3..7], [0b1000, 0b1110, 0b0110, -2]);

    let mut imm = Anti80::new();
    imm.reg[1] = 3;
    imm.asm_subri(R3, R1, 10).unwrap();
    imm.asm_andi(R4, R1, 0x7ff1).unwrap();
    imm.asm_ori(R5, R1, -32).unwrap();
    imm.asm_xori(R6, R1, 1).unwrap();
    while imm.pc < imm.asm_addr {
        imm.step().unwrap();
    }
    assert_eq!(imm.reg[3..7], [7, 1, -29, 2]);
}

#[test]
fn shifts() {
    let mut cpu = Anti80::new();
    cpu.reg[1] = -16;
    cpu.reg[2] = 2;
    cpu.reg[0] = 3;
    cpu.asm_srai(R3, R1, 2).unwrap();
    cpu.asm_srli(R4, R1, 2).unwrap();
    cpu.asm_sli(R5, R0, 4).unwrap();
    cpu.asm_sra(R6, R1, R2);
    for _ in 0..4 {
        cpu.step().unwrap();
    }
    assert_eq!(cpu.reg[3..7], [-4, 16380, 48, -4]);

    let mut reg = Anti80::new();
    reg.reg[1] = -16;
    reg.reg[2] = 2;
    reg.reg[0] = 3;
    reg.asm_srl(R3, R1, R2);
    reg.asm_sl(R4, R0, R2);
    for _ in 0..2 {
        reg.step().unwrap();
    }
    assert_eq!(reg.reg[3..5], [16380, 12]);
    assert_eq!(reg.asm_sli(R5, R0, 8), Err(Anti80EncodeError::EncodingRange));
    assert_eq!(reg.asm_srai(R5, R0, 16), Err(Anti80EncodeError::EncodingRange));
}

#[test]
fn add_wraps() {
    let mut cpu = Anti80::new();
    cpu.reg[2] = 32767;
    cpu.asm_addi(R4, R2, 1).unwrap();
    cpu.step().unwrap();
    assert_eq!(cpu.reg[4], -32768);
}

#[test]
fn register_select_only_without_prefix() {
    let mut cpu = Anti80::new();
    cpu.reg[1] = 100;
    cpu.reg[2] = 7;
    cpu.asm_addi(R3, R1, -30).unwrap();
    assert_eq!(word_at(&cpu, 0).opcode(), Some(Prefix));
    cpu.step().unwrap();
    cpu.step().unwrap();
    assert_eq!(cpu.reg[3], 70);
}
