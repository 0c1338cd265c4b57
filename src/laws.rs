//! Laws that relate the assembler, the codec and the execution step.
use vstd::prelude::*;

use crate::assembler::{
    alui_fits,
    alui_words,
    emit,
    emit_words,
    jal_fits,
    jal_word,
    jali_words,
    li_fits,
    li_words,
    load_words,
    offset_fits,
    prefix_word,
    sign_bit,
    store_words,
    word_offset,
};
use crate::codec::{
    Anti80Opcode,
    dest_of,
    lemma_opcode_code_injective,
    lemma_pack_unpack,
    opcode_bits_of,
    opcode_code,
    opcode_of_code,
    pack,
    sign_of,
    src1_of,
    src2_of,
};
use crate::machine::{
    Anti80Fault,
    Anti80State,
    PREFIX_MASK,
    alu_local,
    jal_local,
    li_local,
    store_local,
    lemma_u16_wrap,
    prefix_bits_of,
    step_spec,
};

verus! {

/// The outcome of `n` steps from `s`; the first fault ends the run.
pub open spec fn run(s: Anti80State, n: nat) -> Result<Anti80State, Anti80Fault>
    decreases n,
{
    if n == 0 {
        Ok(s)
    } else {
        match step_spec(s) {
            Ok(t) => run(t, (n - 1) as nat),
            Err(f) => Err(f),
        }
    }
}

/// The state is ready to run what the assembler writes next: well formed, no
/// extension pending, and the program counter on the even assembly cursor.
pub open spec fn ready(s: Anti80State) -> bool {
    &&& s.wf()
    &&& s.no_extension()
    &&& s.pc == s.asm_addr
    &&& (s.asm_addr as u16) % 2 == 0
}

/// Every code that an opcode has decodes to that opcode.
pub proof fn lemma_opcode_of_code(op: Anti80Opcode)
    ensures
        opcode_of_code(opcode_code(op)) == Some(op),
{
    lemma_opcode_code_injective();
    assert(opcode_code(op) == opcode_code(op));
}

proof fn lemma_i16_round(v: i16)
    ensures
        (v as u16) as i16 == v,
        v < 0 <==> (v as u16) >= 0x8000,
{
    assert((v as u16) as i16 == v && (v < 0 <==> (v as u16) >= 0x8000)) by (bit_vector);
}

proof fn lemma_casts(x: u16)
    ensures
        (x as i16) as u16 == x,
        (-1i16) as u16 == 0xffff,
        (x & 0xffff) | 0 == x,
        (0i16) as u16 == 0,
        ((x as i16) as u16) as i16 == x as i16,
        (PREFIX_MASK as i16) as u16 == 0x801f,
        (PREFIX_MASK as i16) != -1,
        (x as u8 + 256 * ((x >> 8u16) as u8)) as u16 == x,
{
    assert((x as i16) as u16 == x && (-1i16) as u16 == 0xffff && (x & 0xffff) | 0 == x && (0i16) as u16 == 0
        && ((x as i16) as u16) as i16 == x as i16 && (
    0x801fu16 as i16) as u16 == 0x801f && (0x801fu16 as i16) != -1i16 && (x as u8 + 256 * ((x >> 8u16) as u8)) as u16 == x)
        by (bit_vector);
}

/// What writing one word at an even cursor does: the word reads back there,
/// and registers, program counter and extension state stay.
proof fn lemma_emit_one(s: Anti80State, w: u16)
    requires
        s.wf(),
        (s.asm_addr as u16) % 2 == 0,
    ensures
        ({
            let a = s.asm_addr as u16;
            let t = emit(s, w);
            &&& t.wf()
            &&& t.word_at(a) == w
            &&& t.reg == s.reg && t.pc == s.pc && t.prefix_mask == s.prefix_mask
                && t.prefix_bits == s.prefix_bits
            &&& t.asm_addr as u16 == (a + 2) as u16
            &&& (t.asm_addr as u16) % 2 == 0
            &&& forall|x: u16| x != a && x != (a + 1) as u16 ==> #[trigger] t.byte(x) == s.byte(x)
        }),
{
    let a = s.asm_addr as u16;
    lemma_u16_wrap(a, 1);
    lemma_u16_wrap(a, 2);
    lemma_casts(w);
    lemma_casts((a + 2) as u16);
    let t = emit(s, w);
    assert(t.byte(a) == w as u8);
    assert(t.byte((a + 1) as u16) == (w >> 8u16) as u8);
}

/// What writing two words at an even cursor does.
proof fn lemma_emit_two(s: Anti80State, w0: u16, w1: u16)
    requires
        s.wf(),
        (s.asm_addr as u16) % 2 == 0,
    ensures
        ({
            let a = s.asm_addr as u16;
            let t = emit(emit(s, w0), w1);
            &&& t.wf()
            &&& t.word_at(a) == w0
            &&& t.word_at((a + 2) as u16) == w1
            &&& t.reg == s.reg && t.pc == s.pc && t.prefix_mask == s.prefix_mask
                && t.prefix_bits == s.prefix_bits
        }),
{
    let a = s.asm_addr as u16;
    let t0 = emit(s, w0);
    lemma_emit_one(s, w0);
    lemma_emit_one(t0, w1);
    lemma_u16_wrap(a, 1);
    lemma_u16_wrap(a, 2);
    lemma_u16_wrap((a + 2) as u16, 1);
    let t = emit(t0, w1);
    assert(t.byte(a) == t0.byte(a));
    assert(t.byte((a + 1) as u16) == t0.byte((a + 1) as u16));
}

/// Executing a word `w` at the program counter of a state with no extension:
/// the word is fetched and decoded as `op`.
proof fn lemma_fetch(s: Anti80State, w: u16, op: Anti80Opcode)
    requires
        s.wf(),
        (s.pc as u16) % 2 == 0,
        s.word_at(s.pc as u16) == w,
        opcode_bits_of(w) == opcode_code(op),
    ensures
        step_spec(s) == crate::machine::execute(s, w, op),
{
    lemma_opcode_of_code(op);
}

/// The load-immediate value reads back from its fields, with or without a prefix.
proof fn lemma_li_value(v: i16)
    ensures
        ({
            let u = v as u16;
            let local = (if v < 0 {
                0xff00u16
            } else {
                0u16
            }) | (((u >> 5u16) & 7) << 5u16) | (u & 31);
            &&& li_fits(v) ==> local == u
            &&& (local & 0x801f) | ((((u >> 13u16) & 3) << 13u16) | (((u >> 10u16) & 7) << 10u16)
                | (((u >> 5u16) & 31) << 5u16)) == u
        }),
{
    let u = v as u16;
    assert(-256 <= v < 256 ==> ((if v < 0 {
        0xff00u16
    } else {
        0u16
    }) | (((u >> 5u16) & 7) << 5u16) | (u & 31)) == u) by (bit_vector)
        requires
            u == v as u16,
    ;
    assert(((((if v < 0 {
        0xff00u16
    } else {
        0u16
    }) | (((u >> 5u16) & 7) << 5u16) | (u & 31)) & 0x801f) | ((((u >> 13u16) & 3) << 13u16) | (((u
        >> 10u16) & 7) << 10u16) | (((u >> 5u16) & 31) << 5u16))) == u) by (bit_vector)
        requires
            u == v as u16,
    ;
}

/// The fields of a prefix word for `u`.
proof fn lemma_prefix_word(u: u16)
    ensures
        opcode_bits_of(prefix_word(u)) == 0,
        prefix_bits_of(prefix_word(u)) == prefix_payload(u),
{
    crate::assembler::lemma_bits(u);
    lemma_pack_unpack(0, 0, (u >> 13u16) & 3, (u >> 10u16) & 7, (u >> 5u16) & 31);
}

/// Loading any value: running the words that `asm_li` writes for `v`, one step
/// per word, leaves `v` in the destination and every other register as it was.
pub proof fn lemma_li_full_range(s: Anti80State, d: u16, v: i16)
    requires
        ready(s),
        d < 8,
    ensures
        ({
            let ws = li_words(d, v);
            let r = run(emit_words(s, ws), ws.len() as nat);
            &&& r is Ok
            &&& r->Ok_0.reg == s.reg.update(d as int, v)
            &&& r->Ok_0.no_extension()
        }),
{
    let u = v as u16;
    let a = s.asm_addr as u16;
    let w = pack_li(d, v);
    crate::assembler::lemma_bits(u);
    lemma_pack_unpack(opcode_code(Anti80Opcode::Li), sign_bit(v), d, (u >> 5u16) & 7, u & 31);
    lemma_li_value(v);
    lemma_casts(u);
    lemma_i16_round(v);
    assert(sign_of(w) == 1 <==> v < 0);
    assert(src1_of(w) == (u >> 5u16) & 7);
    assert(src2_of(w) == u & 31);
    assert(dest_of(w) == d);
    assert(crate::machine::fill(w, 0xff00) == (if v < 0 {
        0xff00u16
    } else {
        0u16
    }));
    assert(li_local(w) == (if v < 0 {
        0xff00u16
    } else {
        0u16
    }) | (((u >> 5u16) & 7) << 5u16) | (u & 31));
    let ws = li_words(d, v);
    if li_fits(v) {
        lemma_emit_one(s, w);
        let t = emit(s, w);
        lemma_fetch(t, w, Anti80Opcode::Li);
        assert(li_local(w) == u);
        lemma_casts(li_local(w));
        let t1 = step_spec(t)->Ok_0;
        assert(t1.reg =~= s.reg.update(d as int, v));
        assert(run(t1, 0) == Ok::<Anti80State, Anti80Fault>(t1));
    } else {
        let p = prefix_word(u);
        lemma_prefix_word(u);
        lemma_emit_two(s, p, w);
        let t = emit(emit(s, p), w);
        lemma_fetch(t, p, Anti80Opcode::Prefix);
        let t1 = step_spec(t)->Ok_0;
        lemma_u16_wrap(a, 2);
        lemma_u16_wrap(a, 4);
        lemma_casts((a + 2) as u16);
        lemma_casts(prefix_bits_of(p));
        assert(t1.pc as u16 == (a + 2) as u16);
        assert(t1.prefix_mask as u16 == 0x801f);
        assert(t1.prefix_bits as u16 == prefix_bits_of(p));
        lemma_fetch(t1, w, Anti80Opcode::Li);
        let t2 = step_spec(t1)->Ok_0;
        assert(t1.combine(li_local(w)) == u);
        assert(t2.reg =~= s.reg.update(d as int, v));
        assert(run(t2, 0) == Ok::<Anti80State, Anti80Fault>(t2));
        assert(run(t1, 1) == run(t2, 0));
    }
}

/// The high bits that a prefix for `u` supplies.
pub open spec fn prefix_payload(u: u16) -> u16 {
    (((u >> 13u16) & 3) << 13u16) | (((u >> 10u16) & 7) << 10u16) | (((u >> 5u16) & 31) << 5u16)
}

/// The immediate that the machine composes from a local immediate and the words
/// in front of it: the prefix's bits spliced in where there is a prefix.
pub open spec fn decoded_imm(ws: Seq<u16>, local: u16) -> u16 {
    if ws.len() == 2 {
        (local & 0x801f) | prefix_bits_of(ws[0])
    } else {
        local
    }
}

/// A local immediate that agrees with `u` in bit 15 and bits 0 to 4 gives `u`
/// once the prefix for `u` is spliced in.
proof fn lemma_splice(l: u16, u: u16)
    requires
        l & 0x801f == u & 0x801f,
    ensures
        (l & 0x801f) | prefix_payload(u) == u,
{
    assert((l & 0x801f) | ((((u >> 13u16) & 3) << 13u16) | (((u >> 10u16) & 7) << 10u16) | (((u
        >> 5u16) & 31) << 5u16)) == u) by (bit_vector)
        requires
            l & 0x801f == u & 0x801f,
    ;
}

proof fn lemma_alu_value(v: i16)
    ensures
        ({
            let u = v as u16;
            let l = (if v < 0 {
                0xffe0u16
            } else {
                0u16
            }) | (u & 31);
            &&& l & 0x801f == u & 0x801f
            &&& alui_fits(v) ==> l == u && !(v < 0 && u & 31 < 8)
            &&& offset_fits(v) ==> l == u
        }),
{
    let u = v as u16;
    assert(((if v < 0 {
        0xffe0u16
    } else {
        0u16
    }) | (u & 31)) & 0x801f == u & 0x801f && (-32 <= v < 32 ==> (if v < 0 {
        0xffe0u16
    } else {
        0u16
    }) | (u & 31) == u) && (-24 <= v < 32 ==> !(v < 0 && u & 31 < 8))) by (bit_vector)
        requires
            u == v as u16,
    ;
}

/// Round trip of the register-or-immediate formats with an immediate: the
/// words decode to the opcode and registers given, and to `v` as the operand,
/// never to a register.
pub proof fn lemma_round_trip_alui(op: u16, d: u16, rs1: u16, v: i16)
    requires
        op < 16,
        d < 8,
        rs1 < 8,
    ensures
        ({
            let ws = alui_words(op, d, rs1, v);
            let w = ws.last();
            &&& opcode_bits_of(w) == op && dest_of(w) == d && src1_of(w) == rs1
            &&& ws.len() == 2 ==> opcode_bits_of(ws[0]) == opcode_code(Anti80Opcode::Prefix)
            &&& ws.len() == 1 ==> !(sign_of(w) == 1 && src2_of(w) < 8)
            &&& decoded_imm(ws, alu_local(w)) == v as u16
        }),
{
    let u = v as u16;
    crate::assembler::lemma_bits(u);
    lemma_pack_unpack(op, sign_bit(v), d, rs1, u & 31);
    lemma_alu_value(v);
    lemma_prefix_word(u);
    lemma_splice(alu_local(pack(op, sign_bit(v), d, rs1, u & 31)), u);
}

/// Round trip of the loads.
pub proof fn lemma_round_trip_load(op: u16, d: u16, rs1: u16, v: i16)
    requires
        op < 16,
        d < 8,
        rs1 < 8,
    ensures
        ({
            let ws = load_words(op, d, rs1, v);
            let w = ws.last();
            &&& opcode_bits_of(w) == op && dest_of(w) == d && src1_of(w) == rs1
            &&& ws.len() == 2 ==> opcode_bits_of(ws[0]) == opcode_code(Anti80Opcode::Prefix)
            &&& decoded_imm(ws, alu_local(w)) == v as u16
        }),
{
    let u = v as u16;
    crate::assembler::lemma_bits(u);
    lemma_pack_unpack(op, sign_bit(v), d, rs1, u & 31);
    lemma_alu_value(v);
    lemma_prefix_word(u);
    lemma_splice(alu_local(pack(op, sign_bit(v), d, rs1, u & 31)), u);
}

/// Round trip of `Li`.
pub proof fn lemma_round_trip_li(d: u16, v: i16)
    requires
        d < 8,
    ensures
        ({
            let ws = li_words(d, v);
            let w = ws.last();
            &&& opcode_bits_of(w) == opcode_code(Anti80Opcode::Li) && dest_of(w) == d
            &&& ws.len() == 2 ==> opcode_bits_of(ws[0]) == opcode_code(Anti80Opcode::Prefix)
            &&& decoded_imm(ws, li_local(w)) == v as u16
        }),
{
    let u = v as u16;
    let w = pack_li(d, v);
    crate::assembler::lemma_bits(u);
    lemma_pack_unpack(opcode_code(Anti80Opcode::Li), sign_bit(v), d, (u >> 5u16) & 7, u & 31);
    lemma_li_value(v);
    lemma_prefix_word(u);
    assert(li_local(w) == (if v < 0 {
        0xff00u16
    } else {
        0u16
    }) | (((u >> 5u16) & 7) << 5u16) | (u & 31));
}

proof fn lemma_store_value(v: i16, rs2: u16)
    requires
        rs2 < 8,
    ensures
        ({
            let u = v as u16;
            let src2 = ((((u >> 3u16) & 3) * 8 + rs2) as u16);
            let l = (if v < 0 {
                0xffe0u16
            } else {
                0u16
            }) | (src2 & 0x18) | (u & 7);
            &&& src2 % 8 == rs2
            &&& l & 0x801f == u & 0x801f
            &&& offset_fits(v) ==> l == u
        }),
{
    let u = v as u16;
    assert(((((u >> 3u16) & 3) * 8 + rs2) as u16) % 8 == rs2 && ((if v < 0 {
        0xffe0u16
    } else {
        0u16
    }) | (((((u >> 3u16) & 3) * 8 + rs2) as u16) & 0x18) | (u & 7)) & 0x801f == u & 0x801f && (-32
        <= v < 32 ==> (if v < 0 {
        0xffe0u16
    } else {
        0u16
    }) | (((((u >> 3u16) & 3) * 8 + rs2) as u16) & 0x18) | (u & 7) == u)) by (bit_vector)
        requires
            u == v as u16,
            rs2 < 8,
    ;
}

/// Round trip of the stores: base register, data register and offset.
pub proof fn lemma_round_trip_store(op: u16, rs1: u16, rs2: u16, v: i16)
    requires
        op < 16,
        rs1 < 8,
        rs2 < 8,
    ensures
        ({
            let ws = store_words(op, rs1, rs2, v);
            let w = ws.last();
            &&& opcode_bits_of(w) == op && src1_of(w) == rs1 && src2_of(w) % 8 == rs2
            &&& ws.len() == 2 ==> opcode_bits_of(ws[0]) == opcode_code(Anti80Opcode::Prefix)
            &&& decoded_imm(ws, store_local(w)) == v as u16
        }),
{
    let u = v as u16;
    crate::assembler::lemma_bits(u);
    let src2 = ((((u >> 3u16) & 3) * 8 + rs2) as u16);
    lemma_pack_unpack(op, sign_bit(v), u & 7, rs1, src2);
    lemma_store_value(v, rs2);
    lemma_prefix_word(u);
    lemma_splice(store_local(pack(op, sign_bit(v), u & 7, rs1, src2)), u);
}

/// Round trip of the register forms: with no prefix pending, the sign bit and
/// a `src2` below 8 select register `rs2` as the operand.
pub proof fn lemma_round_trip_alu(op: u16, d: u16, rs1: u16, rs2: u16)
    requires
        op < 16,
        d < 8,
        rs1 < 8,
        rs2 < 8,
    ensures
        ({
            let w = pack(op, 1, d, rs1, rs2);
            opcode_bits_of(w) == op && dest_of(w) == d && src1_of(w) == rs1 && sign_of(w) == 1
                && src2_of(w) == rs2
        }),
{
    lemma_pack_unpack(op, 1, d, rs1, rs2);
}

/// Adding any immediate: running the words that `asm_addi` writes leaves the
/// sum modulo 2^16 of `v` and the source register in the destination, and every
/// other register as it was.
pub proof fn lemma_addi_wraparound(s: Anti80State, d: u16, rs1: u16, v: i16)
    requires
        ready(s),
        d < 8,
        rs1 < 8,
    ensures
        ({
            let ws = alui_words(opcode_code(Anti80Opcode::Add), d, rs1, v);
            let r = run(emit_words(s, ws), ws.len() as nat);
            &&& r is Ok
            &&& r->Ok_0.reg == s.reg.update(
                d as int,
                ((v as u16) + (s.reg[rs1 as int] as u16)) as u16 as i16,
            )
            &&& r->Ok_0.no_extension()
        }),
{
    let u = v as u16;
    let a = s.asm_addr as u16;
    let ws = alui_words(opcode_code(Anti80Opcode::Add), d, rs1, v);
    let w = ws.last();
    lemma_round_trip_alui(opcode_code(Anti80Opcode::Add), d, rs1, v);
    lemma_casts(u);
    if ws.len() == 1 {
        lemma_emit_one(s, w);
        let t = emit(s, w);
        lemma_fetch(t, w, Anti80Opcode::Add);
        lemma_casts(alu_local(w));
        assert(t.operand(w) == u);
        let t1 = step_spec(t)->Ok_0;
        assert(t1.reg =~= s.reg.update(d as int, ((v as u16) + (s.reg[rs1 as int] as u16)) as u16
            as i16));
        assert(run(t1, 0) == Ok::<Anti80State, Anti80Fault>(t1));
    } else {
        let p = ws[0];
        lemma_prefix_word(u);
        lemma_emit_two(s, p, w);
        let t = emit(emit(s, p), w);
        lemma_fetch(t, p, Anti80Opcode::Prefix);
        let t1 = step_spec(t)->Ok_0;
        lemma_u16_wrap(a, 2);
        lemma_casts((a + 2) as u16);
        lemma_casts(prefix_bits_of(p));
        assert(t1.pc as u16 == (a + 2) as u16);
        lemma_fetch(t1, w, Anti80Opcode::Add);
        assert(t1.operand(w) == u);
        let t2 = step_spec(t1)->Ok_0;
        assert(t2.reg =~= s.reg.update(d as int, ((v as u16) + (s.reg[rs1 as int] as u16)) as u16
            as i16));
        assert(run(t2, 0) == Ok::<Anti80State, Anti80Fault>(t2));
        assert(run(t1, 1) == run(t2, 0));
    }
}

/// Skip on equal registers: a `Skipc` with `Beq` written at the cursor moves the
/// program counter past the next word when the two registers are equal, and onto
/// it otherwise; nothing else changes, so the next word runs only in the second case.
pub proof fn lemma_skip_beq(s: Anti80State, r1: u16, r2: u16)
    requires
        ready(s),
        r1 < 8,
        r2 < 8,
    ensures
        ({
            let a = s.asm_addr as u16;
            let t = emit(s, pack(opcode_code(Anti80Opcode::Skipc), 1, 0, r1, r2));
            step_spec(t) == Ok::<Anti80State, Anti80Fault>(
                t.at(
                    if s.reg[r1 as int] == s.reg[r2 as int] {
                        (a + 4) as u16
                    } else {
                        (a + 2) as u16
                    },
                ),
            )
        }),
{
    let a = s.asm_addr as u16;
    let w = pack(opcode_code(Anti80Opcode::Skipc), 1, 0, r1, r2);
    lemma_pack_unpack(opcode_code(Anti80Opcode::Skipc), 1, 0, r1, r2);
    lemma_emit_one(s, w);
    let t = emit(s, w);
    lemma_fetch(t, w, Anti80Opcode::Skipc);
    lemma_i16_round(s.reg[r1 as int]);
    lemma_i16_round(s.reg[r2 as int]);
    lemma_u16_wrap(a, 2);
    lemma_u16_wrap((a + 2) as u16, 2);
    lemma_u16_wrap(a, 4);
    lemma_casts(a);
    assert(t.cleared() == t);
}

proof fn lemma_jal_value(v: i16)
    ensures
        ({
            let u = v as u16;
            let src2 = ((u >> 6u16) & 31) | (if v < 0 {
                24u16
            } else {
                0u16
            });
            let l = (if v < 0 {
                0xf800u16
            } else {
                0u16
            }) | (src2 << 6u16) | (((u >> 3u16) & 7) << 3u16) | (u & 7);
            &&& src2 < 32
            &&& v < 0 ==> src2 >= 24
            &&& l & 0x801f == u & 0x801f
            &&& jal_fits(v) ==> l == u
        }),
{
    let u = v as u16;
    assert(({
        let src2 = ((u >> 6u16) & 31) | (if v < 0 {
            24u16
        } else {
            0u16
        });
        let l = (if v < 0 {
            0xf800u16
        } else {
            0u16
        }) | (src2 << 6u16) | (((u >> 3u16) & 7) << 3u16) | (u & 7);
        &&& src2 < 32
        &&& v < 0 ==> src2 >= 24
        &&& l & 0x801f == u & 0x801f
        &&& -512 <= v < 2048 ==> l == u
    })) by (bit_vector)
        requires
            u == v as u16,
    ;
}

/// Half an even distance, doubled and added back, reaches the target.
proof fn lemma_half_distance(a: u16, from: u16, t: u16)
    requires
        (t - a) as u16 % 2 == 0,
        from == (a + 2) as u16 || from == (a + 4) as u16,
    ensures
        (from + 2 * (word_offset(from, t) as u16)) as u16 == t,
{
    assert((from + 2 * (((((t - from) as u16) as i16) >> 1u16) as u16)) as u16 == t) by (bit_vector)
        requires
            (t - a) as u16 % 2 == 0,
            from == (a + 2) as u16 || from == (a + 4) as u16,
    ;
}

/// Round trip of `Jal` with an offset: the words decode to `delta` as the word
/// offset, and never to a register jump.
pub proof fn lemma_round_trip_jal(delta: i16)
    ensures
        ({
            let w = jal_word(delta);
            &&& opcode_bits_of(w) == opcode_code(Anti80Opcode::Jal)
            &&& !(sign_of(w) == 1 && src2_of(w) < 24)
            &&& jal_fits(delta) ==> jal_local(w) == delta as u16
            &&& (jal_local(w) & 0x801f) | prefix_bits_of(prefix_word(delta as u16)) == delta as u16
            &&& opcode_bits_of(prefix_word(delta as u16)) == opcode_code(Anti80Opcode::Prefix)
        }),
{
    let u = delta as u16;
    crate::assembler::lemma_bits(u);
    lemma_jal_value(delta);
    let src2 = ((u >> 6u16) & 31) | (if delta < 0 {
        24u16
    } else {
        0u16
    });
    lemma_pack_unpack(opcode_code(Anti80Opcode::Jal), sign_bit(delta), u & 7, (u >> 3u16) & 7, src2);
    lemma_prefix_word(u);
    lemma_splice(jal_local(jal_word(delta)), u);
}

/// Jump and link to an absolute target: running the words that `asm_jali`
/// writes leaves the program counter on the target and, in R7, the address
/// after the `Jal`.
pub proof fn lemma_jump_and_link(s: Anti80State, target: u16)
    requires
        ready(s),
        (target - s.asm_addr as u16) as u16 % 2 == 0,
    ensures
        ({
            let a = s.asm_addr as u16;
            let ws = jali_words(a, target);
            let r = run(emit_words(s, ws), ws.len() as nat);
            &&& r is Ok
            &&& r->Ok_0.pc as u16 == target
            &&& r->Ok_0.reg == s.reg.update(7, (a + 2 * ws.len()) as u16 as i16)
            &&& r->Ok_0.no_extension()
        }),
{
    let a = s.asm_addr as u16;
    let ws = jali_words(a, target);
    let w = ws.last();
    lemma_u16_wrap(a, 2);
    lemma_u16_wrap(a, 4);
    lemma_u16_wrap((a + 2) as u16, 2);
    lemma_casts((a + 2) as u16);
    lemma_casts((a + 4) as u16);
    lemma_casts(a);
    lemma_casts(target);
    let d0 = word_offset((a + 2) as u16, target);
    let d1 = word_offset((a + 4) as u16, target);
    if jal_fits(d0) {
        lemma_round_trip_jal(d0);
        lemma_half_distance(a, (a + 2) as u16, target);
        lemma_emit_one(s, w);
        let t = emit(s, w);
        lemma_fetch(t, w, Anti80Opcode::Jal);
        lemma_casts(jal_local(w));
        assert(t.combine(jal_local(w)) == d0 as u16);
        let t1 = step_spec(t)->Ok_0;
        assert(t1.pc as u16 == target);
        assert(t1.reg =~= s.reg.update(7, (a + 2) as u16 as i16));
        assert(run(t1, 0) == Ok::<Anti80State, Anti80Fault>(t1));
    } else {
        lemma_round_trip_jal(d1);
        lemma_half_distance(a, (a + 4) as u16, target);
        let p = ws[0];
        lemma_emit_two(s, p, w);
        let t = emit(emit(s, p), w);
        lemma_fetch(t, p, Anti80Opcode::Prefix);
        let t1 = step_spec(t)->Ok_0;
        lemma_casts(prefix_bits_of(p));
        assert(t1.pc as u16 == (a + 2) as u16);
        lemma_fetch(t1, w, Anti80Opcode::Jal);
        assert(t1.combine(jal_local(w)) == d1 as u16);
        let t2 = step_spec(t1)->Ok_0;
        assert(t2.pc as u16 == target);
        assert(t2.reg =~= s.reg.update(7, (a + 4) as u16 as i16));
        assert(run(t2, 0) == Ok::<Anti80State, Anti80Fault>(t2));
        assert(run(t1, 1) == run(t2, 0));
    }
}

/// An opcode field with no assigned opcode always faults, with the program
/// counter and the word, and the state is not changed.
pub proof fn lemma_illegal_opcode_faults(s: Anti80State)
    requires
        s.wf(),
        (s.pc as u16) % 2 == 0,
        opcode_of_code(opcode_bits_of(s.word_at(s.pc as u16))) is None,
    ensures
        step_spec(s) == Err::<Anti80State, Anti80Fault>(
            Anti80Fault::IllegalOpcode { pc: s.pc, word: s.word_at(s.pc as u16) },
        ),
{
}

/// The opcode field decodes to no opcode exactly when it holds 15.
pub proof fn lemma_unassigned_code(c: u16)
    ensures
        opcode_of_code(c) is None <==> c >= 15,
{
    if c < 15 {
        let op = if c == 0 {
            Anti80Opcode::Prefix
        } else if c == 1 {
            Anti80Opcode::Sw
        } else if c == 2 {
            Anti80Opcode::Sb
        } else if c == 3 {
            Anti80Opcode::Jal
        } else if c == 4 {
            Anti80Opcode::Li
        } else if c == 5 {
            Anti80Opcode::Lw
        } else if c == 6 {
            Anti80Opcode::Lb
        } else if c == 7 {
            Anti80Opcode::Lbu
        } else if c == 8 {
            Anti80Opcode::Skipc
        } else if c == 9 {
            Anti80Opcode::Add
        } else if c == 10 {
            Anti80Opcode::Subr
        } else if c == 11 {
            Anti80Opcode::And
        } else if c == 12 {
            Anti80Opcode::Or
        } else if c == 13 {
            Anti80Opcode::Xor
        } else {
            Anti80Opcode::Shr
        };
        assert(opcode_code(op) == c);
    } else {
        assert forall|op: Anti80Opcode| opcode_code(op) != c by {
            assert(opcode_code(op) < 15);
        }
    }
}

/// Register operands: an `Add` written in the register form with no prefix
/// pending adds the two source registers modulo 2^16.
pub proof fn lemma_add_registers(s: Anti80State, d: u16, rs1: u16, rs2: u16)
    requires
        ready(s),
        d < 8,
        rs1 < 8,
        rs2 < 8,
    ensures
        ({
            let t = emit(s, pack(opcode_code(Anti80Opcode::Add), 1, d, rs1, rs2));
            let r = step_spec(t);
            &&& r is Ok
            &&& r->Ok_0.reg == s.reg.update(
                d as int,
                ((s.reg[rs2 as int] as u16) + (s.reg[rs1 as int] as u16)) as u16 as i16,
            )
        }),
{
    let w = pack(opcode_code(Anti80Opcode::Add), 1, d, rs1, rs2);
    lemma_round_trip_alu(opcode_code(Anti80Opcode::Add), d, rs1, rs2);
    lemma_emit_one(s, w);
    let t = emit(s, w);
    lemma_fetch(t, w, Anti80Opcode::Add);
    let t1 = step_spec(t)->Ok_0;
    assert(t1.reg =~= s.reg.update(
        d as int,
        ((s.reg[rs2 as int] as u16) + (s.reg[rs1 as int] as u16)) as u16 as i16,
    ));
}

spec fn pack_li(d: u16, v: i16) -> u16 {
    crate::codec::pack(
        opcode_code(Anti80Opcode::Li),
        sign_bit(v),
        d,
        ((v as u16) >> 5u16) & 7,
        (v as u16) & 31,
    )
}

} // verus!
