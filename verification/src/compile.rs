use vstd::prelude::*;
use crate::ir::{group_ir_lemmas, ir_of, irs_of, ir_size, irs_size, pairs_of, Instruction, Ir};
use crate::options::Options;
use crate::wrap_i64;

verus! {

/// Where a value lives during code generation: a named register or a stack
/// slot.
pub enum Storation {
    Register(&'static str),
    Stack(i64),
}

/// The unsigned 32-bit reinterpretation of a signed displacement.
pub open spec fn u32_clip(x: int) -> int {
    if x >= 0 {
        x
    } else {
        x + 0x1_0000_0000
    }
}

/// The four little-endian bytes of an unsigned 32-bit value.
pub open spec fn le32(x: int) -> Seq<u8> {
    seq![
        (x % 256) as u8,
        (x / 256 % 256) as u8,
        (x / 0x10000 % 256) as u8,
        (x / 0x1000000 % 256) as u8,
    ]
}

/// The eight little-endian bytes of an unsigned 64-bit value.
pub open spec fn le64(x: int) -> Seq<u8> {
    seq![
        (x % 256) as u8,
        (x / 256 % 256) as u8,
        (x / 0x10000 % 256) as u8,
        (x / 0x1000000 % 256) as u8,
        (x / 0x1_0000_0000 % 256) as u8,
        (x / 0x100_0000_0000 % 256) as u8,
        (x / 0x1_0000_0000_0000 % 256) as u8,
        (x / 0x100_0000_0000_0000 % 256) as u8,
    ]
}

/// A 32-bit displacement field.
pub open spec fn disp32(off: int) -> Seq<u8> {
    le32(u32_clip(off))
}

/// The low byte of a signed immediate, as two's complement.
pub open spec fn imm8(v: int) -> u8 {
    (v % 256) as u8
}

/// Whether a displacement fits the 32-bit field the back end emits.
pub open spec fn disp_ok(off: int) -> bool {
    -0x8000_0000 <= off < 0x8000_0000
}

/// `add BYTE [rdi + off], imm`.
pub open spec fn enc_add(off: int, v: int) -> Seq<u8> {
    seq![0x80u8, 0x87u8] + disp32(off) + seq![imm8(v)]
}

/// `mov BYTE [rdi + off], imm`.
pub open spec fn enc_store(off: int, v: int) -> Seq<u8> {
    seq![0xC6u8, 0x87u8] + disp32(off) + seq![imm8(v)]
}

/// `lea rdi, [rdi + off]`.
pub open spec fn enc_move_ptr(off: int) -> Seq<u8> {
    seq![0x48u8, 0x8Du8, 0xBFu8] + disp32(off)
}

/// `movzx ecx, BYTE [rdi + off]`: loads the loop multiplier.
pub open spec fn enc_load_mult(off: int) -> Seq<u8> {
    seq![0x0Fu8, 0xB6u8, 0x8Fu8] + disp32(off)
}

/// `mov al, f; mul cl; add BYTE [rdi + absoff], al`: one multiply-add entry.
pub open spec fn enc_factor(absoff: int, f: int) -> Seq<u8> {
    seq![0xB0u8, imm8(f), 0xF6u8, 0xE1u8, 0x00u8, 0x87u8] + disp32(absoff)
}

/// `cmp BYTE [rdi], 0`: the loop guard test.
pub open spec fn enc_cmp_zero() -> Seq<u8> {
    seq![0x80u8, 0xBFu8, 0u8, 0u8, 0u8, 0u8, 0u8]
}

/// The multiply-add entries of a `LinearLoop`, in factor order; entries at
/// offset zero or with factor zero emit nothing.
pub open spec fn jit_factors(fs: Seq<(int, int)>, goff: int) -> Seq<u8>
    decreases fs,
{
    if fs.len() == 0 {
        Seq::empty()
    } else {
        (if fs[0].0 == 0 || fs[0].1 == 0 {
            Seq::empty()
        } else {
            enc_factor(wrap_i64(fs[0].0 + goff), fs[0].1)
        }) + jit_factors(fs.drop_first(), goff)
    }
}

/// Whether every multiply-add entry's absolute offset fits a displacement.
pub open spec fn jit_factors_ok(fs: Seq<(int, int)>, goff: int) -> bool {
    forall|j: int|
        0 <= j < fs.len() && (#[trigger] fs[j]).0 != 0 && fs[j].1 != 0 ==> disp_ok(
            wrap_i64(fs[j].0 + goff),
        )
}

/// The calling sequence for the read thunk: save registers, align the
/// stack, call the thunk address, restore, store the returned byte.
pub open spec fn enc_read(off: int, addr: int) -> Seq<u8> {
    seq![0x57u8, 0x56u8, 0x48u8, 0x83u8, 0xECu8, 0x18u8, 0x48u8, 0xB8u8] + le64(addr) + seq![
        0xFFu8,
        0xD0u8,
        0x48u8,
        0x83u8,
        0xC4u8,
        0x18u8,
        0x5Eu8,
        0x5Fu8,
        0x88u8,
        0x87u8,
    ] + disp32(off)
}

/// The calling sequence for the write thunk: save registers, load the cell
/// into the first argument register, align the stack, call, restore.
pub open spec fn enc_write(off: int, addr: int) -> Seq<u8> {
    seq![0x57u8, 0x56u8, 0x48u8, 0x83u8, 0xECu8, 0x18u8, 0x48u8, 0x31u8, 0xD2u8, 0x40u8, 0x8Au8,
        0xBFu8] + disp32(off) + seq![0x48u8, 0xB8u8] + le64(addr) + seq![
        0xFFu8,
        0xD0u8,
        0x48u8,
        0x83u8,
        0xC4u8,
        0x18u8,
        0x5Eu8,
        0x5Fu8,
    ]
}

/// The machine code of one instruction.  `ra` and `wa` are the addresses of
/// the read and write thunks, embedded as 64-bit immediates.
pub open spec fn jit_one(i: Ir, ra: int, wa: int) -> Seq<u8>
    decreases ir_size(i),
{
    match i {
        Ir::Nop => Seq::empty(),
        Ir::Add { offset, value } => enc_add(offset, value),
        Ir::Store { offset, value } => enc_store(offset, value),
        Ir::MovePtr(d) => enc_move_ptr(d),
        Ir::Read(o) => enc_read(o, ra),
        Ir::Write(o) => enc_write(o, wa),
        Ir::LinearLoop { offset, factors } => (if factors.len() > 0 {
            enc_load_mult(offset)
        } else {
            Seq::empty()
        }) + jit_factors(factors, offset) + enc_store(offset, 0),
        Ir::Loop(body) => {
            let inner = jit_seq(body, ra, wa);
            enc_cmp_zero() + seq![0x0Fu8, 0x84u8] + le32(inner.len() as int + 13) + inner
                + enc_cmp_zero() + seq![0x0Fu8, 0x85u8] + le32(
                u32_clip(-(inner.len() as int + 13)),
            )
        },
    }
}

/// The machine code of an instruction sequence.
pub open spec fn jit_seq(p: Seq<Ir>, ra: int, wa: int) -> Seq<u8>
    decreases irs_size(p),
{
    if p.len() == 0 {
        Seq::empty()
    } else {
        jit_one(p[0], ra, wa) + jit_seq(p.drop_first(), ra, wa)
    }
}

/// Whether the back end can emit an instruction: every displacement fits
/// 32 bits and every loop body's code is short enough for its jumps.
pub open spec fn jit_ok_one(i: Ir, ra: int, wa: int) -> bool
    decreases ir_size(i),
{
    match i {
        Ir::Nop => true,
        Ir::Add { offset, value } => disp_ok(offset),
        Ir::Store { offset, value } => disp_ok(offset),
        Ir::MovePtr(d) => disp_ok(d),
        Ir::Read(o) => disp_ok(o),
        Ir::Write(o) => disp_ok(o),
        Ir::LinearLoop { offset, factors } => disp_ok(offset) && jit_factors_ok(factors, offset),
        Ir::Loop(body) => jit_ok_seq(body, ra, wa) && jit_seq(body, ra, wa).len() as int + 13
            <= 0x7FFF_FFFF,
    }
}

/// Whether the back end can emit a whole sequence.
pub open spec fn jit_ok_seq(p: Seq<Ir>, ra: int, wa: int) -> bool
    decreases irs_size(p),
{
    if p.len() == 0 {
        true
    } else {
        jit_ok_one(p[0], ra, wa) && jit_ok_seq(p.drop_first(), ra, wa)
    }
}

/// Appends the four little-endian bytes of an unsigned 32-bit value.
fn push_le32(buf: &mut Vec<u8>, x: u32)
    ensures
        final(buf)@ == old(buf)@ + le32(x as int),
{
    let ghost pre = buf@;
    buf.push((x % 256) as u8);
    buf.push((x / 256 % 256) as u8);
    buf.push((x / 0x10000 % 256) as u8);
    buf.push((x / 0x1000000 % 256) as u8);
    proof {
        assert(buf@ =~= pre + le32(x as int));
    }
}

/// Appends the eight little-endian bytes of an unsigned 64-bit value.
fn push_le64(buf: &mut Vec<u8>, x: u64)
    ensures
        final(buf)@ == old(buf)@ + le64(x as int),
{
    let ghost pre = buf@;
    buf.push((x % 256) as u8);
    buf.push((x / 256 % 256) as u8);
    buf.push((x / 0x10000 % 256) as u8);
    buf.push((x / 0x1000000 % 256) as u8);
    buf.push((x / 0x1_0000_0000 % 256) as u8);
    buf.push((x / 0x100_0000_0000 % 256) as u8);
    buf.push((x / 0x1_0000_0000_0000 % 256) as u8);
    buf.push((x / 0x100_0000_0000_0000 % 256) as u8);
    proof {
        assert(buf@ =~= pre + le64(x as int));
    }
}

/// Appends a 32-bit displacement, refusing one outside the field.
fn push_disp32(buf: &mut Vec<u8>, off: i64) -> (ok: bool)
    ensures
        ok <==> disp_ok(off as int),
        ok ==> final(buf)@ == old(buf)@ + disp32(off as int),
        !ok ==> final(buf)@ == old(buf)@,
{
    if off < -0x8000_0000i64 || off >= 0x8000_0000i64 {
        return false;
    }
    let x: u32 = if off >= 0 {
        off as u32
    } else {
        (off + 0x1_0000_0000i64) as u32
    };
    push_le32(buf, x);
    true
}

/// The low byte of a signed immediate.
fn imm8_of(v: i64) -> (r: u8)
    ensures
        r == imm8(v as int),
{
    crate::interpret::cell_of_value(v, 256) as u8
}

/// Emits the machine code of one instruction into a buffer; `false` reports
/// a displacement or loop body the 32-bit fields cannot hold, leaving the
/// buffer as it was.
#[verifier::rlimit(100)]
fn emit_one(buf: &mut Vec<u8>, instr: &Instruction, ra: u64, wa: u64) -> (ok: bool)
    ensures
        ok <==> jit_ok_one(ir_of(*instr), ra as int, wa as int),
        ok ==> final(buf)@ == old(buf)@ + jit_one(ir_of(*instr), ra as int, wa as int),
        !ok ==> final(buf)@ == old(buf)@,
    decreases ir_size(ir_of(*instr)), 1nat,
{
    broadcast use group_ir_lemmas;

    let ghost pre = buf@;
    match instr {
        Instruction::Nop => {
            proof {
                assert(pre + Seq::<u8>::empty() =~= pre);
            }
            true
        },
        Instruction::Add { offset, value } => {
            if *offset < -0x8000_0000i64 || *offset >= 0x8000_0000i64 {
                return false;
            }
            buf.push(0x80);
            buf.push(0x87);
            let ok = push_disp32(buf, *offset);
            buf.push(imm8_of(*value));
            proof {
                assert(buf@ =~= pre + enc_add(*offset as int, *value as int));
            }
            true
        },
        Instruction::Store { offset, value } => {
            if *offset < -0x8000_0000i64 || *offset >= 0x8000_0000i64 {
                return false;
            }
            buf.push(0xC6);
            buf.push(0x87);
            let ok = push_disp32(buf, *offset);
            buf.push(imm8_of(*value));
            proof {
                assert(buf@ =~= pre + enc_store(*offset as int, *value as int));
            }
            true
        },
        Instruction::MovePtr(d) => {
            if *d < -0x8000_0000i64 || *d >= 0x8000_0000i64 {
                return false;
            }
            buf.push(0x48);
            buf.push(0x8D);
            buf.push(0xBF);
            let ok = push_disp32(buf, *d);
            proof {
                assert(buf@ =~= pre + enc_move_ptr(*d as int));
            }
            true
        },
        Instruction::Read(o) => {
            if *o < -0x8000_0000i64 || *o >= 0x8000_0000i64 {
                return false;
            }
            buf.push(0x57);
            buf.push(0x56);
            buf.push(0x48);
            buf.push(0x83);
            buf.push(0xEC);
            buf.push(0x18);
            buf.push(0x48);
            buf.push(0xB8);
            push_le64(buf, ra);
            buf.push(0xFF);
            buf.push(0xD0);
            buf.push(0x48);
            buf.push(0x83);
            buf.push(0xC4);
            buf.push(0x18);
            buf.push(0x5E);
            buf.push(0x5F);
            buf.push(0x88);
            buf.push(0x87);
            let ok = push_disp32(buf, *o);
            proof {
                assert(buf@ =~= pre + enc_read(*o as int, ra as int));
            }
            true
        },
        Instruction::Write(o) => {
            if *o < -0x8000_0000i64 || *o >= 0x8000_0000i64 {
                return false;
            }
            buf.push(0x57);
            buf.push(0x56);
            buf.push(0x48);
            buf.push(0x83);
            buf.push(0xEC);
            buf.push(0x18);
            buf.push(0x48);
            buf.push(0x31);
            buf.push(0xD2);
            buf.push(0x40);
            buf.push(0x8A);
            buf.push(0xBF);
            let ok = push_disp32(buf, *o);
            buf.push(0x48);
            buf.push(0xB8);
            push_le64(buf, wa);
            buf.push(0xFF);
            buf.push(0xD0);
            buf.push(0x48);
            buf.push(0x83);
            buf.push(0xC4);
            buf.push(0x18);
            buf.push(0x5E);
            buf.push(0x5F);
            proof {
                assert(buf@ =~= pre + enc_write(*o as int, wa as int));
            }
            true
        },
        Instruction::LinearLoop { offset, factors } => {
            if *offset < -0x8000_0000i64 || *offset >= 0x8000_0000i64 {
                return false;
            }
            let ghost fsv = pairs_of(factors@);
            let mut out: Vec<u8> = Vec::new();
            if factors.len() > 0 {
                out.push(0x0F);
                out.push(0xB6);
                out.push(0x8F);
                let ok = push_disp32(&mut out, *offset);
                proof {
                    assert(out@ =~= enc_load_mult(*offset as int));
                }
            } else {
                proof {
                    assert(out@ =~= Seq::<u8>::empty());
                }
            }
            let ghost head = out@;
            let mut j: usize = 0;
            proof {
                assert(fsv.skip(0) =~= fsv);
                assert(out@ + Seq::<u8>::empty() =~= out@);
            }
            while j < factors.len()
                invariant
                    j <= factors@.len(),
                    fsv == pairs_of(factors@),
                    fsv.len() == factors@.len(),
                    ir_of(*instr) == (Ir::LinearLoop { offset: *offset as int, factors: fsv }),
                    jit_factors_ok(fsv.take(j as int), *offset as int),
                    head + jit_factors(fsv.take(j as int), *offset as int) == out@,
                decreases factors@.len() - j,
            {
                let (o, f) = factors[j];
                proof {
                    assert(fsv[j as int] == (o as int, f as int));
                    assert(fsv.take(j as int + 1).drop_last() =~= fsv.take(j as int));
                    assert(fsv.take(j as int + 1) =~= fsv.take(j as int).push(fsv[j as int]));
                    lemma_jit_factors_push(fsv.take(j as int), fsv[j as int], *offset as int);
                }
                if o != 0 && f != 0 {
                    let absoff = crate::wadd(o, *offset);
                    if absoff < -0x8000_0000i64 || absoff >= 0x8000_0000i64 {
                        proof {
                            assert(!disp_ok(wrap_i64(fsv[j as int].0 + *offset as int)));
                            if jit_factors_ok(fsv, *offset as int) {
                                assert(fsv[j as int].0 != 0 && fsv[j as int].1 != 0);
                                assert(disp_ok(wrap_i64(fsv[j as int].0 + *offset as int)));
                                assert(false);
                            }
                            assert(ir_of(*instr) == Ir::LinearLoop {
                                offset: *offset as int,
                                factors: fsv,
                            });
                            assert(!jit_ok_one(ir_of(*instr), ra as int, wa as int));
                        }
                        return false;
                    }
                    out.push(0xB0);
                    out.push(imm8_of(f));
                    out.push(0xF6);
                    out.push(0xE1);
                    out.push(0x00);
                    out.push(0x87);
                    let ok = push_disp32(&mut out, absoff);
                    proof {
                        assert(out@ =~= head + (jit_factors(fsv.take(j as int), *offset as int)
                            + enc_factor(wrap_i64(o as int + *offset as int), f as int)));
                        assert(forall|t: int|
                            0 <= t < fsv.take(j as int + 1).len() ==> fsv.take(j as int + 1)[t]
                                == fsv[t]);
                    }
                } else {
                    proof {
                        assert(out@ + Seq::<u8>::empty() =~= out@);
                        assert(forall|t: int|
                            0 <= t < fsv.take(j as int + 1).len() ==> fsv.take(j as int + 1)[t]
                                == fsv[t]);
                    }
                }
                j += 1;
            }
            proof {
                assert(fsv.take(fsv.len() as int) =~= fsv);
            }
            out.push(0xC6);
            out.push(0x87);
            let ok = push_disp32(&mut out, *offset);
            out.push(imm8_of(0));
            let ghost total = out@;
            buf.append(&mut out);
            proof {
                assert(total =~= (head + jit_factors(fsv, *offset as int)) + enc_store(
                    *offset as int,
                    0,
                ));
                assert(jit_one(ir_of(*instr), ra as int, wa as int) =~= total);
                assert(buf@ =~= pre + jit_one(ir_of(*instr), ra as int, wa as int));
            }
            true
        },
        Instruction::Loop(body) => {
            let ghost bodyv = irs_of(body@);
            let mut inner: Vec<u8> = Vec::new();
            let okb = emit_seq(&mut inner, body, ra, wa);
            if !okb {
                return false;
            }
            if inner.len() > 0x7FFF_FFF2usize {
                return false;
            }
            let rel: u32 = (inner.len() as u32) + 13;
            // header: cmp BYTE [rdi], 0; jz end
            buf.push(0x80);
            buf.push(0xBF);
            buf.push(0);
            buf.push(0);
            buf.push(0);
            buf.push(0);
            buf.push(0);
            buf.push(0x0F);
            buf.push(0x84);
            push_le32(buf, rel);
            let ghost innerv = inner@;
            buf.append(&mut inner);
            // footer: cmp BYTE [rdi], 0; jnz begin
            buf.push(0x80);
            buf.push(0xBF);
            buf.push(0);
            buf.push(0);
            buf.push(0);
            buf.push(0);
            buf.push(0);
            buf.push(0x0F);
            buf.push(0x85);
            let back: u32 = (0xFFFF_FFFFu32 - rel) + 1;
            push_le32(buf, back);
            proof {
                assert(back as int == u32_clip(-(innerv.len() as int + 13)));
                assert(buf@ =~= pre + jit_one(ir_of(*instr), ra as int, wa as int));
            }
            true
        },
    }
}

/// `jit_factors` over a longer list appends the last entry's code.
proof fn lemma_jit_factors_push(fs: Seq<(int, int)>, p: (int, int), goff: int)
    ensures
        jit_factors(fs.push(p), goff) == jit_factors(fs, goff) + (if p.0 == 0 || p.1 == 0 {
            Seq::<u8>::empty()
        } else {
            enc_factor(wrap_i64(p.0 + goff), p.1)
        }),
    decreases fs,
{
    let tail = if p.0 == 0 || p.1 == 0 {
        Seq::<u8>::empty()
    } else {
        enc_factor(wrap_i64(p.0 + goff), p.1)
    };
    if fs.len() == 0 {
        assert(fs.push(p).len() == 1);
        assert(fs.push(p)[0] == p);
        assert(fs.push(p).drop_first() =~= Seq::<(int, int)>::empty());
        assert(jit_factors(fs.push(p), goff) == tail + jit_factors(
            Seq::<(int, int)>::empty(),
            goff,
        ));
        assert(jit_factors(fs.push(p), goff) =~= jit_factors(fs, goff) + tail);
    } else {
        assert(fs.push(p)[0] == fs[0]);
        assert(fs.push(p).drop_first() =~= fs.drop_first().push(p));
        lemma_jit_factors_push(fs.drop_first(), p, goff);
        assert(jit_factors(fs.push(p), goff) =~= jit_factors(fs, goff) + tail);
    }
}

/// Emits the machine code of an instruction sequence into a buffer;
/// `false` reports an instruction the 32-bit fields cannot hold.
fn emit_seq(buf: &mut Vec<u8>, instrs: &Vec<Instruction>, ra: u64, wa: u64) -> (ok: bool)
    ensures
        ok <==> jit_ok_seq(irs_of(instrs@), ra as int, wa as int),
        ok ==> final(buf)@ == old(buf)@ + jit_seq(irs_of(instrs@), ra as int, wa as int),
    decreases irs_size(irs_of(instrs@)), 0nat,
{
    broadcast use group_ir_lemmas;

    let ghost irs = irs_of(instrs@);
    let ghost pre = buf@;
    let mut i: usize = 0;
    proof {
        assert(irs.skip(0) =~= irs);
    }
    while i < instrs.len()
        invariant
            i <= instrs@.len(),
            irs == irs_of(instrs@),
            irs.len() == instrs@.len(),
            pre == old(buf)@,
            jit_ok_seq(irs, ra as int, wa as int) <==> jit_ok_seq(
                irs.skip(i as int),
                ra as int,
                wa as int,
            ),
            buf@ + jit_seq(irs.skip(i as int), ra as int, wa as int) == pre + jit_seq(
                irs,
                ra as int,
                wa as int,
            ),
        decreases instrs@.len() - i,
    {
        proof {
            crate::ir::lemma_irs_of_len(instrs@);
            crate::ir::lemma_irs_of_index(instrs@, i as int);
            crate::ir::lemma_irs_size_index(irs, i as int);
            assert(irs.skip(i as int)[0] == irs[i as int]);
            assert(irs.skip(i as int).drop_first() =~= irs.skip(i as int + 1));
        }
        let ghost bufpre = buf@;
        let ok2 = emit_one(buf, &instrs[i], ra, wa);
        if !ok2 {
            proof {
                assert(!jit_ok_one(irs[i as int], ra as int, wa as int));
                assert(!jit_ok_seq(irs.skip(i as int), ra as int, wa as int));
            }
            return false;
        }
        proof {
            assert(buf@ == bufpre + jit_one(irs[i as int], ra as int, wa as int));
            assert((bufpre + jit_one(irs[i as int], ra as int, wa as int)) + jit_seq(
                irs.skip(i as int + 1),
                ra as int,
                wa as int,
            ) =~= bufpre + (jit_one(irs[i as int], ra as int, wa as int) + jit_seq(
                irs.skip(i as int + 1),
                ra as int,
                wa as int,
            )));
        }
        i += 1;
    }
    proof {
        assert(irs.skip(instrs@.len() as int) =~= Seq::<Ir>::empty());
        assert(buf@ + Seq::<u8>::empty() =~= buf@);
        assert(pre + jit_seq(irs, ra as int, wa as int) =~= buf@);
    }
    true
}

/// The streaming code generator: emits position-independent x86-64 bytes
/// for the optimized program.  The back end emits byte-width cell code, the
/// path the runtime serves; wider cells are served by the interpreter and
/// the transpilers.
pub struct CodeGenerator {
    pub buffer: Vec<u8>,
    pub opts: Options,
    pub read_addr: u64,
    pub write_addr: u64,
}

impl CodeGenerator {
    /// A generator with an empty buffer.  `read_addr` and `write_addr` are
    /// the addresses of the caller's byte-read and byte-write thunks,
    /// embedded in the emitted calls.
    pub fn create(opts: &Options, read_addr: u64, write_addr: u64) -> (r: CodeGenerator)
        ensures
            r.buffer@ == Seq::<u8>::empty(),
            r.read_addr == read_addr,
            r.write_addr == write_addr,
            r.opts == *opts,
    {
        CodeGenerator { buffer: Vec::new(), opts: *opts, read_addr, write_addr }
    }

    /// The prologue: `xor rsi, rsi`.
    pub fn initialize(&mut self)
        ensures
            final(self).buffer@ == old(self).buffer@ + seq![0x48u8, 0x31u8, 0xF6u8],
            final(self).opts == old(self).opts,
            final(self).read_addr == old(self).read_addr,
            final(self).write_addr == old(self).write_addr,
    {
        let ghost pre = self.buffer@;
        self.buffer.push(0x48);
        self.buffer.push(0x31);
        self.buffer.push(0xF6);
        proof {
            assert(self.buffer@ =~= pre + seq![0x48u8, 0x31u8, 0xF6u8]);
        }
    }

    /// The epilogue: `ret`.
    pub fn finalize(&mut self)
        ensures
            final(self).buffer@ == old(self).buffer@ + seq![0xC3u8],
            final(self).opts == old(self).opts,
            final(self).read_addr == old(self).read_addr,
            final(self).write_addr == old(self).write_addr,
    {
        let ghost pre = self.buffer@;
        self.buffer.push(0xC3);
        proof {
            assert(self.buffer@ =~= pre + seq![0xC3u8]);
        }
    }

    /// Emits the code of a program into the buffer.  Returns `false`, with
    /// the buffer unchanged, exactly where an offset or a loop body
    /// overflows the 32-bit displacement fields.
    pub fn visit_instructions(&mut self, instrs: &Vec<Instruction>) -> (ok: bool)
        ensures
            ok <==> jit_ok_seq(
                irs_of(instrs@),
                old(self).read_addr as int,
                old(self).write_addr as int,
            ),
            ok ==> final(self).buffer@ == old(self).buffer@ + jit_seq(
                irs_of(instrs@),
                old(self).read_addr as int,
                old(self).write_addr as int,
            ),
            !ok ==> final(self).buffer@ == old(self).buffer@,
            final(self).opts == old(self).opts,
            final(self).read_addr == old(self).read_addr,
            final(self).write_addr == old(self).write_addr,
    {
        let mut out: Vec<u8> = Vec::new();
        let ok = emit_seq(&mut out, instrs, self.read_addr, self.write_addr);
        if ok {
            let ghost pre = self.buffer@;
            let ghost outv = out@;
            self.buffer.append(&mut out);
            proof {
                assert(Seq::<u8>::empty() + jit_seq(
                    irs_of(instrs@),
                    self.read_addr as int,
                    self.write_addr as int,
                ) =~= outv);
            }
            true
        } else {
            false
        }
    }
}

/// The whole native image of a program: prologue, body, epilogue.
pub open spec fn jit_program(p: Seq<Ir>, ra: int, wa: int) -> Seq<u8> {
    seq![0x48u8, 0x31u8, 0xF6u8] + jit_seq(p, ra, wa) + seq![0xC3u8]
}

/// Compiles a program to its native image.  `None` exactly where an offset
/// or a loop body overflows the 32-bit displacement fields.  For one
/// program and one pair of thunk addresses the image is a single defined
/// byte sequence, so emission is deterministic.
pub fn compile_program(
    instrs: &Vec<Instruction>,
    opts: &Options,
    read_addr: u64,
    write_addr: u64,
) -> (r: Option<Vec<u8>>)
    ensures
        r is Some <==> jit_ok_seq(irs_of(instrs@), read_addr as int, write_addr as int),
        match r {
            Option::Some(v) => v@ == jit_program(
                irs_of(instrs@),
                read_addr as int,
                write_addr as int,
            ),
            Option::None => !jit_ok_seq(irs_of(instrs@), read_addr as int, write_addr as int),
        },
{
    let mut cg = CodeGenerator::create(opts, read_addr, write_addr);
    cg.initialize();
    let ok = cg.visit_instructions(instrs);
    if !ok {
        return Option::None;
    }
    cg.finalize();
    proof {
        assert(cg.buffer@ =~= jit_program(
            irs_of(instrs@),
            read_addr as int,
            write_addr as int,
        ));
    }
    Option::Some(cg.buffer)
}

} // verus!
