use vstd::prelude::*;
use crate::formatter::{indent_step, Formatter};
use crate::ir::{group_ir_lemmas, ir_of, irs_of, ir_size, irs_size, Instruction, Ir};
use crate::numtext::{dec_digits, dec_int, i64_to_string, u64_to_string};
use crate::options::{CellSize, Options};
use crate::trans_util::{hex_bitmask, hex_bitmask_text};
use crate::trans_zombie_ir::line_of;
use crate::wrap_i64;

verus! {

/// The Python mask text for a cell size: a hexadecimal all-ones mask for a
/// bit width, the modulus itself in modular mode, `-1` (mask nothing) for
/// target-language integers.
pub open spec fn py_mask(cs: CellSize) -> Seq<char> {
    match cs {
        CellSize::Bits(w) => "0x"@ + hex_bitmask_text(w as nat),
        CellSize::Modular(m) => dec_digits(m as int),
        CellSize::Int => "-1"@,
    }
}

/// The multiply-add lines of a `LinearLoop`, one per factor entry.
pub open spec fn py_factors(fs: Seq<(int, int)>, off: int, mask: Seq<char>, ind: Seq<char>) -> Seq<
    char,
>
    decreases fs,
{
    if fs.len() == 0 {
        Seq::empty()
    } else {
        line_of(
            ind,
            "mem[(ptr + "@ + dec_int(wrap_i64(off + fs[0].0)) + ") & 0xFFFF] = (mem[(ptr + "@
                + dec_int(wrap_i64(off + fs[0].0)) + ") & 0xFFFF] + "@ + dec_int(fs[0].1)
                + " * mem[(ptr + "@ + dec_int(off) + ") & 0xFFFF]) & "@ + mask,
        ) + py_factors(fs.drop_first(), off, mask, ind)
    }
}

/// The Python text of one instruction at the given indentation.
pub open spec fn py_one(i: Ir, mask: Seq<char>, ind: Seq<char>) -> Seq<char>
    decreases ir_size(i),
{
    match i {
        Ir::Nop => Seq::empty(),
        Ir::Add { offset, value } => line_of(
            ind,
            "mem[(ptr + "@ + dec_int(offset) + ") & 0xFFFF] = (mem[(ptr + "@ + dec_int(offset)
                + ") & 0xFFFF] + "@ + dec_int(value) + ") & "@ + mask,
        ),
        Ir::Store { offset, value } => line_of(
            ind,
            "mem[(ptr + "@ + dec_int(offset) + ") & 0xFFFF] = "@ + dec_int(value) + " & "@ + mask,
        ),
        Ir::LinearLoop { offset, factors } => py_factors(factors, offset, mask, ind) + line_of(
            ind,
            "mem[(ptr + "@ + dec_int(offset) + ") & 0xFFFF] = 0"@,
        ),
        Ir::MovePtr(d) => line_of(ind, "ptr += "@ + dec_int(d)),
        Ir::Loop(body) => line_of(ind, "while mem[ptr & 0xFFFF] != 0:"@) + py_gen(
            body,
            mask,
            ind + indent_step(),
        ),
        Ir::Read(o) => line_of(ind, "b = sys.stdin.buffer.read(1)"@) + line_of(
            ind,
            "mem[(ptr + "@ + dec_int(o) + ") & 0xFFFF] = b[0] if b else 0"@,
        ),
        Ir::Write(o) => line_of(
            ind,
            "sys.stdout.buffer.write(mem[(ptr + "@ + dec_int(o)
                + ") & 0xFFFF].to_bytes(1, 'little'))"@,
        ) + line_of(ind, "sys.stdout.buffer.flush()"@),
    }
}

/// The Python text of an instruction sequence at the given indentation.
pub open spec fn py_gen(p: Seq<Ir>, mask: Seq<char>, ind: Seq<char>) -> Seq<char>
    decreases irs_size(p),
{
    if p.len() == 0 {
        Seq::empty()
    } else {
        py_one(p[0], mask, ind) + py_gen(p.drop_first(), mask, ind)
    }
}

/// The whole Python program for an instruction sequence.
pub open spec fn py_text(cs: CellSize, p: Seq<Ir>) -> Seq<char> {
    line_of(Seq::empty(), "import sys"@) + line_of(Seq::empty(), "mem = [0] * 0x10000"@) + line_of(
        Seq::empty(),
        "ptr = 0"@,
    ) + py_gen(p, py_mask(cs), Seq::empty())
}

/// Renders a program as an equivalent Python program: a 65 536-element
/// list indexed with `0xFFFF`-masking, every cell update masked by the
/// cell size's modulus, and reads that store zero at end of input.
pub fn transpile(opts: &Options, instrs: &Vec<Instruction>) -> (r: String)
    ensures
        r@ == py_text(opts.cell_size, irs_of(instrs@)),
{
    let mask: String = match opts.cell_size {
        CellSize::Bits(w) => {
            let mut m = String::from_str("0x");
            let digits = hex_bitmask(w);
            m.append(digits.as_str());
            proof {
                assert(m@ =~= py_mask(opts.cell_size));
            }
            m
        },
        CellSize::Modular(m) => u64_to_string(m),
        CellSize::Int => {
            let neg = i64_to_string(-1);
            proof {
                reveal_strlit("-1");
                reveal_strlit("-");
                reveal_strlit("1");
                assert(neg@ =~= ("-1")@);
            }
            neg
        },
    };
    let mut formatter = Formatter::new();
    formatter.add_line("import sys");
    formatter.add_line("mem = [0] * 0x10000");
    formatter.add_line("ptr = 0");
    generate(&mut formatter, instrs, &mask);
    let code = formatter.get_code();
    proof {
        assert(code@ =~= py_text(opts.cell_size, irs_of(instrs@)));
    }
    code
}

/// Emits the Python statements of an instruction sequence into the
/// formatter, masking every update by `mask`.
pub fn generate(formatter: &mut Formatter, instrs: &Vec<Instruction>, mask: &String)
    ensures
        final(formatter).code@ == old(formatter).code@ + py_gen(
            irs_of(instrs@),
            mask@,
            old(formatter).indent@,
        ),
        final(formatter).indent@ == old(formatter).indent@,
    decreases irs_size(irs_of(instrs@)),
{
    broadcast use group_ir_lemmas;

    let ghost irs = irs_of(instrs@);
    let ghost code0 = formatter.code@;
    let ghost ind = formatter.indent@;
    let mut i: usize = 0;
    proof {
        assert(irs.skip(0) =~= irs);
    }
    while i < instrs.len()
        invariant
            i <= instrs@.len(),
            irs == irs_of(instrs@),
            irs.len() == instrs@.len(),
            code0 == old(formatter).code@,
            ind == old(formatter).indent@,
            formatter.indent@ == ind,
            formatter.code@ + py_gen(irs.skip(i as int), mask@, ind) == code0 + py_gen(
                irs,
                mask@,
                ind,
            ),
        decreases instrs@.len() - i,
    {
        proof {
            crate::ir::lemma_irs_of_len(instrs@);
            crate::ir::lemma_irs_of_index(instrs@, i as int);
            crate::ir::lemma_irs_size_index(irs, i as int);
            assert(irs.skip(i as int)[0] == irs[i as int]);
            assert(irs.skip(i as int).drop_first() =~= irs.skip(i as int + 1));
        }
        let ghost pre = formatter.code@;
        generate_one(formatter, &instrs[i], mask);
        proof {
            assert((pre + py_one(irs[i as int], mask@, ind)) + py_gen(
                irs.skip(i as int + 1),
                mask@,
                ind,
            ) =~= pre + (py_one(irs[i as int], mask@, ind) + py_gen(
                irs.skip(i as int + 1),
                mask@,
                ind,
            )));
        }
        i += 1;
    }
    proof {
        assert(irs.skip(instrs@.len() as int) =~= Seq::<Ir>::empty());
        assert(formatter.code@ + Seq::<char>::empty() =~= formatter.code@);
        assert(code0 + py_gen(irs, mask@, ind) =~= formatter.code@);
    }
}

/// Emits the Python statements of one instruction into the formatter.
#[verifier::rlimit(100)]
fn generate_one(formatter: &mut Formatter, instr: &Instruction, mask: &String)
    ensures
        final(formatter).code@ == old(formatter).code@ + py_one(
            ir_of(*instr),
            mask@,
            old(formatter).indent@,
        ),
        final(formatter).indent@ == old(formatter).indent@,
    decreases ir_size(ir_of(*instr)),
{
    broadcast use group_ir_lemmas;

    let ghost pre = formatter.code@;
    let ghost ind = formatter.indent@;
    match instr {
        Instruction::Nop => {
            proof {
                assert(pre + Seq::<char>::empty() =~= pre);
            }
        },
        Instruction::Add { offset, value } => {
            let mut line = crate::numtext::s_num3(
                "mem[(ptr + ",
                *offset,
                ") & 0xFFFF] = (mem[(ptr + ",
                *offset,
                ") & 0xFFFF] + ",
                *value,
                ") & ",
            );
            line.append(mask.as_str());
            formatter.add_line(line.as_str());
            proof {
                assert(formatter.code@ =~= pre + py_one(ir_of(*instr), mask@, ind));
            }
        },
        Instruction::Store { offset, value } => {
            let mut line = crate::numtext::s_num2(
                "mem[(ptr + ",
                *offset,
                ") & 0xFFFF] = ",
                *value,
                " & ",
            );
            line.append(mask.as_str());
            formatter.add_line(line.as_str());
            proof {
                assert(formatter.code@ =~= pre + py_one(ir_of(*instr), mask@, ind));
            }
        },
        Instruction::LinearLoop { offset, factors } => {
            let ghost fsv = crate::ir::pairs_of(factors@);
            let mut j: usize = 0;
            proof {
                assert(fsv.skip(0) =~= fsv);
            }
            while j < factors.len()
                invariant
                    j <= factors@.len(),
                    fsv == crate::ir::pairs_of(factors@),
                    fsv.len() == factors@.len(),
                    formatter.indent@ == ind,
                    formatter.code@ + py_factors(fsv.skip(j as int), *offset as int, mask@, ind)
                        == pre + py_factors(fsv, *offset as int, mask@, ind),
                decreases factors@.len() - j,
            {
                let (o, f) = factors[j];
                proof {
                    assert(fsv.skip(j as int)[0] == (o as int, f as int));
                    assert(fsv.skip(j as int).drop_first() =~= fsv.skip(j as int + 1));
                }
                let ghost cpre = formatter.code@;
                let absoff = crate::wadd(*offset, o);
                let mut line = crate::numtext::s_num3(
                    "mem[(ptr + ",
                    absoff,
                    ") & 0xFFFF] = (mem[(ptr + ",
                    absoff,
                    ") & 0xFFFF] + ",
                    f,
                    " * mem[(ptr + ",
                );
                let tail = crate::numtext::s_num("", *offset, ") & 0xFFFF]) & ");
                proof {
                    reveal_strlit("");
                }
                line.append(tail.as_str());
                line.append(mask.as_str());
                formatter.add_line(line.as_str());
                proof {
                    let a = wrap_i64(*offset as int + o as int);
                    let entry = "mem[(ptr + "@ + dec_int(a) + ") & 0xFFFF] = (mem[(ptr + "@
                        + dec_int(a) + ") & 0xFFFF] + "@ + dec_int(f as int) + " * mem[(ptr + "@
                        + dec_int(*offset as int) + ") & 0xFFFF]) & "@ + mask@;
                    assert(line@ =~= entry);
                    assert(formatter.code@ =~= cpre + line_of(ind, entry));
                    assert((cpre + line_of(ind, entry)) + py_factors(
                        fsv.skip(j as int + 1),
                        *offset as int,
                        mask@,
                        ind,
                    ) =~= cpre + py_factors(fsv.skip(j as int), *offset as int, mask@, ind));
                }
                j += 1;
            }
            proof {
                assert(fsv.skip(factors@.len() as int) =~= Seq::<(int, int)>::empty());
                assert(formatter.code@ + Seq::<char>::empty() =~= formatter.code@);
            }
            let closing = crate::numtext::s_num("mem[(ptr + ", *offset, ") & 0xFFFF] = 0");
            formatter.add_line(closing.as_str());
            proof {
                assert(formatter.code@ =~= pre + py_one(ir_of(*instr), mask@, ind));
            }
        },
        Instruction::MovePtr(d) => {
            let line = crate::numtext::s_num("ptr += ", *d, "");
            formatter.add_line(line.as_str());
            proof {
                reveal_strlit("");
                assert(formatter.code@ =~= pre + py_one(ir_of(*instr), mask@, ind));
            }
        },
        Instruction::Loop(body) => {
            formatter.add_line("while mem[ptr & 0xFFFF] != 0:");
            formatter.indent();
            generate(formatter, body, mask);
            formatter.unindent();
            proof {
                assert((ind + indent_step()).len() >= 4);
                assert((ind + indent_step()).take((ind + indent_step()).len() - 4) =~= ind);
                assert(formatter.code@ =~= pre + py_one(ir_of(*instr), mask@, ind));
            }
        },
        Instruction::Read(o) => {
            formatter.add_line("b = sys.stdin.buffer.read(1)");
            let line = crate::numtext::s_num(
                "mem[(ptr + ",
                *o,
                ") & 0xFFFF] = b[0] if b else 0",
            );
            formatter.add_line(line.as_str());
            proof {
                assert(formatter.code@ =~= pre + py_one(ir_of(*instr), mask@, ind));
            }
        },
        Instruction::Write(o) => {
            let line = crate::numtext::s_num(
                "sys.stdout.buffer.write(mem[(ptr + ",
                *o,
                ") & 0xFFFF].to_bytes(1, 'little'))",
            );
            formatter.add_line(line.as_str());
            formatter.add_line("sys.stdout.buffer.flush()");
            proof {
                assert(formatter.code@ =~= pre + py_one(ir_of(*instr), mask@, ind));
            }
        },
    }
}

} // verus!
