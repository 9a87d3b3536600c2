use vstd::prelude::*;
use crate::formatter::{indent_step, Formatter};
use crate::ir::{group_ir_lemmas, ir_of, irs_of, ir_size, irs_size, Instruction, Ir};
use crate::numtext::dec_int;
use crate::wrap_i64;

verus! {

/// One emitted line: indentation, text, newline.
pub open spec fn line_of(ind: Seq<char>, s: Seq<char>) -> Seq<char> {
    ind + s + seq!['\n']
}

/// The dump lines of a `LinearLoop`'s factors, one multiply-add per entry.
pub open spec fn zir_factors(fs: Seq<(int, int)>, off: int, ind: Seq<char>) -> Seq<char>
    decreases fs,
{
    if fs.len() == 0 {
        Seq::empty()
    } else {
        line_of(
            ind,
            "@"@ + dec_int(wrap_i64(off + fs[0].0)) + " = "@ + dec_int(fs[0].1) + " * @"@
                + dec_int(off),
        ) + zir_factors(fs.drop_first(), off, ind)
    }
}

/// The dump text of one instruction at the given indentation.
pub open spec fn zir_one(i: Ir, ind: Seq<char>) -> Seq<char>
    decreases ir_size(i),
{
    match i {
        Ir::Nop => Seq::empty(),
        Ir::Add { offset, value } => line_of(ind, "@"@ + dec_int(offset) + " += "@ + dec_int(value)),
        Ir::Store { offset, value } => line_of(
            ind,
            "@"@ + dec_int(offset) + " = "@ + dec_int(value) + ")"@,
        ),
        Ir::LinearLoop { offset, factors } => zir_factors(factors, offset, ind) + line_of(
            ind,
            "@"@ + dec_int(offset) + " = 0 // End LL"@,
        ),
        Ir::MovePtr(d) => line_of(ind, "ptr += "@ + dec_int(d)),
        Ir::Loop(body) => line_of(ind, "Loop {"@) + zir_gen(body, ind + indent_step()) + line_of(
            ind,
            "}"@,
        ),
        Ir::Read(o) => line_of(ind, "Read(@"@ + dec_int(o) + ")"@),
        Ir::Write(o) => line_of(ind, "Write(@"@ + dec_int(o) + ")"@),
    }
}

/// The dump text of an instruction sequence at the given indentation.
pub open spec fn zir_gen(p: Seq<Ir>, ind: Seq<char>) -> Seq<char>
    decreases irs_size(p),
{
    if p.len() == 0 {
        Seq::empty()
    } else {
        zir_one(p[0], ind) + zir_gen(p.drop_first(), ind)
    }
}

/// Renders a program as the readable dump of its intermediate
/// representation.
pub fn transpile(instrs: &Vec<Instruction>) -> (r: String)
    ensures
        r@ == zir_gen(irs_of(instrs@), Seq::empty()),
{
    let mut formatter = Formatter::new();
    generate(&mut formatter, instrs);
    formatter.get_code()
}

/// Emits the dump of an instruction sequence into the formatter.
pub fn generate(formatter: &mut Formatter, instrs: &Vec<Instruction>)
    ensures
        final(formatter).code@ == old(formatter).code@ + zir_gen(
            irs_of(instrs@),
            old(formatter).indent@,
        ),
        final(formatter).indent@ == old(formatter).indent@,
    decreases irs_size(irs_of(instrs@)),
{
    broadcast use group_ir_lemmas;

    let ghost irs = irs_of(instrs@);
    let ghost code0 = formatter.code@;
    let ghost ind = formatter.indent@;
    let mut i: usize = 0;
    proof {
        assert(irs.skip(0) =~= irs);
    }
    while i < instrs.len()
        invariant
            i <= instrs@.len(),
            irs == irs_of(instrs@),
            irs.len() == instrs@.len(),
            code0 == old(formatter).code@,
            ind == old(formatter).indent@,
            formatter.indent@ == ind,
            formatter.code@ + zir_gen(irs.skip(i as int), ind) == code0 + zir_gen(irs, ind),
        decreases instrs@.len() - i,
    {
        proof {
            crate::ir::lemma_irs_of_len(instrs@);
            crate::ir::lemma_irs_of_index(instrs@, i as int);
            crate::ir::lemma_irs_size_index(irs, i as int);
            assert(irs.skip(i as int)[0] == irs[i as int]);
            assert(irs.skip(i as int).drop_first() =~= irs.skip(i as int + 1));
        }
        let ghost pre = formatter.code@;
        generate_one(formatter, &instrs[i]);
        proof {
            assert((pre + zir_one(irs[i as int], ind)) + zir_gen(irs.skip(i as int + 1), ind)
                =~= pre + (zir_one(irs[i as int], ind) + zir_gen(irs.skip(i as int + 1), ind)));
        }
        i += 1;
    }
    proof {
        assert(irs.skip(instrs@.len() as int) =~= Seq::<Ir>::empty());
        assert(formatter.code@ + Seq::<char>::empty() =~= formatter.code@);
        assert(code0 + zir_gen(irs, ind) =~= formatter.code@);
    }
}

/// Emits the dump of one instruction into the formatter.
#[verifier::rlimit(100)]
fn generate_one(formatter: &mut Formatter, instr: &Instruction)
    ensures
        final(formatter).code@ == old(formatter).code@ + zir_one(
            ir_of(*instr),
            old(formatter).indent@,
        ),
        final(formatter).indent@ == old(formatter).indent@,
    decreases ir_size(ir_of(*instr)),
{
    broadcast use group_ir_lemmas;

    let ghost pre = formatter.code@;
    let ghost ind = formatter.indent@;
    match instr {
        Instruction::Nop => {
            proof {
                assert(pre + Seq::<char>::empty() =~= pre);
            }
        },
        Instruction::Add { offset, value } => {
            let line = crate::numtext::s_num2("@", *offset, " += ", *value, "");
            formatter.add_line(line.as_str());
            proof {
                reveal_strlit("");
                assert(formatter.code@ =~= pre + zir_one(ir_of(*instr), ind));
            }
        },
        Instruction::Store { offset, value } => {
            let line = crate::numtext::s_num2("@", *offset, " = ", *value, ")");
            formatter.add_line(line.as_str());
            proof {
                assert(formatter.code@ =~= pre + zir_one(ir_of(*instr), ind));
            }
        },
        Instruction::LinearLoop { offset, factors } => {
            let ghost fsv = crate::ir::pairs_of(factors@);
            let mut j: usize = 0;
            proof {
                assert(fsv.skip(0) =~= fsv);
            }
            while j < factors.len()
                invariant
                    j <= factors@.len(),
                    fsv == crate::ir::pairs_of(factors@),
                    fsv.len() == factors@.len(),
                    formatter.indent@ == ind,
                    formatter.code@ + zir_factors(fsv.skip(j as int), *offset as int, ind) == pre
                        + zir_factors(fsv, *offset as int, ind),
                decreases factors@.len() - j,
            {
                let (o, f) = factors[j];
                proof {
                    assert(fsv.skip(j as int)[0] == (o as int, f as int));
                    assert(fsv.skip(j as int).drop_first() =~= fsv.skip(j as int + 1));
                }
                let ghost cpre = formatter.code@;
                let absoff = crate::wadd(*offset, o);
                let line = crate::numtext::s_num3("@", absoff, " = ", f, " * @", *offset, "");
                formatter.add_line(line.as_str());
                proof {
                    reveal_strlit("");
                    assert(line@ =~= "@"@ + dec_int(wrap_i64(*offset as int + o as int)) + " = "@
                        + dec_int(f as int) + " * @"@ + dec_int(*offset as int));
                    assert(formatter.code@ =~= cpre + line_of(
                        ind,
                        "@"@ + dec_int(wrap_i64(*offset as int + o as int)) + " = "@ + dec_int(
                            f as int,
                        ) + " * @"@ + dec_int(*offset as int),
                    ));
                    assert((cpre + line_of(
                        ind,
                        "@"@ + dec_int(wrap_i64(*offset as int + o as int)) + " = "@ + dec_int(
                            f as int,
                        ) + " * @"@ + dec_int(*offset as int),
                    )) + zir_factors(fsv.skip(j as int + 1), *offset as int, ind) =~= cpre
                        + zir_factors(fsv.skip(j as int), *offset as int, ind));
                }
                j += 1;
            }
            proof {
                assert(fsv.skip(factors@.len() as int) =~= Seq::<(int, int)>::empty());
                assert(formatter.code@ + Seq::<char>::empty() =~= formatter.code@);
            }
            let closing = crate::numtext::s_num("@", *offset, " = 0 // End LL");
            formatter.add_line(closing.as_str());
            proof {
                assert(formatter.code@ =~= pre + zir_one(ir_of(*instr), ind));
            }
        },
        Instruction::MovePtr(d) => {
            let line = crate::numtext::s_num("ptr += ", *d, "");
            formatter.add_line(line.as_str());
            proof {
                reveal_strlit("");
                assert(formatter.code@ =~= pre + zir_one(ir_of(*instr), ind));
            }
        },
        Instruction::Loop(body) => {
            formatter.add_line("Loop {");
            formatter.indent();
            generate(formatter, body);
            formatter.unindent();
            proof {
                assert((ind + indent_step()).len() >= 4);
                assert((ind + indent_step()).take((ind + indent_step()).len() - 4) =~= ind);
            }
            formatter.add_line("}");
            proof {
                assert(formatter.code@ =~= pre + zir_one(ir_of(*instr), ind));
            }
        },
        Instruction::Read(o) => {
            let line = crate::numtext::s_num("Read(@", *o, ")");
            formatter.add_line(line.as_str());
            proof {
                assert(formatter.code@ =~= pre + zir_one(ir_of(*instr), ind));
            }
        },
        Instruction::Write(o) => {
            let line = crate::numtext::s_num("Write(@", *o, ")");
            formatter.add_line(line.as_str());
            proof {
                assert(formatter.code@ =~= pre + zir_one(ir_of(*instr), ind));
            }
        },
    }
}

} // verus!
