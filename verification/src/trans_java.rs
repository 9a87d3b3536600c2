use vstd::prelude::*;
use crate::formatter::{indent_step, Formatter};
use crate::ir::{group_ir_lemmas, ir_of, irs_of, ir_size, irs_size, Instruction, Ir};
use crate::numtext::dec_int;
use crate::options::{CellSize, Options};
use crate::trans_zombie_ir::line_of;
use crate::wrap_i64;

verus! {

/// The Java element type for a cell size.
pub open spec fn java_cell_type(cs: CellSize) -> Seq<char> {
    match cs {
        CellSize::Bits(w) => if w == 8 {
            "byte"@
        } else if w == 16 {
            "short"@
        } else if w == 32 {
            "int"@
        } else {
            "long"@
        },
        CellSize::Int => "long"@,
        CellSize::Modular(m) => "long"@,
    }
}

/// The multiply-add lines of a `LinearLoop`, one per factor entry.
pub open spec fn java_factors(fs: Seq<(int, int)>, off: int, ind: Seq<char>) -> Seq<char>
    decreases fs,
{
    if fs.len() == 0 {
        Seq::empty()
    } else {
        line_of(
            ind,
            "mem[(ptr + "@ + dec_int(wrap_i64(off + fs[0].0)) + ") & 0xFFFF] += "@ + dec_int(
                fs[0].1,
            ) + " * mem[(ptr + "@ + dec_int(off) + ") & 0xFFFF];"@,
        ) + java_factors(fs.drop_first(), off, ind)
    }
}

/// The Java text of one instruction at the given indentation.
pub open spec fn java_one(i: Ir, ind: Seq<char>) -> Seq<char>
    decreases ir_size(i),
{
    match i {
        Ir::Nop => Seq::empty(),
        Ir::Add { offset, value } => line_of(
            ind,
            "mem[(ptr + "@ + dec_int(offset) + ") & 0xFFFF] += "@ + dec_int(value) + ";"@,
        ),
        Ir::Store { offset, value } => line_of(
            ind,
            "mem[(ptr + "@ + dec_int(offset) + ") & 0xFFFF] = "@ + dec_int(value) + ";"@,
        ),
        Ir::LinearLoop { offset, factors } => java_factors(factors, offset, ind) + line_of(
            ind,
            "mem[(ptr + "@ + dec_int(offset) + ") & 0xFFFF] = 0;"@,
        ),
        Ir::MovePtr(d) => line_of(ind, "ptr += "@ + dec_int(d) + ";"@),
        Ir::Loop(body) => line_of(ind, "while(mem[ptr & 0xFFFF] != 0) {"@) + java_gen(
            body,
            ind + indent_step(),
        ) + line_of(ind, "}"@),
        Ir::Read(o) => line_of(
            ind,
            "mem[(ptr + "@ + dec_int(o) + ") & 0xFFFF] = (byte) readByte();"@,
        ),
        Ir::Write(o) => line_of(
            ind,
            "System.out.write(mem[(ptr + "@ + dec_int(o) + ") & 0xFFFF]);"@,
        ) + line_of(ind, "System.out.flush();"@),
    }
}

/// The Java text of an instruction sequence at the given indentation.
pub open spec fn java_gen(p: Seq<Ir>, ind: Seq<char>) -> Seq<char>
    decreases irs_size(p),
{
    if p.len() == 0 {
        Seq::empty()
    } else {
        java_one(p[0], ind) + java_gen(p.drop_first(), ind)
    }
}

/// The whole Java program for an instruction sequence.
pub open spec fn java_text(cs: CellSize, p: Seq<Ir>) -> Seq<char> {
    let ct = java_cell_type(cs);
    let two = indent_step() + indent_step();
    line_of(Seq::empty(), "class Brainfuck {"@) + line_of(
        indent_step(),
        "static int readByte() {\n        try {\n            int c = System.in.read();\n            return c < 0 ? 0 : c;\n        } catch (java.io.IOException e) {\n            return 0;\n        }\n    }"@,
    ) + line_of(
        indent_step(),
        "public static void main(String[] args) {"@,
    ) + line_of(two, ct + "[] mem = new "@ + ct + "[0x10000];"@) + line_of(two, "int ptr = 0;"@)
        + line_of(two, ""@) + java_gen(p, two) + line_of(indent_step(), "}"@) + line_of(
        Seq::empty(),
        "}"@,
    )
}

/// Renders a program as an equivalent Java program: a 65 536-element array
/// indexed with `0xFFFF`-masking, one statement per instruction, and a
/// byte reader that turns end of input into zero.
pub fn transpile(opts: &Options, instrs: &Vec<Instruction>) -> (r: String)
    ensures
        r@ == java_text(opts.cell_size, irs_of(instrs@)),
{
    let cell_type: &str = match opts.cell_size {
        CellSize::Bits(w) => {
            if w == 8 {
                "byte"
            } else if w == 16 {
                "short"
            } else if w == 32 {
                "int"
            } else {
                "long"
            }
        },
        CellSize::Int => "long",
        CellSize::Modular(_) => "long",
    };
    let mut formatter = Formatter::new();
    formatter.add_line("class Brainfuck {");
    formatter.indent();
    formatter.add_line(
        "static int readByte() {\n        try {\n            int c = System.in.read();\n            return c < 0 ? 0 : c;\n        } catch (java.io.IOException e) {\n            return 0;\n        }\n    }",
    );
    formatter.add_line("public static void main(String[] args) {");
    formatter.indent();
    let mut decl = String::from_str(cell_type);
    decl.append("[] mem = new ");
    decl.append(cell_type);
    decl.append("[0x10000];");
    formatter.add_line(decl.as_str());
    formatter.add_line("int ptr = 0;");
    formatter.add_line("");
    generate(&mut formatter, instrs);
    formatter.unindent();
    proof {
        let two = indent_step() + indent_step();
        assert(two.len() >= 4);
        assert(two.take(two.len() - 4) =~= indent_step());
    }
    formatter.add_line("}");
    formatter.unindent();
    proof {
        assert(indent_step().take(indent_step().len() - 4) =~= Seq::<char>::empty());
    }
    formatter.add_line("}");
    let code = formatter.get_code();
    proof {
        assert(code@ =~= java_text(opts.cell_size, irs_of(instrs@)));
    }
    code
}

/// Emits the Java statements of an instruction sequence into the formatter.
pub fn generate(formatter: &mut Formatter, instrs: &Vec<Instruction>)
    ensures
        final(formatter).code@ == old(formatter).code@ + java_gen(
            irs_of(instrs@),
            old(formatter).indent@,
        ),
        final(formatter).indent@ == old(formatter).indent@,
    decreases irs_size(irs_of(instrs@)),
{
    broadcast use group_ir_lemmas;

    let ghost irs = irs_of(instrs@);
    let ghost code0 = formatter.code@;
    let ghost ind = formatter.indent@;
    let mut i: usize = 0;
    proof {
        assert(irs.skip(0) =~= irs);
    }
    while i < instrs.len()
        invariant
            i <= instrs@.len(),
            irs == irs_of(instrs@),
            irs.len() == instrs@.len(),
            code0 == old(formatter).code@,
            ind == old(formatter).indent@,
            formatter.indent@ == ind,
            formatter.code@ + java_gen(irs.skip(i as int), ind) == code0 + java_gen(irs, ind),
        decreases instrs@.len() - i,
    {
        proof {
            crate::ir::lemma_irs_of_len(instrs@);
            crate::ir::lemma_irs_of_index(instrs@, i as int);
            crate::ir::lemma_irs_size_index(irs, i as int);
            assert(irs.skip(i as int)[0] == irs[i as int]);
            assert(irs.skip(i as int).drop_first() =~= irs.skip(i as int + 1));
        }
        let ghost pre = formatter.code@;
        generate_one(formatter, &instrs[i]);
        proof {
            assert((pre + java_one(irs[i as int], ind)) + java_gen(irs.skip(i as int + 1), ind)
                =~= pre + (java_one(irs[i as int], ind) + java_gen(irs.skip(i as int + 1), ind)));
        }
        i += 1;
    }
    proof {
        assert(irs.skip(instrs@.len() as int) =~= Seq::<Ir>::empty());
        assert(formatter.code@ + Seq::<char>::empty() =~= formatter.code@);
        assert(code0 + java_gen(irs, ind) =~= formatter.code@);
    }
}

/// Emits the Java statements of one instruction into the formatter.
#[verifier::rlimit(100)]
fn generate_one(formatter: &mut Formatter, instr: &Instruction)
    ensures
        final(formatter).code@ == old(formatter).code@ + java_one(
            ir_of(*instr),
            old(formatter).indent@,
        ),
        final(formatter).indent@ == old(formatter).indent@,
    decreases ir_size(ir_of(*instr)),
{
    broadcast use group_ir_lemmas;

    let ghost pre = formatter.code@;
    let ghost ind = formatter.indent@;
    match instr {
        Instruction::Nop => {
            proof {
                assert(pre + Seq::<char>::empty() =~= pre);
            }
        },
        Instruction::Add { offset, value } => {
            let line = crate::numtext::s_num2("mem[(ptr + ", *offset, ") & 0xFFFF] += ", *value, ";");
            formatter.add_line(line.as_str());
            proof {
                assert(formatter.code@ =~= pre + java_one(ir_of(*instr), ind));
            }
        },
        Instruction::Store { offset, value } => {
            let line = crate::numtext::s_num2("mem[(ptr + ", *offset, ") & 0xFFFF] = ", *value, ";");
            formatter.add_line(line.as_str());
            proof {
                assert(formatter.code@ =~= pre + java_one(ir_of(*instr), ind));
            }
        },
        Instruction::LinearLoop { offset, factors } => {
            let ghost fsv = crate::ir::pairs_of(factors@);
            let mut j: usize = 0;
            proof {
                assert(fsv.skip(0) =~= fsv);
            }
            while j < factors.len()
                invariant
                    j <= factors@.len(),
                    fsv == crate::ir::pairs_of(factors@),
                    fsv.len() == factors@.len(),
                    formatter.indent@ == ind,
                    formatter.code@ + java_factors(fsv.skip(j as int), *offset as int, ind) == pre
                        + java_factors(fsv, *offset as int, ind),
                decreases factors@.len() - j,
            {
                let (o, f) = factors[j];
                proof {
                    assert(fsv.skip(j as int)[0] == (o as int, f as int));
                    assert(fsv.skip(j as int).drop_first() =~= fsv.skip(j as int + 1));
                }
                let ghost cpre = formatter.code@;
                let absoff = crate::wadd(*offset, o);
                let line = crate::numtext::s_num3(
                    "mem[(ptr + ",
                    absoff,
                    ") & 0xFFFF] += ",
                    f,
                    " * mem[(ptr + ",
                    *offset,
                    ") & 0xFFFF];",
                );
                formatter.add_line(line.as_str());
                proof {
                    let entry = "mem[(ptr + "@ + dec_int(wrap_i64(*offset as int + o as int))
                        + ") & 0xFFFF] += "@ + dec_int(f as int) + " * mem[(ptr + "@ + dec_int(
                        *offset as int,
                    ) + ") & 0xFFFF];"@;
                    assert(line@ =~= entry);
                    assert(formatter.code@ =~= cpre + line_of(ind, entry));
                    assert((cpre + line_of(ind, entry)) + java_factors(
                        fsv.skip(j as int + 1),
                        *offset as int,
                        ind,
                    ) =~= cpre + java_factors(fsv.skip(j as int), *offset as int, ind));
                }
                j += 1;
            }
            proof {
                assert(fsv.skip(factors@.len() as int) =~= Seq::<(int, int)>::empty());
                assert(formatter.code@ + Seq::<char>::empty() =~= formatter.code@);
            }
            let closing = crate::numtext::s_num("mem[(ptr + ", *offset, ") & 0xFFFF] = 0;");
            formatter.add_line(closing.as_str());
            proof {
                assert(formatter.code@ =~= pre + java_one(ir_of(*instr), ind));
            }
        },
        Instruction::MovePtr(d) => {
            let line = crate::numtext::s_num("ptr += ", *d, ";");
            formatter.add_line(line.as_str());
            proof {
                assert(formatter.code@ =~= pre + java_one(ir_of(*instr), ind));
            }
        },
        Instruction::Loop(body) => {
            formatter.add_line("while(mem[ptr & 0xFFFF] != 0) {");
            formatter.indent();
            generate(formatter, body);
            formatter.unindent();
            proof {
                assert((ind + indent_step()).len() >= 4);
                assert((ind + indent_step()).take((ind + indent_step()).len() - 4) =~= ind);
            }
            formatter.add_line("}");
            proof {
                assert(formatter.code@ =~= pre + java_one(ir_of(*instr), ind));
            }
        },
        Instruction::Read(o) => {
            let line = crate::numtext::s_num(
                "mem[(ptr + ",
                *o,
                ") & 0xFFFF] = (byte) readByte();",
            );
            formatter.add_line(line.as_str());
            proof {
                assert(formatter.code@ =~= pre + java_one(ir_of(*instr), ind));
            }
        },
        Instruction::Write(o) => {
            let line = crate::numtext::s_num("System.out.write(mem[(ptr + ", *o, ") & 0xFFFF]);");
            formatter.add_line(line.as_str());
            formatter.add_line("System.out.flush();");
            proof {
                assert(formatter.code@ =~= pre + java_one(ir_of(*instr), ind));
            }
        },
    }
}

} // verus!
