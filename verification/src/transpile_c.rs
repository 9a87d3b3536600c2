use vstd::prelude::*;
use crate::formatter::{indent_step, Formatter};
use crate::ir::{group_ir_lemmas, ir_of, irs_of, ir_size, irs_size, Instruction, Ir};
use crate::numtext::dec_int;
use crate::trans_zombie_ir::line_of;

verus! {

/// The multiply-add lines of a `LinearLoop` in the pointer-bumping C
/// emitter: offsets are taken relative to the loop cell, which is
/// `buffer[0]`; entries at offset zero or with factor zero emit nothing.
pub open spec fn bc_factors(fs: Seq<(int, int)>, ind: Seq<char>) -> Seq<char>
    decreases fs,
{
    if fs.len() == 0 {
        Seq::empty()
    } else {
        (if fs[0].0 == 0 || fs[0].1 == 0 {
            Seq::empty()
        } else if fs[0].1 == 1 {
            line_of(ind, "buffer["@ + dec_int(fs[0].0) + "] += buffer[0];"@)
        } else if fs[0].1 == -1 {
            line_of(ind, "buffer["@ + dec_int(fs[0].0) + "] -= buffer[0];"@)
        } else {
            line_of(
                ind,
                "buffer["@ + dec_int(fs[0].0) + "] += "@ + dec_int(fs[0].1) + " * buffer[0];"@,
            )
        }) + bc_factors(fs.drop_first(), ind)
    }
}

/// The text of one instruction in the pointer-bumping C emitter.
pub open spec fn bc_one(i: Ir, ind: Seq<char>) -> Seq<char>
    decreases ir_size(i),
{
    match i {
        Ir::Nop => line_of(ind, ""@),
        Ir::Add { offset, value } => line_of(
            ind,
            "buffer["@ + dec_int(offset) + "] += "@ + dec_int(value) + ";"@,
        ),
        Ir::Store { offset, value } => line_of(
            ind,
            "buffer["@ + dec_int(offset) + "] = "@ + dec_int(value) + ";"@,
        ),
        Ir::LinearLoop { offset, factors } => bc_factors(factors, ind) + line_of(
            ind,
            "buffer[0] = 0;"@,
        ),
        Ir::MovePtr(d) => line_of(ind, "buffer += "@ + dec_int(d) + ";"@),
        Ir::Loop(body) => line_of(ind, "while(buffer[0]) {"@) + bc_gen(body, ind + indent_step())
            + line_of(ind, "}"@),
        Ir::Read(o) => line_of(ind, "buffer["@ + dec_int(o) + "] = read_byte();"@),
        Ir::Write(o) => line_of(ind, "putchar(buffer["@ + dec_int(o) + "]);"@),
    }
}

/// The text of an instruction sequence in the pointer-bumping C emitter.
pub open spec fn bc_gen(p: Seq<Ir>, ind: Seq<char>) -> Seq<char>
    decreases irs_size(p),
{
    if p.len() == 0 {
        Seq::empty()
    } else {
        bc_one(p[0], ind) + bc_gen(p.drop_first(), ind)
    }
}

/// The header of the pointer-bumping C program: a byte reader that turns
/// end of input into zero, and a two-billion-byte zeroed buffer with the
/// working pointer started at its middle.
pub open spec fn bc_header() -> Seq<char> {
    line_of(
        Seq::empty(),
        "#include <stdio.h>\n#include <stdlib.h>\n\nstatic int read_byte(void) {\n    int c = getchar();\n    return c == -1 ? 0 : c;\n}\n\nint main() {\n    unsigned char* restrict buffer = (unsigned char*) calloc(2000000000, 1);\n    buffer += 1000000000;"@,
    )
}

/// The whole pointer-bumping C program for an instruction sequence.
pub open spec fn bc_text(p: Seq<Ir>) -> Seq<char> {
    bc_header() + bc_gen(p, indent_step()) + line_of(Seq::empty(), "}"@)
}

/// Emits C that moves the buffer pointer itself instead of masking an
/// index.
pub struct CTranspiler {
    pub code_buf: Formatter,
}

impl Default for CTranspiler {
    /// A transpiler whose buffer already holds the header, at one step of
    /// indentation.
    fn default() -> (r: CTranspiler)
        ensures
            r.code_buf.code@ == bc_header(),
            r.code_buf.indent@ == indent_step(),
    {
        let mut transpiler = CTranspiler { code_buf: Formatter::new() };
        transpiler.code_buf.add_line(
            "#include <stdio.h>\n#include <stdlib.h>\n\nstatic int read_byte(void) {\n    int c = getchar();\n    return c == -1 ? 0 : c;\n}\n\nint main() {\n    unsigned char* restrict buffer = (unsigned char*) calloc(2000000000, 1);\n    buffer += 1000000000;",
        );
        transpiler.code_buf.indent();
        proof {
            assert(transpiler.code_buf.code@ =~= bc_header());
        }
        transpiler
    }
}

impl CTranspiler {
    /// Emits the statements of an instruction sequence.
    pub fn visit_instructions(&mut self, instrs: &Vec<Instruction>)
        ensures
            final(self).code_buf.code@ == old(self).code_buf.code@ + bc_gen(
                irs_of(instrs@),
                old(self).code_buf.indent@,
            ),
            final(self).code_buf.indent@ == old(self).code_buf.indent@,
    {
        generate(&mut self.code_buf, instrs);
    }

    /// Closes `main`.
    pub fn finalize(&mut self)
        ensures
            final(self).code_buf.code@ == old(self).code_buf.code@ + line_of(
                (if old(self).code_buf.indent@.len() >= 4 {
                    old(self).code_buf.indent@.take(old(self).code_buf.indent@.len() - 4)
                } else {
                    old(self).code_buf.indent@
                }),
                "}"@,
            ),
    {
        self.code_buf.unindent();
        self.code_buf.add_line("}");
    }
}

/// Renders a program as a C program over a pointer-bumped buffer.
pub fn transpile_c(instrs: &Vec<Instruction>) -> (r: String)
    ensures
        r@ == bc_text(irs_of(instrs@)),
{
    let mut transpiler = CTranspiler::default();
    transpiler.visit_instructions(instrs);
    transpiler.finalize();
    let code = transpiler.code_buf.get_code();
    proof {
        assert(indent_step().take(indent_step().len() - 4) =~= Seq::<char>::empty());
        assert(code@ =~= bc_text(irs_of(instrs@)));
    }
    code
}

/// Emits the statements of an instruction sequence into the formatter.
pub fn generate(formatter: &mut Formatter, instrs: &Vec<Instruction>)
    ensures
        final(formatter).code@ == old(formatter).code@ + bc_gen(
            irs_of(instrs@),
            old(formatter).indent@,
        ),
        final(formatter).indent@ == old(formatter).indent@,
    decreases irs_size(irs_of(instrs@)),
{
    broadcast use group_ir_lemmas;

    let ghost irs = irs_of(instrs@);
    let ghost code0 = formatter.code@;
    let ghost ind = formatter.indent@;
    let mut i: usize = 0;
    proof {
        assert(irs.skip(0) =~= irs);
    }
    while i < instrs.len()
        invariant
            i <= instrs@.len(),
            irs == irs_of(instrs@),
            irs.len() == instrs@.len(),
            code0 == old(formatter).code@,
            ind == old(formatter).indent@,
            formatter.indent@ == ind,
            formatter.code@ + bc_gen(irs.skip(i as int), ind) == code0 + bc_gen(irs, ind),
        decreases instrs@.len() - i,
    {
        proof {
            crate::ir::lemma_irs_of_len(instrs@);
            crate::ir::lemma_irs_of_index(instrs@, i as int);
            crate::ir::lemma_irs_size_index(irs, i as int);
            assert(irs.skip(i as int)[0] == irs[i as int]);
            assert(irs.skip(i as int).drop_first() =~= irs.skip(i as int + 1));
        }
        let ghost pre = formatter.code@;
        generate_one(formatter, &instrs[i]);
        proof {
            assert((pre + bc_one(irs[i as int], ind)) + bc_gen(irs.skip(i as int + 1), ind) =~= pre
                + (bc_one(irs[i as int], ind) + bc_gen(irs.skip(i as int + 1), ind)));
        }
        i += 1;
    }
    proof {
        assert(irs.skip(instrs@.len() as int) =~= Seq::<Ir>::empty());
        assert(formatter.code@ + Seq::<char>::empty() =~= formatter.code@);
        assert(code0 + bc_gen(irs, ind) =~= formatter.code@);
    }
}

/// Emits the statements of one instruction into the formatter.
#[verifier::rlimit(100)]
fn generate_one(formatter: &mut Formatter, instr: &Instruction)
    ensures
        final(formatter).code@ == old(formatter).code@ + bc_one(
            ir_of(*instr),
            old(formatter).indent@,
        ),
        final(formatter).indent@ == old(formatter).indent@,
    decreases ir_size(ir_of(*instr)),
{
    broadcast use group_ir_lemmas;

    let ghost pre = formatter.code@;
    let ghost ind = formatter.indent@;
    match instr {
        Instruction::Nop => {
            formatter.add_line("");
            proof {
                reveal_strlit("");
                assert(formatter.code@ =~= pre + bc_one(ir_of(*instr), ind));
            }
        },
        Instruction::Add { offset, value } => {
            let line = crate::numtext::s_num2("buffer[", *offset, "] += ", *value, ";");
            formatter.add_line(line.as_str());
            proof {
                assert(formatter.code@ =~= pre + bc_one(ir_of(*instr), ind));
            }
        },
        Instruction::Store { offset, value } => {
            let line = crate::numtext::s_num2("buffer[", *offset, "] = ", *value, ";");
            formatter.add_line(line.as_str());
            proof {
                assert(formatter.code@ =~= pre + bc_one(ir_of(*instr), ind));
            }
        },
        Instruction::LinearLoop { offset, factors } => {
            let ghost fsv = crate::ir::pairs_of(factors@);
            let mut j: usize = 0;
            proof {
                assert(fsv.skip(0) =~= fsv);
            }
            while j < factors.len()
                invariant
                    j <= factors@.len(),
                    fsv == crate::ir::pairs_of(factors@),
                    fsv.len() == factors@.len(),
                    formatter.indent@ == ind,
                    formatter.code@ + bc_factors(fsv.skip(j as int), ind) == pre + bc_factors(
                        fsv,
                        ind,
                    ),
                decreases factors@.len() - j,
            {
                let (o, f) = factors[j];
                proof {
                    assert(fsv.skip(j as int)[0] == (o as int, f as int));
                    assert(fsv.skip(j as int).drop_first() =~= fsv.skip(j as int + 1));
                }
                let ghost cpre = formatter.code@;
                if o != 0 && f != 0 {
                    if f == 1 {
                        let line = crate::numtext::s_num("buffer[", o, "] += buffer[0];");
                        formatter.add_line(line.as_str());
                    } else if f == -1 {
                        let line = crate::numtext::s_num("buffer[", o, "] -= buffer[0];");
                        formatter.add_line(line.as_str());
                    } else {
                        let line = crate::numtext::s_num2(
                            "buffer[",
                            o,
                            "] += ",
                            f,
                            " * buffer[0];",
                        );
                        formatter.add_line(line.as_str());
                    }
                }
                proof {
                    assert(formatter.code@ + bc_factors(fsv.skip(j as int + 1), ind) =~= cpre
                        + bc_factors(fsv.skip(j as int), ind));
                }
                j += 1;
            }
            proof {
                assert(fsv.skip(factors@.len() as int) =~= Seq::<(int, int)>::empty());
                assert(formatter.code@ + Seq::<char>::empty() =~= formatter.code@);
            }
            formatter.add_line("buffer[0] = 0;");
            proof {
                assert(formatter.code@ =~= pre + bc_one(ir_of(*instr), ind));
            }
        },
        Instruction::MovePtr(d) => {
            let line = crate::numtext::s_num("buffer += ", *d, ";");
            formatter.add_line(line.as_str());
            proof {
                assert(formatter.code@ =~= pre + bc_one(ir_of(*instr), ind));
            }
        },
        Instruction::Loop(body) => {
            formatter.add_line("while(buffer[0]) {");
            formatter.indent();
            generate(formatter, body);
            formatter.unindent();
            proof {
                assert((ind + indent_step()).len() >= 4);
                assert((ind + indent_step()).take((ind + indent_step()).len() - 4) =~= ind);
            }
            formatter.add_line("}");
            proof {
                assert(formatter.code@ =~= pre + bc_one(ir_of(*instr), ind));
            }
        },
        Instruction::Read(o) => {
            let line = crate::numtext::s_num("buffer[", *o, "] = read_byte();");
            formatter.add_line(line.as_str());
            proof {
                assert(formatter.code@ =~= pre + bc_one(ir_of(*instr), ind));
            }
        },
        Instruction::Write(o) => {
            let line = crate::numtext::s_num("putchar(buffer[", *o, "]);");
            formatter.add_line(line.as_str());
            proof {
                assert(formatter.code@ =~= pre + bc_one(ir_of(*instr), ind));
            }
        },
    }
}

} // verus!
