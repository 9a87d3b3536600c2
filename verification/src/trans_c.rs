use vstd::prelude::*;
use crate::dfg::{stmts_of, DfInstr, DfStmt, DfgNode, DfgOptimizer};
use crate::formatter::{indent_step, Formatter};
use crate::ir::{group_ir_lemmas, ir_of, irs_of, ir_size, irs_size, Instruction, Ir};
use crate::numtext::{dec_digits, dec_int};
use crate::trans_zombie_ir::line_of;
use crate::wrap_i64;

verus! {

/// The multiply-add lines of a `LinearLoop`: entries at offset zero or with
/// factor zero emit nothing, factors one and minus one become plain `+=`
/// and `-=`.
pub open spec fn c_factors(fs: Seq<(int, int)>, off: int, ind: Seq<char>) -> Seq<char>
    decreases fs,
{
    if fs.len() == 0 {
        Seq::empty()
    } else {
        (if fs[0].0 == 0 || fs[0].1 == 0 {
            Seq::empty()
        } else if fs[0].1 == 1 {
            line_of(
                ind,
                "mem[OFF("@ + dec_int(wrap_i64(off + fs[0].0)) + ")] += mem[OFF("@ + dec_int(off)
                    + ")];"@,
            )
        } else if fs[0].1 == -1 {
            line_of(
                ind,
                "mem[OFF("@ + dec_int(wrap_i64(off + fs[0].0)) + ")] -= mem[OFF("@ + dec_int(off)
                    + ")];"@,
            )
        } else {
            line_of(
                ind,
                "mem[OFF("@ + dec_int(wrap_i64(off + fs[0].0)) + ")] += "@ + dec_int(fs[0].1)
                    + " * mem[OFF("@ + dec_int(off) + ")];"@,
            )
        }) + c_factors(fs.drop_first(), off, ind)
    }
}

/// The C text of one instruction at the given indentation.  A loop whose
/// body is exactly one `MovePtr(1)` becomes a `strlen` scan.
pub open spec fn c_one(i: Ir, ind: Seq<char>) -> Seq<char>
    decreases ir_size(i),
{
    match i {
        Ir::Nop => line_of(ind, ""@),
        Ir::Add { offset, value } => line_of(
            ind,
            "mem[OFF("@ + dec_int(offset) + ")] += "@ + dec_int(value) + ";"@,
        ),
        Ir::Store { offset, value } => line_of(
            ind,
            "mem[OFF("@ + dec_int(offset) + ")] = "@ + dec_int(value) + ";"@,
        ),
        Ir::LinearLoop { offset, factors } => c_factors(factors, offset, ind) + line_of(
            ind,
            "mem[OFF("@ + dec_int(offset) + ")] = 0;"@,
        ),
        Ir::MovePtr(d) => line_of(ind, "ptr = OFF("@ + dec_int(d) + ");"@),
        Ir::Loop(body) => {
            if body.len() == 1 && body[0] == Ir::MovePtr(1) {
                line_of(ind, "ptr = OFF(strlen(&mem[ptr]));"@)
            } else {
                line_of(ind, "while(mem[OFF(0)]) {"@) + c_gen(body, ind + indent_step()) + line_of(
                    ind,
                    "}"@,
                )
            }
        },
        Ir::Read(o) => line_of(ind, "mem[OFF("@ + dec_int(o) + ")] = read_byte();"@),
        Ir::Write(o) => line_of(ind, "putchar(mem[OFF("@ + dec_int(o) + ")]);"@),
    }
}

/// The C text of an instruction sequence at the given indentation.
pub open spec fn c_gen(p: Seq<Ir>, ind: Seq<char>) -> Seq<char>
    decreases irs_size(p),
{
    if p.len() == 0 {
        Seq::empty()
    } else {
        c_one(p[0], ind) + c_gen(p.drop_first(), ind)
    }
}

/// The C program header: includes, the masking `OFF` macro, a byte reader
/// that turns end of input into zero, and a zeroed 65 536-byte heap tape.
pub open spec fn c_header() -> Seq<char> {
    line_of(
        Seq::empty(),
        "#include <stdio.h>\n#include <stdlib.h>\n#include <string.h>\n#include <inttypes.h>\n\n#define OFF(X) ((uint16_t)(ptr + (uint16_t) (X)))\n\nstatic int read_byte(void) {\n    int c = getchar();\n    return c == -1 ? 0 : c;\n}\n\nint main() {\n    uint8_t* mem = (uint8_t*) malloc(0x10000 * sizeof(uint8_t));\n    memset(mem, 0, 0x10000 * sizeof(uint8_t));\n    uint16_t ptr = 0;"@,
    )
}

/// The whole C program for an instruction sequence.
pub open spec fn c_text(p: Seq<Ir>) -> Seq<char> {
    c_header() + c_gen(p, indent_step()) + line_of(indent_step(), "free(mem);"@) + line_of(
        Seq::empty(),
        "}"@,
    )
}

/// Emits a C program, one statement per instruction, indexing the tape
/// through the masking `OFF` macro.
pub struct CTranspiler {
    pub code_buf: Formatter,
}

impl Default for CTranspiler {
    /// A transpiler whose buffer already holds the program header, at one
    /// step of indentation.
    fn default() -> (r: CTranspiler)
        ensures
            r.code_buf.code@ == c_header(),
            r.code_buf.indent@ == indent_step(),
    {
        let mut transpiler = CTranspiler { code_buf: Formatter::new() };
        transpiler.code_buf.add_line(
            "#include <stdio.h>\n#include <stdlib.h>\n#include <string.h>\n#include <inttypes.h>\n\n#define OFF(X) ((uint16_t)(ptr + (uint16_t) (X)))\n\nstatic int read_byte(void) {\n    int c = getchar();\n    return c == -1 ? 0 : c;\n}\n\nint main() {\n    uint8_t* mem = (uint8_t*) malloc(0x10000 * sizeof(uint8_t));\n    memset(mem, 0, 0x10000 * sizeof(uint8_t));\n    uint16_t ptr = 0;",
        );
        transpiler.code_buf.indent();
        proof {
            assert(transpiler.code_buf.code@ =~= c_header());
        }
        transpiler
    }
}

impl CTranspiler {
    /// Emits the C statements of an instruction sequence.
    pub fn visit_instructions(&mut self, instrs: &Vec<Instruction>)
        ensures
            final(self).code_buf.code@ == old(self).code_buf.code@ + c_gen(
                irs_of(instrs@),
                old(self).code_buf.indent@,
            ),
            final(self).code_buf.indent@ == old(self).code_buf.indent@,
    {
        generate(&mut self.code_buf, instrs);
    }

    /// Frees the tape and closes `main`.
    pub fn finalize(&mut self)
        ensures
            final(self).code_buf.code@ == old(self).code_buf.code@ + line_of(
                old(self).code_buf.indent@,
                "free(mem);"@,
            ) + line_of(
                (if old(self).code_buf.indent@.len() >= 4 {
                    old(self).code_buf.indent@.take(old(self).code_buf.indent@.len() - 4)
                } else {
                    old(self).code_buf.indent@
                }),
                "}"@,
            ),
    {
        self.code_buf.add_line("free(mem);");
        self.code_buf.unindent();
        self.code_buf.add_line("}");
        proof {
            assert(final(self).code_buf.code@ =~= old(self).code_buf.code@ + line_of(
                old(self).code_buf.indent@,
                "free(mem);"@,
            ) + line_of(
                (if old(self).code_buf.indent@.len() >= 4 {
                    old(self).code_buf.indent@.take(old(self).code_buf.indent@.len() - 4)
                } else {
                    old(self).code_buf.indent@
                }),
                "}"@,
            ));
        }
    }
}

/// Renders a program as an equivalent C program.
pub fn transpile(instrs: &Vec<Instruction>) -> (r: String)
    ensures
        r@ == c_text(irs_of(instrs@)),
{
    let mut transpiler = CTranspiler::default();
    transpiler.visit_instructions(instrs);
    transpiler.finalize();
    let code = transpiler.code_buf.get_code();
    proof {
        assert(indent_step().take(indent_step().len() - 4) =~= Seq::<char>::empty());
        assert(code@ =~= c_text(irs_of(instrs@)));
    }
    code
}

/// Emits the C statements of an instruction sequence into the formatter.
pub fn generate(formatter: &mut Formatter, instrs: &Vec<Instruction>)
    ensures
        final(formatter).code@ == old(formatter).code@ + c_gen(
            irs_of(instrs@),
            old(formatter).indent@,
        ),
        final(formatter).indent@ == old(formatter).indent@,
    decreases irs_size(irs_of(instrs@)),
{
    broadcast use group_ir_lemmas;

    let ghost irs = irs_of(instrs@);
    let ghost code0 = formatter.code@;
    let ghost ind = formatter.indent@;
    let mut i: usize = 0;
    proof {
        assert(irs.skip(0) =~= irs);
    }
    while i < instrs.len()
        invariant
            i <= instrs@.len(),
            irs == irs_of(instrs@),
            irs.len() == instrs@.len(),
            code0 == old(formatter).code@,
            ind == old(formatter).indent@,
            formatter.indent@ == ind,
            formatter.code@ + c_gen(irs.skip(i as int), ind) == code0 + c_gen(irs, ind),
        decreases instrs@.len() - i,
    {
        proof {
            crate::ir::lemma_irs_of_len(instrs@);
            crate::ir::lemma_irs_of_index(instrs@, i as int);
            crate::ir::lemma_irs_size_index(irs, i as int);
            assert(irs.skip(i as int)[0] == irs[i as int]);
            assert(irs.skip(i as int).drop_first() =~= irs.skip(i as int + 1));
        }
        let ghost pre = formatter.code@;
        generate_one(formatter, &instrs[i]);
        proof {
            assert((pre + c_one(irs[i as int], ind)) + c_gen(irs.skip(i as int + 1), ind) =~= pre
                + (c_one(irs[i as int], ind) + c_gen(irs.skip(i as int + 1), ind)));
        }
        i += 1;
    }
    proof {
        assert(irs.skip(instrs@.len() as int) =~= Seq::<Ir>::empty());
        assert(formatter.code@ + Seq::<char>::empty() =~= formatter.code@);
        assert(code0 + c_gen(irs, ind) =~= formatter.code@);
    }
}

/// Emits the C statements of one instruction into the formatter.
#[verifier::rlimit(100)]
fn generate_one(formatter: &mut Formatter, instr: &Instruction)
    ensures
        final(formatter).code@ == old(formatter).code@ + c_one(
            ir_of(*instr),
            old(formatter).indent@,
        ),
        final(formatter).indent@ == old(formatter).indent@,
    decreases ir_size(ir_of(*instr)),
{
    broadcast use group_ir_lemmas;

    let ghost pre = formatter.code@;
    let ghost ind = formatter.indent@;
    match instr {
        Instruction::Nop => {
            formatter.add_line("");
            proof {
                reveal_strlit("");
                assert(formatter.code@ =~= pre + c_one(ir_of(*instr), ind));
            }
        },
        Instruction::Add { offset, value } => {
            let line = crate::numtext::s_num2("mem[OFF(", *offset, ")] += ", *value, ";");
            formatter.add_line(line.as_str());
            proof {
                assert(formatter.code@ =~= pre + c_one(ir_of(*instr), ind));
            }
        },
        Instruction::Store { offset, value } => {
            let line = crate::numtext::s_num2("mem[OFF(", *offset, ")] = ", *value, ";");
            formatter.add_line(line.as_str());
            proof {
                assert(formatter.code@ =~= pre + c_one(ir_of(*instr), ind));
            }
        },
        Instruction::LinearLoop { offset, factors } => {
            let ghost fsv = crate::ir::pairs_of(factors@);
            let mut j: usize = 0;
            proof {
                assert(fsv.skip(0) =~= fsv);
            }
            while j < factors.len()
                invariant
                    j <= factors@.len(),
                    fsv == crate::ir::pairs_of(factors@),
                    fsv.len() == factors@.len(),
                    formatter.indent@ == ind,
                    formatter.code@ + c_factors(fsv.skip(j as int), *offset as int, ind) == pre
                        + c_factors(fsv, *offset as int, ind),
                decreases factors@.len() - j,
            {
                let (o, f) = factors[j];
                proof {
                    assert(fsv.skip(j as int)[0] == (o as int, f as int));
                    assert(fsv.skip(j as int).drop_first() =~= fsv.skip(j as int + 1));
                }
                let ghost cpre = formatter.code@;
                if o != 0 && f != 0 {
                    let absoff = crate::wadd(*offset, o);
                    if f == 1 {
                        let line = crate::numtext::s_num2(
                            "mem[OFF(",
                            absoff,
                            ")] += mem[OFF(",
                            *offset,
                            ")];",
                        );
                        formatter.add_line(line.as_str());
                    } else if f == -1 {
                        let line = crate::numtext::s_num2(
                            "mem[OFF(",
                            absoff,
                            ")] -= mem[OFF(",
                            *offset,
                            ")];",
                        );
                        formatter.add_line(line.as_str());
                    } else {
                        let line = crate::numtext::s_num3(
                            "mem[OFF(",
                            absoff,
                            ")] += ",
                            f,
                            " * mem[OFF(",
                            *offset,
                            ")];",
                        );
                        formatter.add_line(line.as_str());
                    }
                }
                proof {
                    assert(formatter.code@ + c_factors(fsv.skip(j as int + 1), *offset as int, ind)
                        =~= cpre + c_factors(fsv.skip(j as int), *offset as int, ind));
                }
                j += 1;
            }
            proof {
                assert(fsv.skip(factors@.len() as int) =~= Seq::<(int, int)>::empty());
                assert(formatter.code@ + Seq::<char>::empty() =~= formatter.code@);
            }
            let closing = crate::numtext::s_num("mem[OFF(", *offset, ")] = 0;");
            formatter.add_line(closing.as_str());
            proof {
                assert(formatter.code@ =~= pre + c_one(ir_of(*instr), ind));
            }
        },
        Instruction::MovePtr(d) => {
            let line = crate::numtext::s_num("ptr = OFF(", *d, ");");
            formatter.add_line(line.as_str());
            proof {
                assert(formatter.code@ =~= pre + c_one(ir_of(*instr), ind));
            }
        },
        Instruction::Loop(body) => {
            let mut strlen_scan = false;
            if body.len() == 1 {
                match &body[0] {
                    Instruction::MovePtr(step) => {
                        if *step == 1 {
                            strlen_scan = true;
                        }
                    },
                    _ => {},
                }
            }
            proof {
                crate::ir::lemma_irs_of_len(body@);
                if body@.len() == 1 {
                    crate::ir::lemma_irs_of_index(body@, 0);
                }
                assert(strlen_scan <==> (irs_of(body@).len() == 1 && irs_of(body@)[0]
                    == Ir::MovePtr(1)));
            }
            if strlen_scan {
                formatter.add_line("ptr = OFF(strlen(&mem[ptr]));");
                proof {
                    assert(formatter.code@ =~= pre + c_one(ir_of(*instr), ind));
                }
            } else {
                formatter.add_line("while(mem[OFF(0)]) {");
                formatter.indent();
                generate(formatter, body);
                formatter.unindent();
                proof {
                    assert((ind + indent_step()).len() >= 4);
                    assert((ind + indent_step()).take((ind + indent_step()).len() - 4) =~= ind);
                }
                formatter.add_line("}");
                proof {
                    assert(formatter.code@ =~= pre + c_one(ir_of(*instr), ind));
                }
            }
        },
        Instruction::Read(o) => {
            let line = crate::numtext::s_num("mem[OFF(", *o, ")] = read_byte();");
            formatter.add_line(line.as_str());
            proof {
                assert(formatter.code@ =~= pre + c_one(ir_of(*instr), ind));
            }
        },
        Instruction::Write(o) => {
            let line = crate::numtext::s_num("putchar(mem[OFF(", *o, ")]);");
            formatter.add_line(line.as_str());
            proof {
                assert(formatter.code@ =~= pre + c_one(ir_of(*instr), ind));
            }
        },
    }
}

/// The C expression for a dataflow node: a constant, a tape read, a sum,
/// a parenthesised product, or a guarded input read.  An index outside the
/// slab, or an operand that does not precede its node, yields no text; the
/// builder never produces either.
pub open spec fn eval_text(nodes: Seq<DfgNode>, idx: int) -> Seq<char>
    decreases idx,
{
    if idx < 0 || idx >= nodes.len() {
        Seq::empty()
    } else {
        match nodes[idx] {
            DfgNode::Const(c) => dec_int(c as int),
            DfgNode::Cell(off) => "mem[OFF("@ + dec_int(off as int) + ")]"@,
            DfgNode::Add(a, b) => if a < idx && b < idx {
                eval_text(nodes, a as int) + " + "@ + eval_text(nodes, b as int)
            } else {
                Seq::empty()
            },
            DfgNode::Multiply(a, b) => if a < idx && b < idx {
                "("@ + eval_text(nodes, a as int) + ") * ("@ + eval_text(nodes, b as int) + ")"@
            } else {
                Seq::empty()
            },
            DfgNode::Read => "read_byte()"@,
        }
    }
}

/// Renders the C expression of the dataflow node at `idx`.
pub fn eval(nodes: &Vec<DfgNode>, idx: usize) -> (r: String)
    ensures
        r@ == eval_text(nodes@, idx as int),
    decreases idx,
{
    if idx >= nodes.len() {
        return String::new();
    }
    match &nodes[idx] {
        DfgNode::Const(c) => crate::numtext::i64_to_string(*c),
        DfgNode::Cell(off) => crate::numtext::s_num("mem[OFF(", *off, ")]"),
        DfgNode::Add(a, b) => {
            if *a < idx && *b < idx {
                let mut s = eval(nodes, *a);
                proof {
                    reveal_strlit(" + ");
                }
                s.append(" + ");
                let rhs = eval(nodes, *b);
                s.append(rhs.as_str());
                proof {
                    assert(s@ =~= eval_text(nodes@, idx as int));
                }
                s
            } else {
                String::new()
            }
        },
        DfgNode::Multiply(a, b) => {
            if *a < idx && *b < idx {
                proof {
                    reveal_strlit("(");
                }
                let mut s = String::from_str("(");
                let lhs = eval(nodes, *a);
                s.append(lhs.as_str());
                s.append(") * (");
                let rhs = eval(nodes, *b);
                s.append(rhs.as_str());
                s.append(")");
                proof {
                    assert(s@ =~= eval_text(nodes@, idx as int));
                }
                s
            } else {
                String::new()
            }
        },
        DfgNode::Read => String::from_str("read_byte()"),
    }
}

/// The structural size of a statement, the measure for recursion through
/// nested blocks.
pub open spec fn stmt_size(s: DfStmt) -> nat
    decreases s,
{
    match s {
        DfStmt::Loop(at, blk) => 1 + stmts_size(blk.stmts),
        _ => 1,
    }
}

/// The structural size of a statement sequence.
pub open spec fn stmts_size(s: Seq<DfStmt>) -> nat
    decreases s,
{
    if s.len() == 0 {
        1
    } else {
        1 + stmt_size(s[0]) + stmts_size(s.drop_first())
    }
}

/// The commit lines for writes deferred into temporaries: each goes back to
/// its tape cell.
pub open spec fn flush_lines(memoffs: Seq<(int, int)>, ind: Seq<char>) -> Seq<char>
    decreases memoffs,
{
    if memoffs.len() == 0 {
        Seq::empty()
    } else {
        line_of(
            ind,
            "mem[OFF("@ + dec_int(memoffs[0].0) + ")] = tmp_"@ + dec_digits(memoffs[0].1) + ";"@,
        ) + flush_lines(memoffs.drop_first(), ind)
    }
}

/// The C text of a statement list: deferred writes become numbered
/// temporaries, committed before each nested loop and at the end of the
/// block; nested loops restart the numbering.
pub open spec fn dfgc_go(
    stmts: Seq<DfStmt>,
    nodes: Seq<DfgNode>,
    ind: Seq<char>,
    memoffs: Seq<(int, int)>,
    k: int,
) -> Seq<char>
    decreases stmts_size(stmts),
    via dfgc_go_decreases
{
    if stmts.len() == 0 {
        flush_lines(memoffs, ind)
    } else {
        match stmts[0] {
            DfStmt::MovePtr(d) => line_of(ind, "ptr += "@ + dec_int(d) + ";"@) + dfgc_go(
                stmts.drop_first(),
                nodes,
                ind,
                memoffs,
                k,
            ),
            DfStmt::WriteMem(off, v) => line_of(
                ind,
                "uint8_t tmp_"@ + dec_digits(k) + " = "@ + eval_text(nodes, v) + ";"@,
            ) + dfgc_go(stmts.drop_first(), nodes, ind, memoffs.push((off, k)), k + 1),
            DfStmt::Print(v) => line_of(ind, "putchar("@ + eval_text(nodes, v) + ");"@) + dfgc_go(
                stmts.drop_first(),
                nodes,
                ind,
                memoffs,
                k,
            ),
            DfStmt::Loop(at, blk) => flush_lines(memoffs, ind) + line_of(
                ind,
                "while(mem[OFF(0)]) {"@,
            ) + dfgc_go(blk.stmts, blk.nodes, ind + indent_step(), Seq::empty(), 0) + line_of(
                ind,
                "}"@,
            ) + dfgc_go(stmts.drop_first(), nodes, ind, Seq::empty(), k),
        }
    }
}

#[via_fn]
proof fn dfgc_go_decreases(
    stmts: Seq<DfStmt>,
    nodes: Seq<DfgNode>,
    ind: Seq<char>,
    memoffs: Seq<(int, int)>,
    k: int,
) {
    if stmts.len() > 0 {
        assert(stmts_size(stmts) == 1 + stmt_size(stmts[0]) + stmts_size(stmts.drop_first()));
        match stmts[0] {
            DfStmt::Loop(at, blk) => {
                assert(stmt_size(stmts[0]) == 1 + stmts_size(blk.stmts));
            },
            _ => {},
        }
    }
}

/// The whole C program of a dataflow graph.
pub open spec fn dfg_c_text(stmts: Seq<DfStmt>, nodes: Seq<DfgNode>) -> Seq<char> {
    line_of(
        Seq::empty(),
        "#include <stdio.h>\n#include <stdlib.h>\n#include <string.h>\n#include <inttypes.h>\n\n#define OFF(X) ((uint16_t)(ptr + (uint16_t) (X)))\n\nstatic int read_byte(void) {\n    int c = getchar();\n    return c == -1 ? 0 : c;\n}\n\nint main() {\n    uint8_t* mem = (uint8_t*) calloc(0x10000, 1);\n    uint16_t ptr = 0;"@,
    ) + dfgc_go(stmts, nodes, indent_step(), Seq::empty(), 0) + line_of(Seq::empty(), "}"@)
}

/// Renders a built dataflow graph as a C program.
pub fn transpile_dfg(dfg: &DfgOptimizer) -> (r: String)
    ensures
        r@ == dfg_c_text(stmts_of(dfg.cfg@), dfg.nodes@),
{
    let mut formatter = Formatter::new();
    formatter.add_line(
        "#include <stdio.h>\n#include <stdlib.h>\n#include <string.h>\n#include <inttypes.h>\n\n#define OFF(X) ((uint16_t)(ptr + (uint16_t) (X)))\n\nstatic int read_byte(void) {\n    int c = getchar();\n    return c == -1 ? 0 : c;\n}\n\nint main() {\n    uint8_t* mem = (uint8_t*) calloc(0x10000, 1);\n    uint16_t ptr = 0;",
    );
    formatter.indent();
    generate_dfg(&dfg.cfg, &dfg.nodes, &mut formatter);
    formatter.unindent();
    proof {
        assert(indent_step().take(indent_step().len() - 4) =~= Seq::<char>::empty());
    }
    formatter.add_line("}");
    let code = formatter.get_code();
    proof {
        assert(code@ =~= dfg_c_text(stmts_of(dfg.cfg@), dfg.nodes@));
    }
    code
}

/// Emits the C statements of a dataflow statement list into the formatter,
/// deferring tape writes to numbered temporaries.
#[verifier::rlimit(100)]
pub fn generate_dfg(cfg: &Vec<DfInstr>, nodes: &Vec<DfgNode>, formatter: &mut Formatter)
    ensures
        final(formatter).code@ == old(formatter).code@ + dfgc_go(
            stmts_of(cfg@),
            nodes@,
            old(formatter).indent@,
            Seq::empty(),
            0,
        ),
        final(formatter).indent@ == old(formatter).indent@,
    decreases stmts_size(stmts_of(cfg@)),
{
    let ghost sts = stmts_of(cfg@);
    let ghost code0 = formatter.code@;
    let ghost ind = formatter.indent@;
    let mut memoffs: Vec<(i64, u64)> = Vec::new();
    let mut tmp_counter: u64 = 0;
    let mut j: usize = 0;
    proof {
        assert(sts.skip(0) =~= sts);
        lemma_stmts_len(cfg@);
        assert(mem_view(memoffs@) =~= Seq::<(int, int)>::empty());
    }
    while j < cfg.len()
        invariant
            j <= cfg@.len(),
            sts == stmts_of(cfg@),
            sts.len() == cfg@.len(),
            code0 == old(formatter).code@,
            ind == old(formatter).indent@,
            formatter.indent@ == ind,
            tmp_counter <= j,
            formatter.code@ + dfgc_go(
                sts.skip(j as int),
                nodes@,
                ind,
                mem_view(memoffs@),
                tmp_counter as int,
            ) == code0 + dfgc_go(sts, nodes@, ind, Seq::empty(), 0),
        decreases cfg@.len() - j,
    {
        proof {
            lemma_stmts_len(cfg@);
            lemma_stmts_index(cfg@, j as int);
            lemma_stmts_size_index(sts, j as int);
            assert(sts.skip(j as int)[0] == sts[j as int]);
            assert(sts.skip(j as int).drop_first() =~= sts.skip(j as int + 1));
        }
        let ghost pre = formatter.code@;
        match &cfg[j] {
            DfInstr::MovePtr(d) => {
                let line = crate::numtext::s_num("ptr += ", *d, ";");
                formatter.add_line(line.as_str());
                proof {
                    assert(formatter.code@ + dfgc_go(
                        sts.skip(j as int + 1),
                        nodes@,
                        ind,
                        mem_view(memoffs@),
                        tmp_counter as int,
                    ) =~= pre + dfgc_go(
                        sts.skip(j as int),
                        nodes@,
                        ind,
                        mem_view(memoffs@),
                        tmp_counter as int,
                    ));
                }
            },
            DfInstr::WriteMem(off, v) => {
                proof {
                    reveal_strlit("uint8_t tmp_");
                    reveal_strlit(" = ");
                    reveal_strlit(";");
                }
                let mut line = String::from_str("uint8_t tmp_");
                let num = crate::numtext::u64_to_string(tmp_counter);
                line.append(num.as_str());
                line.append(" = ");
                let expr = eval(nodes, *v);
                line.append(expr.as_str());
                line.append(";");
                formatter.add_line(line.as_str());
                let ghost mempre = mem_view(memoffs@);
                memoffs.push((*off, tmp_counter));
                proof {
                    assert(mem_view(memoffs@) =~= mempre.push((*off as int, tmp_counter as int)));
                    assert(line@ =~= "uint8_t tmp_"@ + dec_digits(tmp_counter as int) + " = "@
                        + eval_text(nodes@, *v as int) + ";"@);
                    assert(dfgc_go(sts.skip(j as int), nodes@, ind, mempre, tmp_counter as int)
                        == line_of(
                        ind,
                        "uint8_t tmp_"@ + dec_digits(tmp_counter as int) + " = "@ + eval_text(
                            nodes@,
                            *v as int,
                        ) + ";"@,
                    ) + dfgc_go(
                        sts.skip(j as int + 1),
                        nodes@,
                        ind,
                        mempre.push((*off as int, tmp_counter as int)),
                        tmp_counter as int + 1,
                    ));
                    let lx = "uint8_t tmp_"@ + dec_digits(tmp_counter as int) + " = "@
                        + eval_text(nodes@, *v as int) + ";"@;
                    let restgo = dfgc_go(
                        sts.skip(j as int + 1),
                        nodes@,
                        ind,
                        mempre.push((*off as int, tmp_counter as int)),
                        tmp_counter as int + 1,
                    );
                    assert(formatter.code@ =~= pre + line_of(ind, lx));
                    assert((pre + line_of(ind, lx)) + restgo =~= pre + (line_of(ind, lx)
                        + restgo));
                    assert(dfgc_go(
                        sts.skip(j as int + 1),
                        nodes@,
                        ind,
                        mem_view(memoffs@),
                        tmp_counter as int + 1,
                    ) == restgo);
                    assert(formatter.code@ + restgo == (pre + line_of(ind, lx)) + restgo);
                    assert(formatter.code@ + restgo == pre + (line_of(ind, lx) + restgo));
                    assert(line_of(ind, lx) + restgo == dfgc_go(
                        sts.skip(j as int),
                        nodes@,
                        ind,
                        mempre,
                        tmp_counter as int,
                    ));
                    assert(formatter.code@ + dfgc_go(
                        sts.skip(j as int + 1),
                        nodes@,
                        ind,
                        mem_view(memoffs@),
                        tmp_counter as int + 1,
                    ) == formatter.code@ + restgo);
                    assert(formatter.code@ + dfgc_go(
                        sts.skip(j as int + 1),
                        nodes@,
                        ind,
                        mem_view(memoffs@),
                        tmp_counter as int + 1,
                    ) == pre + dfgc_go(
                        sts.skip(j as int),
                        nodes@,
                        ind,
                        mempre,
                        tmp_counter as int,
                    ));
                }
                tmp_counter = tmp_counter + 1;
            },
            DfInstr::Print(v) => {
                proof {
                    reveal_strlit("putchar(");
                    reveal_strlit(");");
                }
                let mut line = String::from_str("putchar(");
                let expr = eval(nodes, *v);
                line.append(expr.as_str());
                line.append(");");
                formatter.add_line(line.as_str());
                proof {
                    assert(line@ =~= "putchar("@ + eval_text(nodes@, *v as int) + ");"@);
                    let lx = "putchar("@ + eval_text(nodes@, *v as int) + ");"@;
                    let restgo = dfgc_go(
                        sts.skip(j as int + 1),
                        nodes@,
                        ind,
                        mem_view(memoffs@),
                        tmp_counter as int,
                    );
                    assert(dfgc_go(
                        sts.skip(j as int),
                        nodes@,
                        ind,
                        mem_view(memoffs@),
                        tmp_counter as int,
                    ) == line_of(ind, lx) + restgo);
                    assert(formatter.code@ =~= pre + line_of(ind, lx));
                    assert((pre + line_of(ind, lx)) + restgo =~= pre + (line_of(ind, lx)
                        + restgo));
                    assert(formatter.code@ + dfgc_go(
                        sts.skip(j as int + 1),
                        nodes@,
                        ind,
                        mem_view(memoffs@),
                        tmp_counter as int,
                    ) == pre + dfgc_go(
                        sts.skip(j as int),
                        nodes@,
                        ind,
                        mem_view(memoffs@),
                        tmp_counter as int,
                    ));
                }
            },
            DfInstr::Loop(at, blk) => {
                let ghost mempre = mem_view(memoffs@);
                flush_mem(&mut memoffs, formatter);
                formatter.add_line("while(mem[OFF(0)]) {");
                formatter.indent();
                generate_dfg(&blk.cfg, &blk.nodes, formatter);
                formatter.unindent();
                proof {
                    assert((ind + indent_step()).len() >= 4);
                    assert((ind + indent_step()).take((ind + indent_step()).len() - 4) =~= ind);
                }
                formatter.add_line("}");
                proof {
                    assert(mem_view(memoffs@) =~= Seq::<(int, int)>::empty());
                    let inner = dfgc_go(
                        stmts_of(blk.cfg@),
                        blk.nodes@,
                        ind + indent_step(),
                        Seq::empty(),
                        0,
                    );
                    let restgo = dfgc_go(
                        sts.skip(j as int + 1),
                        nodes@,
                        ind,
                        Seq::empty(),
                        tmp_counter as int,
                    );
                    assert(dfgc_go(
                        sts.skip(j as int),
                        nodes@,
                        ind,
                        mempre,
                        tmp_counter as int,
                    ) == flush_lines(mempre, ind) + line_of(ind, "while(mem[OFF(0)]) {"@) + inner
                        + line_of(ind, "}"@) + restgo);
                    assert(formatter.code@ =~= ((pre + flush_lines(mempre, ind)) + line_of(
                        ind,
                        "while(mem[OFF(0)]) {"@,
                    ) + inner) + line_of(ind, "}"@));
                    assert(formatter.code@ + restgo =~= pre + (flush_lines(mempre, ind) + line_of(
                        ind,
                        "while(mem[OFF(0)]) {"@,
                    ) + inner + line_of(ind, "}"@) + restgo));
                    assert(formatter.code@ + dfgc_go(
                        sts.skip(j as int + 1),
                        nodes@,
                        ind,
                        mem_view(memoffs@),
                        tmp_counter as int,
                    ) == pre + dfgc_go(
                        sts.skip(j as int),
                        nodes@,
                        ind,
                        mempre,
                        tmp_counter as int,
                    ));
                }
            },
        }
        j += 1;
    }
    proof {
        assert(sts.skip(cfg@.len() as int) =~= Seq::<DfStmt>::empty());
    }
    flush_mem(&mut memoffs, formatter);
    proof {
        assert(code0 + dfgc_go(sts, nodes@, ind, Seq::empty(), 0) =~= formatter.code@);
    }
}

/// View of the deferred-write bookkeeping.
pub open spec fn mem_view(s: Seq<(i64, u64)>) -> Seq<(int, int)> {
    s.map_values(|p: (i64, u64)| (p.0 as int, p.1 as int))
}

/// Commits every deferred write to its tape cell and clears the
/// bookkeeping.
fn flush_mem(memoffs: &mut Vec<(i64, u64)>, formatter: &mut Formatter)
    ensures
        final(formatter).code@ == old(formatter).code@ + flush_lines(
            mem_view(old(memoffs)@),
            old(formatter).indent@,
        ),
        final(formatter).indent@ == old(formatter).indent@,
        final(memoffs)@.len() == 0,
{
    let ghost mems = mem_view(memoffs@);
    let ghost code0 = formatter.code@;
    let ghost ind = formatter.indent@;
    let mut t: usize = 0;
    proof {
        assert(mems.skip(0) =~= mems);
    }
    while t < memoffs.len()
        invariant
            t <= memoffs@.len(),
            mems == mem_view(memoffs@),
            mems.len() == memoffs@.len(),
            code0 == old(formatter).code@,
            ind == old(formatter).indent@,
            formatter.indent@ == ind,
            formatter.code@ + flush_lines(mems.skip(t as int), ind) == code0 + flush_lines(
                mems,
                ind,
            ),
        decreases memoffs@.len() - t,
    {
        let (off, tmp) = memoffs[t];
        proof {
            assert(mems.skip(t as int)[0] == (off as int, tmp as int));
            assert(mems.skip(t as int).drop_first() =~= mems.skip(t as int + 1));
        }
        let ghost pre = formatter.code@;
        proof {
            reveal_strlit("mem[OFF(");
            reveal_strlit(")] = tmp_");
            reveal_strlit(";");
        }
        let mut line = crate::numtext::s_num("mem[OFF(", off, ")] = tmp_");
        let num = crate::numtext::u64_to_string(tmp);
        line.append(num.as_str());
        line.append(";");
        formatter.add_line(line.as_str());
        proof {
            assert(formatter.code@ + flush_lines(mems.skip(t as int + 1), ind) =~= pre
                + flush_lines(mems.skip(t as int), ind));
        }
        t += 1;
    }
    proof {
        assert(mems.skip(memoffs@.len() as int) =~= Seq::<(int, int)>::empty());
        assert(formatter.code@ + Seq::<char>::empty() =~= formatter.code@);
        assert(code0 + flush_lines(mems, ind) =~= formatter.code@);
    }
    memoffs.clear();
}

proof fn lemma_stmts_len(s: Seq<DfInstr>)
    ensures
        stmts_of(s).len() == s.len(),
    decreases s,
{
    if s.len() > 0 {
        lemma_stmts_len(s.drop_first());
    }
}

proof fn lemma_stmts_index(s: Seq<DfInstr>, i: int)
    requires
        0 <= i < s.len(),
    ensures
        stmts_of(s)[i] == crate::dfg::stmt_of(s[i]),
    decreases s,
{
    lemma_stmts_len(s);
    if i > 0 {
        lemma_stmts_index(s.drop_first(), i - 1);
    }
}

proof fn lemma_stmts_size_index(s: Seq<DfStmt>, i: int)
    requires
        0 <= i < s.len(),
    ensures
        stmt_size(s[i]) < stmts_size(s),
    decreases s,
{
    if i > 0 {
        lemma_stmts_size_index(s.drop_first(), i - 1);
    }
}

} // verus!
