use zombie::dfg::DfgOptimizer;
use zombie::ir::Instruction;
use zombie::options::{CellSize, Options};
use zombie::parser::parse;

const C_HEADER: &str = "#include <stdio.h>\n#include <stdlib.h>\n#include <string.h>\n#include <inttypes.h>\n\n#define OFF(X) ((uint16_t)(ptr + (uint16_t) (X)))\n\nstatic int read_byte(void) {\n    int c = getchar();\n    return c == -1 ? 0 : c;\n}\n\nint main() {\n    uint8_t* mem = (uint8_t*) malloc(0x10000 * sizeof(uint8_t));\n    memset(mem, 0, 0x10000 * sizeof(uint8_t));\n    uint16_t ptr = 0;\n";

#[test]
fn java_text_of_small_program() {
    let prog = parse("+.").expect("parses");
    let opts = Options::default();
    let text = zombie::trans_java::transpile(&opts, &prog);
    let expected = "class Brainfuck {\n    static int readByte() {\n        try {\n            int c = System.in.read();\n            return c < 0 ? 0 : c;\n        } catch (java.io.IOException e) {\n            return 0;\n        }\n    }\n    public static void main(String[] args) {\n        byte[] mem = new byte[0x10000];\n        int ptr = 0;\n        \n        mem[(ptr + 0) & 0xFFFF] += 1;\n        System.out.write(mem[(ptr + 0) & 0xFFFF]);\n        System.out.flush();\n    }\n}\n";
    assert_eq!(text, expected);
}

#[test]
fn java_cell_type_follows_options() {
    let prog = parse("").expect("parses");
    let mut opts = Options::default();
    opts.cell_size = CellSize::Bits(16);
    let text = zombie::trans_java::transpile(&opts, &prog);
    assert!(text.contains("short[] mem = new short[0x10000];"));
    opts.cell_size = CellSize::Int;
    let text2 = zombie::trans_java::transpile(&opts, &prog);
    assert!(text2.contains("long[] mem = new long[0x10000];"));
}

#[test]
fn python_text_of_small_program() {
    let prog = parse("+.").expect("parses");
    let opts = Options::default();
    let text = zombie::trans_python::transpile(&opts, &prog);
    let expected = "import sys\nmem = [0] * 0x10000\nptr = 0\nmem[(ptr + 0) & 0xFFFF] = (mem[(ptr + 0) & 0xFFFF] + 1) & 0xFF\nsys.stdout.buffer.write(mem[(ptr + 0) & 0xFFFF].to_bytes(1, 'little'))\nsys.stdout.buffer.flush()\n";
    assert_eq!(text, expected);
}

#[test]
fn python_mask_follows_options() {
    let prog = parse("+.").expect("parses");
    let mut opts = Options::default();
    opts.cell_size = CellSize::Modular(10);
    let text = zombie::trans_python::transpile(&opts, &prog);
    assert!(text.contains(") & 10\n"));
    opts.cell_size = CellSize::Int;
    let text2 = zombie::trans_python::transpile(&opts, &prog);
    assert!(text2.contains(") & -1\n"));
}

#[test]
fn c_text_of_small_program() {
    let prog = parse("+.").expect("parses");
    let text = zombie::trans_c::transpile(&prog);
    let expected = format!(
        "{}    mem[OFF(0)] += 1;\n    putchar(mem[OFF(0)]);\n    free(mem);\n}}\n",
        C_HEADER
    );
    assert_eq!(text, expected);
}

#[test]
fn c_scan_loop_becomes_strlen() {
    let prog = parse("[>]").expect("parses");
    let text = zombie::trans_c::transpile(&prog);
    let expected = format!("{}    ptr = OFF(strlen(&mem[ptr]));\n    free(mem);\n}}\n", C_HEADER);
    assert_eq!(text, expected);
}

#[test]
fn pointer_bump_c_text() {
    let prog = parse("+.").expect("parses");
    let text = zombie::transpile_c::transpile_c(&prog);
    let expected = "#include <stdio.h>\n#include <stdlib.h>\n\nstatic int read_byte(void) {\n    int c = getchar();\n    return c == -1 ? 0 : c;\n}\n\nint main() {\n    unsigned char* restrict buffer = (unsigned char*) calloc(2000000000, 1);\n    buffer += 1000000000;\n    buffer[0] += 1;\n    putchar(buffer[0]);\n}\n";
    assert_eq!(text, expected);
}

#[test]
fn zombie_dump_of_linear_loop() {
    let prog = parse("+[->+<].").expect("parses");
    let mut opt = zombie::optimize::LinOptimizer::new();
    opt.visit_instructions(&prog);
    let dump = zombie::trans_zombie_ir::transpile(&opt.instructions);
    let expected = "@0 += 1\n@0 = -1 * @0\n@1 = 1 * @0\n@0 = 0 // End LL\nWrite(@0)\n";
    assert_eq!(dump, expected);
}

const DFG_HEADER: &str = "#include <stdio.h>\n#include <stdlib.h>\n#include <string.h>\n#include <inttypes.h>\n\n#define OFF(X) ((uint16_t)(ptr + (uint16_t) (X)))\n\nstatic int read_byte(void) {\n    int c = getchar();\n    return c == -1 ? 0 : c;\n}\n\nint main() {\n    uint8_t* mem = (uint8_t*) calloc(0x10000, 1);\n    uint16_t ptr = 0;\n";

#[test]
fn dfg_emits_expression_tree() {
    // two additions fold into one expression; the deferred write is
    // committed through a temporary when the block is closed
    let prog = parse("++.").expect("parses");
    let mut dfg = DfgOptimizer::new();
    dfg.visit_instructions(&prog);
    dfg.finalize();
    let text = zombie::trans_c::transpile_dfg(&dfg);
    let expected = format!(
        "{}    putchar(mem[OFF(0)] + 2);\n    uint8_t tmp_0 = mem[OFF(0)] + 2;\n    mem[OFF(0)] = tmp_0;\n}}\n",
        DFG_HEADER
    );
    assert_eq!(text, expected);
}

#[test]
fn dfg_read_feeds_print() {
    let prog = parse(",.").expect("parses");
    let mut dfg = DfgOptimizer::new();
    dfg.visit_instructions(&prog);
    dfg.finalize();
    let text = zombie::trans_c::transpile_dfg(&dfg);
    assert!(text.contains("putchar(read_byte());"));
}

#[test]
fn dfg_linear_loop_sums_into_destination() {
    // a stored constant at the destination survives: the multiply-add is
    // summed in, not bound over it
    let prog = vec![
        Instruction::Store { offset: 1, value: 7 },
        Instruction::LinearLoop { offset: 0, factors: vec![(1, 2)] },
        Instruction::Write(1),
    ];
    let mut dfg = DfgOptimizer::new();
    dfg.visit_instructions(&prog);
    dfg.finalize();
    let text = zombie::trans_c::transpile_dfg(&dfg);
    assert!(text.contains("putchar(7 + (mem[OFF(0)]) * (2));"));
}

#[test]
fn dfg_commits_writes_before_loops() {
    // pending writes land on the tape before a nested loop runs
    let prog = parse("+[-]").expect("parses");
    let mut dfg = DfgOptimizer::new();
    dfg.visit_instructions(&prog);
    dfg.finalize();
    let text = zombie::trans_c::transpile_dfg(&dfg);
    let tmp_pos = text.find("mem[OFF(0)] = tmp_0;").expect("committed write");
    let loop_pos = text.find("while(mem[OFF(0)])").expect("loop");
    assert!(tmp_pos < loop_pos);
}
