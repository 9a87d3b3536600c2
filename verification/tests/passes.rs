use zombie::compile::compile_program;
use zombie::interpret::{run, RunOutcome};
use zombie::optimize::LinOptimizer;
use zombie::options::Options;
use zombie::parser::parse;

fn optimize_once(instrs: &Vec<zombie::ir::Instruction>) -> Vec<zombie::ir::Instruction> {
    let mut opt = LinOptimizer::new();
    opt.visit_instructions(instrs);
    opt.instructions
}

#[test]
fn pass_is_idempotent_on_examples() {
    // a second run of the pass changes nothing, checked on programs with a
    // linearizable loop, a kept loop, and pointer movement
    for src in [
        "+++++[->++<]>.",
        ">>[>+.<-]<+[-]+++.",
        "+[->+]",
        "++>+++<[->+>+<<]>>.",
        "[,][.]>>><<<.",
    ] {
        let instrs = parse(src).expect("program parses");
        let once = optimize_once(&instrs);
        let twice = optimize_once(&once);
        let dump_once = zombie::trans_zombie_ir::transpile(&once);
        let dump_twice = zombie::trans_zombie_ir::transpile(&twice);
        assert_eq!(dump_once, dump_twice);
        assert_eq!(once.len(), twice.len());
    }
}

#[test]
fn linearized_loop_preserves_behavior() {
    // the decrementing copy loop and its linearized form print the same
    let src = "+++++[->++<]>.";
    let instrs = parse(src).expect("program parses");
    let opts = Options::default();
    let raw = match run(&instrs, &opts, &Vec::new(), 1_000_000) {
        RunOutcome::Finished(out) => out,
        _ => panic!("raw program must finish"),
    };
    let cooked = optimize_once(&instrs);
    let fast = match run(&cooked, &opts, &Vec::new(), 1_000_000) {
        RunOutcome::Finished(out) => out,
        _ => panic!("optimized program must finish"),
    };
    assert_eq!(raw, fast);
    assert_eq!(raw, vec![10u8]);
}

#[test]
fn degenerate_loop_becomes_clear() {
    // `[-]` clears the cell whatever it holds
    let src = "+++++[-].";
    let instrs = parse(src).expect("program parses");
    let cooked = optimize_once(&instrs);
    let opts = Options::default();
    match run(&cooked, &opts, &Vec::new(), 1000) {
        RunOutcome::Finished(out) => assert_eq!(out, vec![0u8]),
        _ => panic!("cleared program must finish"),
    }
    // the loop is gone: the dump holds a store, not a loop
    let dump = zombie::trans_zombie_ir::transpile(&cooked);
    assert!(!dump.contains("Loop"));
}

#[test]
fn emission_is_deterministic() {
    // the same program and options give byte-identical code and text twice
    let src = "++[>+<-]>,.";
    let instrs = parse(src).expect("program parses");
    let cooked = optimize_once(&instrs);
    let opts = Options::default();
    let a = compile_program(&cooked, &opts, 0x1122, 0x3344).expect("emission fits");
    let b = compile_program(&cooked, &opts, 0x1122, 0x3344).expect("emission fits");
    assert_eq!(a, b);
    assert_eq!(
        zombie::trans_c::transpile(&cooked),
        zombie::trans_c::transpile(&cooked)
    );
    assert_eq!(
        zombie::trans_java::transpile(&opts, &cooked),
        zombie::trans_java::transpile(&opts, &cooked)
    );
    assert_eq!(
        zombie::trans_python::transpile(&opts, &cooked),
        zombie::trans_python::transpile(&opts, &cooked)
    );
}

#[test]
fn emission_refuses_wide_offsets() {
    // an offset beyond the 32-bit displacement field is refused
    let wide = vec![zombie::ir::Instruction::Add {
        offset: 0x1_0000_0000,
        value: 1,
    }];
    let opts = Options::default();
    assert!(compile_program(&wide, &opts, 0, 0).is_none());
    let narrow = vec![zombie::ir::Instruction::Add { offset: 3, value: 5 }];
    assert!(compile_program(&narrow, &opts, 0, 0).is_some());
}
