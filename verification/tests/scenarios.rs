use zombie::interpret::{run, RunOutcome};
use zombie::optimize::LinOptimizer;
use zombie::options::Options;
use zombie::parser::parse;

fn run_source(src: &str, input: &[u8]) -> Vec<u8> {
    let instrs = parse(src).expect("program parses");
    let mut opt = LinOptimizer::new();
    opt.visit_instructions(&instrs);
    let opts = Options::default();
    match run(&opt.instructions, &opts, &input.to_vec(), 1_000_000) {
        RunOutcome::Finished(out) => out,
        RunOutcome::OutOfFuel => panic!("program did not finish within the step bound"),
        RunOutcome::Unsupported => panic!("default options must be supported"),
    }
}

#[test]
fn scenario_letter() {
    let out = run_source("++++++++[>++++++++<-]>+.", b"");
    assert_eq!(out, b"A".to_vec());
}

#[test]
fn scenario_echo_one() {
    let out = run_source(">,.", b"x");
    assert_eq!(out, b"x".to_vec());
}

#[test]
fn scenario_nested_fifty() {
    let out = run_source("+++++[>+++++[>++<-]<-]>>.", b"");
    assert_eq!(out, b"2".to_vec());
}

#[test]
fn scenario_walker_no_output() {
    // the walking loop never writes; whether or not the step bound is
    // reached, no output may appear
    let instrs = parse("+[->+]").expect("program parses");
    let mut opt = LinOptimizer::new();
    opt.visit_instructions(&instrs);
    let opts = Options::default();
    match run(&opt.instructions, &opts, &Vec::new(), 500_000) {
        RunOutcome::Finished(out) => assert_eq!(out, Vec::<u8>::new()),
        RunOutcome::OutOfFuel => {}
        RunOutcome::Unsupported => panic!("default options must be supported"),
    }
}

#[test]
fn scenario_copy_chain() {
    // the loop moves the counter into both neighbours; the second neighbour
    // gains one per iteration, so the cell printed by `>>.` holds two
    let out = run_source("++>+++<[->+>+<<]>>.", b"");
    assert_eq!(out, vec![2u8]);
    // the doubled sum of five lands one cell earlier
    let out2 = run_source("++>+++<[->+>+<<]>.", b"");
    assert_eq!(out2, vec![5u8]);
}

#[test]
fn scenario_cat() {
    let out = run_source(",[.,]", b"hi\n");
    assert_eq!(out, b"hi\n".to_vec());
}

#[test]
fn unoptimized_and_optimized_agree() {
    // the same program, run with and without the linearization pass
    let src = "++++++++[>++++++++<-]>+.";
    let instrs = parse(src).expect("program parses");
    let opts = Options::default();
    let raw = match run(&instrs, &opts, &Vec::new(), 1_000_000) {
        RunOutcome::Finished(out) => out,
        _ => panic!("raw program must finish"),
    };
    let cooked = run_source(src, b"");
    assert_eq!(raw, cooked);
}

#[test]
fn end_of_input_reads_zero() {
    // `,` at end of input stores zero, so the loop never runs
    let out = run_source(",[.,]", b"");
    assert_eq!(out, Vec::<u8>::new());
}

#[test]
fn out_of_fuel_is_reported() {
    let instrs = parse("+[]").expect("program parses");
    let opts = Options::default();
    match run(&instrs, &opts, &Vec::new(), 1000) {
        RunOutcome::OutOfFuel => {}
        _ => panic!("an empty loop over a set cell must exhaust the step bound"),
    }
}

#[test]
fn modular_cells_wrap_by_modulus() {
    // over modulus ten, adding twelve leaves two
    let instrs = parse("++++++++++++.").expect("program parses");
    let mut opts = Options::default();
    opts.cell_size = zombie::options::CellSize::Modular(10);
    match run(&instrs, &opts, &Vec::new(), 1000) {
        RunOutcome::Finished(out) => assert_eq!(out, vec![2u8]),
        _ => panic!("straight-line program must finish"),
    }
}

#[test]
fn unsupported_options_are_reported() {
    let instrs = parse("+.").expect("program parses");
    let mut opts = Options::default();
    opts.cell_size = zombie::options::CellSize::Modular(0);
    match run(&instrs, &opts, &Vec::new(), 1000) {
        RunOutcome::Unsupported => {}
        _ => panic!("a zero modulus has no cells"),
    }
    let mut opts2 = Options::default();
    opts2.memory_size = 0;
    match run(&instrs, &opts2, &Vec::new(), 1000) {
        RunOutcome::Unsupported => {}
        _ => panic!("an empty tape has no cells"),
    }
}

#[test]
fn wide_cells_hold_larger_values() {
    // three hundred increments exceed a byte but fit a sixteen-bit cell;
    // the written byte is the low eight bits
    let src: String = std::iter::repeat('+').take(300).chain(".".chars()).collect();
    let instrs = parse(&src).expect("program parses");
    let mut opts = Options::default();
    opts.cell_size = zombie::options::CellSize::Bits(16);
    match run(&instrs, &opts, &Vec::new(), 1000) {
        RunOutcome::Finished(out) => assert_eq!(out, vec![44u8]),
        _ => panic!("straight-line program must finish"),
    }
    let mut opts8 = Options::default();
    opts8.cell_size = zombie::options::CellSize::Bits(8);
    match run(&instrs, &opts8, &Vec::new(), 1000) {
        RunOutcome::Finished(out) => assert_eq!(out, vec![44u8]),
        _ => panic!("straight-line program must finish"),
    }
    let mut optsi = Options::default();
    optsi.cell_size = zombie::options::CellSize::Int;
    match run(&instrs, &optsi, &Vec::new(), 1000) {
        RunOutcome::Finished(out) => assert_eq!(out, vec![44u8]),
        _ => panic!("straight-line program must finish"),
    }
}
