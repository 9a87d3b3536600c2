use zombie::compile::{compile_program, CodeGenerator};
use zombie::ir::Instruction;
use zombie::options::Options;
use zombie::parser::parse;

#[test]
fn add_encodes_to_known_bytes() {
    let prog = vec![Instruction::Add { offset: 3, value: 5 }];
    let opts = Options::default();
    let code = compile_program(&prog, &opts, 0, 0).expect("emission fits");
    assert_eq!(
        code,
        vec![
            0x48, 0x31, 0xF6, // xor rsi, rsi
            0x80, 0x87, 0x03, 0x00, 0x00, 0x00, 0x05, // add BYTE [rdi + 3], 5
            0xC3, // ret
        ]
    );
}

#[test]
fn negative_immediates_truncate_to_their_byte() {
    let prog = vec![Instruction::Add { offset: -1, value: -2 }];
    let opts = Options::default();
    let code = compile_program(&prog, &opts, 0, 0).expect("emission fits");
    assert_eq!(
        code,
        vec![0x48, 0x31, 0xF6, 0x80, 0x87, 0xFF, 0xFF, 0xFF, 0xFF, 0xFE, 0xC3]
    );
}

#[test]
fn loop_encodes_matching_jumps() {
    let prog = parse("[+]").expect("parses");
    let opts = Options::default();
    let code = compile_program(&prog, &opts, 0, 0).expect("emission fits");
    assert_eq!(
        code,
        vec![
            0x48, 0x31, 0xF6, // xor rsi, rsi
            0x80, 0xBF, 0x00, 0x00, 0x00, 0x00, 0x00, // cmp BYTE [rdi], 0
            0x0F, 0x84, 0x14, 0x00, 0x00, 0x00, // jz +20 (over body and the back test)
            0x80, 0x87, 0x00, 0x00, 0x00, 0x00, 0x01, // add BYTE [rdi], 1
            0x80, 0xBF, 0x00, 0x00, 0x00, 0x00, 0x00, // cmp BYTE [rdi], 0
            0x0F, 0x85, 0xEC, 0xFF, 0xFF, 0xFF, // jnz -20 (back to the body)
            0xC3, // ret
        ]
    );
}

#[test]
fn thunk_addresses_are_embedded() {
    let prog = vec![Instruction::Read(0)];
    let opts = Options::default();
    let code = compile_program(&prog, &opts, 0x0102030405060708, 0).expect("emission fits");
    // the address appears little endian after the mov-rax opcode
    let needle = [0x48u8, 0xB8, 0x08, 0x07, 0x06, 0x05, 0x04, 0x03, 0x02, 0x01];
    let found = code.windows(needle.len()).any(|w| w == needle);
    assert!(found);
}

#[test]
fn generator_prologue_and_epilogue() {
    let opts = Options::default();
    let mut cg = CodeGenerator::create(&opts, 7, 9);
    cg.initialize();
    cg.finalize();
    assert_eq!(cg.buffer, vec![0x48, 0x31, 0xF6, 0xC3]);
    assert_eq!(cg.read_addr, 7);
    assert_eq!(cg.write_addr, 9);
}

#[test]
fn linear_loop_encodes_multiplier_and_store() {
    let prog = vec![Instruction::LinearLoop {
        offset: 0,
        factors: vec![(0, -1), (1, 2)],
    }];
    let opts = Options::default();
    let code = compile_program(&prog, &opts, 0, 0).expect("emission fits");
    assert_eq!(
        code,
        vec![
            0x48, 0x31, 0xF6, // xor rsi, rsi
            0x0F, 0xB6, 0x8F, 0x00, 0x00, 0x00, 0x00, // movzx ecx, BYTE [rdi]
            0xB0, 0x02, // mov al, 2
            0xF6, 0xE1, // mul cl
            0x00, 0x87, 0x01, 0x00, 0x00, 0x00, // add BYTE [rdi + 1], al
            0xC6, 0x87, 0x00, 0x00, 0x00, 0x00, 0x00, // mov BYTE [rdi], 0
            0xC3, // ret
        ]
    );
}
