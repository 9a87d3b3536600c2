use zombie::ir::Instruction;
use zombie::numtext::{i64_to_string, parse_u64, parse_usize, u64_to_string};
use zombie::options::{CellLayout, CellSize, Options};
use zombie::trans_util::hex_bitmask;

#[test]
fn numerals_render() {
    assert_eq!(u64_to_string(0), "0");
    assert_eq!(u64_to_string(7), "7");
    assert_eq!(u64_to_string(1234567890123456789), "1234567890123456789");
    assert_eq!(u64_to_string(u64::MAX), "18446744073709551615");
    assert_eq!(i64_to_string(-1), "-1");
    assert_eq!(i64_to_string(-9001), "-9001");
    assert_eq!(i64_to_string(i64::MIN), "-9223372036854775808");
    assert_eq!(i64_to_string(42), "42");
}

#[test]
fn numerals_parse() {
    assert_eq!(parse_u64("123"), Some(123));
    assert_eq!(parse_u64("+8"), Some(8));
    assert_eq!(parse_u64("0"), Some(0));
    assert_eq!(parse_u64(""), None);
    assert_eq!(parse_u64("+"), None);
    assert_eq!(parse_u64("12a"), None);
    assert_eq!(parse_u64("-3"), None);
    assert_eq!(parse_u64("18446744073709551615"), Some(u64::MAX));
    assert_eq!(parse_u64("18446744073709551616"), None);
    assert_eq!(parse_usize("65536"), Some(65536));
}

#[test]
fn instruction_dump_text() {
    assert_eq!(Instruction::Nop.to_string(), "Nop");
    assert_eq!(Instruction::Add { offset: 0, value: 1 }.to_string(), "Inc");
    assert_eq!(Instruction::Add { offset: 0, value: -1 }.to_string(), "Dec");
    assert_eq!(
        Instruction::Add { offset: 2, value: -3 }.to_string(),
        "Add(@2, -3)"
    );
    assert_eq!(
        Instruction::Store { offset: 1, value: 9 }.to_string(),
        "Set(@1, 9)"
    );
    assert_eq!(Instruction::MovePtr(-4).to_string(), "MovePtr(-4)");
    assert_eq!(
        Instruction::LinearLoop {
            offset: 0,
            factors: vec![(0, -1)]
        }
        .to_string(),
        "LinearLoop"
    );
    assert_eq!(Instruction::Read(2).to_string(), "Read(@2)");
    // the dump format tags a write with the same word as a read
    assert_eq!(Instruction::Write(2).to_string(), "Read(@2)");
    let looped = Instruction::Loop(vec![Instruction::Nop, Instruction::MovePtr(1)]);
    assert_eq!(looped.to_string(), "[\nNop\nMovePtr(1)\n]\n");
}

#[test]
fn cell_size_reads_option_text() {
    match CellSize::from_str("16") {
        Ok(CellSize::Bits(16)) => {}
        _ => panic!("a numeral names a bit width"),
    }
    match CellSize::from_str("+8") {
        Ok(CellSize::Bits(8)) => {}
        _ => panic!("a signed numeral still names a bit width"),
    }
    match CellSize::from_str("int") {
        Ok(CellSize::Int) => {}
        _ => panic!("the word names the integer cell"),
    }
    match CellSize::from_str("junk") {
        Err(msg) => assert_eq!(msg, "invalid cell size"),
        _ => panic!("other text is refused"),
    }
}

#[test]
fn cell_layout_reads_option_text() {
    match CellLayout::from_str("trusting") {
        Ok(CellLayout::Trusting) => {}
        _ => panic!("trusting names itself"),
    }
    match CellLayout::from_str("wrapping") {
        Ok(CellLayout::Wrapping) => {}
        _ => panic!("wrapping names itself"),
    }
    match CellLayout::from_str("unbounded") {
        Err(msg) => assert_eq!(msg, "invalid cell layout"),
        _ => panic!("only the two spellings are read"),
    }
}

#[test]
fn default_options() {
    let opts = Options::default();
    assert!(opts.cell_layout == CellLayout::Trusting);
    assert_eq!(opts.memory_size, 0x10000);
    assert!(opts.cell_size == CellSize::Bits(8));
}

#[test]
fn bitmask_digits() {
    assert_eq!(hex_bitmask(16), "FFFF");
    assert_eq!(hex_bitmask(8), "FF");
    assert_eq!(hex_bitmask(7), "7F");
    assert_eq!(hex_bitmask(6), "3F");
    assert_eq!(hex_bitmask(5), "1F");
    assert_eq!(hex_bitmask(1), "1");
    assert_eq!(hex_bitmask(0), "");
}

#[test]
fn formatter_builds_indented_lines() {
    let mut f = zombie::formatter::Formatter::new();
    f.add_line("a {");
    f.indent();
    f.add_line("b");
    f.indent();
    f.add_line("c");
    f.unindent();
    f.unindent();
    f.unindent();
    f.add_line("}");
    assert_eq!(f.get_code(), "a {\n    b\n        c\n}\n");
}
