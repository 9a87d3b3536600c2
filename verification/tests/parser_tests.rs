use zombie::parser::parse;

#[test]
fn unmatched_close_is_reported() {
    match parse("+]") {
        Err(msg) => assert_eq!(msg, "found ']' without matching '['"),
        Ok(_) => panic!("a stray close bracket must be refused"),
    }
}

#[test]
fn unmatched_open_is_reported() {
    match parse("[+") {
        Err(msg) => assert_eq!(msg, "found '[' without matching ']'"),
        Ok(_) => panic!("a stray open bracket must be refused"),
    }
}

#[test]
fn empty_program_parses_empty() {
    let instrs = parse("").expect("empty text parses");
    assert_eq!(instrs.len(), 0);
}

#[test]
fn comments_are_ignored() {
    let a = parse("+.").expect("parses");
    let b = parse("hello + world .").expect("parses");
    assert_eq!(
        zombie::trans_zombie_ir::transpile(&a),
        zombie::trans_zombie_ir::transpile(&b)
    );
}

#[test]
fn adjacent_adds_fuse() {
    // three pluses fuse into one addition; the write flushes them
    let instrs = parse("+++.").expect("parses");
    assert_eq!(instrs.len(), 2);
    assert_eq!(instrs[0].to_string(), "Add(@0, 3)");
    assert_eq!(instrs[1].to_string(), "Read(@0)");
}

#[test]
fn moves_fuse_into_one() {
    // pointer movement fuses and lands after the additions, in offset order
    let instrs = parse("+>+>.").expect("parses");
    assert_eq!(instrs.len(), 4);
    assert_eq!(instrs[0].to_string(), "Inc");
    assert_eq!(instrs[1].to_string(), "Add(@1, 1)");
    assert_eq!(instrs[2].to_string(), "MovePtr(2)");
    assert_eq!(instrs[3].to_string(), "Read(@0)");
}

#[test]
fn trailing_accumulation_is_dropped() {
    // additions and movement with nothing after them emit no instruction
    let instrs = parse("+++>><").expect("parses");
    assert_eq!(instrs.len(), 0);
}

#[test]
fn plus_minus_cancel_to_zero_add() {
    // a plus and a minus at one cell leave a zero-valued addition
    let instrs = parse("+-.").expect("parses");
    assert_eq!(instrs.len(), 2);
    assert_eq!(instrs[0].to_string(), "Add(@0, 0)");
}

#[test]
fn loops_nest() {
    let instrs = parse("[[.]]").expect("parses");
    assert_eq!(instrs.len(), 1);
    let dump = zombie::trans_zombie_ir::transpile(&instrs);
    assert_eq!(dump, "Loop {\n    Loop {\n        Write(@0)\n    }\n}\n");
}
