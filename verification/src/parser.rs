use vstd::prelude::*;
use crate::ir::{
    group_ir_lemmas, ir_of, irs_of, map_bump, pairs_of, Instruction, Ir,
};
use crate::wrap_i64;

verus! {

broadcast use group_ir_lemmas;

/// The parser's running state: the pending pointer excursion, the pending
/// per-offset additions, the stack of enclosing instruction sequences opened
/// by `[`, and the sequence being built.
pub struct ParseSt {
    pub ptr: int,
    pub adds: Seq<(int, int)>,
    pub stack: Seq<Seq<Ir>>,
    pub cur: Seq<Ir>,
}

/// The parser's starting state.
pub open spec fn parse_init() -> ParseSt {
    ParseSt { ptr: 0, adds: Seq::empty(), stack: Seq::empty(), cur: Seq::empty() }
}

/// The `Add` instructions that flushing the pending additions emits, in
/// key order.
pub open spec fn adds_emitted(s: Seq<(int, int)>) -> Seq<Ir>
    decreases s,
{
    if s.len() == 0 {
        Seq::empty()
    } else {
        seq![Ir::Add { offset: s[0].0, value: s[0].1 }] + adds_emitted(s.drop_first())
    }
}

pub broadcast proof fn lemma_adds_emitted_push(s: Seq<(int, int)>, p: (int, int))
    ensures
        #[trigger] adds_emitted(s.push(p)) == adds_emitted(s).push(
            Ir::Add { offset: p.0, value: p.1 },
        ),
    decreases s,
{
    if s.len() == 0 {
        assert(s.push(p).len() == 1);
        assert(s.push(p)[0] == p);
        assert(s.push(p).drop_first() =~= Seq::<(int, int)>::empty());
        assert(adds_emitted(s.push(p)) == seq![Ir::Add { offset: p.0, value: p.1 }] + adds_emitted(
            Seq::<(int, int)>::empty(),
        ));
        assert(adds_emitted(s.push(p)) =~= adds_emitted(s).push(
            Ir::Add { offset: p.0, value: p.1 },
        ));
    } else {
        assert(s.push(p)[0] == s[0]);
        assert(s.push(p).drop_first() =~= s.drop_first().push(p));
        lemma_adds_emitted_push(s.drop_first(), p);
        assert(adds_emitted(s.push(p)) =~= adds_emitted(s).push(
            Ir::Add { offset: p.0, value: p.1 },
        ));
    }
}

pub broadcast proof fn lemma_adds_emitted_len(s: Seq<(int, int)>)
    ensures
        #[trigger] adds_emitted(s).len() == s.len(),
    decreases s,
{
    if s.len() > 0 {
        lemma_adds_emitted_len(s.drop_first());
    }
}

/// A flush: emit the pending additions in key order, then the pending
/// pointer movement if it is not zero, and reset both.
pub open spec fn flushed(st: ParseSt) -> ParseSt {
    let moved: Seq<Ir> = if st.ptr != 0 {
        seq![Ir::MovePtr(st.ptr)]
    } else {
        Seq::empty()
    };
    ParseSt {
        ptr: 0,
        adds: Seq::empty(),
        stack: st.stack,
        cur: st.cur + adds_emitted(st.adds) + moved,
    }
}

/// One source character: `+ - < >` accumulate, `. , [ ]` flush and build;
/// every other character is a comment.  `None` reports a `]` without a
/// matching `[`.
pub open spec fn parse_step(st: ParseSt, c: char) -> Option<ParseSt> {
    if c == '+' {
        Option::Some(ParseSt { adds: map_bump(st.adds, st.ptr, 1), ..st })
    } else if c == '-' {
        Option::Some(ParseSt { adds: map_bump(st.adds, st.ptr, -1), ..st })
    } else if c == '>' {
        Option::Some(ParseSt { ptr: wrap_i64(st.ptr + 1), ..st })
    } else if c == '<' {
        Option::Some(ParseSt { ptr: wrap_i64(st.ptr - 1), ..st })
    } else if c == '.' {
        let f = flushed(st);
        Option::Some(ParseSt { cur: f.cur.push(Ir::Write(0)), ..f })
    } else if c == ',' {
        let f = flushed(st);
        Option::Some(ParseSt { cur: f.cur.push(Ir::Read(0)), ..f })
    } else if c == '[' {
        let f = flushed(st);
        Option::Some(ParseSt { stack: f.stack.push(f.cur), cur: Seq::empty(), ..f })
    } else if c == ']' {
        let f = flushed(st);
        if f.stack.len() == 0 {
            Option::None
        } else {
            Option::Some(
                ParseSt {
                    stack: f.stack.drop_last(),
                    cur: f.stack.last().push(Ir::Loop(f.cur)),
                    ..f
                },
            )
        }
    } else {
        Option::Some(st)
    }
}

/// Runs the parser over a character sequence from a starting state.
pub open spec fn parse_run(s: Seq<char>, st: ParseSt) -> Option<ParseSt>
    decreases s,
{
    if s.len() == 0 {
        Option::Some(st)
    } else {
        match parse_step(st, s[0]) {
            Option::Some(st1) => parse_run(s.drop_first(), st1),
            Option::None => Option::None,
        }
    }
}

pub broadcast proof fn lemma_parse_run_snoc(s: Seq<char>, st: ParseSt, c: char)
    ensures
        #[trigger] parse_run(s.push(c), st) == match parse_run(s, st) {
            Option::Some(st1) => parse_step(st1, c),
            Option::None => Option::None,
        },
    decreases s,
{
    if s.len() == 0 {
        assert(s.push(c).len() == 1);
        assert(s.push(c)[0] == c);
        assert(s.push(c).drop_first() =~= Seq::<char>::empty());
        assert(parse_run(s.push(c), st) == match parse_step(st, c) {
            Option::Some(st1) => parse_run(Seq::<char>::empty(), st1),
            Option::None => Option::None,
        });
        assert(parse_run(s, st) == Option::Some(st));
    } else {
        assert(s.push(c)[0] == s[0]);
        assert(s.push(c).drop_first() =~= s.drop_first().push(c));
        match parse_step(st, s[0]) {
            Option::Some(st1) => {
                lemma_parse_run_snoc(s.drop_first(), st1, c);
            },
            Option::None => {},
        }
    }
}

/// What parsing returns: the sequence on success, else which bracket is
/// unmatched.
pub enum ParseOutcome {
    Parsed(Seq<Ir>),
    UnmatchedClose,
    UnmatchedOpen,
}

/// The result of parsing a whole source text.  Additions and pointer
/// movement still pending at the end of the text are discarded; they could
/// never be observed.
pub open spec fn parse_result(s: Seq<char>) -> ParseOutcome {
    match parse_run(s, parse_init()) {
        Option::None => ParseOutcome::UnmatchedClose,
        Option::Some(st) => if st.stack.len() > 0 {
            ParseOutcome::UnmatchedOpen
        } else {
            ParseOutcome::Parsed(st.cur)
        },
    }
}

/// Deep view of a parse stack.
pub open spec fn stacks_of(s: Seq<Vec<Instruction>>) -> Seq<Seq<Ir>>
    decreases s,
{
    if s.len() == 0 {
        Seq::empty()
    } else {
        seq![irs_of(s[0]@)] + stacks_of(s.drop_first())
    }
}

pub broadcast proof fn lemma_stacks_of_len(s: Seq<Vec<Instruction>>)
    ensures
        #[trigger] stacks_of(s).len() == s.len(),
    decreases s,
{
    if s.len() > 0 {
        lemma_stacks_of_len(s.drop_first());
    }
}

pub broadcast proof fn lemma_stacks_of_push(s: Seq<Vec<Instruction>>, x: Vec<Instruction>)
    ensures
        #[trigger] stacks_of(s.push(x)) == stacks_of(s).push(irs_of(x@)),
    decreases s,
{
    if s.len() == 0 {
        assert(s.push(x).len() == 1);
        assert(s.push(x)[0] == x);
        assert(s.push(x).drop_first() =~= Seq::<Vec<Instruction>>::empty());
        assert(stacks_of(s.push(x)) == seq![irs_of(x@)] + stacks_of(
            Seq::<Vec<Instruction>>::empty(),
        ));
        assert(stacks_of(s.push(x)) =~= stacks_of(s).push(irs_of(x@)));
    } else {
        assert(s.push(x)[0] == s[0]);
        assert(s.push(x).drop_first() =~= s.drop_first().push(x));
        lemma_stacks_of_push(s.drop_first(), x);
        assert(stacks_of(s.push(x)) =~= stacks_of(s).push(irs_of(x@)));
    }
}

pub broadcast proof fn lemma_stacks_of_drop_last(s: Seq<Vec<Instruction>>)
    requires
        s.len() > 0,
    ensures
        #[trigger] stacks_of(s.drop_last()) == stacks_of(s).drop_last(),
        stacks_of(s).last() == irs_of(s.last()@),
    decreases s,
{
    lemma_stacks_of_len(s);
    if s.len() == 1 {
        assert(s.drop_last() =~= Seq::<Vec<Instruction>>::empty());
        assert(stacks_of(s.drop_last()) =~= stacks_of(s).drop_last());
    } else {
        assert(s.drop_last()[0] == s[0]);
        assert(s.drop_last().drop_first() =~= s.drop_first().drop_last());
        lemma_stacks_of_drop_last(s.drop_first());
        lemma_stacks_of_len(s.drop_first());
        assert(s.drop_first().last() == s.last());
        assert(stacks_of(s.drop_last()) =~= stacks_of(s).drop_last());
    }
}

/// Flushes the pending additions (in key order) and the pending pointer
/// movement into the instruction list, as every non-accumulating token does.
fn flush_pending(
    add_map: &mut Vec<(i64, i64)>,
    instructions: &mut Vec<Instruction>,
    ptr: &mut i64,
)
    ensures
        final(add_map)@.len() == 0,
        *final(ptr) == 0,
        irs_of(final(instructions)@) == flushed(
            ParseSt {
                ptr: *old(ptr) as int,
                adds: pairs_of(old(add_map)@),
                stack: Seq::empty(),
                cur: irs_of(old(instructions)@),
            },
        ).cur,
{
    broadcast use lemma_adds_emitted_push, lemma_adds_emitted_len;

    let ghost adds0 = pairs_of(add_map@);
    let ghost cur0 = irs_of(instructions@);
    let mut j: usize = 0;
    while j < add_map.len()
        invariant
            j <= add_map@.len(),
            pairs_of(add_map@) == adds0,
            irs_of(instructions@) == cur0 + adds_emitted(adds0.take(j as int)),
        decreases add_map@.len() - j,
    {
        let (off, val) = add_map[j];
        proof {
            assert(adds0.take(j + 1) =~= adds0.take(j as int).push(adds0[j as int]));
            assert(adds0[j as int] == (add_map@[j as int].0 as int, add_map@[j as int].1 as int));
        }
        instructions.push(Instruction::Add { offset: off, value: val });
        proof {
            lemma_adds_emitted_push(adds0.take(j as int), adds0[j as int]);
            assert(adds_emitted(adds0.take(j + 1)) == adds_emitted(adds0.take(j as int)).push(
                Ir::Add { offset: off as int, value: val as int },
            ));
            assert(ir_of(Instruction::Add { offset: off, value: val }) == (Ir::Add {
                offset: off as int,
                value: val as int,
            }));
            assert(irs_of(instructions@) =~= cur0 + adds_emitted(adds0.take(j + 1)));
        }
        j += 1;
    }
    proof {
        assert(adds0.take(adds0.len() as int) =~= adds0);
    }
    add_map.clear();
    proof {
        assert(pairs_of(Seq::<(i64, i64)>::empty()) =~= Seq::<(int, int)>::empty());
    }
    if *ptr != 0 {
        instructions.push(Instruction::MovePtr(*ptr));
        *ptr = 0;
        proof {
            assert(irs_of(instructions@) =~= cur0 + adds_emitted(adds0) + seq![
                Ir::MovePtr(*old(ptr) as int),
            ]);
        }
    } else {
        proof {
            assert(cur0 + adds_emitted(adds0) + Seq::<Ir>::empty() =~= cur0 + adds_emitted(adds0));
        }
    }
}

/// Parses a source text into the initial instruction sequence, fusing runs
/// of `+ - < >` into per-offset `Add`s (emitted in offset order) and a
/// single trailing `MovePtr`.  Reports an unmatched bracket as an error.
pub fn parse(code: &str) -> (r: Result<Vec<Instruction>, &'static str>)
    ensures
        match r {
            Result::Ok(v) => parse_result(code@) == ParseOutcome::Parsed(irs_of(v@)),
            Result::Err(m) => (parse_result(code@) == ParseOutcome::UnmatchedClose && m@
                == "found ']' without matching '['"@) || (parse_result(code@)
                == ParseOutcome::UnmatchedOpen && m@ == "found '[' without matching ']'"@),
        },
{
    broadcast use
        lemma_parse_run_snoc,
        lemma_stacks_of_len,
        lemma_stacks_of_push,
        lemma_stacks_of_drop_last,
    ;

    let n = code.unicode_len();
    let mut ptr: i64 = 0;
    let mut add_map: Vec<(i64, i64)> = Vec::new();
    let mut instruction_stack: Vec<Vec<Instruction>> = Vec::new();
    let mut instructions: Vec<Instruction> = Vec::new();

    proof {
        assert(pairs_of(add_map@) =~= Seq::<(int, int)>::empty());
        assert(stacks_of(instruction_stack@) =~= Seq::<Seq<Ir>>::empty());
        assert(irs_of(instructions@) =~= Seq::<Ir>::empty());
        assert(code@.take(0) =~= Seq::<char>::empty());
    }

    let mut i: usize = 0;
    while i < n
        invariant
            i <= n,
            n == code@.len(),
            parse_run(code@.take(i as int), parse_init()) == Option::Some(
                ParseSt {
                    ptr: ptr as int,
                    adds: pairs_of(add_map@),
                    stack: stacks_of(instruction_stack@),
                    cur: irs_of(instructions@),
                },
            ),
        decreases n - i,
    {
        let ghost st = ParseSt {
            ptr: ptr as int,
            adds: pairs_of(add_map@),
            stack: stacks_of(instruction_stack@),
            cur: irs_of(instructions@),
        };
        let c = code.get_char(i);
        let cu = c as u32;
        proof {
            assert(code@.take(i + 1) =~= code@.take(i as int).push(code@[i as int]));
            assert(code@[i as int] == c);
            lemma_parse_run_snoc(code@.take(i as int), parse_init(), c);
            assert(parse_run(code@.take(i + 1), parse_init()) == parse_step(st, c));
            assert('+' as u32 == 43 && '-' as u32 == 45 && '>' as u32 == 62 && '<' as u32 == 60
                && '.' as u32 == 46 && ',' as u32 == 44 && '[' as u32 == 91 && ']' as u32 == 93);
        }
        if cu == 43 {
            // '+'
            proof {
                assert(c == '+');
            }
            crate::ir::bump_entry(&mut add_map, ptr, 1);
        } else if cu == 45 {
            // '-'
            proof {
                assert(c == '-');
            }
            crate::ir::bump_entry(&mut add_map, ptr, -1);
        } else if cu == 62 {
            // '>'
            proof {
                assert(c == '>');
            }
            ptr = crate::wadd(ptr, 1);
        } else if cu == 60 {
            // '<'
            proof {
                assert(c == '<');
            }
            ptr = crate::wadd(ptr, -1);
        } else if cu == 46 {
            // '.'
            proof {
                assert(c == '.');
            }
            flush_pending(&mut add_map, &mut instructions, &mut ptr);
            instructions.push(Instruction::Write(0));
            proof {
                let f = flushed(st);
                assert(irs_of(instructions@) == f.cur.push(Ir::Write(0)));
                assert(pairs_of(add_map@) =~= Seq::<(int, int)>::empty());
            }
        } else if cu == 44 {
            // ','
            proof {
                assert(c == ',');
            }
            flush_pending(&mut add_map, &mut instructions, &mut ptr);
            instructions.push(Instruction::Read(0));
            proof {
                let f = flushed(st);
                assert(irs_of(instructions@) == f.cur.push(Ir::Read(0)));
                assert(pairs_of(add_map@) =~= Seq::<(int, int)>::empty());
            }
        } else if cu == 91 {
            // '['
            proof {
                assert(c == '[');
            }
            flush_pending(&mut add_map, &mut instructions, &mut ptr);
            proof {
                let f = flushed(st);
                assert(irs_of(instructions@) == f.cur);
                assert(pairs_of(add_map@) =~= Seq::<(int, int)>::empty());
            }
            let ghost stack_before = instruction_stack@;
            instruction_stack.push(instructions);
            instructions = Vec::new();
            proof {
                lemma_stacks_of_push(stack_before, instruction_stack@.last());
                assert(instruction_stack@ =~= stack_before.push(instruction_stack@.last()));
                assert(irs_of(instructions@) =~= Seq::<Ir>::empty());
            }
        } else if cu == 93 {
            // ']'
            proof {
                assert(c == ']');
            }
            flush_pending(&mut add_map, &mut instructions, &mut ptr);
            proof {
                let f = flushed(st);
                assert(irs_of(instructions@) == f.cur);
                assert(pairs_of(add_map@) =~= Seq::<(int, int)>::empty());
                if instruction_stack@.len() > 0 {
                    lemma_stacks_of_drop_last(instruction_stack@);
                }
            }
            let ghost stack_before = instruction_stack@;
            match instruction_stack.pop() {
                Option::Some(mut inst) => {
                    let body = instructions;
                    inst.push(Instruction::Loop(body));
                    instructions = inst;
                    proof {
                        let f = flushed(st);
                        assert(instruction_stack@ =~= stack_before.drop_last());
                        assert(irs_of(instructions@) == irs_of(stack_before.last()@).push(
                            Ir::Loop(f.cur),
                        ));
                        assert(stacks_of(stack_before).last() == irs_of(stack_before.last()@));
                        assert(stacks_of(instruction_stack@) == stacks_of(stack_before).drop_last());
                    }
                },
                Option::None => {
                    proof {
                        assert(flushed(st).stack.len() == 0);
                        assert(parse_run(code@.take(i + 1), parse_init()) is None);
                        assert(code@ =~= code@.take(i + 1) + code@.skip(i + 1));
                        lemma_parse_run_prefix_none(code@.take(i + 1), code@.skip(i + 1));
                        assert(parse_result(code@) == ParseOutcome::UnmatchedClose);
                    }
                    return Result::Err("found ']' without matching '['");
                },
            }
        } else {
            proof {
                assert(c != '+' && c != '-' && c != '>' && c != '<' && c != '.' && c != ','
                    && c != '[' && c != ']');
                assert(parse_step(st, c) == Option::Some(st));
            }
        }
        proof {
            let stnew = ParseSt {
                ptr: ptr as int,
                adds: pairs_of(add_map@),
                stack: stacks_of(instruction_stack@),
                cur: irs_of(instructions@),
            };
            assert(parse_step(st, c) == Option::Some(stnew));
        }
        i += 1;
    }
    proof {
        assert(code@.take(n as int) =~= code@);
    }
    if instruction_stack.len() > 0 {
        return Result::Err("found '[' without matching ']'");
    }
    Result::Ok(instructions)
}

/// A parse that has already failed stays failed whatever text follows.
proof fn lemma_parse_run_prefix_none(a: Seq<char>, b: Seq<char>)
    requires
        parse_run(a, parse_init()) is None,
    ensures
        parse_run(a + b, parse_init()) is None,
{
    lemma_parse_run_app(a, b, parse_init());
}

/// Running the parser over a concatenation runs it over each part in turn.
proof fn lemma_parse_run_app(a: Seq<char>, b: Seq<char>, st: ParseSt)
    ensures
        parse_run(a + b, st) == match parse_run(a, st) {
            Option::Some(st1) => parse_run(b, st1),
            Option::None => Option::None::<ParseSt>,
        },
    decreases a,
{
    if a.len() == 0 {
        assert(a + b =~= b);
    } else {
        assert((a + b)[0] == a[0]);
        assert((a + b).drop_first() =~= a.drop_first() + b);
        match parse_step(st, a[0]) {
            Option::Some(st1) => {
                lemma_parse_run_app(a.drop_first(), b, st1);
            },
            Option::None => {},
        }
    }
}

} // verus!
