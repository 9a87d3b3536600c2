use vstd::prelude::*;
use crate::numtext::dec_int;

verus! {

/// One instruction of the intermediate representation.  A program is an
/// ordered sequence of these; `Loop` nests recursively.  `factors` of a
/// `LinearLoop` is an association list sorted strictly by offset, standing
/// for a finite map from tape offset to signed factor.
#[derive(Debug)]
pub enum Instruction {
    Nop,
    Add { offset: i64, value: i64 },
    Store { offset: i64, value: i64 },
    LinearLoop { offset: i64, factors: Vec<(i64, i64)> },
    MovePtr(i64),
    Loop(Vec<Instruction>),
    Read(i64),
    Write(i64),
}

/// The mathematical shape of an instruction: what the contracts speak about.
pub enum Ir {
    Nop,
    Add { offset: int, value: int },
    Store { offset: int, value: int },
    LinearLoop { offset: int, factors: Seq<(int, int)> },
    MovePtr(int),
    Loop(Seq<Ir>),
    Read(int),
    Write(int),
}

/// View of an association list of machine integers as one of unbounded integers.
pub open spec fn pairs_of(s: Seq<(i64, i64)>) -> Seq<(int, int)> {
    s.map_values(|p: (i64, i64)| (p.0 as int, p.1 as int))
}

/// Deep view of an instruction tree into its mathematical shape.
pub open spec fn ir_of(i: Instruction) -> Ir
    decreases i,
{
    match i {
        Instruction::Nop => Ir::Nop,
        Instruction::Add { offset, value } => Ir::Add { offset: offset as int, value: value as int },
        Instruction::Store { offset, value } => Ir::Store {
            offset: offset as int,
            value: value as int,
        },
        Instruction::LinearLoop { offset, factors } => Ir::LinearLoop {
            offset: offset as int,
            factors: pairs_of(factors@),
        },
        Instruction::MovePtr(d) => Ir::MovePtr(d as int),
        Instruction::Loop(body) => Ir::Loop(irs_of(body@)),
        Instruction::Read(o) => Ir::Read(o as int),
        Instruction::Write(o) => Ir::Write(o as int),
    }
}

/// Deep view of a sequence of instructions.
pub open spec fn irs_of(s: Seq<Instruction>) -> Seq<Ir>
    decreases s,
{
    if s.len() == 0 {
        Seq::empty()
    } else {
        seq![ir_of(s[0])] + irs_of(s.drop_first())
    }
}

/// Structural size of an instruction, the measure for recursion over trees.
pub open spec fn ir_size(i: Ir) -> nat
    decreases i,
{
    match i {
        Ir::Loop(body) => 1 + irs_size(body),
        _ => 1,
    }
}

/// Structural size of an instruction sequence; strictly larger than the size
/// of each element and of each proper suffix.
pub open spec fn irs_size(s: Seq<Ir>) -> nat
    decreases s,
{
    if s.len() == 0 {
        1
    } else {
        1 + ir_size(s[0]) + irs_size(s.drop_first())
    }
}

pub broadcast proof fn lemma_irs_of_len(s: Seq<Instruction>)
    ensures
        #[trigger] irs_of(s).len() == s.len(),
    decreases s,
{
    if s.len() > 0 {
        lemma_irs_of_len(s.drop_first());
    }
}

pub broadcast proof fn lemma_irs_of_index(s: Seq<Instruction>, i: int)
    requires
        0 <= i < s.len(),
    ensures
        #[trigger] irs_of(s)[i] == ir_of(s[i]),
    decreases s,
{
    lemma_irs_of_len(s);
    if i > 0 {
        lemma_irs_of_index(s.drop_first(), i - 1);
    }
}

pub broadcast proof fn lemma_irs_of_push(s: Seq<Instruction>, x: Instruction)
    ensures
        #[trigger] irs_of(s.push(x)) == irs_of(s).push(ir_of(x)),
    decreases s,
{
    if s.len() == 0 {
        assert(s.push(x).len() == 1);
        assert(s.push(x)[0] == x);
        assert(s.push(x).drop_first() =~= Seq::<Instruction>::empty());
        assert(irs_of(s.push(x)) == seq![ir_of(x)] + irs_of(Seq::<Instruction>::empty()));
        assert(irs_of(s.push(x)) =~= irs_of(s).push(ir_of(x)));
    } else {
        assert(s.push(x)[0] == s[0]);
        assert(s.push(x).drop_first() =~= s.drop_first().push(x));
        lemma_irs_of_push(s.drop_first(), x);
        assert(irs_of(s.push(x)) =~= irs_of(s).push(ir_of(x)));
    }
}

pub broadcast proof fn lemma_irs_of_append(a: Seq<Instruction>, b: Seq<Instruction>)
    ensures
        #[trigger] irs_of(a + b) == irs_of(a) + irs_of(b),
    decreases a,
{
    if a.len() == 0 {
        assert(a + b =~= b);
        assert(irs_of(a) + irs_of(b) =~= irs_of(b));
    } else {
        assert((a + b)[0] == a[0]);
        assert((a + b).drop_first() =~= a.drop_first() + b);
        lemma_irs_of_append(a.drop_first(), b);
        assert(irs_of(a + b) =~= irs_of(a) + irs_of(b));
    }
}

pub broadcast proof fn lemma_irs_size_index(s: Seq<Ir>, i: int)
    requires
        0 <= i < s.len(),
    ensures
        #[trigger] ir_size(s[i]) < irs_size(s),
    decreases s,
{
    if i > 0 {
        lemma_irs_size_index(s.drop_first(), i - 1);
    }
}

pub broadcast proof fn lemma_irs_size_skip(s: Seq<Ir>, i: int)
    requires
        0 <= i <= s.len(),
    ensures
        #[trigger] irs_size(s.skip(i)) <= irs_size(s),
    decreases i,
{
    if i > 0 {
        assert(s.skip(i) =~= s.drop_first().skip(i - 1));
        lemma_irs_size_skip(s.drop_first(), i - 1);
    } else {
        assert(s.skip(0) =~= s);
    }
}

pub broadcast group group_ir_lemmas {
    lemma_irs_of_len,
    lemma_irs_of_index,
    lemma_irs_of_push,
    lemma_irs_of_append,
    lemma_irs_size_index,
    lemma_irs_size_skip,
}

/// Whether the keys of an association list are strictly increasing.
pub open spec fn sorted_keys(s: Seq<(int, int)>) -> bool {
    forall|i: int, j: int| 0 <= i < j < s.len() ==> s[i].0 < s[j].0
}

/// The value bound to `k`, if any.
pub open spec fn map_lookup(s: Seq<(int, int)>, k: int) -> Option<int>
    decreases s,
{
    if s.len() == 0 {
        Option::None
    } else if s[0].0 == k {
        Option::Some(s[0].1)
    } else {
        map_lookup(s.drop_first(), k)
    }
}

/// Adds `d` (with 64-bit signed wrap-around) to the value bound to `k`,
/// inserting the binding `k -> d` if the key is absent; keeps keys sorted.
pub open spec fn map_bump(s: Seq<(int, int)>, k: int, d: int) -> Seq<(int, int)>
    decreases s,
{
    if s.len() == 0 {
        seq![(k, d)]
    } else if s[0].0 == k {
        seq![(k, crate::wrap_i64(s[0].1 + d))] + s.drop_first()
    } else if k < s[0].0 {
        seq![(k, d)] + s
    } else {
        seq![s[0]] + map_bump(s.drop_first(), k, d)
    }
}

/// Adds `d` to the binding of `k` in a sorted association list held as a
/// vector, inserting the binding where the key is absent; the sum wraps as
/// 64-bit signed arithmetic.
pub fn bump_entry(v: &mut Vec<(i64, i64)>, k: i64, d: i64)
    ensures
        pairs_of(final(v)@) == map_bump(pairs_of(old(v)@), k as int, d as int),
        sorted_keys(pairs_of(old(v)@)) ==> sorted_keys(pairs_of(final(v)@)),
{
    broadcast use group_ir_lemmas;

    proof {
        if sorted_keys(pairs_of(v@)) {
            lemma_map_bump_sorted(pairs_of(v@), k as int, d as int);
        }
    }

    let mut idx: usize = 0;
    while idx < v.len() && v[idx].0 < k
        invariant
            0 <= idx <= v.len(),
            forall|j: int| 0 <= j < idx ==> v@[j].0 < k,
        decreases v.len() - idx,
    {
        idx += 1;
    }
    if idx < v.len() && v[idx].0 == k {
        let nv = crate::wadd(v[idx].1, d);
        let key = v[idx].0;
        v.set(idx, (key, nv));
        proof {
            lemma_map_bump_at(pairs_of(old(v)@), k as int, d as int, idx as int);
            assert(pairs_of(v@) =~= pairs_of(old(v)@).update(
                idx as int,
                (k as int, crate::wrap_i64(old(v)@[idx as int].1 + d)),
            ));
        }
    } else {
        v.insert(idx, (k, d));
        proof {
            lemma_map_bump_insert(pairs_of(old(v)@), k as int, d as int, idx as int);
            assert(pairs_of(v@) =~= pairs_of(old(v)@).insert(idx as int, (k as int, d as int)));
        }
    }
}

/// In a list whose first `idx` keys are below `k` and whose `idx`-th key is `k`,
/// bumping `k` updates position `idx` in place.
proof fn lemma_map_bump_at(s: Seq<(int, int)>, k: int, d: int, idx: int)
    requires
        0 <= idx < s.len(),
        forall|j: int| 0 <= j < idx ==> s[j].0 < k,
        s[idx].0 == k,
    ensures
        map_bump(s, k, d) == s.update(idx, (k, crate::wrap_i64(s[idx].1 + d))),
    decreases idx,
{
    if idx == 0 {
        assert(map_bump(s, k, d) =~= s.update(0, (k, crate::wrap_i64(s[0].1 + d))));
    } else {
        lemma_map_bump_at(s.drop_first(), k, d, idx - 1);
        assert(map_bump(s, k, d) =~= s.update(idx, (k, crate::wrap_i64(s[idx].1 + d))));
    }
}

/// In a list whose first `idx` keys are below `k` and whose `idx`-th key (if
/// present) is above `k`, bumping `k` inserts a fresh binding at `idx`.
proof fn lemma_map_bump_insert(s: Seq<(int, int)>, k: int, d: int, idx: int)
    requires
        0 <= idx <= s.len(),
        forall|j: int| 0 <= j < idx ==> s[j].0 < k,
        idx < s.len() ==> s[idx].0 > k,
    ensures
        map_bump(s, k, d) == s.insert(idx, (k, d)),
    decreases idx,
{
    if idx == 0 {
        if s.len() == 0 {
            assert(map_bump(s, k, d) =~= s.insert(0, (k, d)));
        } else {
            assert(map_bump(s, k, d) =~= s.insert(0, (k, d)));
        }
    } else {
        lemma_map_bump_insert(s.drop_first(), k, d, idx - 1);
        assert(map_bump(s, k, d) =~= s.insert(idx, (k, d)));
    }
}

/// Bumping preserves sortedness of the keys.
pub proof fn lemma_map_bump_sorted(s: Seq<(int, int)>, k: int, d: int)
    requires
        sorted_keys(s),
    ensures
        sorted_keys(map_bump(s, k, d)),
    decreases s,
{
    if s.len() == 0 {
    } else if s[0].0 == k {
        assert forall|i: int, j: int|
            0 <= i < j < map_bump(s, k, d).len() implies map_bump(s, k, d)[i].0 < map_bump(
            s,
            k,
            d,
        )[j].0 by {
            assert(map_bump(s, k, d)[j] == s[j]);
        }
    } else if k < s[0].0 {
        assert forall|i: int, j: int|
            0 <= i < j < map_bump(s, k, d).len() implies map_bump(s, k, d)[i].0 < map_bump(
            s,
            k,
            d,
        )[j].0 by {
            if i > 0 {
                assert(map_bump(s, k, d)[i] == s[i - 1]);
                assert(map_bump(s, k, d)[j] == s[j - 1]);
            } else {
                assert(map_bump(s, k, d)[j] == s[j - 1]);
            }
        }
    } else {
        lemma_map_bump_sorted(s.drop_first(), k, d);
        lemma_map_bump_keys(s.drop_first(), k, d);
        assert forall|i: int, j: int|
            0 <= i < j < map_bump(s, k, d).len() implies map_bump(s, k, d)[i].0 < map_bump(
            s,
            k,
            d,
        )[j].0 by {
            if i > 0 {
                assert(map_bump(s, k, d)[i] == map_bump(s.drop_first(), k, d)[i - 1]);
                assert(map_bump(s, k, d)[j] == map_bump(s.drop_first(), k, d)[j - 1]);
            } else {
                assert(map_bump(s, k, d)[i] == s[0]);
                assert(map_bump(s, k, d)[j] == map_bump(s.drop_first(), k, d)[j - 1]);
            }
        }
    }
}

/// Every key of a bumped list is a key of the original list or `k` itself.
pub proof fn lemma_map_bump_keys(s: Seq<(int, int)>, k: int, d: int)
    ensures
        forall|i: int|
            0 <= i < map_bump(s, k, d).len() ==> (#[trigger] map_bump(s, k, d)[i].0 == k
                || exists|j: int| 0 <= j < s.len() && s[j].0 == map_bump(s, k, d)[i].0),
    decreases s,
{
    if s.len() == 0 {
    } else if s[0].0 == k {
        assert forall|i: int| 0 <= i < map_bump(s, k, d).len() implies (#[trigger] map_bump(
            s,
            k,
            d,
        )[i].0 == k || exists|j: int| 0 <= j < s.len() && s[j].0 == map_bump(s, k, d)[i].0) by {
            if i > 0 {
                assert(s[i].0 == map_bump(s, k, d)[i].0);
            }
        }
    } else if k < s[0].0 {
        assert forall|i: int| 0 <= i < map_bump(s, k, d).len() implies (#[trigger] map_bump(
            s,
            k,
            d,
        )[i].0 == k || exists|j: int| 0 <= j < s.len() && s[j].0 == map_bump(s, k, d)[i].0) by {
            if i > 0 {
                assert(s[i - 1].0 == map_bump(s, k, d)[i].0);
            }
        }
    } else {
        lemma_map_bump_keys(s.drop_first(), k, d);
        assert forall|i: int| 0 <= i < map_bump(s, k, d).len() implies (#[trigger] map_bump(
            s,
            k,
            d,
        )[i].0 == k || exists|j: int| 0 <= j < s.len() && s[j].0 == map_bump(s, k, d)[i].0) by {
            if i == 0 {
                assert(s[0].0 == map_bump(s, k, d)[0].0);
            } else {
                let x = map_bump(s.drop_first(), k, d)[i - 1].0;
                assert(map_bump(s, k, d)[i].0 == x);
                if x != k {
                    let j = choose|j: int| 0 <= j < s.drop_first().len() && s.drop_first()[j].0 == x;
                    assert(s[j + 1].0 == x);
                }
            }
        }
    }
}

/// The dump text of one instruction: `Inc`/`Dec` for unit adds at the
/// current cell, bracketed bodies for loops, a bare tag for a
/// `LinearLoop`.  A `Write` prints with the same tag as a `Read`, as the
/// dump format has it.
pub open spec fn instr_text(i: Ir) -> Seq<char>
    decreases ir_size(i),
{
    match i {
        Ir::Nop => "Nop"@,
        Ir::Add { offset, value } => if offset == 0 && value == 1 {
            "Inc"@
        } else if offset == 0 && value == -1 {
            "Dec"@
        } else {
            "Add(@"@ + dec_int(offset) + ", "@ + dec_int(value) + ")"@
        },
        Ir::Store { offset, value } => "Set(@"@ + dec_int(offset) + ", "@ + dec_int(value) + ")"@,
        Ir::LinearLoop { offset, factors } => "LinearLoop"@,
        Ir::MovePtr(d) => "MovePtr("@ + dec_int(d) + ")"@,
        Ir::Loop(body) => "[\n"@ + body_text(body) + "]\n"@,
        Ir::Read(o) => "Read(@"@ + dec_int(o) + ")"@,
        Ir::Write(o) => "Read(@"@ + dec_int(o) + ")"@,
    }
}

/// The dump text of a loop body: each instruction's text and a newline.
pub open spec fn body_text(s: Seq<Ir>) -> Seq<char>
    decreases irs_size(s),
{
    if s.len() == 0 {
        Seq::empty()
    } else {
        instr_text(s[0]) + "\n"@ + body_text(s.drop_first())
    }
}

impl Instruction {
    /// Renders the instruction as its dump text.
    #[verifier::rlimit(100)]
    pub fn to_string(&self) -> (r: String)
        ensures
            r@ == instr_text(ir_of(*self)),
        decreases ir_size(ir_of(*self)),
    {
        broadcast use group_ir_lemmas;

        match self {
            Instruction::Nop => String::from_str("Nop"),
            Instruction::Add { offset, value } => {
                if *offset == 0 && *value == 1 {
                    String::from_str("Inc")
                } else if *offset == 0 && *value == -1 {
                    String::from_str("Dec")
                } else {
                    crate::numtext::s_num2("Add(@", *offset, ", ", *value, ")")
                }
            },
            Instruction::Store { offset, value } => crate::numtext::s_num2(
                "Set(@",
                *offset,
                ", ",
                *value,
                ")",
            ),
            Instruction::LinearLoop { offset, factors } => String::from_str("LinearLoop"),
            Instruction::MovePtr(d) => crate::numtext::s_num("MovePtr(", *d, ")"),
            Instruction::Loop(body) => {
                let ghost irs = irs_of(body@);
                let mut ret = String::from_str("[\n");
                let ghost head = ret@;
                let mut i: usize = 0;
                proof {
                    assert(irs.skip(0) =~= irs);
                    assert(ret@ + body_text(irs.skip(0)) =~= head + body_text(irs));
                }
                while i < body.len()
                    invariant
                        i <= body@.len(),
                        irs == irs_of(body@),
                        irs.len() == body@.len(),
                        ir_of(*self) == Ir::Loop(irs),
                        ret@ + body_text(irs.skip(i as int)) == head + body_text(irs),
                    decreases body@.len() - i,
                {
                    proof {
                        lemma_irs_of_len(body@);
                        lemma_irs_of_index(body@, i as int);
                        lemma_irs_size_index(irs, i as int);
                        assert(irs.skip(i as int)[0] == irs[i as int]);
                        assert(irs.skip(i as int).drop_first() =~= irs.skip(i as int + 1));
                    }
                    let ghost pre = ret@;
                    let part = body[i].to_string();
                    ret.append(part.as_str());
                    proof {
                        reveal_strlit("\n");
                    }
                    ret.append("\n");
                    proof {
                        assert((pre + instr_text(irs[i as int]) + "\n"@) + body_text(
                            irs.skip(i as int + 1),
                        ) =~= pre + body_text(irs.skip(i as int)));
                    }
                    i += 1;
                }
                proof {
                    assert(irs.skip(body@.len() as int) =~= Seq::<Ir>::empty());
                    assert(ret@ + Seq::<char>::empty() =~= ret@);
                }
                proof {
                    reveal_strlit("]\n");
                }
                ret.append("]\n");
                proof {
                    assert(ret@ =~= instr_text(ir_of(*self)));
                }
                ret
            },
            Instruction::Read(o) => crate::numtext::s_num("Read(@", *o, ")"),
            Instruction::Write(o) => crate::numtext::s_num("Read(@", *o, ")"),
        }
    }
}

} // verus!
