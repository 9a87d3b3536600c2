use vstd::prelude::*;
use crate::ir::{
    group_ir_lemmas, ir_of, irs_of, ir_size, irs_size, map_bump, map_lookup, pairs_of,
    Instruction, Ir,
};
use crate::wrap_i64;

verus! {

/// Whether every instruction of the sequence is an `Add`.
pub open spec fn all_adds(s: Seq<Ir>) -> bool {
    forall|i: int| 0 <= i < s.len() ==> (#[trigger] s[i]) is Add
}

/// Folds the per-offset net additions of a body into an accumulator, in
/// order, as the linearization pass collects them.
pub open spec fn collect_from(s: Seq<Ir>, acc: Seq<(int, int)>) -> Seq<(int, int)>
    decreases s,
{
    if s.len() == 0 {
        acc
    } else {
        let acc1 = match s[0] {
            Ir::Add { offset, value } => map_bump(acc, offset, value),
            _ => acc,
        };
        collect_from(s.drop_first(), acc1)
    }
}

/// The per-offset net additions of a loop body.
pub open spec fn collect_adds(s: Seq<Ir>) -> Seq<(int, int)> {
    collect_from(s, Seq::empty())
}

/// What becomes of a loop whose flattened body is `bf`, met at shadow
/// offset `off`: a `Store` of zero for a single odd self-decrement, a
/// `LinearLoop` where the counter steps by minus one, else the loop is kept
/// with the absorbed pointer movement restored before it.
pub open spec fn lin_loop_result(off: int, bf: Seq<Ir>) -> (Seq<Ir>, int) {
    if all_adds(bf) {
        let inc = collect_adds(bf);
        if inc.len() == 1 && inc[0].0 == 0 && inc[0].1 % 2 == 1 {
            (seq![Ir::Store { offset: off, value: 0 }], off)
        } else if map_lookup(inc, 0) == Option::Some(-1int) {
            (seq![Ir::LinearLoop { offset: off, factors: inc }], off)
        } else {
            (
                (if off != 0 {
                    seq![Ir::MovePtr(off)]
                } else {
                    Seq::empty()
                }) + seq![Ir::Loop(bf)],
                0,
            )
        }
    } else {
        (
            (if off != 0 {
                seq![Ir::MovePtr(off)]
            } else {
                Seq::empty()
            }) + seq![Ir::Loop(bf)],
            0,
        )
    }
}

/// One instruction under the offset-propagation and linearization pass:
/// what it emits, and the shadow offset afterwards.
pub open spec fn lin_instr(i: Ir, off: int) -> (Seq<Ir>, int)
    decreases ir_size(i),
{
    match i {
        Ir::Nop => (Seq::empty(), off),
        Ir::Add { offset, value } => (
            seq![Ir::Add { offset: wrap_i64(offset + off), value: value }],
            off,
        ),
        Ir::Store { offset, value } => (
            seq![Ir::Store { offset: wrap_i64(offset + off), value: value }],
            off,
        ),
        Ir::LinearLoop { offset, factors } => (seq![i], off),
        Ir::MovePtr(d) => (Seq::empty(), wrap_i64(off + d)),
        Ir::Read(o) => (seq![Ir::Read(wrap_i64(o + off))], off),
        Ir::Write(o) => (seq![Ir::Write(wrap_i64(o + off))], off),
        Ir::Loop(b) => {
            let r = lin_seq(b, 0);
            let bf = if r.1 != 0 {
                r.0.push(Ir::MovePtr(r.1))
            } else {
                r.0
            };
            lin_loop_result(off, bf)
        },
    }
}

/// A sequence under the pass: the emitted instructions and the final shadow.
pub open spec fn lin_seq(p: Seq<Ir>, off: int) -> (Seq<Ir>, int)
    decreases irs_size(p),
{
    if p.len() == 0 {
        (Seq::empty(), off)
    } else {
        let r0 = lin_instr(p[0], off);
        let r1 = lin_seq(p.drop_first(), r0.1);
        (r0.0 + r1.0, r1.1)
    }
}

/// The whole pass over a program: shadow starts at zero; a trailing shadow
/// is discarded, since pointer movement at the end of a program cannot be
/// observed.
pub open spec fn lin_pass(p: Seq<Ir>) -> Seq<Ir> {
    lin_seq(p, 0).0
}

/// Whether a signed value is odd.
fn is_odd(v: i64) -> (r: bool)
    ensures
        r == (v as int % 2 == 1),
{
    if v >= 0 {
        v % 2 == 1
    } else {
        let mag = -(v as i128);
        let rm = mag % 2;
        proof {
            let q = (mag as int) / 2;
            vstd::arithmetic::div_mod::lemma_fundamental_div_mod(mag as int, 2);
            if rm == 0 {
                assert(v as int == 2 * (-q) + 0) by (nonlinear_arith)
                    requires
                        mag as int == 2 * q + 0,
                        v as int == -(mag as int),
                ;
                vstd::arithmetic::div_mod::lemma_fundamental_div_mod_converse_mod(
                    v as int,
                    2,
                    -q,
                    0,
                );
            } else {
                assert(v as int == 2 * (-q - 1) + 1) by (nonlinear_arith)
                    requires
                        mag as int == 2 * q + 1,
                        v as int == -(mag as int),
                ;
                vstd::arithmetic::div_mod::lemma_fundamental_div_mod_converse_mod(
                    v as int,
                    2,
                    -q - 1,
                    1,
                );
            }
        }
        rm == 1
    }
}

/// Looks a key up in a sorted association list held as a vector.
fn lookup_entry(v: &Vec<(i64, i64)>, k: i64) -> (r: Option<i64>)
    ensures
        match r {
            Option::Some(val) => map_lookup(pairs_of(v@), k as int) == Option::Some(val as int),
            Option::None => map_lookup(pairs_of(v@), k as int) is None,
        },
{
    broadcast use group_ir_lemmas;

    let ghost full = pairs_of(v@);
    let mut j: usize = 0;
    proof {
        assert(full.skip(0) =~= full);
    }
    while j < v.len()
        invariant
            j <= v@.len(),
            full == pairs_of(v@),
            map_lookup(full, k as int) == map_lookup(full.skip(j as int), k as int),
        decreases v@.len() - j,
    {
        let (key, val) = v[j];
        proof {
            assert(full.skip(j as int)[0] == (key as int, val as int));
            assert(full.skip(j as int).drop_first() =~= full.skip(j as int + 1));
        }
        if key == k {
            return Option::Some(val);
        }
        j += 1;
    }
    proof {
        assert(full.skip(v@.len() as int) =~= Seq::<(int, int)>::empty());
    }
    Option::None
}

/// The offset-propagation and loop-linearization pass: absorbs `MovePtr`
/// into a shadow offset, re-emits straight-line operations at absolute
/// offsets, and rewrites eligible loops into `Store` or `LinearLoop`.
pub struct LinOptimizer {
    pub offset: i64,
    pub instructions: Vec<Instruction>,
}

impl LinOptimizer {
    /// The shadow offset: pointer movement absorbed but not yet emitted.
    pub open spec fn shadow(&self) -> int {
        self.offset as int
    }

    /// A fresh pass: shadow zero, nothing emitted.
    pub fn new() -> (r: LinOptimizer)
        ensures
            r.shadow() == 0,
            r.instructions@.len() == 0,
    {
        LinOptimizer { offset: 0, instructions: Vec::new() }
    }

    /// Runs the pass over a sequence of instructions, appending what it
    /// emits to `instructions` and tracking the shadow offset.
    pub fn visit_instructions(&mut self, instrs: &Vec<Instruction>)
        ensures
            irs_of(final(self).instructions@) == irs_of(old(self).instructions@) + lin_seq(
                irs_of(instrs@),
                old(self).shadow(),
            ).0,
            final(self).shadow() == lin_seq(irs_of(instrs@), old(self).shadow()).1,
        decreases irs_size(irs_of(instrs@)),
    {
        broadcast use group_ir_lemmas;

        let ghost irs = irs_of(instrs@);
        let ghost out0 = irs_of(self.instructions@);
        let ghost sh0 = self.shadow();
        let mut i: usize = 0;
        proof {
            assert(irs.skip(0) =~= irs);
            assert(out0 + lin_seq(irs, sh0).0 =~= out0 + lin_seq(irs, sh0).0);
        }
        while i < instrs.len()
            invariant
                i <= instrs@.len(),
                irs == irs_of(instrs@),
                irs.len() == instrs@.len(),
                out0 == irs_of(old(self).instructions@),
                sh0 == old(self).shadow(),
                lin_seq(irs, sh0).0 == irs_of(self.instructions@).skip(out0.len() as int)
                    + lin_seq(irs.skip(i as int), self.shadow()).0,
                lin_seq(irs, sh0).1 == lin_seq(irs.skip(i as int), self.shadow()).1,
                irs_of(self.instructions@).take(out0.len() as int) == out0,
                irs_of(self.instructions@).len() >= out0.len(),
            decreases instrs@.len() - i,
        {
            let ghost pre = irs_of(self.instructions@);
            let ghost shpre = self.shadow();
            proof {
                assert(irs.skip(i as int)[0] == irs[i as int]);
                assert(irs.skip(i as int).drop_first() =~= irs.skip(i as int + 1));
                crate::ir::lemma_irs_size_index(irs, i as int);
                crate::ir::lemma_irs_of_len(instrs@);
                crate::ir::lemma_irs_of_index(instrs@, i as int);
            }
            self.walk_instruction(&instrs[i]);
            proof {
                let e = lin_instr(irs[i as int], shpre);
                assert(irs_of(self.instructions@) == pre + e.0);
                assert(irs_of(self.instructions@).skip(out0.len() as int) =~= pre.skip(
                    out0.len() as int,
                ) + e.0);
                assert(pre.skip(out0.len() as int) + (e.0 + lin_seq(
                    irs.skip(i as int + 1),
                    self.shadow(),
                ).0) =~= (pre.skip(out0.len() as int) + e.0) + lin_seq(
                    irs.skip(i as int + 1),
                    self.shadow(),
                ).0);
                assert(irs_of(self.instructions@).take(out0.len() as int) =~= pre.take(
                    out0.len() as int,
                ));
            }
            i += 1;
        }
        proof {
            assert(irs.skip(instrs@.len() as int) =~= Seq::<Ir>::empty());
            assert(irs_of(self.instructions@) =~= irs_of(self.instructions@).take(
                out0.len() as int,
            ) + irs_of(self.instructions@).skip(out0.len() as int));
        }
    }

    /// Runs the pass over one instruction.
    pub fn walk_instruction(&mut self, inst: &Instruction)
        ensures
            irs_of(final(self).instructions@) == irs_of(old(self).instructions@) + lin_instr(
                ir_of(*inst),
                old(self).shadow(),
            ).0,
            final(self).shadow() == lin_instr(ir_of(*inst), old(self).shadow()).1,
        decreases ir_size(ir_of(*inst)),
    {
        broadcast use group_ir_lemmas;

        let ghost pre = irs_of(self.instructions@);
        let ghost sh = self.shadow();
        match inst {
            Instruction::Nop => {
                proof {
                    assert(pre + Seq::<Ir>::empty() =~= pre);
                }
            },
            Instruction::Add { offset, value } => {
                let noff = crate::wadd(*offset, self.offset);
                self.instructions.push(Instruction::Add { offset: noff, value: *value });
                proof {
                    assert(pre.push(Ir::Add { offset: noff as int, value: *value as int }) =~= pre
                        + lin_instr(ir_of(*inst), sh).0);
                }
            },
            Instruction::Store { offset, value } => {
                let noff = crate::wadd(*offset, self.offset);
                self.instructions.push(Instruction::Store { offset: noff, value: *value });
                proof {
                    assert(pre.push(Ir::Store { offset: noff as int, value: *value as int }) =~= pre
                        + lin_instr(ir_of(*inst), sh).0);
                }
            },
            Instruction::LinearLoop { offset, factors } => {
                let mut fcopy: Vec<(i64, i64)> = Vec::new();
                let mut j: usize = 0;
                while j < factors.len()
                    invariant
                        j <= factors@.len(),
                        fcopy@ == factors@.take(j as int),
                    decreases factors@.len() - j,
                {
                    fcopy.push(factors[j]);
                    proof {
                        assert(factors@.take(j as int).push(factors@[j as int]) =~= factors@.take(
                            j as int + 1,
                        ));
                    }
                    j += 1;
                }
                proof {
                    assert(factors@.take(factors@.len() as int) =~= factors@);
                }
                self.instructions.push(
                    Instruction::LinearLoop { offset: *offset, factors: fcopy },
                );
                proof {
                    assert(ir_of(Instruction::LinearLoop { offset: *offset, factors: fcopy })
                        == ir_of(*inst));
                    assert(pre.push(ir_of(*inst)) =~= pre + lin_instr(ir_of(*inst), sh).0);
                }
            },
            Instruction::MovePtr(d) => {
                self.offset = crate::wadd(self.offset, *d);
                proof {
                    assert(pre + Seq::<Ir>::empty() =~= pre);
                }
            },
            Instruction::Read(o) => {
                let noff = crate::wadd(*o, self.offset);
                self.instructions.push(Instruction::Read(noff));
                proof {
                    assert(pre.push(Ir::Read(noff as int)) =~= pre + lin_instr(ir_of(*inst), sh).0);
                }
            },
            Instruction::Write(o) => {
                let noff = crate::wadd(*o, self.offset);
                self.instructions.push(Instruction::Write(noff));
                proof {
                    assert(pre.push(Ir::Write(noff as int)) =~= pre + lin_instr(
                        ir_of(*inst),
                        sh,
                    ).0);
                }
            },
            Instruction::Loop(body) => {
                let ghost bodyv = irs_of(body@);
                proof {
                    assert(ir_of(*inst) == Ir::Loop(bodyv));
                }
                let mut sub = LinOptimizer::new();
                sub.visit_instructions(body);
                proof {
                    assert(Seq::<Ir>::empty() + lin_seq(bodyv, 0).0 =~= lin_seq(bodyv, 0).0);
                }
                let mut bf = sub.instructions;
                let ghost bo = lin_seq(bodyv, 0).0;
                let ghost boff = lin_seq(bodyv, 0).1;
                if sub.offset != 0 {
                    bf.push(Instruction::MovePtr(sub.offset));
                }
                let ghost bfv = irs_of(bf@);
                proof {
                    if boff != 0 {
                        assert(bfv == bo.push(Ir::MovePtr(boff)));
                    } else {
                        assert(bfv == bo);
                    }
                    assert(lin_instr(ir_of(*inst), sh) == lin_loop_result(sh, bfv));
                }
                let mut dirty = false;
                let mut j: usize = 0;
                while j < bf.len()
                    invariant
                        j <= bf@.len(),
                        bfv == irs_of(bf@),
                        bfv.len() == bf@.len(),
                        !dirty ==> forall|t: int| 0 <= t < j ==> (#[trigger] bfv[t]) is Add,
                        dirty ==> !all_adds(bfv),
                    decreases bf@.len() - j,
                {
                    proof {
                        crate::ir::lemma_irs_of_len(bf@);
                        crate::ir::lemma_irs_of_index(bf@, j as int);
                    }
                    match &bf[j] {
                        Instruction::Add { .. } => {},
                        _ => {
                            proof {
                                assert(!((bfv[j as int]) is Add));
                            }
                            dirty = true;
                        },
                    }
                    j += 1;
                }
                proof {
                    if !dirty {
                        assert(all_adds(bfv));
                    }
                }
                if !dirty {
                    let mut inc: Vec<(i64, i64)> = Vec::new();
                    let mut t: usize = 0;
                    proof {
                        assert(bfv.skip(0) =~= bfv);
                        assert(pairs_of(inc@) =~= Seq::<(int, int)>::empty());
                    }
                    while t < bf.len()
                        invariant
                            t <= bf@.len(),
                            bfv == irs_of(bf@),
                            bfv.len() == bf@.len(),
                            all_adds(bfv),
                            collect_adds(bfv) == collect_from(bfv.skip(t as int), pairs_of(inc@)),
                        decreases bf@.len() - t,
                    {
                        proof {
                            crate::ir::lemma_irs_of_len(bf@);
                            crate::ir::lemma_irs_of_index(bf@, t as int);
                            assert(bfv.skip(t as int)[0] == bfv[t as int]);
                            assert(bfv.skip(t as int).drop_first() =~= bfv.skip(t as int + 1));
                        }
                        match &bf[t] {
                            Instruction::Add { offset, value } => {
                                crate::ir::bump_entry(&mut inc, *offset, *value);
                            },
                            _ => {
                                proof {
                                    assert((bfv[t as int]) is Add);
                                    assert(false);
                                }
                            },
                        }
                        t += 1;
                    }
                    proof {
                        assert(bfv.skip(bf@.len() as int) =~= Seq::<Ir>::empty());
                        assert(collect_adds(bfv) == pairs_of(inc@));
                    }
                    let single = inc.len() == 1;
                    let deg = if single {
                        let (k0, v0) = inc[0];
                        k0 == 0 && is_odd(v0)
                    } else {
                        false
                    };
                    if deg {
                        self.instructions.push(
                            Instruction::Store { offset: self.offset, value: 0 },
                        );
                        proof {
                            assert(pre.push(Ir::Store { offset: sh, value: 0 }) =~= pre
                                + lin_loop_result(sh, bfv).0);
                        }
                        return ;
                    }
                    let hit = lookup_entry(&inc, 0);
                    let linear = match hit {
                        Option::Some(v) => v == -1,
                        Option::None => false,
                    };
                    if linear {
                        self.instructions.push(
                            Instruction::LinearLoop { offset: self.offset, factors: inc },
                        );
                        proof {
                            assert(pre.push(
                                Ir::LinearLoop { offset: sh, factors: collect_adds(bfv) },
                            ) =~= pre + lin_loop_result(sh, bfv).0);
                        }
                        return ;
                    }
                    if self.offset != 0 {
                        let mp = self.offset;
                        self.instructions.push(Instruction::MovePtr(mp));
                        self.instructions.push(Instruction::Loop(bf));
                        self.offset = 0;
                        proof {
                            assert(pre.push(Ir::MovePtr(sh)).push(Ir::Loop(bfv)) =~= pre
                                + lin_loop_result(sh, bfv).0);
                        }
                    } else {
                        self.instructions.push(Instruction::Loop(bf));
                        self.offset = 0;
                        proof {
                            assert(pre.push(Ir::Loop(bfv)) =~= pre + lin_loop_result(sh, bfv).0);
                        }
                    }
                } else {
                    if self.offset != 0 {
                        let mp = self.offset;
                        self.instructions.push(Instruction::MovePtr(mp));
                        self.instructions.push(Instruction::Loop(bf));
                        self.offset = 0;
                        proof {
                            assert(pre.push(Ir::MovePtr(sh)).push(Ir::Loop(bfv)) =~= pre
                                + lin_loop_result(sh, bfv).0);
                        }
                    } else {
                        self.instructions.push(Instruction::Loop(bf));
                        self.offset = 0;
                        proof {
                            assert(pre.push(Ir::Loop(bfv)) =~= pre + lin_loop_result(sh, bfv).0);
                        }
                    }
                }
            },
        }
    }
}

/// Shadows stay 64-bit values throughout the pass.
proof fn lemma_lin_shadow_range(p: Seq<Ir>, off: int)
    requires
        -0x8000_0000_0000_0000 <= off < 0x8000_0000_0000_0000,
    ensures
        -0x8000_0000_0000_0000 <= lin_seq(p, off).1 < 0x8000_0000_0000_0000,
    decreases irs_size(p),
{
    if p.len() > 0 {
        let r0 = lin_instr(p[0], off);
        assert(-0x8000_0000_0000_0000 <= r0.1 < 0x8000_0000_0000_0000) by {
            match p[0] {
                Ir::MovePtr(d) => {
                    lemma_wrap_bounds(off + d);
                },
                _ => {},
            }
        }
        lemma_lin_shadow_range(p.drop_first(), r0.1);
    }
}

proof fn lemma_wrap_bounds(x: int)
    ensures
        -0x8000_0000_0000_0000 <= wrap_i64(x) < 0x8000_0000_0000_0000,
{
    vstd::arithmetic::div_mod::lemma_mod_division_less_than_divisor(
        x + 0x8000_0000_0000_0000,
        0x1_0000_0000_0000_0000,
    );
    vstd::arithmetic::div_mod::lemma_mod_bound(
        x + 0x8000_0000_0000_0000,
        0x1_0000_0000_0000_0000,
    );
}

/// Running the pass over a concatenation runs it over each part in turn,
/// threading the shadow.
proof fn lemma_lin_seq_append(a: Seq<Ir>, b: Seq<Ir>, off: int)
    ensures
        lin_seq(a + b, off).0 == lin_seq(a, off).0 + lin_seq(b, lin_seq(a, off).1).0,
        lin_seq(a + b, off).1 == lin_seq(b, lin_seq(a, off).1).1,
    decreases irs_size(a),
{
    if a.len() == 0 {
        assert(a + b =~= b);
        assert(lin_seq(a, off).0 + lin_seq(b, off).0 =~= lin_seq(b, off).0);
    } else {
        assert((a + b)[0] == a[0]);
        assert((a + b).drop_first() =~= a.drop_first() + b);
        let r0 = lin_instr(a[0], off);
        lemma_lin_seq_append(a.drop_first(), b, r0.1);
        assert(lin_seq(a + b, off).0 =~= lin_seq(a, off).0 + lin_seq(b, lin_seq(a, off).1).0);
    }
}

/// The pass over a one-instruction sequence is the pass over that
/// instruction.
proof fn lemma_lin_seq_single(x: Ir, off: int)
    ensures
        lin_seq(seq![x], off).0 == lin_instr(x, off).0,
        lin_seq(seq![x], off).1 == lin_instr(x, off).1,
{
    assert(seq![x].len() == 1);
    assert(seq![x][0] == x);
    assert(seq![x].drop_first() =~= Seq::<Ir>::empty());
    let r0 = lin_instr(x, off);
    assert(lin_seq(Seq::<Ir>::empty(), r0.1) == (Seq::<Ir>::empty(), r0.1));
    assert(lin_seq(seq![x], off).1 == r0.1);
    assert(lin_seq(seq![x], off).0 == r0.0 + Seq::<Ir>::empty());
    assert(r0.0 + Seq::<Ir>::empty() =~= r0.0);
}

/// What one instruction emits is already fixed: a second pass over it, from
/// shadow zero, re-emits it unchanged and ends at shadow zero.
proof fn lemma_lin_instr_fixed(i: Ir, off: int)
    requires
        -0x8000_0000_0000_0000 <= off < 0x8000_0000_0000_0000,
    ensures
        lin_seq(lin_instr(i, off).0, 0) == (lin_instr(i, off).0, 0int),
    decreases ir_size(i),
{
    let chunk = lin_instr(i, off).0;
    match i {
        Ir::Nop => {
            assert(lin_seq(chunk, 0) == (chunk, 0int));
        },
        Ir::Add { offset, value } => {
            lemma_wrap_bounds(offset + off);
            crate::lemma_wrap_small(wrap_i64(offset + off) + 0);
            let x = Ir::Add { offset: wrap_i64(offset + off), value: value };
            lemma_lin_seq_single(x, 0);
            assert(lin_instr(x, 0).0 =~= chunk);
        },
        Ir::Store { offset, value } => {
            lemma_wrap_bounds(offset + off);
            crate::lemma_wrap_small(wrap_i64(offset + off) + 0);
            let x = Ir::Store { offset: wrap_i64(offset + off), value: value };
            lemma_lin_seq_single(x, 0);
            assert(lin_instr(x, 0).0 =~= chunk);
        },
        Ir::LinearLoop { offset, factors } => {
            lemma_lin_seq_single(i, 0);
            assert(lin_instr(i, 0).0 =~= chunk);
        },
        Ir::MovePtr(d) => {
            assert(lin_seq(chunk, 0) == (chunk, 0int));
        },
        Ir::Read(o) => {
            lemma_wrap_bounds(o + off);
            crate::lemma_wrap_small(wrap_i64(o + off) + 0);
            let x = Ir::Read(wrap_i64(o + off));
            lemma_lin_seq_single(x, 0);
            assert(lin_instr(x, 0).0 =~= chunk);
        },
        Ir::Write(o) => {
            lemma_wrap_bounds(o + off);
            crate::lemma_wrap_small(wrap_i64(o + off) + 0);
            let x = Ir::Write(wrap_i64(o + off));
            lemma_lin_seq_single(x, 0);
            assert(lin_instr(x, 0).0 =~= chunk);
        },
        Ir::Loop(b) => {
            let r = lin_seq(b, 0);
            let bo = r.0;
            let boff = r.1;
            lemma_lin_seq_fixed(b, 0);
            lemma_lin_shadow_range(b, 0);
            let bf = if boff != 0 {
                bo.push(Ir::MovePtr(boff))
            } else {
                bo
            };
            // a second pass over the flattened body reproduces it
            assert(lin_seq(bf, 0).0 == bo && lin_seq(bf, 0).1 == boff) by {
                if boff != 0 {
                    assert(bf =~= bo + seq![Ir::MovePtr(boff)]);
                    lemma_lin_seq_append(bo, seq![Ir::MovePtr(boff)], 0);
                    lemma_lin_seq_single(Ir::MovePtr(boff), 0int);
                    crate::lemma_wrap_small(0 + boff);
                    assert(lin_instr(Ir::MovePtr(boff), 0int).1 == boff);
                    assert(bo + Seq::<Ir>::empty() =~= bo);
                } else {
                    assert(lin_seq(bf, 0) == (bo, 0int));
                }
            }
            assert(lin_instr(i, off) == lin_loop_result(off, bf));
            let deg = all_adds(bf) && collect_adds(bf).len() == 1 && collect_adds(bf)[0].0 == 0
                && collect_adds(bf)[0].1 % 2 == 1;
            let linear = all_adds(bf) && !deg && map_lookup(collect_adds(bf), 0)
                == Option::Some(-1int);
            if deg {
                assert(chunk == seq![Ir::Store { offset: off, value: 0 }]);
                crate::lemma_wrap_small(off + 0);
                let x = Ir::Store { offset: off, value: 0 };
                lemma_lin_seq_single(x, 0);
                assert(lin_instr(x, 0int).0 =~= seq![Ir::Store { offset: wrap_i64(off + 0), value: 0 }]);
                assert(lin_instr(x, 0int).0 =~= chunk);
            } else if linear {
                assert(chunk == seq![Ir::LinearLoop { offset: off, factors: collect_adds(bf) }]);
                lemma_lin_seq_single(chunk[0], 0);
                assert(lin_instr(chunk[0], 0int).0 =~= chunk);
            } else {
                // the loop is kept; a second pass meets the same flattened
                // body and keeps it again
                assert(lin_loop_result(off, bf).1 == 0);
                if off != 0 {
                    assert(chunk =~= seq![Ir::MovePtr(off)] + seq![Ir::Loop(bf)]);
                    lemma_lin_seq_append(seq![Ir::MovePtr(off)], seq![Ir::Loop(bf)], 0);
                    lemma_lin_seq_single(Ir::MovePtr(off), 0int);
                    crate::lemma_wrap_small(0 + off);
                    assert(lin_seq(seq![Ir::MovePtr(off)], 0int).1 == off);
                    lemma_lin_seq_single(Ir::Loop(bf), off);
                    assert(lin_instr(Ir::Loop(bf), off) == lin_loop_result(off, bf));
                    assert(lin_seq(chunk, 0).0 =~= Seq::<Ir>::empty() + lin_loop_result(
                        off,
                        bf,
                    ).0);
                    assert(lin_seq(chunk, 0).0 =~= chunk);
                } else {
                    assert(chunk =~= seq![Ir::Loop(bf)]);
                    lemma_lin_seq_single(Ir::Loop(bf), 0int);
                    assert(lin_instr(Ir::Loop(bf), 0int) == lin_loop_result(0int, bf));
                    assert(lin_seq(chunk, 0).0 =~= lin_loop_result(0int, bf).0);
                    assert(lin_seq(chunk, 0).0 =~= chunk);
                }
            }
        },
    }
}

/// What the pass emits is already fixed: a second pass over it, from shadow
/// zero, re-emits it unchanged and ends at shadow zero.
proof fn lemma_lin_seq_fixed(p: Seq<Ir>, off: int)
    requires
        -0x8000_0000_0000_0000 <= off < 0x8000_0000_0000_0000,
    ensures
        lin_seq(lin_seq(p, off).0, 0) == (lin_seq(p, off).0, 0int),
    decreases irs_size(p),
{
    if p.len() == 0 {
    } else {
        let r0 = lin_instr(p[0], off);
        lemma_lin_instr_fixed(p[0], off);
        assert(-0x8000_0000_0000_0000 <= r0.1 < 0x8000_0000_0000_0000) by {
            match p[0] {
                Ir::MovePtr(d) => {
                    lemma_wrap_bounds(off + d);
                },
                _ => {},
            }
        }
        lemma_lin_seq_fixed(p.drop_first(), r0.1);
        let r1 = lin_seq(p.drop_first(), r0.1);
        lemma_lin_seq_append(r0.0, r1.0, 0);
        assert(lin_seq(p, off).0 == r0.0 + r1.0);
        assert(lin_seq(lin_seq(p, off).0, 0).0 =~= r0.0 + r1.0);
    }
}

/// Pass idempotence: running the offset-propagation and linearization pass
/// over its own output changes nothing.
pub proof fn lemma_lin_pass_idempotent(p: Seq<Ir>)
    ensures
        lin_pass(lin_pass(p)) == lin_pass(p),
{
    lemma_lin_seq_fixed(p, 0);
}

} // verus!
