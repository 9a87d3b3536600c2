use vstd::prelude::*;
use crate::ir::{group_ir_lemmas, ir_of, irs_of, ir_size, irs_size, lemma_irs_size_index, pairs_of, Instruction, Ir};
use crate::options::{cell_modulus, cell_size_supported, CellSize, Options};
use crate::{u64_clip, wrap_i64};

verus! {

/// The machine the intermediate representation runs on: the tape, the cell
/// pointer, the input not yet read, and the output written so far.
pub struct Mach {
    pub tape: Seq<int>,
    pub ptr: int,
    pub inp: Seq<u8>,
    pub out: Seq<u8>,
}

/// The tape cell a pointer/offset pair addresses: the 64-bit-wrapped sum,
/// reinterpreted as unsigned, reduced by the tape size.
pub open spec fn tape_index(ptr: int, off: int, n: int) -> int {
    u64_clip(wrap_i64(ptr + off)) % n
}

/// A machine state is well formed for modulus `mo` and tape size `n` when the
/// tape has `n` cells, each a residue modulo `mo`, and the pointer is a
/// 64-bit value.
pub open spec fn mach_wf(m: Mach, mo: int, n: int) -> bool {
    &&& m.tape.len() == n
    &&& forall|i: int| 0 <= i < n ==> 0 <= #[trigger] m.tape[i] < mo
    &&& -0x8000_0000_0000_0000 <= m.ptr < 0x8000_0000_0000_0000
}

/// Applies the multiply-add updates of a `LinearLoop` in factor order:
/// each `(o, f)` adds `mult * f` to the cell at `goff + o`, modulo `mo`.
pub open spec fn lin_apply(
    fs: Seq<(int, int)>,
    tape: Seq<int>,
    ptr: int,
    goff: int,
    mult: int,
    mo: int,
    n: int,
) -> Seq<int>
    decreases fs,
{
    if fs.len() == 0 {
        tape
    } else {
        let i = tape_index(ptr, fs[0].0 + goff, n);
        let t1 = tape.update(i, (tape[i] + mult * (fs[0].1 % mo)) % mo);
        lin_apply(fs.drop_first(), t1, ptr, goff, mult, mo, n)
    }
}

/// One step of the interpreter on a single instruction.  `fuel` bounds how
/// often loops may repeat; `None` reports that it ran out.
pub open spec fn interp_one(i: Ir, m: Mach, mo: int, n: int, fuel: nat) -> Option<Mach>
    decreases fuel, ir_size(i),
{
    match i {
        Ir::Nop => Option::Some(m),
        Ir::Add { offset, value } => {
            let idx = tape_index(m.ptr, offset, n);
            Option::Some(Mach { tape: m.tape.update(idx, (m.tape[idx] + value) % mo), ..m })
        },
        Ir::Store { offset, value } => {
            let idx = tape_index(m.ptr, offset, n);
            Option::Some(Mach { tape: m.tape.update(idx, value % mo), ..m })
        },
        Ir::MovePtr(d) => Option::Some(Mach { ptr: wrap_i64(m.ptr + d), ..m }),
        Ir::Read(o) => {
            let idx = tape_index(m.ptr, o, n);
            if m.inp.len() > 0 {
                Option::Some(
                    Mach {
                        tape: m.tape.update(idx, (m.inp[0] as int) % mo),
                        inp: m.inp.drop_first(),
                        ..m
                    },
                )
            } else {
                Option::Some(Mach { tape: m.tape.update(idx, 0), ..m })
            }
        },
        Ir::Write(o) => {
            let idx = tape_index(m.ptr, o, n);
            Option::Some(Mach { out: m.out.push((m.tape[idx] % 256) as u8), ..m })
        },
        Ir::LinearLoop { offset, factors } => {
            let cidx = tape_index(m.ptr, offset, n);
            let mult = m.tape[cidx];
            let t1 = lin_apply(factors, m.tape, m.ptr, offset, mult, mo, n);
            Option::Some(Mach { tape: t1.update(cidx, 0), ..m })
        },
        Ir::Loop(body) => {
            let cidx = tape_index(m.ptr, 0, n);
            if m.tape[cidx] == 0 {
                Option::Some(m)
            } else if fuel == 0 {
                Option::None
            } else {
                match interp_seq(body, m, mo, n, (fuel - 1) as nat) {
                    Option::Some(m1) => interp_one(i, m1, mo, n, (fuel - 1) as nat),
                    Option::None => Option::None,
                }
            }
        },
    }
}

/// Runs the interpreter over an instruction sequence, left to right.
pub open spec fn interp_seq(p: Seq<Ir>, m: Mach, mo: int, n: int, fuel: nat) -> Option<Mach>
    decreases fuel, irs_size(p),
{
    if p.len() == 0 {
        Option::Some(m)
    } else {
        match interp_one(p[0], m, mo, n, fuel) {
            Option::Some(m1) => interp_seq(p.drop_first(), m1, mo, n, fuel),
            Option::None => Option::None,
        }
    }
}

/// The interpreter touches neither the tape length nor well-formedness:
/// every reachable state keeps `n` cells of residues and a 64-bit pointer.
pub proof fn lemma_interp_one_wf(i: Ir, m: Mach, mo: int, n: int, fuel: nat)
    requires
        mach_wf(m, mo, n),
        mo >= 1,
        n >= 1,
    ensures
        match interp_one(i, m, mo, n, fuel) {
            Option::Some(m1) => mach_wf(m1, mo, n) && m1.out.len() >= m.out.len(),
            Option::None => true,
        },
    decreases fuel, ir_size(i),
{
    match i {
        Ir::LinearLoop { offset, factors } => {
            lemma_lin_apply_wf(factors, m.tape, m.ptr, offset, m.tape[tape_index(m.ptr, offset, n)], mo, n);
        },
        Ir::Loop(body) => {
            let cidx = tape_index(m.ptr, 0, n);
            if m.tape[cidx] == 0 {
            } else if fuel == 0 {
            } else {
                lemma_interp_seq_wf(body, m, mo, n, (fuel - 1) as nat);
                match interp_seq(body, m, mo, n, (fuel - 1) as nat) {
                    Option::Some(m1) => {
                        lemma_interp_one_wf(i, m1, mo, n, (fuel - 1) as nat);
                    },
                    Option::None => {},
                }
            }
        },
        _ => {},
    }
}

pub proof fn lemma_interp_seq_wf(p: Seq<Ir>, m: Mach, mo: int, n: int, fuel: nat)
    requires
        mach_wf(m, mo, n),
        mo >= 1,
        n >= 1,
    ensures
        match interp_seq(p, m, mo, n, fuel) {
            Option::Some(m1) => mach_wf(m1, mo, n) && m1.out.len() >= m.out.len(),
            Option::None => true,
        },
    decreases fuel, irs_size(p),
{
    if p.len() > 0 {
        lemma_interp_one_wf(p[0], m, mo, n, fuel);
        match interp_one(p[0], m, mo, n, fuel) {
            Option::Some(m1) => {
                lemma_interp_seq_wf(p.drop_first(), m1, mo, n, fuel);
            },
            Option::None => {},
        }
    }
}

proof fn lemma_lin_apply_wf(
    fs: Seq<(int, int)>,
    tape: Seq<int>,
    ptr: int,
    goff: int,
    mult: int,
    mo: int,
    n: int,
)
    requires
        mo >= 1,
        n >= 1,
        tape.len() == n,
        forall|i: int| 0 <= i < n ==> 0 <= #[trigger] tape[i] < mo,
    ensures
        lin_apply(fs, tape, ptr, goff, mult, mo, n).len() == n,
        forall|i: int|
            0 <= i < n ==> 0 <= #[trigger] lin_apply(fs, tape, ptr, goff, mult, mo, n)[i] < mo,
    decreases fs,
{
    if fs.len() > 0 {
        let i = tape_index(ptr, fs[0].0 + goff, n);
        let t1 = tape.update(i, (tape[i] + mult * (fs[0].1 % mo)) % mo);
        assert(0 <= i < n) by {
            lemma_tape_index_bounds(ptr, fs[0].0 + goff, n);
        }
        lemma_lin_apply_wf(fs.drop_first(), t1, ptr, goff, mult, mo, n);
    }
}

/// A tape index is always within the tape.
pub proof fn lemma_tape_index_bounds(ptr: int, off: int, n: int)
    requires
        n >= 1,
    ensures
        0 <= tape_index(ptr, off, n) < n,
{
}

/// A loop over a zero cell is a no-op.
proof fn lemma_loop_zero(body: Seq<Ir>, m: Mach, mo: int, n: int, f: nat)
    requires
        m.tape[tape_index(m.ptr, 0, n)] == 0,
    ensures
        interp_one(Ir::Loop(body), m, mo, n, f) == Option::Some(m),
{
}

/// A loop over a non-zero cell with no fuel left runs out.
proof fn lemma_loop_out(body: Seq<Ir>, m: Mach, mo: int, n: int)
    requires
        m.tape[tape_index(m.ptr, 0, n)] != 0,
    ensures
        interp_one(Ir::Loop(body), m, mo, n, 0) == Option::None::<Mach>,
{
}

/// A loop over a non-zero cell runs its body once, then repeats with one
/// less unit of fuel.
proof fn lemma_loop_step(body: Seq<Ir>, m: Mach, mo: int, n: int, f: nat)
    requires
        m.tape[tape_index(m.ptr, 0, n)] != 0,
        f >= 1,
    ensures
        interp_one(Ir::Loop(body), m, mo, n, f) == match interp_seq(
            body,
            m,
            mo,
            n,
            (f - 1) as nat,
        ) {
            Option::Some(m1) => interp_one(Ir::Loop(body), m1, mo, n, (f - 1) as nat),
            Option::None => Option::None,
        },
{
}

/// Computes the tape cell addressed by the pointer and an offset, as the
/// hardware would: 64-bit wrap-around, then reduction by the tape size.
pub fn tape_pos(ptr: i64, off: i64, len: usize) -> (r: usize)
    requires
        len >= 1,
    ensures
        r == tape_index(ptr as int, off as int, len as int),
        r < len,
{
    let p = ptr.wrapping_add(off);
    let u: u64 = if p >= 0 {
        p as u64
    } else {
        ((p as i128) + 0x1_0000_0000_0000_0000i128) as u64
    };
    proof {
        assert(u == u64_clip(wrap_i64(ptr + off)));
    }
    (u % (len as u64)) as usize
}

/// Adds a signed value to a cell residue, modulo `md`.
pub fn cell_add(a: u64, v: i64, md: u128) -> (r: u64)
    requires
        1 <= md <= 0x1_0000_0000_0000_0000,
        a < md,
    ensures
        r == (a + v) % (md as int),
{
    let res = residue(v, md);
    let s = ((a as u128) + res) % md;
    proof {
        vstd::arithmetic::div_mod::lemma_add_mod_noop_right(a as int, v as int, md as int);
    }
    s as u64
}

/// Stores a signed value into a cell as its residue modulo `md`.
pub fn cell_of_value(v: i64, md: u128) -> (r: u64)
    requires
        1 <= md <= 0x1_0000_0000_0000_0000,
    ensures
        r == (v as int) % (md as int),
{
    let res = residue(v, md);
    res as u64
}

/// Adds `mult * f` to a cell residue, modulo `md`, reading the factor as a
/// residue first, as a `LinearLoop` entry does.
pub fn cell_madd(a: u64, mult: u64, f: i64, md: u128) -> (r: u64)
    requires
        1 <= md <= 0x1_0000_0000_0000_0000,
        a < md,
        mult < md,
    ensures
        r == (a + mult * ((f as int) % (md as int))) % (md as int),
{
    let res = residue(f, md);
    proof {
        let big: int = 0x1_0000_0000_0000_0000;
        assert((mult as int) * (res as int) < big * big) by (nonlinear_arith)
            requires
                0 <= (mult as int) && (mult as int) < big,
                0 <= (res as int) && (res as int) < big,
        ;
    }
    let prod = ((mult as u128) * res) % md;
    let s = ((a as u128) + prod) % md;
    proof {
        vstd::arithmetic::div_mod::lemma_add_mod_noop_right(
            a as int,
            mult as int * ((f as int) % (md as int)),
            md as int,
        );
    }
    s as u64
}

/// Reads a byte into a cell as its residue modulo `md`.
pub fn cell_of_byte(b: u8, md: u128) -> (r: u64)
    requires
        1 <= md <= 0x1_0000_0000_0000_0000,
    ensures
        r == (b as int) % (md as int),
{
    ((b as u128) % md) as u64
}

/// The Euclidean residue of a signed value, in `[0, md)`.
fn residue(v: i64, md: u128) -> (r: u128)
    requires
        1 <= md <= 0x1_0000_0000_0000_0000,
    ensures
        r == (v as int) % (md as int),
        r < md,
{
    if v >= 0 {
        (v as u128) % md
    } else {
        let mag = (-(v as i128)) as u128;
        let rm = mag % md;
        proof {
            assert(mag == -(v as int));
            let mdi = md as int;
            let q = (mag as int) / mdi;
            vstd::arithmetic::div_mod::lemma_fundamental_div_mod(mag as int, mdi);
            assert(mag as int == mdi * q + rm);
            if rm == 0 {
                assert(-(mag as int) == mdi * (-q)) by (nonlinear_arith)
                    requires
                        mag as int == mdi * q + 0,
                ;
                vstd::arithmetic::div_mod::lemma_mod_multiples_basic(-q, mdi);
            } else {
                assert(v as int == mdi * (-q - 1) + (mdi - rm)) by (nonlinear_arith)
                    requires
                        mag as int == mdi * q + rm,
                        v as int == -(mag as int),
                ;
                vstd::arithmetic::div_mod::lemma_fundamental_div_mod_converse_mod(
                    v as int,
                    mdi,
                    -q - 1,
                    mdi - rm,
                );
            }
        }
        if rm == 0 {
            0
        } else {
            md - rm
        }
    }
}

/// The engine that runs a program: the tape, the pointer, the input with a
/// read position, and the output gathered so far.
struct Engine {
    tape: Vec<u64>,
    ptr: i64,
    inp: Vec<u8>,
    pos: usize,
    out: Vec<u8>,
}

impl Engine {
    /// The machine state this engine stands for.
    spec fn mach(&self) -> Mach {
        Mach {
            tape: self.tape@.map_values(|c: u64| c as int),
            ptr: self.ptr as int,
            inp: self.inp@.skip(self.pos as int),
            out: self.out@,
        }
    }

    spec fn wf(&self, md: u128) -> bool {
        &&& self.pos <= self.inp@.len()
        &&& forall|i: int| 0 <= i < self.tape@.len() ==> (#[trigger] self.tape@[i] as int) < md as int
        &&& self.tape@.len() >= 1
    }
}

/// Runs one instruction against the engine, returning `false` exactly where
/// the step-bound `fuel` ran out inside a loop.
#[verifier::rlimit(100)]
#[verifier::loop_isolation(false)]
fn exec_one(eng: &mut Engine, instr: &Instruction, md: u128, fuel: u64) -> (ok: bool)
    requires
        old(eng).wf(md),
        1 <= md <= 0x1_0000_0000_0000_0000,
    ensures
        final(eng).inp@ == old(eng).inp@,
        final(eng).tape@.len() == old(eng).tape@.len(),
        ok <==> interp_one(
            ir_of(*instr),
            old(eng).mach(),
            md as int,
            old(eng).tape@.len() as int,
            fuel as nat,
        ) is Some,
        ok ==> interp_one(
            ir_of(*instr),
            old(eng).mach(),
            md as int,
            old(eng).tape@.len() as int,
            fuel as nat,
        ) == Option::Some(final(eng).mach()) && final(eng).wf(md),
    decreases fuel, ir_size(ir_of(*instr)),
{
    broadcast use group_ir_lemmas;

    let ghost m0 = eng.mach();
    let ghost mdi = md as int;
    let ghost n = eng.tape@.len() as int;
    proof {
        lemma_interp_one_wf(ir_of(*instr), m0, mdi, n, fuel as nat);
    }
    match instr {
        Instruction::Nop => true,
        Instruction::Add { offset, value } => {
            let i = tape_pos(eng.ptr, *offset, eng.tape.len());
            let a = eng.tape[i];
            let v = cell_add(a, *value, md);
            eng.tape.set(i, v);
            proof {
                assert(eng.mach().tape =~= m0.tape.update(
                    tape_index(m0.ptr, *offset as int, n),
                    (m0.tape[tape_index(m0.ptr, *offset as int, n)] + *value as int) % mdi,
                ));
                assert(eng.mach().inp =~= m0.inp);
            }
            true
        },
        Instruction::Store { offset, value } => {
            let i = tape_pos(eng.ptr, *offset, eng.tape.len());
            let v = cell_of_value(*value, md);
            eng.tape.set(i, v);
            proof {
                assert(eng.mach().tape =~= m0.tape.update(
                    tape_index(m0.ptr, *offset as int, n),
                    (*value as int) % mdi,
                ));
                assert(eng.mach().inp =~= m0.inp);
            }
            true
        },
        Instruction::MovePtr(d) => {
            eng.ptr = crate::wadd(eng.ptr, *d);
            proof {
                assert(eng.mach().tape =~= m0.tape);
                assert(eng.mach().inp =~= m0.inp);
            }
            true
        },
        Instruction::Read(o) => {
            let i = tape_pos(eng.ptr, *o, eng.tape.len());
            if eng.pos < eng.inp.len() {
                let b = eng.inp[eng.pos];
                eng.pos = eng.pos + 1;
                let v = cell_of_byte(b, md);
                eng.tape.set(i, v);
                proof {
                    assert(m0.inp.len() > 0);
                    assert(b == m0.inp[0]);
                    assert(eng.mach().tape =~= m0.tape.update(
                        tape_index(m0.ptr, *o as int, n),
                        (b as int) % mdi,
                    ));
                    assert(eng.mach().inp =~= m0.inp.drop_first());
                }
            } else {
                eng.tape.set(i, 0);
                proof {
                    assert(m0.inp.len() == 0);
                    assert(eng.mach().tape =~= m0.tape.update(tape_index(m0.ptr, *o as int, n), 0));
                    assert(eng.mach().inp =~= m0.inp);
                }
            }
            true
        },
        Instruction::Write(o) => {
            let i = tape_pos(eng.ptr, *o, eng.tape.len());
            let c = eng.tape[i];
            eng.out.push((c % 256) as u8);
            proof {
                assert(c as int == m0.tape[tape_index(m0.ptr, *o as int, n)]);
                assert(eng.mach().out =~= m0.out.push((c as int % 256) as u8));
                assert(eng.mach().tape =~= m0.tape);
                assert(eng.mach().inp =~= m0.inp);
            }
            true
        },
        Instruction::LinearLoop { offset, factors } => {
            let ghost fsv = pairs_of(factors@);
            let ci = tape_pos(eng.ptr, *offset, eng.tape.len());
            let mult = eng.tape[ci];
            let ghost tape0 = eng.mach().tape;
            let mut j: usize = 0;
            proof {
                assert(fsv.skip(0) =~= fsv);
            }
            while j < factors.len()
                invariant
                    j <= factors@.len(),
                    fsv == pairs_of(factors@),
                    1 <= md <= 0x1_0000_0000_0000_0000,
                    eng.wf(md),
                    eng.tape@.len() == tape0.len(),
                    eng.ptr == old(eng).ptr,
                    eng.inp@ == old(eng).inp@,
                    eng.pos == old(eng).pos,
                    eng.out@ == old(eng).out@,
                    (mult as int) < (md as int),
                    lin_apply(fsv, tape0, eng.ptr as int, *offset as int, mult as int, md as int,
                        eng.tape@.len() as int) == lin_apply(
                        fsv.skip(j as int),
                        eng.mach().tape,
                        eng.ptr as int,
                        *offset as int,
                        mult as int,
                        md as int,
                        eng.tape@.len() as int,
                    ),
                decreases factors@.len() - j,
            {
                let (o, f) = factors[j];
                let i = tape_pos_sum(eng.ptr, o, *offset, eng.tape.len());
                let a = eng.tape[i];
                let v = cell_madd(a, mult, f, md);
                let ghost pre = eng.mach().tape;
                eng.tape.set(i, v);
                proof {
                    let rest = fsv.skip(j as int);
                    assert(rest[0] == (o as int, f as int));
                    assert(rest.drop_first() =~= fsv.skip(j as int + 1));
                    assert(eng.mach().tape =~= pre.update(
                        tape_index(eng.ptr as int, o as int + *offset as int,
                            eng.tape@.len() as int),
                        (pre[tape_index(eng.ptr as int, o as int + *offset as int,
                            eng.tape@.len() as int)] + mult as int * ((f as int) % (md as int)))
                            % (md as int),
                    ));
                }
                j += 1;
            }
            proof {
                assert(fsv.skip(factors@.len() as int) =~= Seq::<(int, int)>::empty());
            }
            eng.tape.set(ci, 0);
            proof {
                let cidx = tape_index(m0.ptr, *offset as int, n);
                let t1 = lin_apply(fsv, m0.tape, m0.ptr, *offset as int, mult as int, mdi, n);
                assert(eng.mach().tape =~= t1.update(cidx, 0));
                assert(eng.mach().inp =~= m0.inp);
            }
            true
        },
        Instruction::Loop(body) => {
            proof {
                assert(ir_of(*instr) == Ir::Loop(irs_of(body@)));
            }
            exec_loop(eng, body, md, fuel)
        },
    }
}

/// Runs a `Loop` against the engine: repeats the body while the cell under
/// the pointer is not zero, spending one unit of `fuel` per iteration.
#[verifier::rlimit(100)]
fn exec_loop(eng: &mut Engine, body: &Vec<Instruction>, md: u128, fuel: u64) -> (ok: bool)
    requires
        old(eng).wf(md),
        1 <= md <= 0x1_0000_0000_0000_0000,
    ensures
        final(eng).inp@ == old(eng).inp@,
        final(eng).tape@.len() == old(eng).tape@.len(),
        ok <==> interp_one(
            Ir::Loop(irs_of(body@)),
            old(eng).mach(),
            md as int,
            old(eng).tape@.len() as int,
            fuel as nat,
        ) is Some,
        ok ==> interp_one(
            Ir::Loop(irs_of(body@)),
            old(eng).mach(),
            md as int,
            old(eng).tape@.len() as int,
            fuel as nat,
        ) == Option::Some(final(eng).mach()) && final(eng).wf(md),
    decreases fuel, irs_size(irs_of(body@)),
{
    let ghost l = Ir::Loop(irs_of(body@));
    let ghost m0 = eng.mach();
    let ghost mdi = md as int;
    let ghost n = eng.tape@.len() as int;
    let mut f = fuel;
    loop
        invariant
            eng.wf(md),
            1 <= md <= 0x1_0000_0000_0000_0000,
            eng.tape@.len() == n,
            eng.inp@ == old(eng).inp@,
            f <= fuel,
            l == Ir::Loop(irs_of(body@)),
            m0 == old(eng).mach(),
            mdi == md as int,
            n == old(eng).tape@.len() as int,
            interp_one(l, m0, mdi, n, fuel as nat) == interp_one(
                l,
                eng.mach(),
                mdi,
                n,
                f as nat,
            ),
        ensures
            eng.wf(md),
            eng.tape@.len() == n,
            eng.inp@ == old(eng).inp@,
            interp_one(l, m0, mdi, n, fuel as nat) == Option::Some(eng.mach()),
        decreases f,
    {
        let ci = tape_pos(eng.ptr, 0, eng.tape.len());
        let c = eng.tape[ci];
        if c == 0 {
            proof {
                assert(eng.mach().tape[tape_index(eng.mach().ptr, 0, n)] == 0);
                lemma_loop_zero(irs_of(body@), eng.mach(), mdi, n, f as nat);
            }
            break;
        }
        if f == 0 {
            proof {
                assert(eng.mach().tape[tape_index(eng.mach().ptr, 0, n)] != 0);
                lemma_loop_out(irs_of(body@), eng.mach(), mdi, n);
            }
            return false;
        }
        f = f - 1;
        let ghost mcur = eng.mach();
        proof {
            assert(mcur.tape[tape_index(mcur.ptr, 0, n)] != 0);
            lemma_loop_step(irs_of(body@), mcur, mdi, n, (f + 1) as nat);
        }
        let ok2 = exec_seq(eng, body, md, f);
        if !ok2 {
            proof {
                assert(interp_seq(irs_of(body@), mcur, mdi, n, f as nat) is None);
                assert(interp_one(l, mcur, mdi, n, (f + 1) as nat) is None);
            }
            return false;
        }
        proof {
            assert(interp_seq(irs_of(body@), mcur, mdi, n, f as nat) == Option::Some(eng.mach()));
            assert(interp_one(l, mcur, mdi, n, (f + 1) as nat) == interp_one(
                l,
                eng.mach(),
                mdi,
                n,
                f as nat,
            ));
        }
    }
    true
}

/// The tape cell a `LinearLoop` entry addresses: pointer plus entry offset
/// plus loop offset, each sum wrapping.
fn tape_pos_sum(ptr: i64, off: i64, goff: i64, len: usize) -> (r: usize)
    requires
        len >= 1,
    ensures
        r == tape_index(ptr as int, off as int + goff as int, len as int),
        r < len,
{
    let p1 = crate::wadd(ptr, off);
    proof {
        crate::lemma_wrap_add(ptr as int + off as int, goff as int);
    }
    tape_pos(p1, goff, len)
}

/// Runs an instruction sequence against the engine, returning `false`
/// exactly where the step bound ran out.
#[verifier::loop_isolation(false)]
fn exec_seq(eng: &mut Engine, instrs: &Vec<Instruction>, md: u128, fuel: u64) -> (ok: bool)
    requires
        old(eng).wf(md),
        1 <= md <= 0x1_0000_0000_0000_0000,
    ensures
        final(eng).inp@ == old(eng).inp@,
        final(eng).tape@.len() == old(eng).tape@.len(),
        ok <==> interp_seq(
            irs_of(instrs@),
            old(eng).mach(),
            md as int,
            old(eng).tape@.len() as int,
            fuel as nat,
        ) is Some,
        ok ==> interp_seq(
            irs_of(instrs@),
            old(eng).mach(),
            md as int,
            old(eng).tape@.len() as int,
            fuel as nat,
        ) == Option::Some(final(eng).mach()) && final(eng).wf(md),
    decreases fuel, irs_size(irs_of(instrs@)),
{
    broadcast use group_ir_lemmas;

    let ghost irs = irs_of(instrs@);
    let ghost m0 = eng.mach();
    let ghost mdi = md as int;
    let ghost n = eng.tape@.len() as int;
    let mut i: usize = 0;
    proof {
        assert(irs.skip(0) =~= irs);
    }
    while i < instrs.len()
        invariant
            i <= instrs@.len(),
            irs == irs_of(instrs@),
            irs.len() == instrs@.len(),
            1 <= md <= 0x1_0000_0000_0000_0000,
            eng.wf(md),
            eng.tape@.len() == n,
            eng.inp@ == old(eng).inp@,
            interp_seq(irs, m0, mdi, n, fuel as nat) == interp_seq(
                irs.skip(i as int),
                eng.mach(),
                mdi,
                n,
                fuel as nat,
            ),
        decreases instrs@.len() - i,
    {
        let ghost mcur = eng.mach();
        let ghost rest = irs.skip(i as int);
        proof {
            assert(rest[0] == irs[i as int]);
            assert(rest.drop_first() =~= irs.skip(i as int + 1));
            lemma_irs_size_index(irs, i as int);
        }
        proof {
            crate::ir::lemma_irs_of_len(instrs@);
            crate::ir::lemma_irs_of_index(instrs@, i as int);
        }
        let ok2 = exec_one(eng, &instrs[i], md, fuel);
        if !ok2 {
            proof {
                assert(irs[i as int] == ir_of(instrs@[i as int]));
                assert(interp_one(irs[i as int], mcur, mdi, n, fuel as nat) is None);
                assert(interp_seq(rest, mcur, mdi, n, fuel as nat) is None);
            }
            return false;
        }
        i += 1;
    }
    proof {
        assert(irs.skip(instrs@.len() as int) =~= Seq::<Ir>::empty());
    }
    true
}

/// What a run reports: the output of a program that finished, that the step
/// bound ran out, or that the options name a cell size or tape size the
/// interpreter does not serve.
pub enum RunOutcome {
    Finished(Vec<u8>),
    OutOfFuel,
    Unsupported,
}

/// The options the interpreter serves: a supported cell size and a tape of
/// at least one cell.
pub open spec fn run_supported(opts: Options) -> bool {
    cell_size_supported(opts.cell_size) && opts.memory_size >= 1
}

/// The machine a run starts from: a zeroed tape, the pointer at zero, the
/// whole input pending, no output.
pub open spec fn init_mach(opts: Options, input: Seq<u8>) -> Mach {
    Mach {
        tape: Seq::new(opts.memory_size as nat, |i: int| 0),
        ptr: 0,
        inp: input,
        out: Seq::empty(),
    }
}

/// Computes `2^w` for widths up to 64.
fn pow2_u128(w: usize) -> (r: u128)
    requires
        w <= 64,
    ensures
        r as int == vstd::arithmetic::power2::pow2(w as nat),
        1 <= r <= 0x1_0000_0000_0000_0000,
{
    proof {
        vstd::arithmetic::power2::lemma2_to64();
        vstd::arithmetic::power2::lemma2_to64_rest();
    }
    let mut m: u128 = 1;
    let mut i: usize = 0;
    while i < w
        invariant
            i <= w,
            w <= 64,
            m as int == vstd::arithmetic::power2::pow2(i as nat),
        decreases w - i,
    {
        proof {
            vstd::arithmetic::power2::lemma2_to64();
            vstd::arithmetic::power2::lemma2_to64_rest();
            vstd::arithmetic::power2::lemma_pow2_adds(i as nat, 1);
            if i as nat + 1 <= 64 {
                if i as nat + 1 < 64 {
                    vstd::arithmetic::power2::lemma_pow2_strictly_increases(i as nat + 1, 64);
                }
            }
        }
        m = m * 2;
        i += 1;
    }
    proof {
        if (w as nat) < 64 {
            vstd::arithmetic::power2::lemma_pow2_strictly_increases(w as nat, 64);
        }
        vstd::arithmetic::power2::lemma_pow2_pos(w as nat);
    }
    m
}

/// The cell modulus an option names, where the interpreter serves it.
fn modulus_of(cs: &CellSize) -> (r: Option<u128>)
    ensures
        match r {
            Option::Some(m) => cell_size_supported(*cs) && m as int == cell_modulus(*cs) && 1 <= m
                <= 0x1_0000_0000_0000_0000,
            Option::None => !cell_size_supported(*cs),
        },
{
    match cs {
        CellSize::Bits(w) => {
            if *w <= 64 {
                Option::Some(pow2_u128(*w))
            } else {
                Option::None
            }
        },
        CellSize::Modular(m) => {
            if *m >= 1 {
                Option::Some(*m as u128)
            } else {
                Option::None
            }
        },
        CellSize::Int => Option::Some(0x1_0000_0000_0000_0000u128),
    }
}

/// Runs a program under the reference interpreter against the given options,
/// reading from `input` (end of input reads as zero) and writing each
/// output byte (the low eight bits of the written cell).  `fuel` bounds how
/// often loops may repeat; a run that exceeds it reports `OutOfFuel`.
pub fn run(instructions: &Vec<Instruction>, opts: &Options, input: &Vec<u8>, fuel: u64) -> (r:
    RunOutcome)
    ensures
        !run_supported(*opts) ==> r is Unsupported,
        run_supported(*opts) ==> match interp_seq(
            irs_of(instructions@),
            init_mach(*opts, input@),
            cell_modulus(opts.cell_size),
            opts.memory_size as int,
            fuel as nat,
        ) {
            Option::Some(m) => r matches RunOutcome::Finished(out) && out@ == m.out,
            Option::None => r is OutOfFuel,
        },
{
    let md_opt = modulus_of(&opts.cell_size);
    let md = match md_opt {
        Option::Some(m) => m,
        Option::None => {
            return RunOutcome::Unsupported;
        },
    };
    if opts.memory_size == 0 {
        return RunOutcome::Unsupported;
    }
    let tape = vec![0u64; opts.memory_size];
    let mut inp: Vec<u8> = Vec::new();
    let mut k: usize = 0;
    while k < input.len()
        invariant
            k <= input@.len(),
            inp@ == input@.take(k as int),
        decreases input@.len() - k,
    {
        inp.push(input[k]);
        proof {
            assert(input@.take(k as int).push(input@[k as int]) =~= input@.take(k as int + 1));
        }
        k += 1;
    }
    proof {
        assert(input@.take(input@.len() as int) =~= input@);
    }
    let mut eng = Engine { tape, ptr: 0, inp, pos: 0, out: Vec::new() };
    proof {
        assert(eng.mach().tape =~= init_mach(*opts, input@).tape);
        assert(eng.mach().inp =~= input@);
        assert(eng.mach().out =~= Seq::<u8>::empty());
        assert(eng.mach() == init_mach(*opts, input@));
        assert(forall|i: int|
            0 <= i < eng.tape@.len() ==> (#[trigger] eng.tape@[i] as int) == 0);
    }
    let ok = exec_seq(&mut eng, instructions, md, fuel);
    if ok {
        RunOutcome::Finished(eng.out)
    } else {
        RunOutcome::OutOfFuel
    }
}

} // verus!
