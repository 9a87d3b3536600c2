use vstd::prelude::*;
use crate::interpret::{interp_one, interp_seq, lin_apply, mach_wf, tape_index, Mach};
use crate::ir::{map_bump, map_lookup, sorted_keys, Ir};
use crate::optimize::{all_adds, collect_adds, collect_from};
use crate::parser::adds_emitted;
use vstd::arithmetic::div_mod::{
    lemma_add_mod_noop_right, lemma_mod_add_multiples_vanish, lemma_small_mod,
};

verus! {

/// The net addition a list of multiply-add entries makes to the cell at
/// index `i`, per unit of the multiplier: the sum of the residues of the
/// factors whose offsets address that cell.
pub open spec fn net_at(fs: Seq<(int, int)>, ptr: int, n: int, mo: int, i: int) -> int
    decreases fs,
{
    if fs.len() == 0 {
        0
    } else {
        (if tape_index(ptr, fs[0].0, n) == i {
            fs[0].1 % mo
        } else {
            0
        }) + net_at(fs.drop_first(), ptr, n, mo, i)
    }
}

/// The closed form of `lin_apply`: each cell gains the multiplier times its
/// net addition, modulo `mo`.
proof fn lemma_lin_apply_form(
    fs: Seq<(int, int)>,
    tape: Seq<int>,
    ptr: int,
    mult: int,
    mo: int,
    n: int,
)
    requires
        mo >= 1,
        n >= 1,
        tape.len() == n,
        forall|i: int| 0 <= i < n ==> 0 <= #[trigger] tape[i] < mo,
    ensures
        lin_apply(fs, tape, ptr, 0, mult, mo, n).len() == n,
        forall|i: int|
            0 <= i < n ==> #[trigger] lin_apply(fs, tape, ptr, 0, mult, mo, n)[i] == (tape[i]
                + mult * net_at(fs, ptr, n, mo, i)) % mo,
    decreases fs,
{
    if fs.len() == 0 {
        assert forall|i: int| 0 <= i < n implies #[trigger] lin_apply(
            fs,
            tape,
            ptr,
            0,
            mult,
            mo,
            n,
        )[i] == (tape[i] + mult * net_at(fs, ptr, n, mo, i)) % mo by {
            assert(net_at(fs, ptr, n, mo, i) == 0);
            lemma_small_mod(0nat, mo as nat);
            lemma_mod_add_multiples_vanish(tape[i] - mo * ((tape[i] / mo)), mo);
            vstd::arithmetic::div_mod::lemma_fundamental_div_mod(tape[i], mo);
            assert(mult * 0 == 0) by (nonlinear_arith);
            assert((tape[i] + mult * 0) % mo == tape[i] % mo);
            assert(tape[i] % mo == tape[i]) by {
                if 0 <= tape[i] < mo {
                    lemma_small_mod(tape[i] as nat, mo as nat);
                }
            }
        }
    } else {
        let o0 = fs[0].0;
        let f0 = fs[0].1;
        let i0 = tape_index(ptr, o0 + 0, n);
        let t1 = tape.update(i0, (tape[i0] + mult * (f0 % mo)) % mo);
        crate::interpret::lemma_tape_index_bounds(ptr, o0 + 0, n);
        assert(forall|i: int| 0 <= i < n ==> 0 <= #[trigger] t1[i] < mo) by {
            vstd::arithmetic::div_mod::lemma_mod_bound(tape[i0] + mult * (f0 % mo), mo);
        }
        lemma_lin_apply_form(fs.drop_first(), t1, ptr, mult, mo, n);
        assert(tape_index(ptr, o0 + 0, n) == tape_index(ptr, o0, n));
        assert forall|i: int| 0 <= i < n implies #[trigger] lin_apply(
            fs,
            tape,
            ptr,
            0,
            mult,
            mo,
            n,
        )[i] == (tape[i] + mult * net_at(fs, ptr, n, mo, i)) % mo by {
            let rest = fs.drop_first();
            assert(lin_apply(fs, tape, ptr, 0, mult, mo, n) == lin_apply(
                rest,
                t1,
                ptr,
                0,
                mult,
                mo,
                n,
            ));
            if i == i0 {
                assert(t1[i] == (tape[i] + mult * (f0 % mo)) % mo);
                assert(lin_apply(rest, t1, ptr, 0, mult, mo, n)[i] == (t1[i] + mult * net_at(
                    rest,
                    ptr,
                    n,
                    mo,
                    i,
                )) % mo);
                lemma_add_mod_noop_right(
                    mult * net_at(rest, ptr, n, mo, i),
                    tape[i] + mult * (f0 % mo),
                    mo,
                );
                assert((t1[i] + mult * net_at(rest, ptr, n, mo, i)) % mo == (tape[i] + mult * (f0
                    % mo) + mult * net_at(rest, ptr, n, mo, i)) % mo);
                assert(mult * (f0 % mo) + mult * net_at(rest, ptr, n, mo, i) == mult * ((f0 % mo)
                    + net_at(rest, ptr, n, mo, i))) by (nonlinear_arith);
                assert(net_at(fs, ptr, n, mo, i) == (f0 % mo) + net_at(rest, ptr, n, mo, i));
            } else {
                assert(t1[i] == tape[i]);
                assert(net_at(fs, ptr, n, mo, i) == net_at(rest, ptr, n, mo, i));
            }
        }
    }
}

/// Executing a body of `Add` instructions applies their residues once:
/// the tape gains each factor at its cell, and nothing else changes.
proof fn lemma_adds_body_once(fs: Seq<(int, int)>, m: Mach, mo: int, n: int, fuel: nat)
    requires
        mo >= 1,
        n >= 1,
        m.tape.len() == n,
    ensures
        interp_seq(adds_emitted(fs), m, mo, n, fuel) == Option::Some(
            Mach { tape: lin_apply(fs, m.tape, m.ptr, 0, 1, mo, n), ..m },
        ),
    decreases fs,
{
    crate::parser::lemma_adds_emitted_len(fs);
    if fs.len() == 0 {
        assert(adds_emitted(fs).len() == 0);
        assert(lin_apply(fs, m.tape, m.ptr, 0, 1, mo, n) == m.tape);
        assert(m == (Mach { tape: m.tape, ..m }));
    } else {
        let body = adds_emitted(fs);
        let o0 = fs[0].0;
        let f0 = fs[0].1;
        assert(body[0] == (Ir::Add { offset: o0, value: f0 }));
        assert(body.drop_first() =~= adds_emitted(fs.drop_first()));
        let i0 = tape_index(m.ptr, o0, n);
        crate::interpret::lemma_tape_index_bounds(m.ptr, o0, n);
        let m1 = Mach { tape: m.tape.update(i0, (m.tape[i0] + f0) % mo), ..m };
        assert(interp_one(body[0], m, mo, n, fuel) == Option::Some(m1));
        lemma_adds_body_once(fs.drop_first(), m1, mo, n, fuel);
        assert(tape_index(m.ptr, o0 + 0, n) == i0);
        assert((m.tape[i0] + 1 * (f0 % mo)) % mo == (m.tape[i0] + f0) % mo) by {
            assert(1 * (f0 % mo) == f0 % mo) by (nonlinear_arith);
            lemma_add_mod_noop_right(m.tape[i0], f0, mo);
        }
        assert(lin_apply(fs, m.tape, m.ptr, 0, 1, mo, n) == lin_apply(
            fs.drop_first(),
            m1.tape,
            m.ptr,
            0,
            1,
            mo,
            n,
        ));
    }
}

/// No entry of the factor list collides with the counter cell, except the
/// counter entry itself.
pub open spec fn counter_free(fs: Seq<(int, int)>, ptr: int, n: int) -> bool {
    forall|j: int|
        0 <= j < fs.len() && (#[trigger] fs[j]).0 != 0 ==> tape_index(ptr, fs[j].0, n)
            != tape_index(ptr, 0, n)
}

/// Under the counter-freedom condition, the net addition at the counter
/// cell is exactly the counter entry's residue.
proof fn lemma_net_at_counter(fs: Seq<(int, int)>, ptr: int, n: int, mo: int)
    requires
        mo >= 1,
        n >= 1,
        sorted_keys(fs),
        counter_free(fs, ptr, n),
    ensures
        match map_lookup(fs, 0) {
            Option::Some(v) => net_at(fs, ptr, n, mo, tape_index(ptr, 0, n)) == v % mo,
            Option::None => net_at(fs, ptr, n, mo, tape_index(ptr, 0, n)) == 0,
        },
    decreases fs,
{
    if fs.len() > 0 {
        let rest = fs.drop_first();
        assert(sorted_keys(rest)) by {
            assert(forall|a: int, b: int|
                0 <= a < b < rest.len() ==> rest[a] == fs[a + 1] && rest[b] == fs[b + 1]);
        }
        assert(counter_free(rest, ptr, n)) by {
            assert(forall|j: int| 0 <= j < rest.len() ==> rest[j] == fs[j + 1]);
        }
        lemma_net_at_counter(rest, ptr, n, mo);
        if fs[0].0 == 0 {
            // a later entry cannot also have key zero
            assert(map_lookup(rest, 0) is None) by {
                lemma_lookup_absent(rest, 0);
            }
        }
    }
}

/// A key below every key of a sorted list is not bound in it.
proof fn lemma_lookup_absent(fs: Seq<(int, int)>, k: int)
    requires
        sorted_keys(fs),
        forall|j: int| 0 <= j < fs.len() ==> k < (#[trigger] fs[j]).0,
    ensures
        map_lookup(fs, k) is None,
    decreases fs,
{
    if fs.len() > 0 {
        assert(fs[0].0 > k);
        let rest = fs.drop_first();
        assert(forall|j: int| 0 <= j < rest.len() ==> rest[j] == fs[j + 1]);
        assert(sorted_keys(rest)) by {
            assert(forall|a: int, b: int|
                0 <= a < b < rest.len() ==> rest[a] == fs[a + 1] && rest[b] == fs[b + 1]);
        }
        lemma_lookup_absent(rest, k);
    }
}

/// Linearization soundness: a loop whose body is the `Add` list of a sorted
/// factor map with counter step minus one, and whose other factors address
/// cells apart from the counter's, runs to exactly the state that the
/// corresponding `LinearLoop` at offset zero produces: every factor cell
/// gains the counter value times its factor, and the counter cell ends at
/// zero.  The loop needs fuel for one iteration per unit of the counter;
/// the `LinearLoop` result does not depend on fuel at all, so the two sides
/// are equal — in particular every later observation, and so the output,
/// agrees.
pub proof fn lemma_linear_loop_sound(fs: Seq<(int, int)>, m: Mach, mo: int, n: int, fuel: nat)
    requires
        mo >= 1,
        n >= 1,
        mach_wf(m, mo, n),
        sorted_keys(fs),
        map_lookup(fs, 0) == Option::Some(-1int),
        counter_free(fs, m.ptr, n),
        fuel >= m.tape[tape_index(m.ptr, 0, n)],
    ensures
        interp_one(Ir::Loop(adds_emitted(fs)), m, mo, n, fuel) == interp_one(
            Ir::LinearLoop { offset: 0, factors: fs },
            m,
            mo,
            n,
            fuel,
        ),
        interp_one(Ir::Loop(adds_emitted(fs)), m, mo, n, fuel) is Some,
    decreases m.tape[tape_index(m.ptr, 0, n)],
{
    let cidx = tape_index(m.ptr, 0, n);
    crate::interpret::lemma_tape_index_bounds(m.ptr, 0, n);
    let v = m.tape[cidx];
    lemma_net_at_counter(fs, m.ptr, n, mo);
    let net0 = net_at(fs, m.ptr, n, mo, cidx);
    assert(net0 == (-1int) % mo);
    lemma_lin_apply_form(fs, m.tape, m.ptr, v, mo, n);
    assert(tape_index(m.ptr, 0int + 0, n) == cidx);
    let lin = lin_apply(fs, m.tape, m.ptr, 0, v, mo, n);
    let goal = Mach { tape: lin.update(cidx, 0), ..m };
    assert(interp_one(Ir::LinearLoop { offset: 0, factors: fs }, m, mo, n, fuel) == Option::Some(
        goal,
    ));
    if v == 0 {
        assert(interp_one(Ir::Loop(adds_emitted(fs)), m, mo, n, fuel) == Option::Some(m));
        assert(goal.tape =~= m.tape) by {
            assert forall|i: int| 0 <= i < n implies goal.tape[i] == m.tape[i] by {
                if i != cidx {
                    assert(lin[i] == (m.tape[i] + 0 * net_at(fs, m.ptr, n, mo, i)) % mo);
                    assert(0 * net_at(fs, m.ptr, n, mo, i) == 0) by (nonlinear_arith);
                    lemma_small_mod(m.tape[i] as nat, mo as nat);
                }
            }
        }
        assert(goal == m);
    } else {
        // one body pass decrements the counter and adds each factor once
        lemma_adds_body_once(fs, m, mo, n, (fuel - 1) as nat);
        let a1 = lin_apply(fs, m.tape, m.ptr, 0, 1, mo, n);
        let m1 = Mach { tape: a1, ..m };
        lemma_lin_apply_form(fs, m.tape, m.ptr, 1, mo, n);
        assert(a1[cidx] == (v + 1 * net0) % mo);
        assert(a1[cidx] == v - 1) by {
            assert(1 * net0 == net0) by (nonlinear_arith);
            assert((-1int) % mo == mo - 1) by {
                lemma_mod_add_multiples_vanish(-1, mo);
                lemma_small_mod((mo - 1) as nat, mo as nat);
            }
            assert((v + (mo - 1)) % mo == v - 1) by {
                lemma_mod_add_multiples_vanish(v - 1, mo);
                lemma_small_mod((v - 1) as nat, mo as nat);
            }
        }
        assert(mach_wf(m1, mo, n)) by {
            assert forall|i: int| 0 <= i < n implies 0 <= #[trigger] m1.tape[i] < mo by {
                assert(a1[i] == (m.tape[i] + 1 * net_at(fs, m.ptr, n, mo, i)) % mo);
                vstd::arithmetic::div_mod::lemma_mod_bound(
                    m.tape[i] + 1 * net_at(fs, m.ptr, n, mo, i),
                    mo,
                );
            }
        }
        assert(m1.tape[tape_index(m1.ptr, 0, n)] == v - 1);
        lemma_linear_loop_sound(fs, m1, mo, n, (fuel - 1) as nat);
        // the loop result after one iteration
        assert(interp_one(Ir::Loop(adds_emitted(fs)), m, mo, n, fuel) == interp_one(
            Ir::Loop(adds_emitted(fs)),
            m1,
            mo,
            n,
            (fuel - 1) as nat,
        ));
        let lin1 = lin_apply(fs, a1, m.ptr, 0, v - 1, mo, n);
        lemma_lin_apply_form(fs, a1, m.ptr, v - 1, mo, n);
        assert(interp_one(Ir::Loop(adds_emitted(fs)), m1, mo, n, (fuel - 1) as nat)
            == Option::Some(Mach { tape: lin1.update(cidx, 0), ..m1 }));
        // composing one pass with v-1 more gives the same cells as v at once
        assert(lin1 =~= lin) by {
            assert forall|i: int| 0 <= i < n implies lin1[i] == lin[i] by {
                let net = net_at(fs, m.ptr, n, mo, i);
                assert(lin1[i] == (a1[i] + (v - 1) * net) % mo);
                assert(a1[i] == (m.tape[i] + 1 * net) % mo);
                lemma_add_mod_noop_right((v - 1) * net, m.tape[i] + 1 * net, mo);
                assert((a1[i] + (v - 1) * net) % mo == (m.tape[i] + 1 * net + (v - 1) * net) % mo);
                assert(1 * net + (v - 1) * net == v * net) by (nonlinear_arith);
                assert(lin[i] == (m.tape[i] + v * net) % mo);
            }
        }
        assert(Mach { tape: lin1.update(cidx, 0), ..m1 } == goal) by {
            assert(lin1.update(cidx, 0) =~= lin.update(cidx, 0));
        }
    }
}

/// Bumping a key above every key of a sorted list appends the binding.
proof fn lemma_map_bump_append(acc: Seq<(int, int)>, k: int, d: int)
    requires
        forall|j: int| 0 <= j < acc.len() ==> (#[trigger] acc[j]).0 < k,
    ensures
        map_bump(acc, k, d) == acc.push((k, d)),
    decreases acc,
{
    if acc.len() == 0 {
        assert(map_bump(acc, k, d) =~= acc.push((k, d)));
    } else {
        assert(acc[0].0 < k);
        assert(forall|j: int|
            0 <= j < acc.drop_first().len() ==> (#[trigger] acc.drop_first()[j]).0 < k) by {
            assert(forall|j: int|
                0 <= j < acc.drop_first().len() ==> acc.drop_first()[j] == acc[j + 1]);
        }
        lemma_map_bump_append(acc.drop_first(), k, d);
        assert(map_bump(acc, k, d) =~= acc.push((k, d)));
    }
}

/// Collecting the `Add` list of a sorted factor map into an accumulator of
/// smaller keys appends the map behind the accumulator.
proof fn lemma_collect_append(fs: Seq<(int, int)>, acc: Seq<(int, int)>)
    requires
        sorted_keys(fs),
        forall|i: int, j: int|
            0 <= i < acc.len() && 0 <= j < fs.len() ==> (#[trigger] acc[i]).0 < (
            #[trigger] fs[j]).0,
    ensures
        collect_from(adds_emitted(fs), acc) == acc + fs,
    decreases fs,
{
    if fs.len() == 0 {
        assert(adds_emitted(fs).len() == 0);
        assert(acc + fs =~= acc);
    } else {
        let body = adds_emitted(fs);
        crate::parser::lemma_adds_emitted_len(fs);
        assert(body[0] == (Ir::Add { offset: fs[0].0, value: fs[0].1 }));
        assert(body.drop_first() =~= adds_emitted(fs.drop_first()));
        assert(forall|j: int| 0 <= j < acc.len() ==> (#[trigger] acc[j]).0 < fs[0].0);
        lemma_map_bump_append(acc, fs[0].0, fs[0].1);
        let acc1 = acc.push((fs[0].0, fs[0].1));
        assert(acc1 =~= acc.push(fs[0]));
        let rest = fs.drop_first();
        assert(sorted_keys(rest)) by {
            assert(forall|a: int, b: int|
                0 <= a < b < rest.len() ==> rest[a] == fs[a + 1] && rest[b] == fs[b + 1]);
        }
        assert(forall|i: int, j: int|
            0 <= i < acc1.len() && 0 <= j < rest.len() ==> (#[trigger] acc1[i]).0 < (
            #[trigger] rest[j]).0) by {
            assert(forall|j: int| 0 <= j < rest.len() ==> rest[j] == fs[j + 1]);
        }
        lemma_collect_append(rest, acc1);
        assert(acc1 + rest =~= acc + fs);
    }
}

/// The linearization pass reads back exactly the factor map whose `Add`
/// list forms a loop body: collecting `adds_emitted(fs)` yields `fs`, and
/// such a body holds only `Add`s.  With a counter entry of minus one the
/// pass therefore replaces the loop with `LinearLoop { factors: fs }`, the
/// instruction `lemma_linear_loop_sound` proves equivalent to the loop.
pub proof fn lemma_collect_of_adds(fs: Seq<(int, int)>)
    requires
        sorted_keys(fs),
    ensures
        collect_adds(adds_emitted(fs)) == fs,
        all_adds(adds_emitted(fs)),
    decreases fs,
{
    lemma_collect_append(fs, Seq::empty());
    assert(Seq::<(int, int)>::empty() + fs =~= fs);
    crate::parser::lemma_adds_emitted_len(fs);
    assert forall|i: int| 0 <= i < adds_emitted(fs).len() implies (#[trigger] adds_emitted(
        fs,
    )[i]) is Add by {
        lemma_adds_emitted_index(fs, i);
    }
}

/// Each entry of a factor map shows up as the matching `Add`.
proof fn lemma_adds_emitted_index(fs: Seq<(int, int)>, i: int)
    requires
        0 <= i < fs.len(),
    ensures
        adds_emitted(fs)[i] == (Ir::Add { offset: fs[i].0, value: fs[i].1 }),
    decreases fs,
{
    crate::parser::lemma_adds_emitted_len(fs);
    if i > 0 {
        lemma_adds_emitted_index(fs.drop_first(), i - 1);
    }
}

} // verus!
