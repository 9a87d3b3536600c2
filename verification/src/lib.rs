//! An optimizing compiler and execution engine for a minimal tape-machine
//! language: eight single-character tokens over a linear tape of cells.
//! The parser fuses runs of trivial tokens into offset-indexed bulk
//! operations; a linearization pass rewrites decrementing loops of pure
//! additions into closed-form multiply-adds; the back ends lower the
//! optimized program to x86-64 machine code, to C, Java or Python source,
//! to a readable dump, or run it under the reference interpreter.

use vstd::prelude::*;

pub mod ir;
pub mod lir;
pub mod numtext;
pub mod optimize;
pub mod options;
pub mod compile;
pub mod dfg;
pub mod formatter;
pub mod interpret;
pub mod parser;
pub mod soundness;
pub mod trans_c;
pub mod trans_java;
pub mod trans_python;
pub mod trans_util;
pub mod trans_zombie_ir;
pub mod transpile_c;

verus! {

/// Signed 64-bit wrap-around of an unbounded integer, the value that
/// two's-complement arithmetic on `i64` produces.
pub open spec fn wrap_i64(x: int) -> int {
    ((x + 0x8000_0000_0000_0000) % 0x1_0000_0000_0000_0000) - 0x8000_0000_0000_0000
}

/// Adds two `i64` values with wrap-around, as the surrounding passes require.
pub fn wadd(a: i64, b: i64) -> (r: i64)
    ensures
        r == wrap_i64(a + b),
{
    proof {
        assert(wrap_i64(a + b) == ((a + b + 0x8000_0000_0000_0000)
            % 0x1_0000_0000_0000_0000) - 0x8000_0000_0000_0000);
    }
    a.wrapping_add(b)
}

/// The value of an `i64` reinterpreted as a `u64`: negative values gain `2^64`.
pub open spec fn u64_clip(x: int) -> int {
    if x >= 0 {
        x
    } else {
        x + 0x1_0000_0000_0000_0000
    }
}

/// Wrapping is idempotent over addition: wrapping an already-wrapped summand
/// changes nothing.
pub proof fn lemma_wrap_add(x: int, y: int)
    ensures
        wrap_i64(wrap_i64(x) + y) == wrap_i64(x + y),
{
    let h = 0x8000_0000_0000_0000int;
    let w = 0x1_0000_0000_0000_0000int;
    vstd::arithmetic::div_mod::lemma_add_mod_noop_right(y + h, x + h, w);
    assert((y + h + (x + h) % w) % w == (y + h + x + h) % w);
    vstd::arithmetic::div_mod::lemma_mod_add_multiples_vanish(x + y + h, w);
    assert((x + y + h + w) % w == (x + y + h) % w);
}

/// A value already in `i64` range wraps to itself.
pub proof fn lemma_wrap_small(x: int)
    requires
        -0x8000_0000_0000_0000 <= x < 0x8000_0000_0000_0000,
    ensures
        wrap_i64(x) == x,
{
    vstd::arithmetic::div_mod::lemma_small_mod((x + 0x8000_0000_0000_0000) as nat,
        0x1_0000_0000_0000_0000nat);
}

} // verus!
