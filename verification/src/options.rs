use vstd::prelude::*;
use crate::numtext::{digits_val, is_u64_numeral, num_body, parse_usize};

verus! {

/// How the tape is addressed: `Trusting` leaves accesses unchecked, `Wrapping`
/// masks every index by the tape size, `Unbounded` conceptually grows on
/// demand (treated as `Wrapping`).
#[derive(PartialEq, Eq, Structural, Clone, Copy, Debug)]
pub enum CellLayout {
    Trusting,
    Wrapping,
    Unbounded,
}

/// The arithmetic of one tape cell: a power-of-two width in bits, a
/// configurable modulus, or a target-language integer (64-bit).
#[derive(PartialEq, Eq, Structural, Clone, Copy, Debug)]
pub enum CellSize {
    Bits(usize),
    Modular(u64),
    Int,
}

/// Options shared by the optimizer, the interpreter, and the back ends.
#[derive(Clone, Copy, Debug)]
pub struct Options {
    pub cell_layout: CellLayout,
    pub memory_size: usize,
    pub cell_size: CellSize,
}

impl Default for Options {
    /// A trusting tape of 65 536 eight-bit cells.
    fn default() -> (r: Options)
        ensures
            r.cell_layout == CellLayout::Trusting,
            r.memory_size == 0x10000,
            r.cell_size == CellSize::Bits(8),
    {
        Options { cell_layout: CellLayout::Trusting, memory_size: 0x10000, cell_size: CellSize::Bits(8) }
    }
}

/// The number of values one cell can hold: `2^w` for a width of `w` bits,
/// the modulus itself in modular mode, `2^64` for `Int`.
pub open spec fn cell_modulus(cs: CellSize) -> int {
    match cs {
        CellSize::Bits(w) => vstd::arithmetic::power2::pow2(w as nat) as int,
        CellSize::Modular(m) => m as int,
        CellSize::Int => 0x1_0000_0000_0000_0000,
    }
}

/// The cell sizes the interpreter serves: widths up to 64 bits, a positive
/// modulus, or `Int`.
pub open spec fn cell_size_supported(cs: CellSize) -> bool {
    match cs {
        CellSize::Bits(w) => w <= 64,
        CellSize::Modular(m) => m >= 1,
        CellSize::Int => true,
    }
}

impl CellLayout {
    /// Reads a tape-addressing mode from its option text: `trusting` or
    /// `wrapping`; everything else is refused.
    pub fn from_str(s: &str) -> (r: Result<CellLayout, &'static str>)
        ensures
            match r {
                Result::Ok(l) => (s@ == "trusting"@ && l == CellLayout::Trusting) || (s@
                    == "wrapping"@ && l == CellLayout::Wrapping),
                Result::Err(m) => s@ != "trusting"@ && s@ != "wrapping"@ && m@
                    == "invalid cell layout"@,
            },
    {
        if str_eq(s, "trusting") {
            Result::Ok(CellLayout::Trusting)
        } else if str_eq(s, "wrapping") {
            Result::Ok(CellLayout::Wrapping)
        } else {
            Result::Err("invalid cell layout")
        }
    }
}

impl CellSize {
    /// Reads a cell size from its option text: a numeral gives the width in
    /// bits, `int` gives `Int`; everything else is refused.
    pub fn from_str(s: &str) -> (r: Result<CellSize, &'static str>)
        ensures
            match r {
                Result::Ok(cs) => (is_u64_numeral(s@) && digits_val(num_body(s@)) <= usize::MAX
                    && cs == CellSize::Bits(digits_val(num_body(s@)) as usize)) || (!(is_u64_numeral(
                    s@,
                ) && digits_val(num_body(s@)) <= usize::MAX) && s@ == "int"@ && cs == CellSize::Int),
                Result::Err(m) => !(is_u64_numeral(s@) && digits_val(num_body(s@)) <= usize::MAX)
                    && s@ != "int"@ && m@ == "invalid cell size"@,
            },
    {
        match parse_usize(s) {
            Option::Some(w) => Result::Ok(CellSize::Bits(w)),
            Option::None => {
                if str_eq(s, "int") {
                    Result::Ok(CellSize::Int)
                } else {
                    Result::Err("invalid cell size")
                }
            },
        }
    }
}

/// String equality, decided character by character.
pub fn str_eq(a: &str, other: &str) -> (r: bool)
    ensures
        r <==> a@ == other@,
{
    {
        let n = a.unicode_len();
        let m = other.unicode_len();
        if n != m {
            proof {
                assert(a@ != other@) by {
                    assert(a@.len() != other@.len());
                }
            }
            return false;
        }
        let mut i: usize = 0;
        while i < n
            invariant
                i <= n,
                n == a@.len(),
                n == other@.len(),
                forall|j: int| 0 <= j < i ==> a@[j] == other@[j],
            decreases n - i,
        {
            let ca = a.get_char(i) as u32;
            let cb = other.get_char(i) as u32;
            if ca != cb {
                proof {
                    assert(a@[i as int] != other@[i as int]);
                }
                return false;
            }
            proof {
                assert(a@[i as int] as u32 == other@[i as int] as u32);
                assert(a@[i as int] == other@[i as int]);
            }
            i += 1;
        }
        proof {
            assert(a@ =~= other@);
        }
        true
    }
}

} // verus!
