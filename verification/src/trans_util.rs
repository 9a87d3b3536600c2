use vstd::prelude::*;

verus! {

/// `k` copies of the hexadecimal digit `F`.
pub open spec fn f_chars(k: nat) -> Seq<char>
    decreases k,
{
    if k == 0 {
        Seq::empty()
    } else {
        seq!['F'] + f_chars((k - 1) as nat)
    }
}

/// The hexadecimal digits of the all-ones mask of a bit width: a partial
/// leading digit for the width modulo four, then one `F` per four bits.
pub open spec fn hex_bitmask_text(bits: nat) -> Seq<char> {
    (if bits % 4 == 1 {
        "1"@
    } else if bits % 4 == 2 {
        "3"@
    } else if bits % 4 == 3 {
        "7"@
    } else {
        ""@
    }) + f_chars(bits / 4)
}

/// Renders the all-ones bitmask of a width as hexadecimal digits, without
/// a base prefix.
pub fn hex_bitmask(bits: usize) -> (r: String)
    ensures
        r@ == hex_bitmask_text(bits as nat),
{
    let fs = bits / 4;
    let leftover = bits % 4;
    proof {
        reveal_strlit("1");
        reveal_strlit("3");
        reveal_strlit("7");
        reveal_strlit("");
        reveal_strlit("F");
    }
    let mut s = String::from_str(
        if leftover == 1 {
            "1"
        } else if leftover == 2 {
            "3"
        } else if leftover == 3 {
            "7"
        } else {
            ""
        },
    );
    let ghost prefix = s@;
    let mut k: usize = 0;
    proof {
        assert(f_chars(0) =~= Seq::<char>::empty());
        assert(s@ =~= prefix + f_chars(0));
    }
    while k < fs
        invariant
            k <= fs,
            s@ == prefix + f_chars(k as nat),
        decreases fs - k,
    {
        s.append("F");
        proof {
            reveal_strlit("F");
            lemma_f_chars_snoc(k as nat);
            assert(s@ =~= prefix + f_chars((k + 1) as nat));
        }
        k += 1;
    }
    proof {
        assert(s@ =~= hex_bitmask_text(bits as nat));
    }
    s
}

/// One more `F` lands at the end as well as at the front.
proof fn lemma_f_chars_snoc(k: nat)
    ensures
        f_chars(k + 1) == f_chars(k) + seq!['F'],
    decreases k,
{
    if k == 0 {
        assert(f_chars(1) =~= f_chars(0) + seq!['F']);
    } else {
        lemma_f_chars_snoc((k - 1) as nat);
        assert(f_chars(k + 1) =~= f_chars(k) + seq!['F']);
    }
}

} // verus!
