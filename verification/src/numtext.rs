use vstd::prelude::*;

verus! {

/// The decimal digit character for a value below ten.
pub open spec fn char_of_digit(d: int) -> char {
    if d == 0 {
        '0'
    } else if d == 1 {
        '1'
    } else if d == 2 {
        '2'
    } else if d == 3 {
        '3'
    } else if d == 4 {
        '4'
    } else if d == 5 {
        '5'
    } else if d == 6 {
        '6'
    } else if d == 7 {
        '7'
    } else if d == 8 {
        '8'
    } else {
        '9'
    }
}

/// The decimal numeral of a non-negative integer, without sign or leading zeros.
pub open spec fn dec_digits(n: int) -> Seq<char>
    decreases n,
{
    if n < 10 {
        seq![char_of_digit(n)]
    } else {
        dec_digits(n / 10).push(char_of_digit(n % 10))
    }
}

/// The decimal numeral of an integer, `-` first where it is negative.
pub open spec fn dec_int(v: int) -> Seq<char> {
    if v < 0 {
        seq!['-'] + dec_digits(-v)
    } else {
        dec_digits(v)
    }
}

/// Digit characters of a buffer of digit values, least significant first,
/// read back in display order.
spec fn rev_chars(s: Seq<u8>) -> Seq<char>
    decreases s,
{
    if s.len() == 0 {
        Seq::empty()
    } else {
        seq![char_of_digit(s.last() as int)] + rev_chars(s.drop_last())
    }
}

/// The one-character string for a decimal digit value.
fn digit_str(d: u64) -> (r: &'static str)
    requires
        d < 10,
    ensures
        r@ == seq![char_of_digit(d as int)],
{
    proof {
        reveal_strlit("0");
        reveal_strlit("1");
        reveal_strlit("2");
        reveal_strlit("3");
        reveal_strlit("4");
        reveal_strlit("5");
        reveal_strlit("6");
        reveal_strlit("7");
        reveal_strlit("8");
        reveal_strlit("9");
    }
    if d == 0 {
        "0"
    } else if d == 1 {
        "1"
    } else if d == 2 {
        "2"
    } else if d == 3 {
        "3"
    } else if d == 4 {
        "4"
    } else if d == 5 {
        "5"
    } else if d == 6 {
        "6"
    } else if d == 7 {
        "7"
    } else if d == 8 {
        "8"
    } else {
        "9"
    }
}

/// Renders an unsigned 64-bit value as its decimal numeral.
pub fn u64_to_string(n: u64) -> (s: String)
    ensures
        s@ == dec_digits(n as int),
{
    let mut rev: Vec<u8> = Vec::new();
    let mut cur: u64 = n;
    while cur >= 10
        invariant
            dec_digits(n as int) == dec_digits(cur as int) + rev_chars(rev@),
            forall|j: int| 0 <= j < rev@.len() ==> rev@[j] < 10,
        decreases cur,
    {
        let d: u64 = cur % 10;
        proof {
            assert(rev_chars(rev@.push((d as u8))) == seq![char_of_digit(d as int)] + rev_chars(
                rev@,
            )) by {
                assert(rev@.push((d as u8)).last() == d as u8);
                assert(rev@.push((d as u8)).drop_last() =~= rev@);
            }
            assert(dec_digits(cur as int) == dec_digits(cur as int / 10).push(
                char_of_digit(cur as int % 10),
            ));
            assert(dec_digits(cur as int / 10).push(char_of_digit(d as int)) + rev_chars(rev@)
                =~= dec_digits(cur as int / 10) + (seq![char_of_digit(d as int)] + rev_chars(
                rev@,
            )));
        }
        rev.push(d as u8);
        cur = cur / 10;
    }
    proof {
        assert(rev_chars(rev@.push((cur as u8))) == seq![char_of_digit(cur as int)] + rev_chars(
            rev@,
        )) by {
            assert(rev@.push((cur as u8)).last() == cur as u8);
            assert(rev@.push((cur as u8)).drop_last() =~= rev@);
        }
        assert(dec_digits(cur as int) =~= seq![char_of_digit(cur as int)]);
        assert(dec_digits(cur as int) + rev_chars(rev@) =~= seq![char_of_digit(cur as int)]
            + rev_chars(rev@));
    }
    rev.push(cur as u8);
    let mut s = String::new();
    let mut i: usize = rev.len();
    proof {
        assert(rev@.take(i as int) =~= rev@);
    }
    while i > 0
        invariant
            i <= rev@.len(),
            forall|j: int| 0 <= j < rev@.len() ==> rev@[j] < 10,
            dec_digits(n as int) == rev_chars(rev@),
            rev_chars(rev@) == s@ + rev_chars(rev@.take(i as int)),
        decreases i,
    {
        let d = rev[i - 1];
        proof {
            let part = rev@.take(i as int);
            assert(part.len() == i);
            assert(part.last() == rev@[i - 1]);
            assert(part.drop_last() =~= rev@.take(i - 1));
            assert(rev_chars(part) == seq![char_of_digit(rev@[i - 1] as int)] + rev_chars(
                rev@.take(i - 1),
            ));
            assert((s@ + seq![char_of_digit(rev@[i - 1] as int)]) + rev_chars(rev@.take(i - 1))
                =~= s@ + rev_chars(rev@.take(i as int)));
        }
        s.append(digit_str(d as u64));
        i = i - 1;
    }
    proof {
        assert(rev@.take(0) =~= Seq::<u8>::empty());
        assert(s@ + rev_chars(rev@.take(0)) =~= s@);
    }
    s
}

/// Renders a signed 64-bit value as its decimal numeral.
pub fn i64_to_string(v: i64) -> (s: String)
    ensures
        s@ == dec_int(v as int),
{
    if v >= 0 {
        u64_to_string(v as u64)
    } else {
        let mag: u64 = if v == i64::MIN {
            9223372036854775808u64
        } else {
            (-v) as u64
        };
        proof {
            reveal_strlit("-");
        }
        let mut s = String::from_str("-");
        let rest = u64_to_string(mag);
        s.append(rest.as_str());
        proof {
            assert(s@ =~= seq!['-'] + dec_digits(-(v as int)));
        }
        s
    }
}

/// Whether a character is a decimal digit.
pub open spec fn is_digit(c: char) -> bool {
    '0' <= c && c <= '9'
}

/// The numeric value of a digit character.
pub open spec fn digit_val(c: char) -> int {
    c as int - '0' as int
}

/// The value of a string of digit characters, most significant first.
pub open spec fn digits_val(s: Seq<char>) -> int
    decreases s,
{
    if s.len() == 0 {
        0
    } else {
        digits_val(s.drop_last()) * 10 + digit_val(s.last())
    }
}

/// Whether every character of the string is a decimal digit.
pub open spec fn all_digits(s: Seq<char>) -> bool {
    forall|i: int| 0 <= i < s.len() ==> is_digit(#[trigger] s[i])
}

/// The body of a numeral: the string with one leading `+` removed.
pub open spec fn num_body(s: Seq<char>) -> Seq<char> {
    if s.len() > 0 && s[0] == '+' {
        s.drop_first()
    } else {
        s
    }
}

/// Whether the string is a numeral that `parse_u64` accepts: an optional
/// leading `+`, then one or more digits, with a value that fits in `u64`.
pub open spec fn is_u64_numeral(s: Seq<char>) -> bool {
    &&& num_body(s).len() > 0
    &&& all_digits(num_body(s))
    &&& digits_val(num_body(s)) <= u64::MAX
}

/// Extending a digit string multiplies its value at least tenfold, so a
/// too-large prefix can never be mended by further digits.
proof fn lemma_digits_val_prefix(s: Seq<char>, i: int)
    requires
        0 <= i < s.len(),
        forall|j: int| 0 <= j < s.len() ==> digit_val(#[trigger] s[j]) >= 0,
    ensures
        digits_val(s) >= digits_val(s.take(i + 1)),
        digits_val(s.take(i + 1)) == digits_val(s.take(i)) * 10 + digit_val(s[i]),
    decreases s.len() - i,
{
    assert(s.take(i + 1).drop_last() =~= s.take(i));
    assert(s.take(i + 1).last() == s[i]);
    if i + 1 == s.len() {
        assert(s.take(i + 1) =~= s);
    } else {
        lemma_digits_val_prefix(s, i + 1);
        assert(digits_val(s.take(i + 2)) == digits_val(s.take(i + 1)) * 10 + digit_val(s[i + 1]));
        assert(digits_val(s.take(i + 1)) * 10 >= digits_val(s.take(i + 1))) by {
            assert(digits_val(s.take(i + 1)) >= 0) by {
                lemma_digits_val_nonneg(s.take(i + 1));
            }
        }
    }
}

proof fn lemma_digits_val_nonneg(s: Seq<char>)
    requires
        forall|j: int| 0 <= j < s.len() ==> digit_val(#[trigger] s[j]) >= 0,
    ensures
        digits_val(s) >= 0,
    decreases s,
{
    if s.len() > 0 {
        lemma_digits_val_nonneg(s.drop_last());
    }
}

/// Parses a decimal numeral (optional `+`, then digits) into a `u64`.
/// Returns `None` exactly where the text is not such a numeral or its value
/// does not fit.
pub fn parse_u64(s: &str) -> (r: Option<u64>)
    ensures
        match r {
            Option::Some(v) => is_u64_numeral(s@) && v as int == digits_val(num_body(s@)),
            Option::None => !is_u64_numeral(s@),
        },
{
    let n = s.unicode_len();
    let mut start: usize = 0;
    if n > 0 && s.get_char(0) as u32 == 43 {
        proof {
            assert(s@[0] == '+') by {
                assert(s@[0] as u32 == 43);
                assert('+' as u32 == 43);
            }
        }
        start = 1;
    } else {
        proof {
            if n > 0 {
                assert(s@[0] as u32 != 43);
                assert(s@[0] != '+');
            }
        }
    }
    proof {
        assert(num_body(s@) =~= s@.skip(start as int));
    }
    let body_len = n - start;
    if body_len == 0 {
        return Option::None;
    }
    let ghost body = s@.skip(start as int);
    let mut acc: u64 = 0;
    let mut i: usize = 0;
    while i < body_len
        invariant
            0 <= i <= body_len,
            start + body_len == s@.len(),
            start <= 1,
            body == s@.skip(start as int),
            num_body(s@) == body,
            body.len() == body_len,
            acc as int == digits_val(body.take(i as int)),
            forall|j: int| 0 <= j < i ==> is_digit(#[trigger] body[j]),
        decreases body_len - i,
    {
        let c = s.get_char(start + i);
        let cu = c as u32;
        proof {
            assert(body[i as int] == s@[start + i]);
        }
        if cu < 48 || cu > 57 {
            proof {
                assert(!is_digit(body[i as int])) by {
                    assert('0' as u32 == 48 && '9' as u32 == 57);
                }
                if all_digits(num_body(s@)) {
                    assert(is_digit(num_body(s@)[i as int]));
                    assert(num_body(s@)[i as int] == body[i as int]);
                    assert(false);
                }
            }
            return Option::None;
        }
        proof {
            assert(is_digit(body[i as int])) by {
                assert('0' as u32 == 48 && '9' as u32 == 57);
            }
        }
        let d: u64 = (cu as u64) - 48;
        proof {
            assert(d as int == digit_val(body[i as int]));
            assert(body.take(i as int + 1).drop_last() =~= body.take(i as int));
            assert(body.take(i as int + 1).last() == body[i as int]);
        }
        if acc > (u64::MAX - d) / 10 {
            // any further digits only grow the value
            proof {
                assert(digits_val(body.take(i as int + 1)) == acc as int * 10 + d);
                assert(acc as int * 10 + d > u64::MAX) by {
                    assert(acc as int > (u64::MAX - d) / 10);
                    assert(acc as int >= (u64::MAX - d) / 10 + 1);
                    assert(((u64::MAX - d) / 10 + 1) * 10 >= (u64::MAX - d) + 1) by (nonlinear_arith);
                    assert(acc as int * 10 >= ((u64::MAX - d) / 10 + 1) * 10) by (nonlinear_arith)
                        requires
                            acc as int >= (u64::MAX - d) / 10 + 1,
                    ;
                }
                if all_digits(body) {
                    assert(forall|j: int|
                        0 <= j < body.len() ==> digit_val(#[trigger] body[j]) >= 0);
                    lemma_digits_val_prefix(body, i as int);
                    assert(digits_val(body) > u64::MAX);
                }
            }
            return Option::None;
        }
        acc = acc * 10 + d;
        i += 1;
    }
    proof {
        assert(body.take(body_len as int) =~= body);
    }
    Option::Some(acc)
}

/// Parses a decimal numeral into a `usize`, as `parse_u64` does, refusing
/// values above `usize::MAX`.
pub fn parse_usize(s: &str) -> (r: Option<usize>)
    ensures
        match r {
            Option::Some(v) => is_u64_numeral(s@) && digits_val(num_body(s@)) <= usize::MAX
                && v as int == digits_val(num_body(s@)),
            Option::None => !(is_u64_numeral(s@) && digits_val(num_body(s@)) <= usize::MAX),
        },
{
    match parse_u64(s) {
        Option::Some(v) => {
            if v <= usize::MAX as u64 {
                Option::Some(v as usize)
            } else {
                Option::None
            }
        },
        Option::None => Option::None,
    }
}

/// Builds `prefix`, then the numeral of `v`, then `suffix`.
pub fn s_num(prefix: &str, v: i64, suffix: &str) -> (r: String)
    ensures
        r@ == prefix@ + dec_int(v as int) + suffix@,
{
    let mut s = String::from_str(prefix);
    let num = i64_to_string(v);
    s.append(num.as_str());
    s.append(suffix);
    proof {
        assert(s@ =~= prefix@ + dec_int(v as int) + suffix@);
    }
    s
}

/// Builds `p1`, the numeral of `a`, `p2`, the numeral of `b`, then `p3`.
pub fn s_num2(p1: &str, a: i64, p2: &str, b: i64, p3: &str) -> (r: String)
    ensures
        r@ == p1@ + dec_int(a as int) + p2@ + dec_int(b as int) + p3@,
{
    let mut s = String::from_str(p1);
    let na = i64_to_string(a);
    s.append(na.as_str());
    s.append(p2);
    let nb = i64_to_string(b);
    s.append(nb.as_str());
    s.append(p3);
    proof {
        assert(s@ =~= p1@ + dec_int(a as int) + p2@ + dec_int(b as int) + p3@);
    }
    s
}

/// Builds a line of three numerals separated by text pieces.
pub fn s_num3(
    p1: &str,
    a: i64,
    p2: &str,
    b: i64,
    p3: &str,
    c: i64,
    p4: &str,
) -> (r: String)
    ensures
        r@ == p1@ + dec_int(a as int) + p2@ + dec_int(b as int) + p3@ + dec_int(c as int) + p4@,
{
    let mut s = String::from_str(p1);
    let na = i64_to_string(a);
    s.append(na.as_str());
    s.append(p2);
    let nb = i64_to_string(b);
    s.append(nb.as_str());
    s.append(p3);
    let nc = i64_to_string(c);
    s.append(nc.as_str());
    s.append(p4);
    proof {
        assert(s@ =~= p1@ + dec_int(a as int) + p2@ + dec_int(b as int) + p3@ + dec_int(c as int)
            + p4@);
    }
    s
}

} // verus!
