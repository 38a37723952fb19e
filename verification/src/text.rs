//! Verified decimal text: rendering integers as decimal character
//! sequences and parsing decimal strings back to `i32`.

use vstd::prelude::*;
use vstd::string::StrSliceExecFns;
use vstd::string::StringExecFns;

verus! {

/// The decimal digit character for the value `d` (0 to 9).
pub open spec fn digit_char(d: int) -> char {
    if d == 0 {
        '0'
    } else if d == 1 {
        '1'
    } else if d == 2 {
        '2'
    } else if d == 3 {
        '3'
    } else if d == 4 {
        '4'
    } else if d == 5 {
        '5'
    } else if d == 6 {
        '6'
    } else if d == 7 {
        '7'
    } else if d == 8 {
        '8'
    } else {
        '9'
    }
}

/// The decimal digits of `n`, most significant first, without a sign and
/// without leading zeros (a single `'0'` for zero).
pub open spec fn dec_digits(n: nat) -> Seq<char>
    decreases n,
{
    if n < 10 {
        seq![digit_char(n as int)]
    } else {
        dec_digits(n / 10).push(digit_char((n % 10) as int))
    }
}

/// The decimal text of `v`: a minus sign for negative values, then digits.
pub open spec fn int_text(v: int) -> Seq<char> {
    if v < 0 {
        "-"@ + dec_digits((-v) as nat)
    } else {
        dec_digits(v as nat)
    }
}

/// Appends the single digit `d` to `out`.
fn push_digit(out: &mut String, d: u64)
    requires
        d < 10,
    ensures
        final(out)@ == old(out)@ + seq![digit_char(d as int)],
{
    if d == 0 {
        out.append("0");
        proof {
            reveal_strlit("0");
            assert(out@ =~= old(out)@ + seq![digit_char(d as int)]);
        }
    } else if d == 1 {
        out.append("1");
        proof {
            reveal_strlit("1");
            assert(out@ =~= old(out)@ + seq![digit_char(d as int)]);
        }
    } else if d == 2 {
        out.append("2");
        proof {
            reveal_strlit("2");
            assert(out@ =~= old(out)@ + seq![digit_char(d as int)]);
        }
    } else if d == 3 {
        out.append("3");
        proof {
            reveal_strlit("3");
            assert(out@ =~= old(out)@ + seq![digit_char(d as int)]);
        }
    } else if d == 4 {
        out.append("4");
        proof {
            reveal_strlit("4");
            assert(out@ =~= old(out)@ + seq![digit_char(d as int)]);
        }
    } else if d == 5 {
        out.append("5");
        proof {
            reveal_strlit("5");
            assert(out@ =~= old(out)@ + seq![digit_char(d as int)]);
        }
    } else if d == 6 {
        out.append("6");
        proof {
            reveal_strlit("6");
            assert(out@ =~= old(out)@ + seq![digit_char(d as int)]);
        }
    } else if d == 7 {
        out.append("7");
        proof {
            reveal_strlit("7");
            assert(out@ =~= old(out)@ + seq![digit_char(d as int)]);
        }
    } else if d == 8 {
        out.append("8");
        proof {
            reveal_strlit("8");
            assert(out@ =~= old(out)@ + seq![digit_char(d as int)]);
        }
    } else {
        out.append("9");
        proof {
            reveal_strlit("9");
            assert(out@ =~= old(out)@ + seq![digit_char(d as int)]);
        }
    }
}

/// Appends the decimal digits of `n` to `out`.
pub fn push_u64_digits(out: &mut String, n: u64)
    ensures
        final(out)@ == old(out)@ + dec_digits(n as nat),
    decreases n,
{
    if n >= 10 {
        push_u64_digits(out, n / 10);
        push_digit(out, n % 10);
        proof {
            assert((n / 10) as nat == n as nat / 10);
            assert((n % 10) as int == (n as nat % 10) as int);
            assert(out@ =~= old(out)@ + dec_digits(n as nat));
        }
    } else {
        push_digit(out, n);
    }
}

/// Appends the decimal text of `v` to `out`.
pub fn push_i32_text(out: &mut String, v: i32)
    ensures
        final(out)@ == old(out)@ + int_text(v as int),
{
    if v < 0 {
        out.append("-");
        let m: u64 = (-(v as i64)) as u64;
        proof {
            assert(m as nat == (-(v as int)) as nat);
        }
        push_u64_digits(out, m);
        proof {
            assert(out@ =~= old(out)@ + int_text(v as int));
        }
    } else {
        push_u64_digits(out, v as u64);
        proof {
            assert((v as u64) as nat == (v as int) as nat);
        }
    }
}

/// Appends the decimal text of the count `n` to `out`.
pub fn push_usize_digits(out: &mut String, n: usize)
    ensures
        final(out)@ == old(out)@ + dec_digits(n as nat),
{
    push_u64_digits(out, n as u64);
    proof {
        assert((n as u64) as nat == n as nat);
    }
}

/// Whether `c` is a decimal digit.
pub open spec fn is_digit(c: char) -> bool {
    48 <= c as u32 && c as u32 <= 57
}

/// The value of the decimal digit `c`.
pub open spec fn digit_val(c: char) -> int {
    c as u32 - 48
}

/// Whether every character of `s` is a decimal digit.
pub open spec fn all_digits(s: Seq<char>) -> bool {
    forall|i: int| 0 <= i < s.len() ==> is_digit(s[i])
}

/// The value of the digit string `s`, most significant digit first.
pub open spec fn digits_val(s: Seq<char>) -> int
    decreases s.len(),
{
    if s.len() == 0 {
        0
    } else {
        digits_val(s.drop_last()) * 10 + digit_val(s.last())
    }
}

/// The `i32` denoted by `s`: an optional `'+'` or `'-'` sign, then one or
/// more decimal digits, with a value inside the `i32` range; any other
/// form denotes nothing.
pub open spec fn parse_i32_spec(s: Seq<char>) -> Option<i32> {
    let signed = s.len() > 0 && (s[0] == '+' || s[0] == '-');
    let sign: int = if s.len() > 0 && s[0] == '-' {
        -1
    } else {
        1
    };
    let ds = if signed {
        s.drop_first()
    } else {
        s
    };
    if ds.len() == 0 || !all_digits(ds) {
        None
    } else {
        let v = sign * digits_val(ds);
        if i32::MIN <= v <= i32::MAX {
            Some(v as i32)
        } else {
            None
        }
    }
}

/// `parse_i32_spec` with the missing value turned into the unit error.
pub open spec fn parse_result(s: Seq<char>) -> Result<i32, ()> {
    match parse_i32_spec(s) {
        Some(v) => Ok(v),
        None => Err(()),
    }
}

/// Parses `s` as a signed decimal `i32`; rejects anything that is not an
/// optionally signed digit string whose value fits in `i32`.
pub fn parse_i32(s: &String) -> (r: Result<i32, ()>)
    ensures
        r == parse_result(s@),
{
    let sl = s.as_str();
    let n = sl.unicode_len();
    let ghost sq = s@;
    let mut start: usize = 0;
    let mut neg = false;
    if n > 0 {
        let c0 = sl.get_char(0);
        proof {
            assert(c0 == sq[0]);
        }
        if c0 == '-' {
            neg = true;
            start = 1;
        } else if c0 == '+' {
            start = 1;
        }
    }
    proof {
        assert(start == 1 <==> (sq.len() > 0 && (sq[0] == '+' || sq[0] == '-')));
        assert(neg <==> (sq.len() > 0 && sq[0] == '-'));
    }
    let ghost ds = if start == 1 {
        sq.drop_first()
    } else {
        sq
    };
    proof {
        assert(ds =~= sq.subrange(start as int, n as int));
    }
    if start >= n {
        // empty input, or a bare sign with no digits
        return Err(());
    }
    let mut i: usize = start;
    let mut acc: i64 = 0;
    let mut over = false;
    while i < n
        invariant
            start <= i <= n,
            n == sq.len(),
            sl@ == sq,
            sq == s@,
            start == 1 <==> (sq.len() > 0 && (sq[0] == '+' || sq[0] == '-')),
            neg <==> (sq.len() > 0 && sq[0] == '-'),
            ds == sq.subrange(start as int, n as int),
            forall|k: int| start <= k < i ==> is_digit(sq[k]),
            !over ==> acc == digits_val(sq.subrange(start as int, i as int)),
            !over ==> 0 <= acc < 30_000_000_000i64,
            over ==> digits_val(sq.subrange(start as int, i as int)) >= 3_000_000_000,
        decreases n - i,
    {
        let c = sl.get_char(i);
        let u = c as u32;
        if u < 48 || u > 57 {
            proof {
                assert(ds[i - start] == sq[i as int]);
                assert(!is_digit(ds[i - start]));
                assert(!all_digits(ds));
                assert(parse_i32_spec(sq) is None);
            }
            return Err(());
        }
        let d = (u - 48) as i64;
        proof {
            assert(sq.subrange(start as int, i + 1).drop_last() =~= sq.subrange(
                start as int,
                i as int,
            ));
            assert(sq.subrange(start as int, i + 1).last() == sq[i as int]);
            assert(d == digit_val(sq[i as int]));
        }
        if over {
        } else if acc >= 3_000_000_000i64 {
            over = true;
        } else {
            acc = acc * 10 + d;
        }
        i += 1;
    }
    proof {
        assert(sq.subrange(start as int, i as int) == ds);
        assert(all_digits(ds));
    }
    let ghost sign: int = if neg {
        -1
    } else {
        1
    };
    let ghost v = sign * digits_val(ds);
    if over {
        proof {
            assert(digits_val(ds) >= 3_000_000_000);
            assert(v > i32::MAX || v < i32::MIN);
            assert(parse_i32_spec(sq) is None);
        }
        return Err(());
    }
    proof {
        assert(acc == digits_val(ds));
    }
    if neg {
        if acc <= 2_147_483_648i64 {
            let r: i64 = -acc;
            proof {
                assert(v == r as int);
                assert(parse_i32_spec(sq) == Some(r as i32));
            }
            Ok(r as i32)
        } else {
            proof {
                assert(v < i32::MIN);
                assert(parse_i32_spec(sq) is None);
            }
            Err(())
        }
    } else {
        if acc <= 2_147_483_647i64 {
            proof {
                assert(v == acc as int);
                assert(parse_i32_spec(sq) == Some(acc as i32));
            }
            Ok(acc as i32)
        } else {
            proof {
                assert(v > i32::MAX);
                assert(parse_i32_spec(sq) is None);
            }
            Err(())
        }
    }
}

} // verus!
