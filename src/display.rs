use vstd::prelude::*;

use crate::session::hex_digit;

verus! {

/// Decimal digits of a number, without leading zeros.
pub open spec fn dec_text(v: nat) -> Seq<char>
    decreases v,
{
    if v < 10 {
        seq![hex_digit(v)]
    } else {
        dec_text(v / 10) + seq![hex_digit(v % 10)]
    }
}

/// An integer in decimal, with `-` before a negative one.
pub open spec fn int_text(n: int) -> Seq<char> {
    if n < 0 {
        seq!['-'] + dec_text((-n) as nat)
    } else {
        dec_text(n as nat)
    }
}

/// `{:02}`: a single non-negative digit gets a leading zero.
pub open spec fn two_digit_text(n: int) -> Seq<char> {
    if 0 <= n < 10 {
        seq!['0', hex_digit(n as nat)]
    } else {
        int_text(n)
    }
}

/// Quotient rounded toward zero, as integer division does.
pub open spec fn trunc_div(a: int, b: int) -> int {
    if a >= 0 {
        a / b
    } else {
        -((-a) / b)
    }
}

pub open spec fn trunc_rem(a: int, b: int) -> int {
    a - trunc_div(a, b) * b
}

/// A duration in milliseconds as whole hours and minutes: `{h}h {m}min`,
/// or `{m}min` under an hour.
pub open spec fn duration_text(ms: int) -> Seq<char> {
    let pre = trunc_div(ms, 60000);
    let h = trunc_div(pre, 60);
    let m = trunc_rem(pre, 60);
    if h > 0 {
        int_text(h) + "h "@ + int_text(m) + "min"@
    } else {
        int_text(m) + "min"@
    }
}

fn dec_digit_str(d: u64) -> (r: &'static str)
    requires
        d < 10,
    ensures
        r@ == seq![hex_digit(d as nat)],
{
    match d {
        0u64 => {
            proof {
                reveal_strlit("0");
            }
            "0"
        },
        1u64 => {
            proof {
                reveal_strlit("1");
            }
            "1"
        },
        2u64 => {
            proof {
                reveal_strlit("2");
            }
            "2"
        },
        3u64 => {
            proof {
                reveal_strlit("3");
            }
            "3"
        },
        4u64 => {
            proof {
                reveal_strlit("4");
            }
            "4"
        },
        5u64 => {
            proof {
                reveal_strlit("5");
            }
            "5"
        },
        6u64 => {
            proof {
                reveal_strlit("6");
            }
            "6"
        },
        7u64 => {
            proof {
                reveal_strlit("7");
            }
            "7"
        },
        8u64 => {
            proof {
                reveal_strlit("8");
            }
            "8"
        },
        _ => {
            proof {
                reveal_strlit("9");
            }
            "9"
        },
    }
}

fn push_dec(out: &mut String, v: u64)
    ensures
        final(out)@ == old(out)@ + dec_text(v as nat),
    decreases v,
{
    if v >= 10 {
        proof {
            assert(v / 10 < v) by (nonlinear_arith)
                requires
                    v >= 10,
            ;
        }
        push_dec(out, v / 10);
    }
    out.append(dec_digit_str(v % 10));
    proof {
        if v < 10 {
            assert(v % 10 == v);
        }
        assert(out@ =~= old(out)@ + dec_text(v as nat));
    }
}

fn push_int(out: &mut String, n: i128)
    requires
        -0x1_0000_0000_0000_0000i128 < n < 0x1_0000_0000_0000_0000i128,
    ensures
        final(out)@ == old(out)@ + int_text(n as int),
{
    if n < 0 {
        out.append("-");
        push_dec(out, (-n) as u64);
        proof {
            reveal_strlit("-");
            assert(out@ =~= old(out)@ + int_text(n as int));
        }
    } else {
        push_dec(out, n as u64);
    }
}

/// An integer in decimal.
pub fn int_string(n: i64) -> (r: String)
    ensures
        r@ == int_text(n as int),
{
    let mut s = String::new();
    push_int(&mut s, n as i128);
    proof {
        assert(s@ =~= int_text(n as int));
    }
    s
}

/// An integer padded to two digits, as `{:02}` writes it.
pub fn two_digits(n: i64) -> (r: String)
    ensures
        r@ == two_digit_text(n as int),
{
    if 0 <= n && n < 10 {
        let mut s = String::from_str("0");
        s.append(dec_digit_str(n as u64));
        proof {
            reveal_strlit("0");
            assert(s@ =~= two_digit_text(n as int));
        }
        s
    } else {
        int_string(n)
    }
}

fn trunc_div_exec(a: i128, b: i128) -> (r: i128)
    requires
        b > 0,
        -0x1_0000_0000_0000_0000i128 < a < 0x1_0000_0000_0000_0000i128,
    ensures
        r == trunc_div(a as int, b as int),
        -0x1_0000_0000_0000_0000i128 < r < 0x1_0000_0000_0000_0000i128,
{
    if a >= 0 {
        proof {
            assert(a / b <= a) by (nonlinear_arith)
                requires
                    a >= 0,
                    b > 0,
            ;
            assert(a / b >= 0) by (nonlinear_arith)
                requires
                    a >= 0,
                    b > 0,
            ;
        }
        a / b
    } else {
        let m = -a;
        proof {
            assert(m / b <= m) by (nonlinear_arith)
                requires
                    m > 0,
                    b > 0,
            ;
            assert(m / b >= 0) by (nonlinear_arith)
                requires
                    m > 0,
                    b > 0,
            ;
        }
        -(m / b)
    }
}

/// A duration in milliseconds as hours and minutes.
pub fn duration_string(ms: i64) -> (r: String)
    ensures
        r@ == duration_text(ms as int),
{
    let pre = trunc_div_exec(ms as i128, 60000);
    let h = trunc_div_exec(pre, 60);
    proof {
        assert(-0x1_0000_0000_0000_0000i128 * 60 < h * 60 < 0x1_0000_0000_0000_0000i128 * 60) by (nonlinear_arith)
            requires
                -0x1_0000_0000_0000_0000i128 < h < 0x1_0000_0000_0000_0000i128,
                h == trunc_div(pre as int, 60),
        ;
    }
    let m = pre - h * 60;
    proof {
        assert(-60 < m < 60) by (nonlinear_arith)
            requires
                h == trunc_div(pre as int, 60),
                m == pre - h * 60,
        ;
    }
    let mut s = String::new();
    if h > 0 {
        push_int(&mut s, h);
        s.append("h ");
        push_int(&mut s, m);
        s.append("min");
    } else {
        push_int(&mut s, m);
        s.append("min");
    }
    proof {
        assert(s@ =~= duration_text(ms as int));
    }
    s
}

} // verus!
