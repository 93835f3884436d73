//! Decimal text of integers and of fixed-point values, for labels.
use vstd::prelude::*;
use vstd::string::*;
use crate::stat_map::key;

verus! {

pub open spec fn digit_char(d: nat) -> char {
    seq!['0', '1', '2', '3', '4', '5', '6', '7', '8', '9'][d as int]
}

/// `n` in decimal, without leading zeros.
pub open spec fn decimal(n: nat) -> Seq<char>
    decreases n,
{
    if n < 10 {
        seq![digit_char(n)]
    } else {
        decimal(n / 10).push(digit_char(n % 10))
    }
}

/// The last `w` decimal digits of `f`, zero-padded on the left.
pub open spec fn padded_digits(f: nat, w: nat) -> Seq<char>
    decreases w,
{
    if w == 0 {
        Seq::empty()
    } else {
        padded_digits(f / 10, (w - 1) as nat).push(digit_char(f % 10))
    }
}

/// `f` and `w` with trailing zero digits dropped from the `w`-digit field.
pub open spec fn trimmed(f: nat, w: nat) -> (nat, nat)
    decreases w,
{
    if w > 0 && f % 10 == 0 {
        trimmed(f / 10, (w - 1) as nat)
    } else {
        (f, w)
    }
}

/// A non-negative value in millionths as decimal text: the whole part, then
/// a point and the fraction without trailing zeros when there is one.
pub open spec fn unsigned_fixed(n: nat) -> Seq<char> {
    let whole = n / 1_000_000;
    let frac = n % 1_000_000;
    if frac == 0 {
        decimal(whole)
    } else {
        let (f, w) = trimmed(frac, 6);
        decimal(whole) + seq!['.'] + padded_digits(f, w)
    }
}

/// A value in millionths as decimal text (`15`, `12.5`, `-0.25`).
pub open spec fn fixed_text(v: int) -> Seq<char> {
    if v < 0 {
        seq!['-'] + unsigned_fixed((-v) as nat)
    } else {
        unsigned_fixed(v as nat)
    }
}

/// The decimal digit `d` as text.
fn digit_text(d: u64) -> (r: String)
    requires
        d < 10,
    ensures
        r@ == seq![digit_char(d as nat)],
{
    let digits = "0123456789";
    proof {
        reveal_strlit("0123456789");
    }
    let i = d as usize;
    let r = digits.substring_char(i, i + 1).to_owned();
    proof {
        assert(r@ =~= seq![digit_char(d as nat)]);
    }
    r
}

/// `n` in decimal, without leading zeros.
pub(crate) fn decimal_text(n: u64) -> (r: String)
    ensures
        r@ == decimal(n as nat),
    decreases n,
{
    if n < 10 {
        digit_text(n)
    } else {
        let mut s = decimal_text(n / 10);
        s.append(digit_text(n % 10).as_str());
        s
    }
}

/// The last `w` decimal digits of `f`, zero-padded on the left.
fn padded_text(f: u64, w: usize) -> (r: String)
    ensures
        r@ == padded_digits(f as nat, w as nat),
    decreases w,
{
    if w == 0 {
        proof {
            reveal_strlit("");
        }
        key("")
    } else {
        let mut s = padded_text(f / 10, w - 1);
        s.append(digit_text(f % 10).as_str());
        s
    }
}

pub open spec fn pow10(w: nat) -> nat
    decreases w,
{
    if w == 0 {
        1
    } else {
        10 * pow10((w - 1) as nat)
    }
}

proof fn lemma_pow10_six()
    ensures
        pow10(6) == 1_000_000,
{
    assert(pow10(0) == 1);
    assert(pow10(1) == 10);
    assert(pow10(2) == 100);
    assert(pow10(3) == 1000);
    assert(pow10(4) == 10000);
    assert(pow10(5) == 100000);
}

proof fn lemma_pow10_bound(w: nat)
    requires
        w <= 6,
    ensures
        pow10(w) <= 1_000_000,
    decreases w,
{
    if w > 0 {
        lemma_pow10_bound((w - 1) as nat);
        lemma_pow10_six();
        lemma_pow10_monotone((w - 1) as nat);
    }
}

proof fn lemma_pow10_monotone(w: nat)
    requires
        w < 6,
    ensures
        pow10(w + 1) <= pow10(6),
    decreases 6 - w,
{
    if w + 1 < 6 {
        lemma_pow10_monotone(w + 1);
        assert(pow10(w + 2) == 10 * pow10(w + 1));
    }
}

/// A value in millionths as decimal text.
pub fn fixed_text_of(v: i64) -> (r: String)
    ensures
        r@ == fixed_text(v as int),
{
    proof {
        reveal_strlit("-");
        reveal_strlit(".");
    }
    let n: u64 = if v < 0 {
        (-(v as i128)) as u64
    } else {
        v as u64
    };
    let whole = n / 1_000_000;
    let frac = n % 1_000_000;
    let mut s = if v < 0 {
        key("-")
    } else {
        key("")
    };
    proof {
        reveal_strlit("");
    }
    s.append(decimal_text(whole).as_str());
    if frac != 0 {
        proof {
            lemma_pow10_six();
        }
        let mut f = frac;
        let mut w: usize = 6;
        while w > 0 && f % 10 == 0
            invariant
                w <= 6,
                f > 0,
                f < pow10(w as nat),
                trimmed(f as nat, w as nat) == trimmed(frac as nat, 6),
            decreases w,
        {
            proof {
                assert(pow10(w as nat) == 10 * pow10((w - 1) as nat));
                assert(f / 10 < pow10((w - 1) as nat)) by (nonlinear_arith)
                    requires
                        f < 10 * pow10((w - 1) as nat),
                ;
                assert(f / 10 > 0) by (nonlinear_arith)
                    requires
                        f > 0,
                        f % 10 == 0,
                ;
            }
            f = f / 10;
            w = w - 1;
        }
        proof {
            assert(w >= 1);
            assert(trimmed(f as nat, w as nat) == (f as nat, w as nat));
            assert(f < 1_000_000) by {
                lemma_pow10_bound(w as nat);
            }
        }
        s.append(".");
        s.append(padded_text(f, w).as_str());
    }
    proof {
        if v < 0 {
            assert(s@ =~= fixed_text(v as int));
        } else {
            assert(s@ =~= fixed_text(v as int));
        }
    }
    s
}

} // verus!
