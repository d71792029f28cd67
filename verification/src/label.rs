//! The per-frame time annotation.
//!
//! Each frame carries the text `time: <seconds>` with the window's first
//! time shown to two decimal places.  Times are integers in units of
//! 1/1000000 of a second, so the two-decimal value is the number of
//! hundredths nearest to the time, ties rounded away from zero.  The text
//! is produced as ASCII bytes.

use vstd::prelude::*;

verus! {

/// The decimal digits of `n`, most significant first, as ASCII bytes.
pub open spec fn dec_digits(n: nat) -> Seq<u8>
    decreases n,
{
    if n < 10 {
        seq![(48 + n) as u8]
    } else {
        dec_digits(n / 10).push((48 + n % 10) as u8)
    }
}

/// The number of hundredths nearest to `t` millionths, ties away from
/// zero.
pub open spec fn spec_cents(t: int) -> int {
    if t >= 0 {
        (t + 5000) / 10000
    } else {
        -(((-t) + 5000) / 10000)
    }
}

/// The annotation for time `t` (in millionths): `time: ` followed by the
/// signed whole seconds, a dot, and exactly two fractional digits.
pub open spec fn spec_time_label(t: int) -> Seq<u8> {
    let cents = spec_cents(t);
    let mag = (if cents >= 0 { cents } else { -cents }) as nat;
    let sign: Seq<u8> = if cents < 0 { seq![45u8] } else { Seq::empty() };
    seq![116u8, 105u8, 109u8, 101u8, 58u8, 32u8] + sign + dec_digits(mag / 100)
        + seq![46u8, (48 + (mag % 100) / 10) as u8, (48 + mag % 10) as u8]
}

/// Append the decimal digits of `n` to `out`.
fn push_dec_digits(n: i64, out: &mut Vec<u8>)
    requires
        n >= 0,
    ensures
        final(out)@ == old(out)@ + dec_digits(n as nat),
    decreases n,
{
    if n < 10 {
        out.push(48 + n as u8);
    } else {
        push_dec_digits(n / 10, out);
        out.push(48 + (n % 10) as u8);
    }
    proof {
        assert(out@ =~= old(out)@ + dec_digits(n as nat));
    }
}

/// Render the time annotation of a frame whose first sample time is `t`
/// millionths: exactly the bytes of `time: <seconds>.<two digits>`.
pub fn time_label(t: i64) -> (r: Vec<u8>)
    requires
        t <= i64::MAX - 5000,
        t >= -(i64::MAX - 5000),
    ensures
        r@ == spec_time_label(t as int),
{
    let mut r: Vec<u8> = Vec::new();
    r.push(116);
    r.push(105);
    r.push(109);
    r.push(101);
    r.push(58);
    r.push(32);
    let negative = t < 0;
    let mag_millionths: i64 = if t < 0 {
        -t
    } else {
        t
    };
    let cents: i64 = (mag_millionths + 5000) / 10000;
    if negative && cents > 0 {
        r.push(45);
    }
    proof {
        assert(spec_cents(t as int) == if t < 0 { -cents as int } else { cents as int });
    }
    push_dec_digits(cents / 100, &mut r);
    r.push(46);
    r.push(48 + ((cents % 100) / 10) as u8);
    r.push(48 + (cents % 10) as u8);
    proof {
        assert(r@ =~= spec_time_label(t as int));
    }
    r
}

} // verus!
