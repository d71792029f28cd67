//! Parsing of decimal cell text into exact fixed-point values.
//!
//! A table cell holds a plain decimal number: an optional sign, then
//! digits with at most one decimal point and at least one digit in all.
//! The value is turned into millionths exactly; fractional digits beyond
//! the sixth are ignored.  Whole parts of a million million units or more
//! lie far outside the tool's data range and are rejected, so every
//! accepted value fits the fixed-point representation with room to spare.

use vstd::prelude::*;

verus! {

/// Smallest rejected whole part, in data units: one million million.
pub const MAX_WHOLE_UNITS: i64 = 1000000000000;

pub open spec fn is_digit(b: u8) -> bool {
    48 <= b <= 57
}

pub open spec fn digit_val(b: u8) -> int {
    b - 48
}

/// The value of a digit string, most significant digit first.
pub open spec fn digits_value(s: Seq<u8>) -> int
    decreases s.len(),
{
    if s.len() == 0 {
        0
    } else {
        digits_value(s.drop_last()) * 10 + digit_val(s.last())
    }
}

pub open spec fn all_digits(s: Seq<u8>) -> bool {
    forall|i: int| 0 <= i < s.len() ==> is_digit(s[i])
}

/// Ten to the `n`-th, for the scales a six-digit fraction needs; written
/// out by cases, since no use here exceeds the sixth power.
pub open spec fn pow10(n: nat) -> int {
    if n == 0 {
        1
    } else if n == 1 {
        10
    } else if n == 2 {
        100
    } else if n == 3 {
        1000
    } else if n == 4 {
        10000
    } else if n == 5 {
        100000
    } else {
        1000000
    }
}

/// Index of the first decimal point, or the length if there is none.
pub open spec fn first_dot(s: Seq<u8>) -> int
    decreases s.len(),
{
    if s.len() == 0 {
        0
    } else if s[0] == 46 {
        0
    } else {
        1 + first_dot(s.drop_first())
    }
}

/// The fractional digits as millionths: the first six digits, right-padded
/// with zeros; digits beyond the sixth are ignored.
pub open spec fn frac_micros(f: Seq<u8>) -> int {
    if f.len() >= 6 {
        digits_value(f.take(6))
    } else {
        digits_value(f) * pow10((6 - f.len()) as nat)
    }
}

/// What a decimal cell means, in millionths: `None` for anything that is
/// not an optional sign and digits with at most one point and a digit
/// somewhere, and for a whole part reaching `MAX_WHOLE_UNITS`.
pub open spec fn spec_parse_decimal(s: Seq<u8>) -> Option<i64> {
    let neg = s.len() > 0 && s[0] == 45;
    let body = if s.len() > 0 && (s[0] == 43 || s[0] == 45) {
        s.drop_first()
    } else {
        s
    };
    let d = first_dot(body);
    let intp = body.take(d);
    let frac = if d < body.len() {
        body.subrange(d + 1, body.len() as int)
    } else {
        Seq::empty()
    };
    if all_digits(intp) && all_digits(frac) && intp.len() + frac.len() >= 1
        && digits_value(intp) < MAX_WHOLE_UNITS {
        let mag = digits_value(intp) * 1000000 + frac_micros(frac);
        Some((if neg { -mag } else { mag }) as i64)
    } else {
        None
    }
}

/// `first_dot` names the position of the first point: nothing before it
/// is a point, and it is one unless it is the end.
proof fn lemma_first_dot(s: Seq<u8>)
    ensures
        0 <= first_dot(s) <= s.len(),
        first_dot(s) < s.len() ==> s[first_dot(s)] == 46,
        forall|j: int| 0 <= j < first_dot(s) ==> s[j] != 46,
    decreases s.len(),
{
    if s.len() > 0 && s[0] != 46 {
        lemma_first_dot(s.drop_first());
        assert forall|j: int| 0 <= j < first_dot(s) implies s[j] != 46 by {
            if j > 0 {
                assert(s.drop_first()[j - 1] != 46);
            }
        }
    }
}

/// Once a prefix of a string reaches `MAX_WHOLE_UNITS` as a digit value,
/// the whole string's value stays there, whatever bytes follow.
proof fn lemma_digits_value_saturates(s: Seq<u8>, j: int)
    requires
        0 <= j <= s.len(),
        digits_value(s.take(j)) >= MAX_WHOLE_UNITS,
    ensures
        digits_value(s) >= MAX_WHOLE_UNITS,
    decreases s.len() - j,
{
    if j < s.len() {
        assert(s.take(j + 1).drop_last() =~= s.take(j));
        assert(digits_value(s.take(j)) * 10 >= MAX_WHOLE_UNITS * 10) by (nonlinear_arith)
            requires
                digits_value(s.take(j)) >= MAX_WHOLE_UNITS,
        ;
        lemma_digits_value_saturates(s, j + 1);
    } else {
        assert(s.take(j) =~= s);
    }
}

/// Parse a decimal cell, exactly as `spec_parse_decimal` reads it.
#[verifier::loop_isolation(false)]
#[verifier::rlimit(100)]
pub fn parse_decimal(s: &[u8]) -> (r: Option<i64>)
    ensures
        r == spec_parse_decimal(s@),
{
    let n = s.len();
    let mut i: usize = 0;
    if n > 0 && (s[0] == 43 || s[0] == 45) {
        i = 1;
    }
    let start = i;
    let ghost body = s@.subrange(start as int, n as int);
    proof {
        if s@.len() > 0 && (s@[0] == 43 || s@[0] == 45) {
            assert(body =~= s@.drop_first());
        } else {
            assert(body =~= s@);
        }
        lemma_first_dot(body);
    }
    let ghost d = first_dot(body);
    let ghost intp = body.take(d);
    let ghost frac = if d < body.len() {
        body.subrange(d + 1, body.len() as int)
    } else {
        Seq::<u8>::empty()
    };

    // Integer part: digits up to the first point or the end.
    let mut v: i64 = 0;
    while i < n && s[i] != 46
        invariant
            start <= i <= n,
            i - start <= d,
            all_digits(body.take(i - start)),
            v == digits_value(body.take(i - start)),
            0 <= v < MAX_WHOLE_UNITS,
        decreases n - i,
    {
        let b = s[i];
        proof {
            assert(body[i - start] == s@[i as int]);
            assert(i - start < d);
        }
        if b < 48 || b > 57 {
            proof {
                assert(intp[i - start] == body[i - start]);
                assert(!all_digits(intp));
            }
            return None;
        }
        proof {
            assert(body.take(i - start + 1).drop_last() =~= body.take(i - start));
            assert(body.take(i - start + 1).last() == body[i - start]);
            assert forall|j: int| 0 <= j < i - start + 1 implies is_digit(
                #[trigger] body.take(i - start + 1)[j],
            ) by {
                if j < i - start {
                    assert(is_digit(body.take(i - start)[j]));
                }
            }
        }
        v = v * 10 + ((b - 48) as i64);
        i = i + 1;
        if v >= MAX_WHOLE_UNITS {
            proof {
                assert(intp.take(i - start) =~= body.take(i - start));
                lemma_digits_value_saturates(intp, i - start);
            }
            return None;
        }
    }
    proof {
        if i < n {
            assert(body[i - start] == s@[i as int]);
        }
        assert(d == i - start);
        assert(intp == body.take(i - start));
    }
    let int_len = i - start;

    if i == n {
        // No point: the whole cell was the integer part.
        if int_len == 0 {
            return None;
        }
        proof {
            assert(frac =~= Seq::<u8>::empty());
        }
        let mag = v * 1000000;
        return Some(
            if n > 0 && s[0] == 45 {
                -mag
            } else {
                mag
            },
        );
    }

    // A point: scan the fraction, keeping the first six digits.
    let frac_start = i + 1;
    proof {
        assert(frac =~= s@.subrange(frac_start as int, n as int));
    }
    let mut k = frac_start;
    let mut fv: i64 = 0;
    let mut taken: usize = 0;
    while k < n
        invariant
            frac_start <= k <= n,
            all_digits(frac.take(k - frac_start)),
            taken == if k - frac_start <= 6 {
                k - frac_start
            } else {
                6int
            },
            fv == digits_value(frac.take(taken as int)),
            0 <= fv < pow10(taken as nat),
            taken <= 6,
        decreases n - k,
    {
        let b = s[k];
        proof {
            assert(frac[k - frac_start] == s@[k as int]);
        }
        if b < 48 || b > 57 {
            proof {
                assert(!all_digits(frac));
            }
            return None;
        }
        if taken < 6 {
            proof {
                assert(frac.take(taken + 1).drop_last() =~= frac.take(taken as int));
                assert(frac.take(taken + 1).last() == frac[taken as int]);
            }
            fv = fv * 10 + ((b - 48) as i64);
            taken = taken + 1;
        }
        k = k + 1;
        proof {
            assert forall|j: int| 0 <= j < k - frac_start implies is_digit(
                #[trigger] frac.take(k - frac_start)[j],
            ) by {
                if j < k - frac_start - 1 {
                    assert(is_digit(frac.take(k - frac_start - 1)[j]));
                }
            }
        }
    }
    proof {
        assert(frac.take(k - frac_start) =~= frac);
    }
    let flen = n - frac_start;

    // Scale a short fraction up to millionths.
    if taken < 6 {
        proof {
            assert(frac.take(taken as int) =~= frac);
            assert(pow10(0) == 1);
            assert(digits_value(frac) * 1 == digits_value(frac));
        }
        let mut pad = taken;
        while pad < 6
            invariant
                flen == taken,
                taken <= pad <= 6,
                fv == digits_value(frac) * pow10((pad - flen) as nat),
                0 <= fv < pow10(pad as nat),
            decreases 6 - pad,
        {
            proof {
                assert((digits_value(frac) * pow10((pad - flen) as nat)) * 10 == digits_value(
                    frac,
                ) * (10 * pow10((pad - flen) as nat))) by (nonlinear_arith);
            }
            fv = fv * 10;
            pad = pad + 1;
        }
    }
    proof {
        assert(fv == frac_micros(frac));
        assert(fv < 1000000);
    }

    if int_len == 0 && flen == 0 {
        return None;
    }
    let mag = v * 1000000 + fv;
    Some(
        if n > 0 && s[0] == 45 {
            -mag
        } else {
            mag
        },
    )
}

} // verus!
