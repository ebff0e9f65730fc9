//! Exact numeric ground for the extraction pipeline.
//!
//! Source files carry their quantities as decimal text.  Instead of binary
//! floating point, the library parses such text into integers scaled by
//! `SCALE` (10^9), so every later computation is exact and fully
//! specified.  Normalised frequencies and per-100-population rates are
//! kept as integer ratios.

use vstd::prelude::*;

verus! {

/// Fixed-point scale: one unit of a parsed decimal value is 10^-9.
pub const SCALE: u64 = 1_000_000_000;

/// An exact non-negative rational number with a positive denominator.
///
/// Marker frequencies and treatment-failure rates are quotients whose
/// division the library never performs; callers divide (or compare by
/// cross-multiplication) as late as they wish.
#[derive(Clone, Copy, PartialEq, Eq, Structural, Debug)]
pub struct Ratio {
    pub num: u128,
    pub den: u128,
}

impl Ratio {
    /// A ratio is well formed when its denominator is positive.
    pub open spec fn wf(self) -> bool {
        self.den > 0
    }
}

pub open spec fn is_digit(b: u8) -> bool {
    48 <= b && b <= 57
}

pub open spec fn digit_val(b: u8) -> nat {
    (b - 48) as nat
}

pub open spec fn is_digits(s: Seq<u8>) -> bool {
    forall|i: int| 0 <= i < s.len() ==> is_digit(s[i])
}

/// Value of a string of decimal digits, most significant first.
pub open spec fn digits_val(s: Seq<u8>) -> nat
    decreases s.len(),
{
    if s.len() == 0 {
        0
    } else {
        digits_val(s.drop_last()) * 10 + digit_val(s.last())
    }
}

pub open spec fn pow10(e: nat) -> nat
    decreases e,
{
    if e == 0 {
        1
    } else {
        10 * pow10((e - 1) as nat)
    }
}

proof fn lemma_pow10_mono(a: nat, b: nat)
    requires
        a <= b,
    ensures
        pow10(a) <= pow10(b),
    decreases b,
{
    if a < b {
        lemma_pow10_mono(a, (b - 1) as nat);
    }
}

proof fn lemma_pow10_adds(a: nat, b: nat)
    ensures
        pow10(a + b) == pow10(a) * pow10(b),
    decreases a,
{
    if a == 0 {
        assert(pow10(0) * pow10(b) == 1 * pow10(b));
    } else {
        lemma_pow10_adds((a - 1) as nat, b);
        assert(pow10(a + b) == 10 * pow10((a - 1) as nat + b));
        assert(pow10(a) * pow10(b) == 10 * (pow10((a - 1) as nat) * pow10(b)))
            by (nonlinear_arith)
            requires pow10(a) == 10 * pow10((a - 1) as nat),
        ;
        assert(pow10(a + b) == 10 * (pow10((a - 1) as nat) * pow10(b)));
    }
}

/// A digit string of length n has value below 10^n.
proof fn lemma_digits_val_bound(s: Seq<u8>)
    requires
        is_digits(s),
    ensures
        digits_val(s) < pow10(s.len() as nat),
    decreases s.len(),
{
    if s.len() > 0 {
        assert(forall|i: int| 0 <= i < s.drop_last().len() ==> s.drop_last()[i] == s[i]);
        lemma_digits_val_bound(s.drop_last());
        assert(is_digit(s[s.len() - 1]));
        assert(digit_val(s.last()) <= 9);
        assert(digits_val(s.drop_last()) * 10 + 9 < pow10(s.len() as nat))
            by (nonlinear_arith)
            requires
                digits_val(s.drop_last()) < pow10((s.len() - 1) as nat),
                pow10(s.len() as nat) == 10 * pow10((s.len() - 1) as nat),
        ;
    }
}

/// Dropping trailing digits can only lower the value.
proof fn lemma_digits_val_prefix_le(s: Seq<u8>, i: int)
    requires
        0 <= i <= s.len(),
    ensures
        digits_val(s.subrange(0, i)) <= digits_val(s),
    decreases s.len(),
{
    if i == s.len() {
        assert(s.subrange(0, i) =~= s);
    } else {
        lemma_digits_val_prefix_le(s.drop_last(), i);
        assert(s.drop_last().subrange(0, i) =~= s.subrange(0, i));
    }
}

/// What a run of digits denotes as a `u64`, if it is one and fits.
pub open spec fn u64_digits_spec(s: Seq<u8>) -> Option<u64> {
    if s.len() > 0 && is_digits(s) && digits_val(s) <= u64::MAX {
        Some(digits_val(s) as u64)
    } else {
        None
    }
}

pub open spec fn u32_digits_spec(s: Seq<u8>) -> Option<u32> {
    if s.len() > 0 && is_digits(s) && digits_val(s) <= u32::MAX {
        Some(digits_val(s) as u32)
    } else {
        None
    }
}

/// Parses `s[from..to]` as an unsigned decimal integer.
pub fn parse_u64_range(s: &Vec<u8>, from: usize, to: usize) -> (r: Option<u64>)
    requires
        from <= to <= s@.len(),
    ensures
        r == u64_digits_spec(s@.subrange(from as int, to as int)),
{
    let ghost fld = s@.subrange(from as int, to as int);
    if from == to {
        return None;
    }
    let mut val: u64 = 0;
    let mut i: usize = from;
    while i < to
        invariant
            from <= i <= to <= s@.len(),
            fld == s@.subrange(from as int, to as int),
            is_digits(s@.subrange(from as int, i as int)),
            val == digits_val(s@.subrange(from as int, i as int)),
        decreases to - i,
    {
        let b = s[i];
        proof {
            assert(s@.subrange(from as int, i + 1).drop_last() =~= s@.subrange(
                from as int,
                i as int,
            ));
            assert(s@.subrange(from as int, i + 1).last() == s@[i as int]);
            assert(fld[i - from] == s@[i as int]);
        }
        if !(48 <= b && b <= 57) {
            assert(!is_digit(fld[i - from]));
            return None;
        }
        let d: u64 = (b - 48) as u64;
        let wide: u128 = (val as u128) * 10 + (d as u128);
        if wide > u64::MAX as u128 {
            proof {
                lemma_digits_val_prefix_le(fld, i + 1 - from);
                assert(fld.subrange(0, i + 1 - from) =~= s@.subrange(from as int, i + 1));
                assert(digits_val(fld) > u64::MAX);
            }
            return None;
        }
        val = wide as u64;
        i = i + 1;
    }
    proof {
        assert(s@.subrange(from as int, to as int) =~= fld);
    }
    Some(val)
}

/// Parses a whole field as an unsigned decimal integer fitting `u32`.
pub fn parse_u32_field(s: &Vec<u8>) -> (r: Option<u32>)
    ensures
        r == u32_digits_spec(s@),
{
    proof {
        assert(s@.subrange(0, s@.len() as int) =~= s@);
    }
    match parse_u64_range(s, 0, s.len()) {
        None => None,
        Some(v) => {
            if v <= u32::MAX as u64 {
                Some(v as u32)
            } else {
                None
            }
        },
    }
}

/// Index of the first `.` in `s`, or `s.len()` if there is none.
pub open spec fn first_dot(s: Seq<u8>) -> int
    decreases s.len(),
{
    if s.len() == 0 {
        0
    } else if s[0] == 46 {
        0
    } else {
        1 + first_dot(s.drop_first())
    }
}

proof fn lemma_first_dot(s: Seq<u8>)
    ensures
        0 <= first_dot(s) <= s.len(),
        first_dot(s) < s.len() ==> s[first_dot(s)] == 46,
        forall|j: int| 0 <= j < first_dot(s) ==> s[j] != 46,
    decreases s.len(),
{
    if s.len() > 0 && s[0] != 46 {
        lemma_first_dot(s.drop_first());
        assert(forall|j: int|
            1 <= j < first_dot(s) ==> s[j] == s.drop_first()[j - 1] && s.drop_first()[j - 1]
                != 46);
    }
}

/// The first nine fraction digits of a decimal number, scaled to 10^-9.
/// Further digits are truncated towards zero.
pub open spec fn frac_scaled(f: Seq<u8>) -> nat {
    if f.len() >= 9 {
        digits_val(f.take(9))
    } else {
        digits_val(f) * pow10((9 - f.len()) as nat)
    }
}

/// Grammar of an accepted decimal field: a non-empty run of digits,
/// optionally followed by `.` and a second non-empty run of digits.
pub open spec fn dec_ok(s: Seq<u8>) -> bool {
    let d = first_dot(s);
    if d == s.len() {
        s.len() > 0 && is_digits(s)
    } else {
        d > 0 && is_digits(s.subrange(0, d)) && d + 1 < s.len() && is_digits(
            s.subrange(d + 1, s.len() as int),
        )
    }
}

/// Value of an accepted decimal field in `SCALE`d units.
pub open spec fn dec_val(s: Seq<u8>) -> nat {
    let d = first_dot(s);
    if d == s.len() {
        digits_val(s) * (SCALE as nat)
    } else {
        digits_val(s.subrange(0, d)) * (SCALE as nat) + frac_scaled(
            s.subrange(d + 1, s.len() as int),
        )
    }
}

/// What a decimal field denotes in `SCALE`d units, if accepted and in range.
pub open spec fn dec_spec(s: Seq<u8>) -> Option<u64> {
    if dec_ok(s) && dec_val(s) <= u64::MAX {
        Some(dec_val(s) as u64)
    } else {
        None
    }
}

/// Parses a decimal field (for example `2000`, `0.25`, `17.5`) into an
/// integer scaled by `SCALE`, truncating past the ninth fraction digit.
pub fn parse_dec_field(s: &Vec<u8>) -> (r: Option<u64>)
    ensures
        r == dec_spec(s@),
{
    proof {
        lemma_first_dot(s@);
    }
    // locate the first dot
    let mut di: usize = 0;
    let mut has_dot: bool = false;
    while di < s.len() && !has_dot
        invariant
            0 <= di <= s@.len(),
            has_dot ==> di < s@.len() && s@[di as int] == 46,
            forall|j: int| 0 <= j < di ==> s@[j] != 46,
        decreases s@.len() - di + (if has_dot { 0int } else { 1int }),
    {
        if s[di] == 46 {
            has_dot = true;
        } else {
            di = di + 1;
        }
    }
    proof {
        if has_dot {
            if first_dot(s@) < di {
                assert(s@[first_dot(s@)] == 46);
                assert(false);
            }
            if first_dot(s@) > di as int {
                assert(s@[di as int] != 46);
                assert(false);
            }
        } else {
            if first_dot(s@) < s@.len() {
                assert(s@[first_dot(s@)] == 46);
                assert(false);
            }
        }
        assert(first_dot(s@) == if has_dot {
            di as int
        } else {
            s@.len() as int
        });
    }
    if !has_dot {
        proof {
            assert(s@.subrange(0, s@.len() as int) =~= s@);
        }
        match parse_u64_range(s, 0, s.len()) {
            None => {
                proof {
                    if s@.len() > 0 && is_digits(s@) {
                        assert(digits_val(s@) > u64::MAX);
                        assert(digits_val(s@) * (SCALE as nat) >= digits_val(s@) * 1)
                            by (nonlinear_arith);
                    }
                }
                None
            },
            Some(v) => {
                let wide: u128 = (v as u128) * (SCALE as u128);
                if wide > u64::MAX as u128 {
                    None
                } else {
                    Some(wide as u64)
                }
            },
        }
    } else {
        if di == 0 {
            return None;
        }
        let flen = s.len() - di - 1;
        if flen == 0 {
            return None;
        }
        let ghost frac = s@.subrange(di + 1, s@.len() as int);
        let int_part = parse_u64_range(s, 0, di);
        let v_int: u64;
        match int_part {
            None => {
                proof {
                    let ip = s@.subrange(0, di as int);
                    if ip.len() > 0 && is_digits(ip) {
                        assert(digits_val(ip) > u64::MAX);
                        assert(digits_val(ip) * (SCALE as nat) >= digits_val(ip) * 1)
                            by (nonlinear_arith);
                    }
                }
                return None;
            },
            Some(v) => {
                v_int = v;
            },
        }
        // first nine (or fewer) fraction digits carry value
        let m: usize = if flen >= 9 {
            9
        } else {
            flen
        };
        let fval: u64;
        proof {
            assert(s@.subrange(di + 1, di + 1 + m).len() == m);
        }
        match parse_u64_range(s, di + 1, di + 1 + m) {
            None => {
                proof {
                    let head = s@.subrange(di + 1, di + 1 + m);
                    if is_digits(head) {
                        lemma_digits_val_bound(head);
                        lemma_pow10_mono(m as nat, 9);
                        assert(pow10(9) == 1000000000) by {
                            reveal_with_fuel(pow10, 11);
                        }
                        assert(false);
                    }
                    // a non-digit among the first m fraction bytes
                    let k = choose|k: int| 0 <= k < head.len() && !is_digit(head[k]);
                    assert(frac[k] == head[k]);
                    assert(!is_digits(frac));
                }
                return None;
            },
            Some(v) => {
                fval = v;
            },
        }
        // the remaining fraction digits only need to be well formed
        let mut j: usize = di + 1 + m;
        while j < s.len()
            invariant
                di + 1 + m <= j <= s@.len(),
                frac == s@.subrange(di + 1, s@.len() as int),
                forall|k: int| di + 1 + m <= k < j ==> is_digit(s@[k]),
            decreases s@.len() - j,
        {
            let b = s[j];
            if !(48 <= b && b <= 57) {
                proof {
                    assert(frac[j - (di + 1)] == s@[j as int]);
                    assert(!is_digits(frac));
                }
                return None;
            }
            j = j + 1;
        }
        proof {
            // every fraction byte is a digit
            assert forall|k: int| 0 <= k < frac.len() implies is_digit(frac[k]) by {
                let head = s@.subrange(di + 1, di + 1 + m);
                if k < m {
                    assert(head[k] == frac[k]);
                } else {
                    assert(frac[k] == s@[di + 1 + k]);
                }
            }
        }
        let scaled: u64;
        if flen >= 9 {
            proof {
                assert(frac.take(9) =~= s@.subrange(di + 1, di + 1 + m));
            }
            scaled = fval;
        } else {
            let mul = pow10_u64((9 - flen) as u32);
            proof {
                let head = s@.subrange(di + 1, di + 1 + m);
                assert(head =~= frac);
                lemma_digits_val_bound(frac);
                lemma_pow10_adds(flen as nat, (9 - flen) as nat);
                assert(fval * mul < pow10(flen as nat) * pow10((9 - flen) as nat))
                    by (nonlinear_arith)
                    requires
                        fval < pow10(flen as nat),
                        mul == pow10((9 - flen) as nat),
                        mul > 0,
                ;
                assert(pow10(9) == 1000000000) by {
                    reveal_with_fuel(pow10, 11);
                }
            }
            scaled = fval * mul;
        }
        let wide: u128 = (v_int as u128) * (SCALE as u128) + (scaled as u128);
        proof {
            assert(dec_ok(s@));
            assert(dec_val(s@) == wide);
        }
        if wide > u64::MAX as u128 {
            None
        } else {
            Some(wide as u64)
        }
    }
}

/// 10^e for small exponents.
pub fn pow10_u64(e: u32) -> (r: u64)
    requires
        e <= 9,
    ensures
        r == pow10(e as nat),
        r >= 1,
    decreases e,
{
    if e == 0 {
        1
    } else {
        let p = pow10_u64(e - 1);
        proof {
            lemma_pow10_mono((e - 1) as nat, 8);
            assert(pow10(8) == 100000000) by {
                reveal_with_fuel(pow10, 10);
            }
        }
        10 * p
    }
}

} // verus!
