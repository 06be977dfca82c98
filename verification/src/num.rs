//! Decimal numbers and the scanner that reads one from a text field.
//!
//! A field is accepted when, after optional surrounding ASCII whitespace,
//! it is a decimal literal: an optional sign, digits with at most one
//! decimal point and at least one digit, and an optional exponent part
//! (`e` or `E`, an optional sign, digits). The non-finite spellings
//! (`inf`, `NaN`) are treated as non-numeric. Every accepted field is an
//! exact rational number `mant / 10^scale`: the digits are read as one
//! integer and the exponent is folded in, a positive shift multiplying the
//! mantissa and a negative one raising the scale. A literal whose folded
//! mantissa reaches `10^18`, or whose scale cannot fit a `usize`, exceeds
//! what the exact integer engine can carry and is treated as non-numeric.

use vstd::prelude::*;

verus! {

/// Largest admitted magnitude (exclusive) for the folded mantissa of a
/// field: its digits read as one integer, times ten for every step the
/// exponent shifts the decimal point right past the fraction digits.
pub const MANT_LIMIT: i128 = 1_000_000_000_000_000_000;

/// Bound past which the scanner stops growing an exponent: an exponent of
/// this size always leaves the accepted range, whatever its sign, unless
/// the mantissa is zero.
const EXP_LIMIT: i128 = 100_000_000_000_000_000_000;

/// 10 raised to `k`.
pub open spec fn pow10(k: nat) -> int
    decreases k,
{
    if k == 0 {
        1
    } else {
        10 * pow10((k - 1) as nat)
    }
}

pub proof fn lemma_pow10_positive(k: nat)
    ensures
        pow10(k) >= 1,
    decreases k,
{
    if k > 0 {
        lemma_pow10_positive((k - 1) as nat);
    }
}

pub proof fn lemma_pow10_monotone(j: nat, k: nat)
    requires
        j <= k,
    ensures
        pow10(j) <= pow10(k),
    decreases k,
{
    if j < k {
        lemma_pow10_monotone(j, (k - 1) as nat);
        lemma_pow10_positive((k - 1) as nat);
    }
}

pub proof fn lemma_pow10_add(a: nat, b: nat)
    ensures
        pow10(a + b) == pow10(a) * pow10(b),
    decreases b,
{
    if b == 0 {
        assert(pow10(a) * 1 == pow10(a)) by (nonlinear_arith);
    } else {
        lemma_pow10_add(a, (b - 1) as nat);
        assert((a + b - 1) as nat + 1 == a + b);
        assert(10 * (pow10(a) * pow10((b - 1) as nat)) == pow10(a) * (10 * pow10(
            (b - 1) as nat,
        ))) by (nonlinear_arith);
    }
}

proof fn lemma_pow10_18()
    ensures
        pow10(18) == MANT_LIMIT as int,
{
    reveal_with_fuel(pow10, 20);
}

/// An exact decimal number with value `mant / 10^scale`.
#[derive(Clone, Copy, PartialEq, Eq, Debug)]
pub struct Decimal {
    pub mant: i128,
    pub scale: usize,
}

/// Mathematical image of a `Decimal`.
pub struct DecV {
    pub mant: int,
    pub scale: nat,
}

impl View for Decimal {
    type V = DecV;

    open spec fn view(&self) -> DecV {
        DecV { mant: self.mant as int, scale: self.scale as nat }
    }
}

/// Where the scanner stands after reading a prefix of a field.
pub enum Phase {
    /// Inside the leading whitespace.
    Lead,
    /// Just after the sign.
    Signed,
    /// Inside the digits before the decimal point.
    IntPart,
    /// Just after a decimal point that no digit preceded.
    DotOnly,
    /// After the decimal point, at least one digit seen in all.
    FracPart,
    /// Just after the exponent marker `e` or `E`.
    ExpStart,
    /// Just after the exponent's sign.
    ExpSign,
    /// Inside the exponent's digits.
    ExpDigits,
    /// Inside the trailing whitespace.
    Trail,
    /// The field can no longer be a decimal literal.
    Bad,
}

/// Full scanner state: phase, the two signs, the digits read so far as one
/// integer, how many of them came after the decimal point, and the
/// exponent's digits as one integer.
pub struct ScanState {
    pub phase: Phase,
    pub neg: bool,
    pub mant: int,
    pub scale: nat,
    pub eneg: bool,
    pub exp: int,
}

pub open spec fn spec_is_space(c: char) -> bool {
    c == ' ' || c == '\t' || c == '\n' || c == '\r' || c == '\u{000C}'
}

pub open spec fn spec_is_digit(c: char) -> bool {
    48 <= c as u32 && c as u32 <= 57
}

pub open spec fn digit_val(c: char) -> int {
    (c as u32) as int - 48
}

pub open spec fn scan_init() -> ScanState {
    ScanState { phase: Phase::Lead, neg: false, mant: 0, scale: 0, eneg: false, exp: 0 }
}

/// One step of the field scanner.
pub open spec fn scan_step(st: ScanState, c: char) -> ScanState {
    match st.phase {
        Phase::Lead => if spec_is_space(c) {
            st
        } else if c == '+' {
            ScanState { phase: Phase::Signed, ..st }
        } else if c == '-' {
            ScanState { phase: Phase::Signed, neg: true, ..st }
        } else if spec_is_digit(c) {
            ScanState { phase: Phase::IntPart, mant: 10 * st.mant + digit_val(c), ..st }
        } else if c == '.' {
            ScanState { phase: Phase::DotOnly, ..st }
        } else {
            ScanState { phase: Phase::Bad, ..st }
        },
        Phase::Signed => if spec_is_digit(c) {
            ScanState { phase: Phase::IntPart, mant: 10 * st.mant + digit_val(c), ..st }
        } else if c == '.' {
            ScanState { phase: Phase::DotOnly, ..st }
        } else {
            ScanState { phase: Phase::Bad, ..st }
        },
        Phase::IntPart => if spec_is_digit(c) {
            ScanState { phase: Phase::IntPart, mant: 10 * st.mant + digit_val(c), ..st }
        } else if c == '.' {
            ScanState { phase: Phase::FracPart, ..st }
        } else if c == 'e' || c == 'E' {
            ScanState { phase: Phase::ExpStart, ..st }
        } else if spec_is_space(c) {
            ScanState { phase: Phase::Trail, ..st }
        } else {
            ScanState { phase: Phase::Bad, ..st }
        },
        Phase::DotOnly => if spec_is_digit(c) {
            ScanState {
                phase: Phase::FracPart,
                mant: 10 * st.mant + digit_val(c),
                scale: st.scale + 1,
                ..st
            }
        } else {
            ScanState { phase: Phase::Bad, ..st }
        },
        Phase::FracPart => if spec_is_digit(c) {
            ScanState {
                phase: Phase::FracPart,
                mant: 10 * st.mant + digit_val(c),
                scale: st.scale + 1,
                ..st
            }
        } else if c == 'e' || c == 'E' {
            ScanState { phase: Phase::ExpStart, ..st }
        } else if spec_is_space(c) {
            ScanState { phase: Phase::Trail, ..st }
        } else {
            ScanState { phase: Phase::Bad, ..st }
        },
        Phase::ExpStart => if spec_is_digit(c) {
            ScanState { phase: Phase::ExpDigits, exp: 10 * st.exp + digit_val(c), ..st }
        } else if c == '+' {
            ScanState { phase: Phase::ExpSign, ..st }
        } else if c == '-' {
            ScanState { phase: Phase::ExpSign, eneg: true, ..st }
        } else {
            ScanState { phase: Phase::Bad, ..st }
        },
        Phase::ExpSign => if spec_is_digit(c) {
            ScanState { phase: Phase::ExpDigits, exp: 10 * st.exp + digit_val(c), ..st }
        } else {
            ScanState { phase: Phase::Bad, ..st }
        },
        Phase::ExpDigits => if spec_is_digit(c) {
            ScanState { phase: Phase::ExpDigits, exp: 10 * st.exp + digit_val(c), ..st }
        } else if spec_is_space(c) {
            ScanState { phase: Phase::Trail, ..st }
        } else {
            ScanState { phase: Phase::Bad, ..st }
        },
        Phase::Trail => if spec_is_space(c) {
            st
        } else {
            ScanState { phase: Phase::Bad, ..st }
        },
        Phase::Bad => st,
    }
}

/// Scanner state after the whole field `s`.
pub open spec fn scan(s: Seq<char>) -> ScanState
    decreases s.len(),
{
    if s.len() == 0 {
        scan_init()
    } else {
        scan_step(scan(s.drop_last()), s.last())
    }
}

/// The phases in which a field may end and be a decimal literal.
pub open spec fn accepting(p: Phase) -> bool {
    p is IntPart || p is FracPart || p is ExpDigits || p is Trail
}

/// Once the exponent's digits have begun, everything but the exponent and
/// the phase is settled.
pub open spec fn exp_locked(p: Phase) -> bool {
    p is ExpDigits || p is Trail || p is Bad
}

/// The exponent with its sign applied.
pub open spec fn exp_signed(st: ScanState) -> int {
    if st.eneg {
        -st.exp
    } else {
        st.exp
    }
}

/// How far the exponent shifts the decimal point right of the fraction.
pub open spec fn norm_shift(st: ScanState) -> int {
    exp_signed(st) - st.scale
}

/// The folded (unsigned) mantissa of a finished scan.
pub open spec fn norm_mant_of(st: ScanState) -> int {
    if norm_shift(st) >= 0 {
        st.mant * pow10(norm_shift(st) as nat)
    } else {
        st.mant
    }
}

/// The folded scale of a finished scan.
pub open spec fn norm_scale_of(st: ScanState) -> int {
    if norm_shift(st) >= 0 {
        0
    } else {
        st.scale - exp_signed(st)
    }
}

/// The field `s` is an accepted decimal field.
pub open spec fn field_valid(s: Seq<char>) -> bool {
    &&& accepting(scan(s).phase)
    &&& norm_mant_of(scan(s)) < MANT_LIMIT as int
    &&& norm_scale_of(scan(s)) <= usize::MAX as int
}

/// Signed numerator of the accepted field `s`.
pub open spec fn field_mant(s: Seq<char>) -> int {
    if scan(s).neg {
        -norm_mant_of(scan(s))
    } else {
        norm_mant_of(scan(s))
    }
}

/// Power-of-ten denominator exponent of the accepted field `s`.
pub open spec fn field_scale(s: Seq<char>) -> nat {
    norm_scale_of(scan(s)) as nat
}

pub proof fn lemma_scan_nonneg(s: Seq<char>)
    ensures
        scan(s).mant >= 0,
        scan(s).exp >= 0,
        scan(s).scale <= s.len(),
    decreases s.len(),
{
    if s.len() > 0 {
        lemma_scan_nonneg(s.drop_last());
    }
}

/// Extending a field never shrinks the digits or the exponent read so far,
/// a field that has gone bad stays bad, and once the exponent's digits
/// have begun everything but the exponent and the phase is settled.
pub proof fn lemma_scan_extend(s: Seq<char>, i: int)
    requires
        0 <= i <= s.len(),
    ensures
        scan(s).mant >= scan(s.subrange(0, i)).mant,
        scan(s).exp >= scan(s.subrange(0, i)).exp,
        scan(s.subrange(0, i)).phase is Bad ==> scan(s).phase is Bad,
        exp_locked(scan(s.subrange(0, i)).phase) ==> exp_locked(scan(s).phase) && scan(s).mant
            == scan(s.subrange(0, i)).mant && scan(s).scale == scan(s.subrange(0, i)).scale
            && scan(s).neg == scan(s.subrange(0, i)).neg && scan(s).eneg == scan(
            s.subrange(0, i),
        ).eneg,
    decreases s.len() - i,
{
    if i == s.len() {
        assert(s.subrange(0, i) =~= s);
    } else {
        assert(s.subrange(0, i + 1).drop_last() =~= s.subrange(0, i));
        assert(s.subrange(0, i + 1).last() == s[i]);
        lemma_scan_nonneg(s.subrange(0, i));
        lemma_scan_extend(s, i + 1);
    }
}

/// The folded mantissa is never below the raw digits.
pub proof fn lemma_norm_mant_ge(st: ScanState)
    requires
        st.mant >= 0,
    ensures
        norm_mant_of(st) >= st.mant,
{
    if norm_shift(st) >= 0 {
        lemma_pow10_positive(norm_shift(st) as nat);
        assert(st.mant * pow10(norm_shift(st) as nat) >= st.mant) by (nonlinear_arith)
            requires
                st.mant >= 0,
                pow10(norm_shift(st) as nat) >= 1,
        ;
    }
}

/// Reads the decimal field `v[start..end]`, telling apart an accepted
/// field (its exact value comes back) from anything else.
pub fn scan_field(v: &Vec<char>, start: usize, end: usize) -> (r: Option<Decimal>)
    requires
        start <= end <= v@.len(),
    ensures
        r is Some <==> field_valid(v@.subrange(start as int, end as int)),
        r matches Some(d) ==> d@.mant == field_mant(v@.subrange(start as int, end as int))
            && d@.scale == field_scale(v@.subrange(start as int, end as int)),
{
    let ghost field = v@.subrange(start as int, end as int);
    let mut i: usize = start;
    let mut phase = Phase::Lead;
    let mut neg = false;
    let mut mant: i128 = 0;
    let mut scale: usize = 0;
    let mut eneg = false;
    let mut exp: i128 = 0;
    let mut exp_big = false;
    while i < end
        invariant
            start <= i <= end <= v@.len(),
            field == v@.subrange(start as int, end as int),
            scan(field.subrange(0, i - start)).phase == phase,
            scan(field.subrange(0, i - start)).neg == neg,
            scan(field.subrange(0, i - start)).mant == mant as int,
            scan(field.subrange(0, i - start)).scale == scale as nat,
            scan(field.subrange(0, i - start)).eneg == eneg,
            !exp_big ==> scan(field.subrange(0, i - start)).exp == exp as int,
            exp_big ==> scan(field.subrange(0, i - start)).exp >= EXP_LIMIT as int && mant == 0
                && !eneg && exp_locked(phase),
            0 <= mant < MANT_LIMIT,
            0 <= exp < EXP_LIMIT,
            scale <= i - start,
        decreases end - i,
    {
        let c = v[i];
        let ghost pre = field.subrange(0, i - start);
        proof {
            assert(field.subrange(0, i + 1 - start).drop_last() =~= pre);
            assert(field.subrange(0, i + 1 - start).last() == c);
        }
        let u: u32 = c as u32;
        let digit: bool = 48 <= u && u <= 57;
        let space: bool = c == ' ' || c == '\t' || c == '\n' || c == '\r' || c == '\u{000C}';
        let is_e: bool = c == 'e' || c == 'E';
        let mut next_mant: i128 = mant;
        if digit {
            match phase {
                Phase::Lead | Phase::Signed | Phase::IntPart | Phase::DotOnly
                    | Phase::FracPart => {
                    next_mant = 10 * mant + ((u - 48) as i128);
                    if next_mant >= MANT_LIMIT {
                        // The digits read so far never shrink, and the
                        // folded mantissa is never below them, so a field
                        // at the limit can no longer be accepted.
                        proof {
                            lemma_scan_extend(field, i + 1 - start);
                            lemma_scan_nonneg(field);
                            lemma_norm_mant_ge(scan(field));
                        }
                        return None;
                    }
                },
                Phase::ExpStart | Phase::ExpSign | Phase::ExpDigits => {
                    if !exp_big {
                        let next_exp: i128 = 10 * exp + ((u - 48) as i128);
                        if next_exp >= EXP_LIMIT {
                            proof {
                                lemma_scan_extend(field, i + 1 - start);
                                lemma_scan_nonneg(field);
                            }
                            if eneg {
                                // The scale would be the exponent or more,
                                // past what a usize can hold.
                                proof {
                                    assert(norm_shift(scan(field)) < 0);
                                    assert(norm_scale_of(scan(field)) >= EXP_LIMIT as int);
                                }
                                return None;
                            } else if mant > 0 {
                                // The folded mantissa would be at least
                                // 10^18, past the accepted range.
                                proof {
                                    let st = scan(field);
                                    assert(norm_shift(st) >= 18);
                                    lemma_pow10_monotone(18, norm_shift(st) as nat);
                                    lemma_pow10_18();
                                    assert(st.mant * pow10(norm_shift(st) as nat) >= pow10(
                                        norm_shift(st) as nat,
                                    )) by (nonlinear_arith)
                                        requires
                                            st.mant >= 1,
                                            pow10(norm_shift(st) as nat) >= 0,
                                    ;
                                }
                                return None;
                            } else {
                                // A zero mantissa stays zero however far it
                                // is shifted; only the exact exponent is
                                // given up.
                                exp_big = true;
                            }
                        } else {
                            exp = next_exp;
                        }
                    }
                },
                _ => {},
            }
        }
        match phase {
            Phase::Lead => {
                if space {
                } else if c == '+' {
                    phase = Phase::Signed;
                } else if c == '-' {
                    phase = Phase::Signed;
                    neg = true;
                } else if digit {
                    phase = Phase::IntPart;
                    mant = next_mant;
                } else if c == '.' {
                    phase = Phase::DotOnly;
                } else {
                    phase = Phase::Bad;
                }
            },
            Phase::Signed => {
                if digit {
                    phase = Phase::IntPart;
                    mant = next_mant;
                } else if c == '.' {
                    phase = Phase::DotOnly;
                } else {
                    phase = Phase::Bad;
                }
            },
            Phase::IntPart => {
                if digit {
                    mant = next_mant;
                } else if c == '.' {
                    phase = Phase::FracPart;
                } else if is_e {
                    phase = Phase::ExpStart;
                } else if space {
                    phase = Phase::Trail;
                } else {
                    phase = Phase::Bad;
                }
            },
            Phase::DotOnly => {
                if digit {
                    phase = Phase::FracPart;
                    mant = next_mant;
                    scale = scale + 1;
                } else {
                    phase = Phase::Bad;
                }
            },
            Phase::FracPart => {
                if digit {
                    mant = next_mant;
                    scale = scale + 1;
                } else if is_e {
                    phase = Phase::ExpStart;
                } else if space {
                    phase = Phase::Trail;
                } else {
                    phase = Phase::Bad;
                }
            },
            Phase::ExpStart => {
                if digit {
                    phase = Phase::ExpDigits;
                } else if c == '+' {
                    phase = Phase::ExpSign;
                } else if c == '-' {
                    phase = Phase::ExpSign;
                    eneg = true;
                } else {
                    phase = Phase::Bad;
                }
            },
            Phase::ExpSign => {
                if digit {
                    phase = Phase::ExpDigits;
                } else {
                    phase = Phase::Bad;
                }
            },
            Phase::ExpDigits => {
                if digit {
                } else if space {
                    phase = Phase::Trail;
                } else {
                    phase = Phase::Bad;
                }
            },
            Phase::Trail => {
                if !space {
                    phase = Phase::Bad;
                }
            },
            Phase::Bad => {},
        }
        i = i + 1;
    }
    proof {
        assert(field.subrange(0, end - start) =~= field);
    }
    let ghost st = scan(field);
    let ok = match phase {
        Phase::IntPart | Phase::FracPart | Phase::ExpDigits | Phase::Trail => true,
        _ => false,
    };
    if !ok {
        return None;
    }
    if exp_big {
        // Only a zero mantissa reaches here: zero at scale zero, whatever
        // the exponent says.
        proof {
            assert(norm_shift(st) >= 0);
            assert(norm_mant_of(st) == 0 * pow10(norm_shift(st) as nat));
            assert(0 * pow10(norm_shift(st) as nat) == 0) by (nonlinear_arith);
        }
        return Some(Decimal { mant: 0, scale: 0 });
    }
    let exp_signed_exec: i128 = if eneg {
        -exp
    } else {
        exp
    };
    let shift: i128 = exp_signed_exec - (scale as i128);
    if shift < 0 {
        let wide_scale: i128 = (scale as i128) - exp_signed_exec;
        if wide_scale > (usize::MAX as i128) {
            proof {
                assert(norm_scale_of(st) == wide_scale as int);
            }
            return None;
        }
        proof {
            assert(norm_mant_of(st) == st.mant);
        }
        Some(Decimal { mant: if neg { -mant } else { mant }, scale: wide_scale as usize })
    } else {
        if mant == 0 {
            proof {
                assert(norm_mant_of(st) == 0 * pow10(norm_shift(st) as nat));
                assert(0 * pow10(norm_shift(st) as nat) == 0) by (nonlinear_arith);
            }
            return Some(Decimal { mant: 0, scale: 0 });
        }
        // Shift the mantissa left; past the limit the field is refused.
        let mut m: i128 = mant;
        let mut j: i128 = 0;
        while j < shift
            invariant
                field == v@.subrange(start as int, end as int),
                st == scan(field),
                0 <= j <= shift,
                shift == norm_shift(st),
                st.mant == mant as int,
                1 <= mant,
                m as int == st.mant * pow10(j as nat),
                1 <= m < MANT_LIMIT,
            decreases shift - j,
        {
            proof {
                assert(pow10((j + 1) as nat) == 10 * pow10(j as nat));
                assert(st.mant * (10 * pow10(j as nat)) == 10 * (st.mant * pow10(j as nat)))
                    by (nonlinear_arith);
            }
            let m2: i128 = 10 * m;
            if m2 >= MANT_LIMIT {
                // The full shift only grows the mantissa further.
                proof {
                    lemma_pow10_add((j + 1) as nat, (shift - j - 1) as nat);
                    lemma_pow10_positive((shift - j - 1) as nat);
                    assert((j + 1) as nat + (shift - j - 1) as nat == norm_shift(st) as nat);
                    assert(st.mant * (pow10((j + 1) as nat) * pow10((shift - j - 1) as nat))
                        >= st.mant * pow10((j + 1) as nat)) by (nonlinear_arith)
                        requires
                            st.mant * pow10((j + 1) as nat) >= 0,
                            pow10((shift - j - 1) as nat) >= 1,
                            st.mant >= 0,
                    ;
                    assert(st.mant * (pow10((j + 1) as nat) * pow10((shift - j - 1) as nat))
                        == (st.mant * pow10((j + 1) as nat)) * pow10((shift - j - 1) as nat))
                        by (nonlinear_arith);
                    assert(norm_mant_of(st) >= m2 as int);
                }
                return None;
            }
            m = m2;
            j = j + 1;
        }
        proof {
            assert(norm_mant_of(st) == m as int);
        }
        Some(Decimal { mant: if neg { -m } else { m }, scale: 0 })
    }
}

} // verus!
