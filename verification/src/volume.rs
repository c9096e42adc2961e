//! Volume input handling: the prompt's reply is parsed as a decimal
//! number in millilitres, and anything else falls back to the default.
//!
//! The accepted grammar is that of a JSON number with surrounding ASCII
//! whitespace: an optional minus sign, an integer part without leading
//! zeros, an optional fraction, an optional exponent.  The value is
//! returned in micro-millilitres.  Only the first 38 significant digits
//! of the mantissa contribute (further integer-part digits still count
//! toward the magnitude, further fraction digits are dropped), exponents
//! saturate at 10^15, and the result is clamped to the `i64` range; all
//! three rules are part of the contract below, not an approximation of
//! it.

use vstd::prelude::*;

verus! {

use vstd::arithmetic::div_mod::{
    lemma_div_is_ordered,
    lemma_fundamental_div_mod,
};
use vstd::arithmetic::mul::{
    lemma_mul_inequality,
};
use crate::model::VOL_MAX;

/// The default volume, in micro-millilitres: 330 ml.
pub const DEFAULT_VOLUME_MICRO_ML: i64 = 330_000_000;

/// Mantissa accumulation stops once this is reached: 10^37, so at most
/// 38 significant digits are taken.
pub const MANT_LIM: u128 = 10_000_000_000_000_000_000_000_000_000_000_000_000;

/// Exponent accumulation saturates here: 10^15.
pub const EXP_LIM: i64 = 1_000_000_000_000_000;

/// Parsed magnitudes are clamped to this: the largest `i64`.
pub const VOLUME_SAT: i64 = i64::MAX;

/// ASCII whitespace accepted around the number.
pub open spec fn is_ws(c: u8) -> bool {
    c == 32 || c == 9 || c == 10 || c == 13
}

/// An ASCII decimal digit.
pub open spec fn is_digit(c: u8) -> bool {
    48 <= c <= 57
}

/// The first position at or after `i` holding a non-whitespace byte
/// (or the end of the input).
pub open spec fn skip_ws(s: Seq<u8>, i: int) -> int
    decreases s.len() - i
        when 0 <= i <= s.len()
{
    if i < s.len() && is_ws(s[i]) {
        skip_ws(s, i + 1)
    } else {
        i
    }
}

/// The first position at or after `i` holding a non-digit byte (or the
/// end of the input).
pub open spec fn end_digits(s: Seq<u8>, i: int) -> int
    decreases s.len() - i
        when 0 <= i <= s.len()
{
    if i < s.len() && is_digit(s[i]) {
        end_digits(s, i + 1)
    } else {
        i
    }
}

/// Where the parts of a well-formed number sit in the input.  An empty
/// range (`start == end`) for the fraction or the exponent means the
/// part is absent.
pub ghost struct NumberShape {
    pub neg: bool,
    pub int_start: int,
    pub int_end: int,
    pub frac_start: int,
    pub frac_end: int,
    pub exp_neg: bool,
    pub exp_start: int,
    pub exp_end: int,
}

/// The exponent and trailing-whitespace tail of the grammar, after the
/// mantissa has been scanned up to `fe`.
pub open spec fn spec_shape_tail(
    s: Seq<u8>,
    neg: bool,
    int_start: int,
    int_end: int,
    frac_start: int,
    frac_end: int,
    fe: int,
) -> Option<NumberShape> {
    let n = s.len() as int;
    if fe < n && (s[fe] == 101 || s[fe] == 69) {
        let has_sign = fe + 1 < n && (s[fe + 1] == 45 || s[fe + 1] == 43);
        let eneg = fe + 1 < n && s[fe + 1] == 45;
        let es = if has_sign {
            fe + 2
        } else {
            fe + 1
        };
        let ee = end_digits(s, es);
        if ee == es {
            None
        } else if skip_ws(s, ee) == n {
            Some(
                NumberShape {
                    neg,
                    int_start,
                    int_end,
                    frac_start,
                    frac_end,
                    exp_neg: eneg,
                    exp_start: es,
                    exp_end: ee,
                },
            )
        } else {
            None
        }
    } else if skip_ws(s, fe) == n {
        Some(
            NumberShape {
                neg,
                int_start,
                int_end,
                frac_start,
                frac_end,
                exp_neg: false,
                exp_start: fe,
                exp_end: fe,
            },
        )
    } else {
        None
    }
}

/// Whether the input is a well-formed number, and where its parts sit.
/// The scan is deterministic: leading whitespace, an optional minus, an
/// integer part (`0`, or a nonzero digit followed by digits), an
/// optional `.` with at least one digit, an optional `e`/`E` with an
/// optional sign and at least one digit, trailing whitespace, the end.
pub open spec fn spec_shape(s: Seq<u8>) -> Option<NumberShape> {
    let n = s.len() as int;
    let a = skip_ws(s, 0);
    let neg = a < n && s[a] == 45;
    let b = if neg {
        a + 1
    } else {
        a
    };
    if b >= n || !is_digit(s[b]) {
        None
    } else {
        let c = end_digits(s, b);
        if s[b] == 48 && c != b + 1 {
            None
        } else if c < n && s[c] == 46 {
            let fe = end_digits(s, c + 1);
            if fe == c + 1 {
                None
            } else {
                spec_shape_tail(s, neg, b, c, c + 1, fe, fe)
            }
        } else {
            spec_shape_tail(s, neg, b, c, c, c, c)
        }
    }
}

/// Folds the integer-part digits of `s[i..j)` into a mantissa: digits
/// are appended while the mantissa is below `MANT_LIM`; once it is
/// full, each further digit instead raises the scale by one.
pub open spec fn acc_int(s: Seq<u8>, i: int, j: int, m: int, scale: int) -> (int, int)
    decreases j - i
        when i <= j
{
    if i >= j {
        (m, scale)
    } else if m < MANT_LIM as int {
        acc_int(s, i + 1, j, m * 10 + (s[i] - 48), scale)
    } else {
        acc_int(s, i + 1, j, m, scale + 1)
    }
}

/// Folds the fraction digits of `s[i..j)` into the mantissa: digits are
/// appended, and counted in `f`, while the mantissa is below
/// `MANT_LIM`; once it is full, further fraction digits are dropped.
pub open spec fn acc_frac(s: Seq<u8>, i: int, j: int, m: int, f: int) -> (int, int)
    decreases j - i
        when i <= j
{
    if i >= j {
        (m, f)
    } else if m < MANT_LIM as int {
        acc_frac(s, i + 1, j, m * 10 + (s[i] - 48), f + 1)
    } else {
        acc_frac(s, i + 1, j, m, f)
    }
}

/// Folds the exponent digits of `s[i..j)` into a value, saturating at
/// `EXP_LIM`.
pub open spec fn acc_exp(s: Seq<u8>, i: int, j: int, e: int) -> int
    decreases j - i
        when i <= j
{
    if i >= j {
        e
    } else if e < EXP_LIM as int {
        acc_exp(s, i + 1, j, e * 10 + (s[i] - 48))
    } else {
        acc_exp(s, i + 1, j, e)
    }
}

/// Ten to the `n`.
pub open spec fn spec_pow10(n: nat) -> int
    decreases n,
{
    if n == 0 {
        1
    } else {
        10 * spec_pow10((n - 1) as nat)
    }
}

/// The value of a well-formed number, in micro-millilitres: the signed
/// mantissa times ten to the net scale, clamped to `VOLUME_SAT`.
pub open spec fn spec_number_value(s: Seq<u8>, sh: NumberShape) -> int {
    let (m1, scale) = acc_int(s, sh.int_start, sh.int_end, 0, 0);
    let (m, f) = acc_frac(s, sh.frac_start, sh.frac_end, m1, 0);
    let e = acc_exp(s, sh.exp_start, sh.exp_end, 0);
    let esigned = if sh.exp_neg {
        -e
    } else {
        e
    };
    let p = 6 + scale + esigned - f;
    let mag = if m == 0 {
        0
    } else if p >= 39 {
        VOLUME_SAT as int
    } else if p >= 0 {
        let v = m * spec_pow10(p as nat);
        if v > VOLUME_SAT as int {
            VOLUME_SAT as int
        } else {
            v
        }
    } else if p <= -39 {
        0
    } else {
        let v = m / spec_pow10((-p) as nat);
        if v > VOLUME_SAT as int {
            VOLUME_SAT as int
        } else {
            v
        }
    };
    if sh.neg {
        -mag
    } else {
        mag
    }
}

/// What the volume prompt yields for a given reply: the parsed value in
/// micro-millilitres, or the default when the reply is not a
/// well-formed number.
pub open spec fn spec_volume_micro_ml(s: Seq<u8>) -> int {
    match spec_shape(s) {
        Option::None => DEFAULT_VOLUME_MICRO_ML as int,
        Option::Some(sh) => spec_number_value(s, sh),
    }
}

proof fn lemma_acc_int_snoc(s: Seq<u8>, a: int, j: int, m: int, scale: int)
    requires
        0 <= a <= j < s.len(),
    ensures
        ({
            let (m1, sc1) = acc_int(s, a, j, m, scale);
            acc_int(s, a, j + 1, m, scale) == if m1 < MANT_LIM as int {
                (m1 * 10 + (s[j] - 48), sc1)
            } else {
                (m1, sc1 + 1)
            }
        }),
    decreases j - a,
{
    reveal_with_fuel(acc_int, 3);
    if a < j {
        if m < MANT_LIM as int {
            lemma_acc_int_snoc(s, a + 1, j, m * 10 + (s[a] - 48), scale);
        } else {
            lemma_acc_int_snoc(s, a + 1, j, m, scale + 1);
        }
    }
}

proof fn lemma_acc_frac_snoc(s: Seq<u8>, a: int, j: int, m: int, f: int)
    requires
        0 <= a <= j < s.len(),
    ensures
        ({
            let (m1, f1) = acc_frac(s, a, j, m, f);
            acc_frac(s, a, j + 1, m, f) == if m1 < MANT_LIM as int {
                (m1 * 10 + (s[j] - 48), f1 + 1)
            } else {
                (m1, f1)
            }
        }),
    decreases j - a,
{
    reveal_with_fuel(acc_frac, 3);
    if a < j {
        if m < MANT_LIM as int {
            lemma_acc_frac_snoc(s, a + 1, j, m * 10 + (s[a] - 48), f + 1);
        } else {
            lemma_acc_frac_snoc(s, a + 1, j, m, f);
        }
    }
}

proof fn lemma_acc_exp_snoc(s: Seq<u8>, a: int, j: int, e: int)
    requires
        0 <= a <= j < s.len(),
    ensures
        ({
            let e1 = acc_exp(s, a, j, e);
            acc_exp(s, a, j + 1, e) == if e1 < EXP_LIM as int {
                e1 * 10 + (s[j] - 48)
            } else {
                e1
            }
        }),
    decreases j - a,
{
    reveal_with_fuel(acc_exp, 3);
    if a < j {
        if e < EXP_LIM as int {
            lemma_acc_exp_snoc(s, a + 1, j, e * 10 + (s[a] - 48));
        } else {
            lemma_acc_exp_snoc(s, a + 1, j, e);
        }
    }
}

proof fn lemma_pow10_pos(n: nat)
    ensures
        spec_pow10(n) >= 1,
    decreases n,
{
    if n > 0 {
        lemma_pow10_pos((n - 1) as nat);
    }
}

proof fn lemma_pow10_mono(a: nat, b: nat)
    requires
        a <= b,
    ensures
        spec_pow10(a) <= spec_pow10(b),
    decreases b,
{
    if a < b {
        lemma_pow10_mono(a, (b - 1) as nat);
        lemma_pow10_pos((b - 1) as nat);
    }
}

proof fn lemma_pow10_vals()
    ensures
        spec_pow10(37) == MANT_LIM as int,
        spec_pow10(38) == 10 * (MANT_LIM as int),
        spec_pow10(6) == 1_000_000,
{
    reveal_with_fuel(spec_pow10, 40);
}

/// `10^k` for `k` up to 38.
fn pow10_u128(k: u64) -> (r: u128)
    requires
        k <= 38,
    ensures
        r as int == spec_pow10(k as nat),
        r >= 1,
{
    let mut r: u128 = 1;
    let mut i: u64 = 0;
    while i < k
        invariant
            i <= k,
            k <= 38,
            r as int == spec_pow10(i as nat),
            r >= 1,
        decreases k - i,
    {
        proof {
            lemma_pow10_vals();
            lemma_pow10_mono((i + 1) as nat, 38);
        }
        r = r * 10;
        i = i + 1;
    }
    r
}

/// `m * pw` exceeds `cap` exactly when `m` exceeds `cap / pw`.
proof fn lemma_clamp_mul(m: int, pw: int, cap: int)
    requires
        0 <= m,
        1 <= pw,
        0 <= cap,
    ensures
        m > cap / pw <==> m * pw > cap,
{
    lemma_fundamental_div_mod(cap, pw);
    lemma_div_is_ordered(0, cap, pw);
    if m > cap / pw {
        lemma_mul_inequality(cap / pw + 1, m, pw);
        vstd::arithmetic::mul::lemma_mul_is_distributive_add_other_way(pw, cap / pw, 1);
        vstd::arithmetic::mul::lemma_mul_is_commutative(cap / pw, pw);
    } else {
        lemma_mul_inequality(m, cap / pw, pw);
        vstd::arithmetic::mul::lemma_mul_is_commutative(cap / pw, pw);
    }
}

/// Parses the prompt's reply as a decimal number of millilitres and
/// returns it in micro-millilitres; any reply that is not a
/// well-formed number yields the default volume.
#[verifier::rlimit(100)]
pub fn parse_volume_micro_ml(s: &[u8]) -> (v: i64)
    ensures
        v as int == spec_volume_micro_ml(s@),
{
    let n: usize = s.len();
    let mut i: usize = 0;
    while i < n && (s[i] == 32 || s[i] == 9 || s[i] == 10 || s[i] == 13)
        invariant
            i <= n,
            n == s@.len(),
            skip_ws(s@, 0) == skip_ws(s@, i as int),
        decreases n - i,
    {
        i = i + 1;
    }
    let mut neg: bool = false;
    if i < n && s[i] == 45 {
        neg = true;
        i = i + 1;
    }
    if i >= n || !(48 <= s[i] && s[i] <= 57) {
        return DEFAULT_VOLUME_MICRO_ML;
    }
    let int_start: usize = i;
    let mut m: u128 = 0;
    let mut scale: u64 = 0;
    while i < n && 48 <= s[i] && s[i] <= 57
        invariant
            int_start <= i <= n,
            n == s@.len(),
            end_digits(s@, int_start as int) == end_digits(s@, i as int),
            (m as int, scale as int) == acc_int(s@, int_start as int, i as int, 0, 0),
            m < 10 * MANT_LIM,
            scale as int <= i as int - int_start as int,
        decreases n - i,
    {
        proof {
            lemma_acc_int_snoc(s@, int_start as int, i as int, 0, 0);
        }
        if m < MANT_LIM {
            m = m * 10 + ((s[i] - 48) as u128);
        } else {
            scale = scale + 1;
        }
        i = i + 1;
    }
    let int_end: usize = i;
    if s[int_start] == 48 && i != int_start + 1 {
        return DEFAULT_VOLUME_MICRO_ML;
    }
    let ghost m_after_int: int = m as int;
    let ghost mut fs: int = i as int;
    let ghost mut fe: int = i as int;
    let mut f: u64 = 0;
    if i < n && s[i] == 46 {
        i = i + 1;
        let frac_start: usize = i;
        if i >= n || !(48 <= s[i] && s[i] <= 57) {
            return DEFAULT_VOLUME_MICRO_ML;
        }
        while i < n && 48 <= s[i] && s[i] <= 57
            invariant
                frac_start <= i <= n,
                n == s@.len(),
                end_digits(s@, frac_start as int) == end_digits(s@, i as int),
                (m as int, f as int) == acc_frac(s@, frac_start as int, i as int, m_after_int, 0),
                m < 10 * MANT_LIM,
                f as int <= i as int - frac_start as int,
            decreases n - i,
        {
            proof {
                lemma_acc_frac_snoc(s@, frac_start as int, i as int, m_after_int, 0);
            }
            if m < MANT_LIM {
                m = m * 10 + ((s[i] - 48) as u128);
                f = f + 1;
            }
            i = i + 1;
        }
        proof {
            fs = frac_start as int;
            fe = i as int;
        }
    }
    let mut exp_neg: bool = false;
    let mut e: i64 = 0;
    let ghost mut es: int = i as int;
    let ghost mut ee: int = i as int;
    if i < n && (s[i] == 101 || s[i] == 69) {
        i = i + 1;
        if i < n && (s[i] == 45 || s[i] == 43) {
            exp_neg = s[i] == 45;
            i = i + 1;
        }
        if i >= n || !(48 <= s[i] && s[i] <= 57) {
            return DEFAULT_VOLUME_MICRO_ML;
        }
        let exp_start: usize = i;
        while i < n && 48 <= s[i] && s[i] <= 57
            invariant
                exp_start <= i <= n,
                n == s@.len(),
                end_digits(s@, exp_start as int) == end_digits(s@, i as int),
                e as int == acc_exp(s@, exp_start as int, i as int, 0),
                0 <= e < 10 * EXP_LIM,
            decreases n - i,
        {
            proof {
                lemma_acc_exp_snoc(s@, exp_start as int, i as int, 0);
            }
            if e < EXP_LIM {
                e = e * 10 + ((s[i] - 48) as i64);
            }
            i = i + 1;
        }
        proof {
            es = exp_start as int;
            ee = i as int;
        }
    }
    let ghost tail_start: int = i as int;
    while i < n && (s[i] == 32 || s[i] == 9 || s[i] == 10 || s[i] == 13)
        invariant
            tail_start <= i as int <= n as int,
            n == s@.len(),
            skip_ws(s@, tail_start) == skip_ws(s@, i as int),
        decreases n - i,
    {
        i = i + 1;
    }
    if i != n {
        return DEFAULT_VOLUME_MICRO_ML;
    }
    let ghost sh = NumberShape {
        neg,
        int_start: int_start as int,
        int_end: int_end as int,
        frac_start: fs,
        frac_end: fe,
        exp_neg,
        exp_start: es,
        exp_end: ee,
    };
    proof {
        assert(spec_shape(s@) == Some(sh));
        assert(acc_int(s@, sh.int_start, sh.int_end, 0, 0) == (m_after_int, scale as int));
        assert(acc_frac(s@, sh.frac_start, sh.frac_end, m_after_int, 0) == (m as int, f as int));
        assert(acc_exp(s@, sh.exp_start, sh.exp_end, 0) == e as int);
    }
    let esigned: i64 = if exp_neg {
        -e
    } else {
        e
    };
    let p: i128 = 6 + (scale as i128) + (esigned as i128) - (f as i128);
    let mag: i64 = if m == 0 {
        0
    } else if p >= 39 {
        VOLUME_SAT
    } else if p >= 0 {
        let pw: u128 = pow10_u128(p as u64);
        proof {
            lemma_clamp_mul(m as int, pw as int, VOLUME_SAT as int);
        }
        if m > (VOLUME_SAT as u128) / pw {
            VOLUME_SAT
        } else {
            (m * pw) as i64
        }
    } else if p <= -39 {
        0
    } else {
        let pw: u128 = pow10_u128((-p) as u64);
        let q: u128 = m / pw;
        if q > VOLUME_SAT as u128 {
            VOLUME_SAT
        } else {
            q as i64
        }
    };
    if neg {
        -mag
    } else {
        mag
    }
}

/// The volume the run uses, in micro-millilitres: the prompt reply
/// parsed when the configuration asks for one, the default otherwise.
/// With `check_volume` false the result is the default whatever `line`
/// holds: no reply is consulted.
pub fn initial_volume(check_volume: bool, line: Option<&[u8]>) -> (v: i64)
    ensures
        !check_volume ==> v == DEFAULT_VOLUME_MICRO_ML,
        check_volume && line is Some ==> v as int == spec_volume_micro_ml(line->0@),
        check_volume && line is None ==> v == DEFAULT_VOLUME_MICRO_ML,
{
    if check_volume {
        match line {
            Option::Some(l) => parse_volume_micro_ml(l),
            Option::None => DEFAULT_VOLUME_MICRO_ML,
        }
    } else {
        DEFAULT_VOLUME_MICRO_ML
    }
}

/// Converts a volume in micro-millilitres to the model's
/// micro-cubic-metres (one micro-cubic-metre is one millilitre),
/// refusing volumes the model's arithmetic does not admit.
pub fn volume_m3_for_model(micro_ml: i64) -> (r: Option<u64>)
    ensures
        r is Some <==> 1_000_000 <= micro_ml && micro_ml as int / 1_000_000 <= VOL_MAX as int,
        r matches Some(v) ==> v as int == micro_ml as int / 1_000_000 && 0 < v <= VOL_MAX,
{
    if micro_ml < 1_000_000 {
        Option::None
    } else {
        let v: u64 = (micro_ml as u64) / 1_000_000;
        if v > VOL_MAX {
            Option::None
        } else {
            Option::Some(v)
        }
    }
}

} // verus!
