//! JSON numbers: integers, and doubles held by their bit pattern and shortest decimal text.
//!
//! What the library reads from a double (its sign, its integer part, the nearest integer,
//! how it compares with an integer) is computed from the bit pattern in integers.
use vstd::prelude::*;
use vstd::arithmetic::power2::{lemma_pow2_pos, lemma_pow2_strictly_increases, pow2};
use vstd::bits::{lemma_u64_pow2_no_overflow, lemma_u64_shr_is_div};

verus! {

/// A finite double: its bit pattern and the shortest decimal text that reads back as it.
pub struct Double {
    pub bits: u64,
    pub text: String,
}

/// A JSON number. Non-negative integers are `PosInt`, negative ones `NegInt`.
pub enum Number {
    PosInt(u64),
    NegInt(i64),
    Float(Double),
}

/// The plain value of a [`Number`].
#[verifier::ext_equal]
pub enum NumberView {
    PosInt(u64),
    NegInt(i64),
    Float(u64, Seq<char>),
}

impl View for Number {
    type V = NumberView;

    open spec fn view(&self) -> NumberView {
        match self {
            Number::PosInt(n) => NumberView::PosInt(*n),
            Number::NegInt(n) => NumberView::NegInt(*n),
            Number::Float(d) => NumberView::Float(d.bits, d.text@),
        }
    }
}

// ─── Doubles by their bits ───────────────────────────────────

pub const SIGN_BIT: u64 = 0x8000_0000_0000_0000;

pub const HIDDEN_BIT: u64 = 0x0010_0000_0000_0000;

/// The exponent field of a double.
pub open spec fn exponent_field(bits: u64) -> int {
    (bits as int / HIDDEN_BIT as int) % 2048
}

/// Neither infinite nor a NaN.
pub open spec fn finite(bits: u64) -> bool {
    exponent_field(bits) != 2047
}

pub open spec fn negative(bits: u64) -> bool {
    bits >= SIGN_BIT
}

/// A finite double is, up to its sign, `significand * 2^exponent`.
pub open spec fn significand(bits: u64) -> int {
    if exponent_field(bits) == 0 {
        bits as int % HIDDEN_BIT as int
    } else {
        bits as int % HIDDEN_BIT as int + HIDDEN_BIT as int
    }
}

pub open spec fn exponent(bits: u64) -> int {
    if exponent_field(bits) == 0 {
        -1074
    } else {
        exponent_field(bits) - 1075
    }
}

/// The integer part of the absolute value.
pub open spec fn whole(bits: u64) -> int {
    if exponent(bits) >= 0 {
        significand(bits) * pow2(exponent(bits) as nat)
    } else {
        significand(bits) / (pow2((-exponent(bits)) as nat) as int)
    }
}

/// The double is an integer.
pub open spec fn integral(bits: u64) -> bool {
    exponent(bits) >= 0 || significand(bits) % (pow2((-exponent(bits)) as nat) as int) == 0
}

/// The fraction of the absolute value is a half or more.
pub open spec fn half_or_more(bits: u64) -> bool {
    exponent(bits) < 0 && 2 * (significand(bits) % (pow2((-exponent(bits)) as nat) as int))
        >= pow2((-exponent(bits)) as nat)
}

/// The `i64` nearest to `n`.
pub open spec fn clamped(n: int) -> int {
    if n < i64::MIN {
        i64::MIN as int
    } else if n > i64::MAX {
        i64::MAX as int
    } else {
        n
    }
}

/// Conversion to `i64`: the fraction is dropped, and what is too large becomes the nearest bound.
pub open spec fn double_to_i64(bits: u64) -> int {
    clamped(
        if negative(bits) {
            -whole(bits)
        } else {
            whole(bits)
        },
    )
}

/// The nearest integer, halves away from zero, converted to `i64`.
pub open spec fn double_rounded(bits: u64) -> int {
    let magnitude = whole(bits) + if half_or_more(bits) {
        1int
    } else {
        0
    };
    clamped(
        if negative(bits) {
            -magnitude
        } else {
            magnitude
        },
    )
}

/// The double is greater than the integer `n`.
pub open spec fn double_exceeds(bits: u64, n: int) -> bool {
    if negative(bits) {
        -whole(bits) > n
    } else {
        whole(bits) > n || (whole(bits) == n && !integral(bits))
    }
}

/// The double is less than the integer `n`.
pub open spec fn double_below(bits: u64, n: int) -> bool {
    if negative(bits) {
        -whole(bits) < n || (-whole(bits) == n && !integral(bits))
    } else {
        whole(bits) < n
    }
}

/// The double is greater than zero.
pub open spec fn double_positive(bits: u64) -> bool {
    !negative(bits) && significand(bits) > 0
}

/// What is read off a bit pattern in one pass. `whole` stops at `2^64` where the integer part
/// is that large or larger.
struct Parts {
    negative: bool,
    whole: u128,
    integral: bool,
    half_or_more: bool,
}

const WHOLE_CAP: u128 = 0x1_0000_0000_0000_0000;

spec fn capped(n: int) -> int {
    if n > WHOLE_CAP {
        WHOLE_CAP as int
    } else {
        n
    }
}

fn split(bits: u64) -> (significand_exponent: (u64, i32))
    ensures
        significand_exponent.0 == significand(bits),
        significand_exponent.1 == exponent(bits),
        -1074 <= significand_exponent.1 <= 972,
        significand_exponent.0 < 0x20_0000_0000_0000u64,
{
    let field: u64 = (bits / HIDDEN_BIT) % 2048;
    let low: u64 = bits % HIDDEN_BIT;
    if field == 0 {
        (low, -1074)
    } else {
        (low + HIDDEN_BIT, field as i32 - 1075)
    }
}

fn parts_of(bits: u64) -> (parts: Parts)
    ensures
        parts.negative == negative(bits),
        parts.whole == capped(whole(bits)),
        parts.integral == integral(bits),
        parts.half_or_more == half_or_more(bits),
{
    let is_negative = bits >= SIGN_BIT;
    let (m, e) = split(bits);
    if e >= 0 {
        let mut value: u128 = m as u128;
        let mut k: i32 = 0;
        proof {
            vstd::arithmetic::power2::lemma2_to64();
            assert(m * 1 == m);
        }
        while k < e && value < WHOLE_CAP
            invariant
                0 <= k <= e,
                value <= 0x2_0000_0000_0000_0000u128,
                value == m * pow2(k as nat),
            decreases e - k,
        {
            proof {
                vstd::arithmetic::power2::lemma_pow2_unfold((k + 1) as nat);
                assert(m * pow2((k + 1) as nat) == 2 * (m * pow2(k as nat))) by (nonlinear_arith)
                    requires
                        pow2((k + 1) as nat) == 2 * pow2(k as nat),
                ;
            }
            value = value * 2;
            k = k + 1;
        }
        proof {
            if k < e {
                lemma_pow2_strictly_increases(k as nat, e as nat);
                assert(m * pow2(k as nat) <= m * pow2(e as nat)) by (nonlinear_arith)
                    requires
                        pow2(k as nat) < pow2(e as nat),
                        m >= 0,
                ;
            }
        }
        let capped_value: u128 = if value > WHOLE_CAP { WHOLE_CAP } else { value };
        Parts { negative: is_negative, whole: capped_value, integral: true, half_or_more: false }
    } else {
        let shift: i32 = -e;
        if shift < 64 {
            let s: u64 = shift as u64;
            let whole_part: u64 = m >> s;
            proof {
                lemma_u64_shr_is_div(m, s);
                lemma_u64_pow2_no_overflow(s as nat);
                lemma_pow2_pos(s as nat);
                vstd::bits::lemma_u64_shl_is_mul(1, s);
            }
            let unit: u64 = 1u64 << s;
            assert(unit == pow2(s as nat)) by {
                assert(1 * pow2(s as nat) == pow2(s as nat));
            }
            let rest: u64 = m % unit;
            let half = rest >= unit - rest;
            Parts {
                negative: is_negative,
                whole: whole_part as u128,
                integral: rest == 0,
                half_or_more: half,
            }
        } else {
            proof {
                vstd::arithmetic::power2::lemma2_to64_rest();
                vstd::arithmetic::power2::lemma2_to64();
                if shift > 64 {
                    lemma_pow2_strictly_increases(64, shift as nat);
                }
                let p = pow2(shift as nat) as int;
                assert(p >= 0x1_0000_0000_0000_0000);
                vstd::arithmetic::div_mod::lemma_basic_div(m as int, p);
                vstd::arithmetic::div_mod::lemma_small_mod(m as nat, p as nat);
            }
            Parts { negative: is_negative, whole: 0, integral: m == 0, half_or_more: false }
        }
    }
}

fn clamp_signed(is_negative: bool, magnitude: u128) -> (r: i64)
    requires
        magnitude <= WHOLE_CAP + 1,
    ensures
        r == clamped(
            if is_negative {
                -(magnitude as int)
            } else {
                magnitude as int
            },
        ),
{
    if is_negative {
        if magnitude >= 0x8000_0000_0000_0000u128 {
            i64::MIN
        } else {
            -(magnitude as i64)
        }
    } else if magnitude > 0x7fff_ffff_ffff_ffffu128 {
        i64::MAX
    } else {
        magnitude as i64
    }
}

/// [`double_to_i64`].
pub fn truncate_double(bits: u64) -> (r: i64)
    ensures
        r == double_to_i64(bits),
{
    let parts = parts_of(bits);
    clamp_signed(parts.negative, parts.whole)
}

/// [`double_rounded`].
pub fn round_double(bits: u64) -> (r: i64)
    ensures
        r == double_rounded(bits),
{
    let parts = parts_of(bits);
    let magnitude: u128 = if parts.half_or_more { parts.whole + 1 } else { parts.whole };
    clamp_signed(parts.negative, magnitude)
}

/// Decides [`double_exceeds`] for an integer in the range of the 64-bit types.
pub fn exceeds_double(bits: u64, n: i128) -> (r: bool)
    requires
        -0x8000_0000_0000_0000 <= n <= 0xffff_ffff_ffff_ffff,
    ensures
        r == double_exceeds(bits, n as int),
{
    let parts = parts_of(bits);
    let magnitude: i128 = parts.whole as i128;
    if parts.negative {
        -magnitude > n
    } else {
        magnitude > n || (magnitude == n && !parts.integral)
    }
}

/// Decides [`double_below`] for an integer in the range of the 64-bit types.
pub fn below_double(bits: u64, n: i128) -> (r: bool)
    requires
        -0x8000_0000_0000_0000 <= n <= 0xffff_ffff_ffff_ffff,
    ensures
        r == double_below(bits, n as int),
{
    let parts = parts_of(bits);
    let magnitude: i128 = parts.whole as i128;
    if parts.negative {
        -magnitude < n || (-magnitude == n && !parts.integral)
    } else {
        magnitude < n
    }
}

/// The significand, whether the double is an integer, and whether its absolute value is one
/// that integers up to it are all doubles.
pub fn parts_of_double(bits: u64) -> (r: (u64, bool, bool))
    ensures
        r.0 == significand(bits),
        r.1 == integral(bits),
        r.2 == (whole(bits) < EXACT_BELOW),
{
    let parts = parts_of(bits);
    let (m, _e) = split(bits);
    (m, parts.integral, parts.whole < EXACT_BELOW as u128)
}

/// Decides [`double_positive`].
pub fn positive_double(bits: u64) -> (r: bool)
    ensures
        r == double_positive(bits),
{
    let (m, _e) = split(bits);
    bits < SIGN_BIT && m > 0
}

// ─── Integers read as doubles ────────────────────────────────

pub const EXACT_BELOW: u64 = 0x20_0000_0000_0000;

/// The distance between neighbouring doubles at `n`.
pub open spec fn spacing(n: nat) -> nat
    decreases n,
{
    if n < EXACT_BELOW {
        1
    } else {
        2 * spacing(n / 2)
    }
}

/// The double nearest to `n`, ties to the even significand.
pub open spec fn nearest_double(n: nat) -> nat {
    let u = spacing(n);
    let q = n / u;
    let r = n % u;
    if 2 * r < u || (2 * r == u && q % 2 == 0) {
        q * u
    } else {
        (q + 1) * u
    }
}

proof fn lemma_spacing(n: nat)
    requires
        n <= u64::MAX,
    ensures
        1 <= spacing(n) <= 2048,
        n < EXACT_BELOW ==> spacing(n) == 1,
{
    vstd::arithmetic::power2::lemma2_to64();
    assert(n < EXACT_BELOW * 2048);
    lemma_spacing_below(n, 11);
}

proof fn lemma_spacing_below(n: nat, k: nat)
    requires
        n < EXACT_BELOW * pow2(k),
        k <= 11,
    ensures
        1 <= spacing(n) <= pow2(k),
        pow2(k) <= 2048,
    decreases k,
{
    vstd::arithmetic::power2::lemma2_to64();
    if k > 0 {
        vstd::arithmetic::power2::lemma_pow2_unfold(k);
        if n >= EXACT_BELOW {
            assert(n / 2 < EXACT_BELOW * pow2((k - 1) as nat)) by (nonlinear_arith)
                requires
                    n < EXACT_BELOW * pow2(k),
                    pow2(k) == 2 * pow2((k - 1) as nat),
            ;
            lemma_spacing_below(n / 2, (k - 1) as nat);
        } else {
            lemma_pow2_strictly_increases(0, k);
        }
        if k < 11 {
            lemma_pow2_strictly_increases(k, 11);
        }
    }
}

/// [`nearest_double`] of a 64-bit integer.
pub fn round_to_double(n: u64) -> (r: u128)
    ensures
        r == nearest_double(n as nat),
        r <= 0x1_0000_0000_0000_0000,
        n <= 0x8000_0000_0000_0000u64 ==> r <= 0x8000_0000_0000_0000,
        n < EXACT_BELOW ==> r == n,
{
    let mut u: u64 = 1;
    let mut x: u64 = n;
    proof {
        lemma_spacing(n as nat);
    }
    while x >= EXACT_BELOW
        invariant
            1 <= u,
            spacing(n as nat) == u * spacing(x as nat),
            1 <= spacing(n as nat) <= 2048,
        decreases x,
    {
        proof {
            lemma_spacing((x / 2) as nat);
            assert(u * (2 * spacing((x / 2) as nat)) == (2 * u) * spacing((x / 2) as nat))
                by (nonlinear_arith);
            assert(2 * u <= 2048) by (nonlinear_arith)
                requires
                    (2 * u) * spacing((x / 2) as nat) <= 2048,
                    spacing((x / 2) as nat) >= 1,
            ;
        }
        u = u * 2;
        x = x / 2;
    }
    assert(u * 1 == u);
    let q: u64 = n / u;
    let r: u64 = n % u;
    proof {
        vstd::arithmetic::div_mod::lemma_fundamental_div_mod(n as int, u as int);
        assert(u * q == q * u) by (nonlinear_arith);
        assert((q + 1) * u == q * u + u) by (nonlinear_arith);
        lemma_spacing_divides(n as nat);
        assert(0x8000_0000_0000_0000int == u * (0x8000_0000_0000_0000int / u as int));
        assert(0x1_0000_0000_0000_0000int == u * (0x1_0000_0000_0000_0000int / u as int));
    }
    let low: u128 = q as u128 * u as u128;
    if 2 * r < u || (2 * r == u && q % 2 == 0) {
        low
    } else {
        proof {
            lemma_next_multiple(n as int, u as int, 0x8000_0000_0000_0000);
            lemma_next_multiple(n as int, u as int, 0x1_0000_0000_0000_0000);
        }
        low + u as u128
    }
}

proof fn lemma_next_multiple(n: int, u: int, top: int)
    requires
        1 <= u,
        0 <= n,
        n % u != 0,
        top == u * (top / u),
    ensures
        n <= top ==> (n / u + 1) * u <= top,
{
    if n <= top {
        vstd::arithmetic::div_mod::lemma_fundamental_div_mod(n, u);
        assert(n / u < top / u) by (nonlinear_arith)
            requires
                n == u * (n / u) + n % u,
                n % u > 0,
                n <= u * (top / u),
                u >= 1,
        ;
        assert((n / u + 1) * u <= (top / u) * u) by (nonlinear_arith)
            requires
                n / u + 1 <= top / u,
                u >= 1,
        ;
        assert((top / u) * u == u * (top / u)) by (nonlinear_arith);
    }
}

/// Every spacing in the range is a power of two up to `2^11`.
proof fn lemma_spacing_divides(n: nat)
    requires
        n <= u64::MAX,
    ensures
        exists|k: nat| k <= 11 && spacing(n) == #[trigger] pow2(k),
        0x8000_0000_0000_0000int == spacing(n) * (0x8000_0000_0000_0000int / spacing(n) as int),
        0x1_0000_0000_0000_0000int == spacing(n) * (0x1_0000_0000_0000_0000int / spacing(n) as int),
{
    lemma_spacing_power(n);
    lemma_spacing(n);
    let k = choose|k: nat| spacing(n) == #[trigger] pow2(k);
    vstd::arithmetic::power2::lemma2_to64();
    if k > 11 {
        lemma_pow2_strictly_increases(11, k);
    }
    assert(k == 0 || k == 1 || k == 2 || k == 3 || k == 4 || k == 5 || k == 6 || k == 7 || k == 8
        || k == 9 || k == 10 || k == 11);
}

proof fn lemma_spacing_power(n: nat)
    ensures
        exists|k: nat| spacing(n) == #[trigger] pow2(k),
    decreases n,
{
    vstd::arithmetic::power2::lemma2_to64();
    if n < EXACT_BELOW {
        assert(spacing(n) == pow2(0));
    } else {
        lemma_spacing_power(n / 2);
        let k = choose|k: nat| spacing(n / 2) == #[trigger] pow2(k);
        vstd::arithmetic::power2::lemma_pow2_unfold(k + 1);
        assert(spacing(n) == pow2(k + 1));
    }
}

// ─── Numbers ─────────────────────────────────────────────────

/// An integer read as a double.
pub open spec fn as_double_int(n: int) -> int {
    if n < 0 {
        -(nearest_double((-n) as nat) as int)
    } else {
        nearest_double(n as nat) as int
    }
}

/// The number is greater than zero.
pub open spec fn number_positive(n: NumberView) -> bool {
    match n {
        NumberView::PosInt(k) => k > 0,
        NumberView::NegInt(k) => k > 0,
        NumberView::Float(bits, _) => double_positive(bits),
    }
}

/// The number, read as a double, to the nearest integer.
pub open spec fn number_rounded(n: NumberView) -> int {
    match n {
        NumberView::PosInt(k) => clamped(as_double_int(k as int)),
        NumberView::NegInt(k) => clamped(as_double_int(k as int)),
        NumberView::Float(bits, _) => double_rounded(bits),
    }
}

/// The number without its fraction, as near as `i64` comes to it.
pub open spec fn number_to_i64(n: NumberView) -> int {
    match n {
        NumberView::PosInt(k) => clamped(k as int),
        NumberView::NegInt(k) => k as int,
        NumberView::Float(bits, _) => double_to_i64(bits),
    }
}

/// The number, read as a double and with its fraction dropped, as near as `i64` comes to it.
pub open spec fn number_truncated(n: NumberView) -> int {
    match n {
        NumberView::PosInt(k) => clamped(as_double_int(k as int)),
        NumberView::NegInt(k) => clamped(as_double_int(k as int)),
        NumberView::Float(bits, _) => double_to_i64(bits),
    }
}

/// Both read as doubles, the number is greater than `limit`.
pub open spec fn number_exceeds(n: NumberView, limit: i64) -> bool {
    match n {
        NumberView::PosInt(k) => as_double_int(k as int) > as_double_int(limit as int),
        NumberView::NegInt(k) => as_double_int(k as int) > as_double_int(limit as int),
        NumberView::Float(bits, _) => double_exceeds(bits, as_double_int(limit as int)),
    }
}

/// Both read as doubles, the number is less than `limit`.
pub open spec fn number_below(n: NumberView, limit: i64) -> bool {
    match n {
        NumberView::PosInt(k) => as_double_int(k as int) < as_double_int(limit as int),
        NumberView::NegInt(k) => as_double_int(k as int) < as_double_int(limit as int),
        NumberView::Float(bits, _) => double_below(bits, as_double_int(limit as int)),
    }
}

/// The number that stands for an integer.
pub open spec fn int_number(n: int) -> NumberView {
    if n < 0 {
        NumberView::NegInt(n as i64)
    } else {
        NumberView::PosInt(n as u64)
    }
}

/// Integers below `2^53` in absolute value are read as themselves.
pub proof fn small_integers_are_doubles(n: int)
    requires
        -(EXACT_BELOW as int) < n < EXACT_BELOW,
    ensures
        as_double_int(n) == n,
{
    let m: nat = if n < 0 {
        (-n) as nat
    } else {
        n as nat
    };
    assert(spacing(m) == 1);
    assert(m / 1 == m && m % 1 == 0 && m * 1 == m);
}

fn signed_double(n: i64) -> (r: i128)
    ensures
        r == as_double_int(n as int),
        -0x8000_0000_0000_0000 <= r <= 0x8000_0000_0000_0000,
{
    if n < 0 {
        let magnitude: u64 = if n == i64::MIN { 0x8000_0000_0000_0000u64 } else { (-n) as u64 };
        -(round_to_double(magnitude) as i128)
    } else {
        round_to_double(n as u64) as i128
    }
}

fn clamp_wide(n: i128) -> (r: i64)
    ensures
        r == clamped(n as int),
{
    if n < i64::MIN as i128 {
        i64::MIN
    } else if n > i64::MAX as i128 {
        i64::MAX
    } else {
        n as i64
    }
}

impl Number {
    pub fn dup(&self) -> (out: Number)
        ensures
            out@ == self@,
    {
        match self {
            Number::PosInt(n) => Number::PosInt(*n),
            Number::NegInt(n) => Number::NegInt(*n),
            Number::Float(d) => Number::Float(Double { bits: d.bits, text: d.text.clone() }),
        }
    }

    /// [`int_number`].
    pub fn from_i64(n: i64) -> (out: Number)
        ensures
            out@ == int_number(n as int),
    {
        if n < 0 {
            Number::NegInt(n)
        } else {
            Number::PosInt(n as u64)
        }
    }

    /// Whether two numbers are written the same.
    pub fn same(&self, other: &Number) -> (r: bool)
        ensures
            r == (self@ == other@),
    {
        match (self, other) {
            (Number::PosInt(a), Number::PosInt(b)) => *a == *b,
            (Number::NegInt(a), Number::NegInt(b)) => *a == *b,
            (Number::Float(a), Number::Float(b)) => a.bits == b.bits && a.text == b.text,
            _ => false,
        }
    }

    /// The integer, where the number is one and fits.
    pub fn as_i64(&self) -> (r: Option<i64>)
        ensures
            r == number_as_i64(self@),
    {
        match self {
            Number::PosInt(n) => if *n <= i64::MAX as u64 {
                Some(*n as i64)
            } else {
                None
            },
            Number::NegInt(n) => Some(*n),
            Number::Float(_) => None,
        }
    }

    /// The natural number, where the number is one.
    pub fn as_u64(&self) -> (r: Option<u64>)
        ensures
            r == number_as_u64(self@),
    {
        match self {
            Number::PosInt(n) => Some(*n),
            Number::NegInt(n) => if *n >= 0 {
                Some(*n as u64)
            } else {
                None
            },
            Number::Float(_) => None,
        }
    }

    /// [`number_positive`].
    pub fn is_positive(&self) -> (r: bool)
        ensures
            r == number_positive(self@),
    {
        match self {
            Number::PosInt(n) => *n > 0,
            Number::NegInt(n) => *n > 0,
            Number::Float(d) => positive_double(d.bits),
        }
    }

    /// [`number_rounded`].
    pub fn rounded(&self) -> (r: i64)
        ensures
            r == number_rounded(self@),
    {
        match self {
            Number::PosInt(n) => clamp_wide(round_to_double(*n) as i128),
            Number::NegInt(n) => clamp_wide(signed_double(*n)),
            Number::Float(d) => round_double(d.bits),
        }
    }

    /// [`number_to_i64`].
    pub fn to_i64(&self) -> (r: i64)
        ensures
            r == number_to_i64(self@),
    {
        match self {
            Number::PosInt(n) => clamp_wide(*n as i128),
            Number::NegInt(n) => *n,
            Number::Float(d) => truncate_double(d.bits),
        }
    }

    /// [`number_truncated`].
    pub fn truncated(&self) -> (r: i64)
        ensures
            r == number_truncated(self@),
    {
        match self {
            Number::PosInt(n) => clamp_wide(round_to_double(*n) as i128),
            Number::NegInt(n) => clamp_wide(signed_double(*n)),
            Number::Float(d) => truncate_double(d.bits),
        }
    }

    /// [`number_below`].
    pub fn below(&self, limit: i64) -> (r: bool)
        ensures
            r == number_below(self@, limit),
    {
        let bound: i128 = signed_double(limit);
        match self {
            Number::PosInt(n) => (round_to_double(*n) as i128) < bound,
            Number::NegInt(n) => signed_double(*n) < bound,
            Number::Float(d) => below_double(d.bits, bound),
        }
    }

    /// [`number_exceeds`].
    pub fn exceeds(&self, limit: i64) -> (r: bool)
        ensures
            r == number_exceeds(self@, limit),
    {
        let bound: i128 = signed_double(limit);
        match self {
            Number::PosInt(n) => round_to_double(*n) as i128 > bound,
            Number::NegInt(n) => signed_double(*n) > bound,
            Number::Float(d) => exceeds_double(d.bits, bound),
        }
    }
}

/// The integer that a number is, where it is one and fits `i64`.
pub open spec fn number_as_i64(n: NumberView) -> Option<i64> {
    match n {
        NumberView::PosInt(k) => if k <= i64::MAX {
            Some(k as i64)
        } else {
            None
        },
        NumberView::NegInt(k) => Some(k),
        NumberView::Float(_, _) => None,
    }
}

/// The natural number that a number is, where it is one.
pub open spec fn number_as_u64(n: NumberView) -> Option<u64> {
    match n {
        NumberView::PosInt(k) => Some(k),
        NumberView::NegInt(k) => if k >= 0 {
            Some(k as u64)
        } else {
            None
        },
        NumberView::Float(_, _) => None,
    }
}

} // verus!
