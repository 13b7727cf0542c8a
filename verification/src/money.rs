//! Parsing locale-formatted currency strings into exact decimal amounts, and
//! rounding those amounts to integer minor currency units.
//!
//! A money string is a numeric prefix — optional sign, digits, optionally a
//! `,` decimal separator and more digits — followed by an ignored trailing
//! part that starts at the first space or euro-sign character.

use vstd::prelude::*;

use crate::error::MigrateError;

verus! {

/// `10^n`.
pub open spec fn pow10(n: nat) -> int
    decreases n,
{
    if n == 0 {
        1
    } else {
        10 * pow10((n - 1) as nat)
    }
}

pub proof fn lemma_pow10_pos(n: nat)
    ensures
        pow10(n) >= 1,
    decreases n,
{
    if n > 0 {
        lemma_pow10_pos((n - 1) as nat);
    }
}

pub open spec fn is_digit(c: char) -> bool {
    48 <= c as u32 <= 57
}

pub open spec fn digit_val(c: char) -> int {
    c as u32 - 48
}

pub open spec fn all_digits(s: Seq<char>) -> bool {
    forall|i: int| 0 <= i < s.len() ==> is_digit(s[i])
}

/// The integer a digit string denotes, most significant digit first.
pub open spec fn digits_val(s: Seq<char>) -> int
    decreases s.len(),
{
    if s.len() == 0 {
        0
    } else {
        10 * digits_val(s.drop_last()) + digit_val(s.last())
    }
}

proof fn lemma_digits_val_step(t: Seq<char>, j: int)
    requires
        0 <= j < t.len(),
    ensures
        digits_val(t.take(j + 1)) == 10 * digits_val(t.take(j)) + digit_val(t[j]),
{
    assert(t.take(j + 1).drop_last() =~= t.take(j));
    assert(t.take(j + 1).last() == t[j]);
}

pub proof fn lemma_digits_val_bound(t: Seq<char>)
    requires
        all_digits(t),
    ensures
        0 <= digits_val(t) < pow10(t.len()),
    decreases t.len(),
{
    if t.len() > 0 {
        assert(all_digits(t.drop_last()));
        lemma_digits_val_bound(t.drop_last());
        assert(is_digit(t.last()));
    }
}

/// The index of the first character satisfying `f`, or `s.len()` if none does.
pub open spec fn first_where(s: Seq<char>, f: spec_fn(char) -> bool) -> int
    decreases s.len(),
{
    if s.len() == 0 {
        0
    } else if f(s[0]) {
        0
    } else {
        1 + first_where(s.skip(1), f)
    }
}

/// A left-to-right scan that stops at the first character satisfying `f`
/// computes `first_where`.
pub proof fn lemma_first_where(s: Seq<char>, f: spec_fn(char) -> bool, i: int)
    requires
        0 <= i <= s.len(),
        forall|j: int| 0 <= j < i ==> !f(s[j]),
        i < s.len() ==> f(s[i]),
    ensures
        first_where(s, f) == i,
    decreases s.len(),
{
    if s.len() == 0 {
    } else if f(s[0]) {
    } else {
        assert(forall|j: int| 0 <= j < i - 1 ==> s.skip(1)[j] == s[j + 1] && !f(s.skip(1)[j]));
        assert(i - 1 < s.skip(1).len() ==> f(s.skip(1)[i - 1]));
        lemma_first_where(s.skip(1), f, i - 1);
    }
}


/// The characters that end the numeric prefix of a money string.
pub open spec fn is_money_break(c: char) -> bool {
    c == ' ' || c == '\u{20ac}'
}

/// The numeric prefix of a money string: everything before the first space or
/// euro sign.
pub open spec fn money_prefix(s: Seq<char>) -> Seq<char> {
    s.take(first_where(s, |c: char| is_money_break(c)))
}

pub open spec fn money_negative(p: Seq<char>) -> bool {
    p.len() > 0 && p[0] == '-'
}

/// The prefix with its sign removed.
pub open spec fn money_body(p: Seq<char>) -> Seq<char> {
    if money_negative(p) {
        p.skip(1)
    } else {
        p
    }
}

/// How many integer digits a money string may carry; keeps every derived
/// amount within machine integer range.
pub const INT_DIGITS_MAX: usize = 12;

/// How many fractional digits a money string may carry.
pub const FRAC_DIGITS_MAX: usize = 4;

/// The two decimal separators a money string may use: the comma is the
/// locale's separator and is read as a decimal point; a plain decimal point
/// is accepted as it stands.
pub open spec fn is_decimal_sep(c: char) -> bool {
    c == ',' || c == '.'
}

/// The integer digits of a signless body: everything before the first
/// separator.
pub open spec fn body_int_part(b: Seq<char>) -> Seq<char> {
    b.take(first_where(b, |c: char| is_decimal_sep(c)))
}

/// The fractional digits of a signless body: everything after the first
/// separator, or empty when there is none.
pub open spec fn body_frac_part(b: Seq<char>) -> Seq<char> {
    let k = first_where(b, |c: char| is_decimal_sep(c));
    if k == b.len() {
        Seq::<char>::empty()
    } else {
        b.skip(k + 1)
    }
}

/// A valid signless body: one to twelve integer digits, and, when a
/// separator is present, one to four fractional digits; nothing else. A
/// second separator of either kind makes the fractional part non-digit, so
/// at most one separator is accepted.
pub open spec fn money_body_valid(b: Seq<char>) -> bool {
    let ip = body_int_part(b);
    let fp = body_frac_part(b);
    &&& 1 <= ip.len() <= INT_DIGITS_MAX
    &&& all_digits(ip)
    &&& fp.len() <= FRAC_DIGITS_MAX
    &&& all_digits(fp)
    &&& (first_where(b, |c: char| is_decimal_sep(c)) < b.len() ==> fp.len() >= 1)
}

/// The exact decimal amount a money string denotes: sign, integer mantissa
/// and decimal scale, meaning `sign * mantissa / 10^scale`.
pub struct MoneyV {
    pub negative: bool,
    pub mantissa: int,
    pub scale: nat,
}

/// What parsing a money string yields: `None` exactly on malformed input.
/// The amount is the numeric prefix read with `,` as the decimal separator;
/// the trailing unit suffix plays no part.
pub open spec fn money_spec(s: Seq<char>) -> Option<MoneyV> {
    let p = money_prefix(s);
    let b = money_body(p);
    if money_body_valid(b) {
        Some(
            MoneyV {
                negative: money_negative(p),
                mantissa: digits_val(body_int_part(b)) * pow10(body_frac_part(b).len())
                    + digits_val(body_frac_part(b)),
                scale: body_frac_part(b).len(),
            },
        )
    } else {
        None
    }
}

/// An exact decimal currency amount: `sign * mantissa / 10^scale`.
#[derive(Debug, Clone, Copy, PartialEq, Eq, Structural)]
pub struct Money {
    pub negative: bool,
    pub mantissa: u64,
    pub scale: u8,
}

impl View for Money {
    type V = MoneyV;

    open spec fn view(&self) -> MoneyV {
        MoneyV { negative: self.negative, mantissa: self.mantissa as int, scale: self.scale as nat }
    }
}

impl Money {
    /// Every parsed amount satisfies this: the scale is at most four and the
    /// mantissa stays below `10^16`.
    pub open spec fn wf(self) -> bool {
        self.scale <= FRAC_DIGITS_MAX && self.mantissa < pow10(16)
    }
}

/// Small powers of ten, spelled out so the solver can use them as literals.
pub proof fn lemma_pow10_vals()
    ensures
        pow10(0) == 1,
        pow10(1) == 10,
        pow10(2) == 100,
        pow10(3) == 1000,
        pow10(4) == 10000,
        pow10(8) == 100000000,
        pow10(9) == 1000000000,
        pow10(12) == 1000000000000,
        pow10(16) == 10000000000000000,
        pow10(17) == 100000000000000000,
{
    reveal_with_fuel(pow10, 19);
    assert(pow10(1) == 10);
    assert(pow10(2) == 100);
    assert(pow10(3) == 1000);
    assert(pow10(4) == 10000);
    assert(pow10(5) == 100000);
    assert(pow10(6) == 1000000);
    assert(pow10(7) == 10000000);
    assert(pow10(8) == 100000000);
    assert(pow10(9) == 1000000000);
    assert(pow10(10) == 10000000000);
    assert(pow10(11) == 100000000000);
    assert(pow10(12) == 1000000000000);
    assert(pow10(13) == 10000000000000);
    assert(pow10(14) == 100000000000000);
    assert(pow10(15) == 1000000000000000);
    assert(pow10(16) == 10000000000000000);
    assert(pow10(17) == 100000000000000000);
}

fn pow10_u64(n: u8) -> (r: u64)
    requires
        n <= 4,
    ensures
        r == pow10(n as nat),
{
    proof {
        lemma_pow10_vals();
    }
    if n == 0 {
        1
    } else if n == 1 {
        10
    } else if n == 2 {
        100
    } else if n == 3 {
        1000
    } else {
        10000
    }
}

/// The index of the first space or euro sign, or the length if none occurs.
fn find_first_break(s: &str) -> (r: usize)
    ensures
        r <= s@.len(),
        forall|j: int| 0 <= j < r ==> !is_money_break(s@[j]),
        r < s@.len() ==> is_money_break(s@[r as int]),
{
    let n = s.unicode_len();
    let mut i: usize = 0;
    while i < n
        invariant
            i <= n == s@.len(),
            forall|j: int| 0 <= j < i ==> !is_money_break(s@[j]),
        decreases n - i,
    {
        let c = s.get_char(i);
        if c == ' ' || c == '\u{20ac}' {
            return i;
        }
        i += 1;
    }
    n
}

/// The index of the first decimal separator in `s[start..end]`, or `end` if
/// none occurs.
fn find_sep(s: &str, start: usize, end: usize) -> (r: usize)
    requires
        start <= end <= s@.len(),
    ensures
        start <= r <= end,
        forall|j: int| start <= j < r ==> !is_decimal_sep(s@[j]),
        r < end ==> is_decimal_sep(s@[r as int]),
{
    let mut i: usize = start;
    while i < end
        invariant
            start <= i <= end <= s@.len(),
            forall|j: int| start <= j < i ==> !is_decimal_sep(s@[j]),
        decreases end - i,
    {
        let c = s.get_char(i);
        if c == ',' || c == '.' {
            return i;
        }
        i += 1;
    }
    end
}

/// Reads the digit run `t[from..to]` of `t`, left to right.
fn digits_to_u64(t: &str, from: usize, to: usize, Ghost(b): Ghost<Seq<char>>, Ghost(off): Ghost<
    int,
>) -> (r: Result<u64, MigrateError>)
    requires
        from <= to <= t@.len(),
        0 <= off,
        to - from <= b.len() - (from - off),
        off <= from,
        forall|j: int| from - off <= j < b.len() ==> b[j] == t@[j + off],
        to - from <= 12,
    ensures
        ({
            let part = b.subrange(from - off, to - off);
            match r {
                Ok(v) => all_digits(part) && v == digits_val(part) && v < pow10((to - from) as nat),
                Err(e) => !all_digits(part) && e is Parse,
            }
        }),
{
    let ghost part = b.subrange(from - off, to - off);
    let mut acc: u64 = 0;
    let mut i: usize = from;
    while i < to
        invariant
            from <= i <= to <= t@.len(),
            0 <= off <= from,
            to - from <= 12,
            part == b.subrange(from - off, to - off),
            part.len() == to - from,
            forall|j: int| 0 <= j < part.len() ==> part[j] == t@[j + from],
            all_digits(part.take(i - from)),
            acc == digits_val(part.take(i - from)),
            acc < pow10((i - from) as nat),
        decreases to - i,
    {
        let c = t.get_char(i);
        let u = c as u32;
        proof {
            lemma_digits_val_step(part, i - from);
            assert(part[i - from] == c);
        }
        if !(48 <= u && u <= 57) {
            assert(!is_digit(part[i - from]));
            return Err(MigrateError::Parse("expected a digit in a money amount".to_owned()));
        }
        let d: u64 = (u - 48) as u64;
        proof {
            assert(pow10(((i + 1) - from) as nat) == 10 * pow10((i - from) as nat));
            assert(part.take(i + 1 - from).drop_last() =~= part.take(i - from));
            lemma_pow10_mono((i - from) as nat, 12);
            lemma_pow10_vals();
        }
        acc = acc * 10 + d;
        i += 1;
        assert(all_digits(part.take(i - from)));
    }
    proof {
        assert(part.take(to - from) =~= part);
    }
    Ok(acc)
}

/// Parses a money string: the numeric prefix before the first space or euro
/// sign, read with `,` as the decimal separator. Returns the exact amount,
/// or a `Parse` error exactly on the strings `money_spec` rejects.
pub fn parse_money(s: &str) -> (r: Result<Money, MigrateError>)
    ensures
        match r {
            Ok(m) => money_spec(s@) == Some(m@) && m.wf(),
            Err(e) => money_spec(s@) is None && e is Parse,
        },
{
    let n = s.unicode_len();
    // Find the end of the numeric prefix.
    let plen = find_first_break(s);
    proof {
        lemma_first_where(s@, |c: char| is_money_break(c), plen as int);
    }
    let ghost p = money_prefix(s@);
    assert(p =~= s@.subrange(0, plen as int));
    // Strip the sign.
    let mut start: usize = 0;
    let mut negative = false;
    if plen > 0 && s.get_char(0) == '-' {
        start = 1;
        negative = true;
    }
    assert(negative == money_negative(p));
    let ghost b = money_body(p);
    assert(b =~= s@.subrange(start as int, plen as int));
    // Find the decimal separator within the body.
    let k = find_sep(s, start, plen);
    proof {
        assert(forall|j: int|
            0 <= j < k - start ==> b[j] == s@[j + start] && !is_decimal_sep(b[j]));
        assert(k < plen ==> is_decimal_sep(b[k - start]));
        lemma_first_where(b, |c: char| is_decimal_sep(c), k - start);
    }
    let ghost ip = body_int_part(b);
    let ghost fp = body_frac_part(b);
    assert(ip =~= s@.subrange(start as int, k as int));
    // Validate and read the integer digits.
    let ilen = k - start;
    if ilen < 1 || ilen > INT_DIGITS_MAX {
        return Err(MigrateError::Parse("money amount needs 1 to 12 integer digits".to_owned()));
    }
    let iv = match digits_to_u64(s, start, k, Ghost(b), Ghost(start as int)) {
        Ok(v) => v,
        Err(e) => {
            return Err(e);
        },
    };
    // Validate and read the fractional digits, if a separator is present.
    let mut fv: u64 = 0;
    let mut flen: usize = 0;
    if k < plen {
        flen = plen - (k + 1);
        assert(fp =~= s@.subrange(k + 1, plen as int));
        if flen < 1 || flen > FRAC_DIGITS_MAX {
            return Err(
                MigrateError::Parse("money amount needs 1 to 4 fractional digits".to_owned()),
            );
        }
        fv = match digits_to_u64(s, k + 1, plen, Ghost(b), Ghost(start as int)) {
            Ok(v) => v,
            Err(e) => {
                return Err(e);
            },
        };
    } else {
        assert(fp =~= Seq::<char>::empty());
        assert(digits_val(fp) == 0);
    }
    assert(money_body_valid(b));
    let scale_pow = pow10_u64(flen as u8);
    proof {
        lemma_digits_val_bound(ip);
        lemma_digits_val_bound(fp);
        lemma_pow10_pos(fp.len());
        lemma_pow10_vals();
        lemma_pow10_mono(ip.len(), 12);
        assert(iv * scale_pow <= (pow10(12) - 1) * pow10(fp.len())) by {
            vstd::arithmetic::mul::lemma_mul_inequality(iv as int, pow10(12) - 1, pow10(fp.len()));
        };
        assert((pow10(12) - 1) * pow10(fp.len()) + pow10(fp.len()) == pow10(12) * pow10(fp.len()))
            by {
            vstd::arithmetic::mul::lemma_mul_is_distributive_add_other_way(
                pow10(fp.len()),
                pow10(12) - 1,
                1,
            );
        };
        assert(pow10(12) * pow10(fp.len()) <= pow10(16)) by {
            lemma_pow10_mul(12, fp.len());
            lemma_pow10_mono(12 + fp.len(), 16);
        };
        assert(fv < pow10(fp.len()));
    }
    let mantissa = iv * scale_pow + fv;
    Ok(Money { negative, mantissa, scale: flen as u8 })
}

pub proof fn lemma_pow10_mul(a: nat, b: nat)
    ensures
        pow10(a + b) == pow10(a) * pow10(b),
    decreases a,
{
    if a == 0 {
    } else {
        lemma_pow10_mul((a - 1) as nat, b);
        assert(pow10(a + b) == 10 * pow10((a + b - 1) as nat));
        vstd::arithmetic::mul::lemma_mul_is_associative(10, pow10((a - 1) as nat), pow10(b));
    }
}

pub proof fn lemma_pow10_mono(a: nat, b: nat)
    requires
        a <= b,
    ensures
        pow10(a) <= pow10(b),
    decreases b,
{
    if a < b {
        lemma_pow10_mono(a, (b - 1) as nat);
        lemma_pow10_pos((b - 1) as nat);
    }
}

/// `num / den` rounded half away from zero, for `num >= 0`, `den >= 1`.
pub open spec fn div_round_half(num: int, den: int) -> int {
    (2 * num + den) / (2 * den)
}

/// The integer minor-unit amount of a decimal: `amount * 100`, rounded half
/// away from zero.
pub open spec fn minor_units_spec(m: MoneyV) -> int {
    let q = div_round_half(m.mantissa * 100, pow10(m.scale));
    if m.negative {
        -q
    } else {
        q
    }
}

/// Round-half-away division lands within half a unit of the exact quotient:
/// `|div_round_half(num, den) * den - num| <= den / 2`, stated without
/// division as `2 * |q * den - num| <= den`.
pub proof fn lemma_div_round_half_err(num: int, den: int)
    requires
        num >= 0,
        den >= 1,
    ensures
        -den <= 2 * (div_round_half(num, den) * den - num) <= den,
{
    let q = div_round_half(num, den);
    let r = (2 * num + den) % (2 * den);
    vstd::arithmetic::div_mod::lemma_fundamental_div_mod(2 * num + den, 2 * den);
    vstd::arithmetic::div_mod::lemma_mod_bound(2 * num + den, 2 * den);
    assert(2 * num + den == (2 * den) * q + r);
    assert(2 * (q * den - num) == den - r) by {
        vstd::arithmetic::mul::lemma_mul_is_commutative(2 * den, q);
        vstd::arithmetic::mul::lemma_mul_is_associative(2, den, q);
        vstd::arithmetic::mul::lemma_mul_is_commutative(den, q);
    };
}

/// Rounding property of the canonical conversion: the minor-unit amount is
/// within half a minor unit of the exact product `amount * 100`. With the
/// amount equal to `sign * mantissa / 10^scale`, both sides are scaled by
/// `10^scale` to stay in integers:
/// `2 * |minor_units * 10^scale - sign * mantissa * 100| <= 10^scale`.
pub proof fn lemma_minor_units_rounding(m: MoneyV)
    requires
        m.mantissa >= 0,
    ensures
        ({
            let exact = if m.negative {
                -(m.mantissa * 100)
            } else {
                m.mantissa * 100
            };
            -pow10(m.scale) <= 2 * (minor_units_spec(m) * pow10(m.scale) - exact) <= pow10(m.scale)
        }),
{
    lemma_pow10_pos(m.scale);
    lemma_div_round_half_err(m.mantissa * 100, pow10(m.scale));
    let q = div_round_half(m.mantissa * 100, pow10(m.scale));
    assert((-q) * pow10(m.scale) == -(q * pow10(m.scale))) by {
        vstd::arithmetic::mul::lemma_mul_unary_negation(q, pow10(m.scale));
    };
}

/// The parsed amount does not depend on the trailing unit suffix: a body with
/// no break character parses the same with any suffix that begins with a
/// space or euro sign (or is empty) attached.
pub proof fn lemma_money_suffix_independent(body: Seq<char>, suffix: Seq<char>)
    requires
        forall|i: int| 0 <= i < body.len() ==> !is_money_break(body[i]),
        suffix.len() > 0 ==> is_money_break(suffix[0]),
    ensures
        money_spec(body + suffix) == money_spec(body),
{
    let s = body + suffix;
    assert(forall|j: int| 0 <= j < body.len() ==> s[j] == body[j]);
    lemma_first_where(s, |c: char| is_money_break(c), body.len() as int);
    lemma_first_where(body, |c: char| is_money_break(c), body.len() as int);
    assert(money_prefix(s) =~= body);
    assert(money_prefix(body) =~= body);
}

impl Money {
    /// The balance in integer minor units: the amount times one hundred,
    /// rounded half away from zero. Canonical accounts store this integer,
    /// never the decimal itself.
    pub fn to_minor_units(&self) -> (r: i64)
        requires
            self.wf(),
        ensures
            r == minor_units_spec(self@),
    {
        proof {
            lemma_pow10_vals();
        }
        let den = pow10_u64(self.scale);
        let num = self.mantissa * 100;
        let q = (2 * num + den) / (2 * den);
        proof {
            vstd::arithmetic::div_mod::lemma_div_nonincreasing(2 * num + den, 2 * den);
            vstd::arithmetic::div_mod::lemma_div_pos_is_pos(2 * num + den, 2 * den);
        }
        if self.negative {
            -(q as i64)
        } else {
            q as i64
        }
    }
}

} // verus!


