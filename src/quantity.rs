//! Token quantities.
//!
//! A quantity is held as the shortest decimal text that reads back as the
//! same 64-bit binary floating-point number (`"1.5"`, `"42.0"`, `"1e-7"`).
//! That text is a function of the number alone, so two quantities are the
//! same number exactly when their texts agree, the two signed zeros aside.
//! The rounding itself is done by serde_json.
use vstd::prelude::*;
use vstd::string::*;
use crate::text::{
    all_digits, chars_of, digits_value, find_run_end, is_digit, lemma_digits_value_nonneg,
    lemma_run_end_bounds, opt_view, run_end, CharClass,
};

verus! {

broadcast use vstd::string::group_string_axioms;

/// The shortest text of the floating-point number nearest to the JSON
/// number `s`, or `None` where `s` is no JSON number or is out of range.
pub uninterp spec fn float_text(s: Seq<char>) -> Option<Seq<char>>;

/// Relies on serde_json: `Number::from_str` reads a JSON number (rounding
/// to nearest with the `float_roundtrip` feature, failing out of range),
/// `Number::as_f64` and `Number::from_f64` take it to a float number, and
/// `Display for Number` writes its shortest text. The result depends on `s`
/// alone.
#[verifier::external_body]
pub(crate) fn nearest_float_text(s: &str) -> (r: Option<String>)
    ensures
        opt_view(r) == float_text(s@),
{
    s.parse::<serde_json::Number>().ok().and_then(|n| n.as_f64()).and_then(
        serde_json::Number::from_f64,
    ).map(|n| n.to_string())
}

/// A decimal amount (ASCII digits with at most one dot, and at least one
/// digit) rewritten as a JSON number: leading zeros dropped, a lone dot
/// dropped, a missing integer part written `0`. `None` for anything else.
pub open spec fn json_number_form(a: Seq<char>) -> Option<Seq<char>> {
    let p = run_end(a, 0, CharClass::Digit);
    let q = run_end(a, p + 1, CharClass::Digit);
    let z = run_end(a, 0, CharClass::Zero);
    let whole = if z == p {
        seq!['0']
    } else {
        a.subrange(z, p)
    };
    if p == a.len() && p > 0 {
        Some(whole)
    } else if p < a.len() && a[p] == '.' && q == a.len() && (p > 0 || q > p + 1) {
        if q > p + 1 {
            Some(whole + a.subrange(p, q))
        } else {
            Some(whole)
        }
    } else {
        None
    }
}

proof fn lemma_zero_run_within_digit_run(s: Seq<char>, i: int)
    requires
        0 <= i <= s.len(),
    ensures
        run_end(s, i, CharClass::Zero) <= run_end(s, i, CharClass::Digit),
    decreases s.len() - i,
{
    if i < s.len() && s[i] == '0' {
        lemma_zero_run_within_digit_run(s, i + 1);
    } else {
        lemma_run_end_bounds(s, i, CharClass::Digit);
    }
}

/// Rewrites a decimal amount as a JSON number; see [`json_number_form`].
pub fn to_json_number(amount: &str) -> (r: Option<String>)
    ensures
        match r {
            Some(t) => json_number_form(amount@) == Some(t@),
            None => json_number_form(amount@) is None,
        },
{
    let a = chars_of(amount);
    let n = a.len();
    let p = find_run_end(&a, 0, CharClass::Digit);
    let z = find_run_end(&a, 0, CharClass::Zero);
    proof {
        lemma_zero_run_within_digit_run(a@, 0);
    }
    let mut whole = if z == p {
        proof {
            reveal_strlit("0");
        }
        "0".to_owned()
    } else {
        amount.substring_char(z, p).to_owned()
    };
    if p == n {
        if p == 0 {
            return None;
        }
        return Some(whole);
    }
    if a[p] != '.' {
        return None;
    }
    let q = find_run_end(&a, p + 1, CharClass::Digit);
    if q != n || (p == 0 && q == p + 1) {
        return None;
    }
    if q > p + 1 {
        whole.append(amount.substring_char(p, q));
    }
    Some(whole)
}

/// `t` without its minus sign, if it has one.
pub open spec fn unsigned_part(t: Seq<char>) -> Seq<char> {
    if t.len() > 0 && t[0] == '-' {
        t.subrange(1, t.len() as int)
    } else {
        t
    }
}

/// The significant digits of the shortest text of the machine epsilon
/// `2^-52`, which is `2.220446049250313e-16`.
pub open spec fn epsilon_digits() -> Seq<char> {
    seq!['2', '2', '2', '0', '4', '4', '6', '0', '4', '9', '2', '5', '0', '3', '1', '3']
}

/// Whether `0.m` is below `0.e`, comparing digit by digit from index `i`;
/// `e` ends in a non-zero digit, so a proper prefix of it is below it.
pub open spec fn digits_below(m: Seq<char>, e: Seq<char>, i: int) -> bool
    decreases e.len() - i,
{
    if i < 0 || i >= e.len() {
        false
    } else if i >= m.len() {
        true
    } else if m[i] != e[i] {
        m[i] < e[i]
    } else {
        digits_below(m, e, i + 1)
    }
}

/// The parts of a number text `[-]I[.F][(e|E)[+|-]X]`, unsigned part `b`:
/// end of the integer digits.
pub open spec fn int_end(b: Seq<char>) -> int {
    run_end(b, 0, CharClass::Digit)
}

pub open spec fn has_frac(b: Seq<char>) -> bool {
    int_end(b) < b.len() && b[int_end(b)] == '.'
}

/// End of the fraction digits (the end of the integer digits where there
/// is no fraction).
pub open spec fn frac_end(b: Seq<char>) -> int {
    if has_frac(b) {
        run_end(b, int_end(b) + 1, CharClass::Digit)
    } else {
        int_end(b)
    }
}

/// The number of fraction digits.
pub open spec fn frac_len(b: Seq<char>) -> int {
    if has_frac(b) {
        frac_end(b) - int_end(b) - 1
    } else {
        0
    }
}

/// All the digits of the mantissa, integer and fraction together.
pub open spec fn mantissa(b: Seq<char>) -> Seq<char> {
    if has_frac(b) {
        b.subrange(0, int_end(b)) + b.subrange(int_end(b) + 1, frac_end(b))
    } else {
        b.subrange(0, int_end(b))
    }
}

/// The exponent part: what follows the mantissa.
pub open spec fn exp_part(b: Seq<char>) -> Seq<char> {
    b.subrange(frac_end(b), b.len() as int)
}

pub open spec fn exp_negative(x: Seq<char>) -> bool {
    x.len() > 1 && x[1] == '-'
}

/// The digits of the exponent part.
pub open spec fn exp_digits(x: Seq<char>) -> Seq<char> {
    if x.len() > 1 && (x[1] == '-' || x[1] == '+') {
        x.subrange(2, x.len() as int)
    } else if x.len() > 0 {
        x.subrange(1, x.len() as int)
    } else {
        x
    }
}

/// Whether `b` is a well-formed unsigned number text.
pub open spec fn number_shape(b: Seq<char>) -> bool {
    let x = exp_part(b);
    &&& int_end(b) > 0
    &&& (has_frac(b) ==> frac_len(b) > 0)
    &&& (x.len() > 0 ==> (x[0] == 'e' || x[0] == 'E') && exp_digits(x).len() > 0 && all_digits(
        exp_digits(x),
    ))
}

/// The exponent's value.
pub open spec fn exponent(b: Seq<char>) -> int {
    let x = exp_part(b);
    if exp_negative(x) {
        -digits_value(exp_digits(x))
    } else {
        digits_value(exp_digits(x))
    }
}

/// The mantissa's digits without leading zeros.
pub open spec fn significant(b: Seq<char>) -> Seq<char> {
    let d = mantissa(b);
    d.subrange(run_end(d, 0, CharClass::Zero), d.len() as int)
}

/// The decimal magnitude of a non-zero number: it is `0.S * 10^k` with `S`
/// its significant digits.
pub open spec fn magnitude(b: Seq<char>) -> int {
    significant(b).len() + exponent(b) - frac_len(b)
}

/// Whether the number text `t` stands for a number of absolute value below
/// the machine epsilon `2^-52`. For the shortest text of a float number this
/// holds exactly when the number itself is below the epsilon, since the
/// epsilon is a float number whose shortest text is `0.2220446049250313 *
/// 10^-15`. A text of another shape is never taken as near zero.
pub open spec fn is_near_zero(t: Seq<char>) -> bool {
    let b = unsigned_part(t);
    number_shape(b) && (significant(b).len() == 0 || magnitude(b) < -15 || (magnitude(b) == -15
        && digits_below(significant(b), epsilon_digits(), 0)))
}

/// Whether two quantity texts stand for the same number. Beside equal
/// texts, any two numbers below the machine epsilon in absolute value count
/// as the same: the zero case of the comparison is guarded by the epsilon.
pub open spec fn same_quantity(a: Seq<char>, b: Seq<char>) -> bool {
    a == b || (is_near_zero(a) && is_near_zero(b))
}

/// A bound beyond which an exponent's exact value no longer matters.
pub const EXP_CAP: u128 = 73786976294838206464;

/// Reads exponent digits, exactly up to [`EXP_CAP`].
fn exponent_value(x: &Vec<char>, from: usize) -> (r: u128)
    requires
        from <= x@.len(),
        all_digits(x@.subrange(from as int, x@.len() as int)),
    ensures
        r <= EXP_CAP ==> r == digits_value(x@.subrange(from as int, x@.len() as int)),
        r > EXP_CAP ==> digits_value(x@.subrange(from as int, x@.len() as int)) > EXP_CAP,
{
    let ghost d = x@.subrange(from as int, x@.len() as int);
    let mut v: u128 = 0;
    let mut i: usize = from;
    while i < x.len()
        invariant
            from <= i <= x@.len(),
            d == x@.subrange(from as int, x@.len() as int),
            all_digits(d),
            v <= EXP_CAP ==> v == digits_value(d.subrange(0, i - from)),
            v > EXP_CAP ==> digits_value(d.subrange(0, i - from)) > EXP_CAP,
            v <= 10 * EXP_CAP + 9,
        decreases x@.len() - i,
    {
        let ghost p = d.subrange(0, i - from + 1);
        assert(p.drop_last() =~= d.subrange(0, i - from));
        assert(p.last() == x@[i as int]);
        assert(is_digit(d[i - from]));
        proof {
            lemma_digits_value_nonneg(p.drop_last());
        }
        if v <= EXP_CAP {
            v = v * 10 + (x[i] as u32 - '0' as u32) as u128;
        }
        i = i + 1;
    }
    assert(d.subrange(0, x@.len() - from) =~= d);
    v
}

fn digits_below_exec(m: &Vec<char>, from: usize, e: &Vec<char>) -> (r: bool)
    requires
        from <= m@.len(),
    ensures
        r == digits_below(m@.subrange(from as int, m@.len() as int), e@, 0),
{
    let ghost s = m@.subrange(from as int, m@.len() as int);
    let mut i: usize = 0;
    while i < e.len()
        invariant
            from <= m@.len(),
            s == m@.subrange(from as int, m@.len() as int),
            i <= e@.len(),
            digits_below(s, e@, 0) == digits_below(s, e@, i as int),
        decreases e@.len() - i,
    {
        if i >= m.len() - from {
            return true;
        }
        assert(s[i as int] == m@[from + i]);
        if m[from + i] != e[i] {
            return m[from + i] < e[i];
        }
        i = i + 1;
    }
    false
}

/// The digits of a number text's mantissa, where it has the shape of one.
fn mantissa_of(body: &Vec<char>) -> (r: Option<Vec<char>>)
    ensures
        r is Some <==> (int_end(body@) > 0 && (has_frac(body@) ==> frac_len(body@) > 0)),
        r matches Some(m) ==> m@ == mantissa(body@),
{
    let ghost b = body@;
    let len = body.len();
    let p = find_run_end(body, 0, CharClass::Digit);
    if p == 0 {
        return None;
    }
    let frac = p < len && body[p] == '.';
    let q = if frac {
        find_run_end(body, p + 1, CharClass::Digit)
    } else {
        p
    };
    if frac && q == p + 1 {
        return None;
    }
    let mut m: Vec<char> = Vec::new();
    let mut i: usize = 0;
    while i < q
        invariant
            i <= q <= len,
            len == b.len(),
            body@ == b,
            p == int_end(b),
            frac == has_frac(b),
            q == frac_end(b),
            frac ==> p < q,
            !frac ==> p == q,
            i <= p ==> m@ == b.subrange(0, i as int),
            i > p ==> frac && m@ == b.subrange(0, p as int) + b.subrange(p + 1, i as int),
        decreases q - i,
    {
        if i != p {
            m.push(body[i]);
        }
        proof {
            if i < p {
                assert(m@ =~= b.subrange(0, i + 1));
            } else if i > p {
                assert(m@ =~= b.subrange(0, p as int) + b.subrange(p + 1, i + 1));
            } else {
                assert(m@ =~= b.subrange(0, p as int) + b.subrange(p + 1, i + 1));
            }
        }
        i = i + 1;
    }
    Some(m)
}

/// The sign and value of a number text's exponent (zero where there is
/// none), the value exact up to [`EXP_CAP`]; `None` where the exponent part
/// is malformed.
fn exponent_of(body: &Vec<char>) -> (r: Option<(bool, u128)>)
    ensures
        r is Some <==> (exp_part(body@).len() > 0 ==> (exp_part(body@)[0] == 'e' || exp_part(
            body@,
        )[0] == 'E') && exp_digits(exp_part(body@)).len() > 0 && all_digits(
            exp_digits(exp_part(body@)),
        )),
        r matches Some((neg, v)) ==> {
            &&& neg == exp_negative(exp_part(body@))
            &&& v <= EXP_CAP ==> v == digits_value(exp_digits(exp_part(body@)))
            &&& v > EXP_CAP ==> digits_value(exp_digits(exp_part(body@))) > EXP_CAP
        },
{
    let ghost b = body@;
    let len = body.len();
    let p = find_run_end(body, 0, CharClass::Digit);
    proof {
        lemma_run_end_bounds(b, 0, CharClass::Digit);
    }
    let frac = p < len && body[p] == '.';
    let q = if frac {
        find_run_end(body, p + 1, CharClass::Digit)
    } else {
        p
    };
    assert(q == frac_end(b));
    let ghost x = exp_part(b);
    if q == len {
        assert(x =~= Seq::<char>::empty());
        assert(digits_value(exp_digits(x)) == 0);
        return Some((false, 0));
    }
    assert(x[0] == b[q as int]);
    if body[q] != 'e' && body[q] != 'E' {
        return None;
    }
    let mut ds = q + 1;
    let mut negative = false;
    if ds < len && (body[ds] == '-' || body[ds] == '+') {
        assert(x[1] == b[q + 1]);
        negative = body[ds] == '-';
        ds = ds + 1;
    } else if ds < len {
        assert(x[1] == b[q + 1]);
    }
    assert(exp_digits(x) =~= b.subrange(ds as int, len as int));
    if ds == len {
        return None;
    }
    let de = find_run_end(body, ds, CharClass::Digit);
    proof {
        lemma_run_end_bounds(b, ds as int, CharClass::Digit);
    }
    if de != len {
        assert(exp_digits(x)[de - ds] == b[de as int]);
        return None;
    }
    assert(all_digits(exp_digits(x)));
    Some((negative, exponent_value(body, ds)))
}

/// Decides [`is_near_zero`].
pub fn near_zero(t: &String) -> (r: bool)
    ensures
        r == is_near_zero(t@),
{
    let n = t.as_str().unicode_len();
    let body = if n > 0 && t.as_str().get_char(0) == '-' {
        chars_of(t.as_str().substring_char(1, n))
    } else {
        chars_of(t.as_str())
    };
    let ghost b = body@;
    assert(b == unsigned_part(t@));
    let m = match mantissa_of(&body) {
        Some(m) => m,
        None => {
            return false;
        },
    };
    let (negative, exp_abs) = match exponent_of(&body) {
        Some(e) => e,
        None => {
            return false;
        },
    };
    assert(number_shape(b));
    let z = find_run_end(&m, 0, CharClass::Zero);
    let sig_len = m.len() - z;
    assert(significant(b) =~= m@.subrange(z as int, m@.len() as int));
    if sig_len == 0 {
        return true;
    }
    proof {
        lemma_digits_value_nonneg(exp_digits(exp_part(b)));
        lemma_run_end_bounds(b, 0, CharClass::Digit);
        if has_frac(b) {
            lemma_run_end_bounds(b, int_end(b) + 1, CharClass::Digit);
        }
    }
    if exp_abs > EXP_CAP {
        return negative;
    }
    let p = find_run_end(&body, 0, CharClass::Digit);
    let frac_digits: usize = m.len() - p;
    assert(frac_digits == frac_len(b));
    let k: i128 = if negative {
        sig_len as i128 - exp_abs as i128 - frac_digits as i128
    } else {
        sig_len as i128 + exp_abs as i128 - frac_digits as i128
    };
    assert(k == magnitude(b));
    let e: Vec<char> = vec!['2', '2', '2', '0', '4', '4', '6', '0', '4', '9', '2', '5', '0', '3', '1', '3'];
    assert(e@ =~= epsilon_digits());
    k < -15 || (k == -15 && digits_below_exec(&m, z, &e))
}

/// Decides [`same_quantity`].
pub fn quantities_match(a: &String, b: &String) -> (r: bool)
    ensures
        r == same_quantity(a@, b@),
{
    *a == *b || (near_zero(a) && near_zero(b))
}

/// The quantity that a decimal amount denotes.
pub open spec fn amount_float(a: Seq<char>) -> Option<Seq<char>> {
    match json_number_form(a) {
        Some(j) => float_text(j),
        None => None,
    }
}

/// Reads a decimal amount as a quantity: the amount is rewritten as a JSON
/// number and rounded to the nearest floating-point number.
pub fn amount_quantity(amount: &str) -> (r: Option<String>)
    ensures
        opt_view(r) == amount_float(amount@),
{
    match to_json_number(amount) {
        None => None,
        Some(j) => nearest_float_text(j.as_str()),
    }
}

} // verus!
