//! Fixed-point decimal numerals.
//!
//! Every fractional quantity in this crate is a signed integer counting
//! millionths of a unit.  This module parses a decimal numeral token
//! (an optional sign, digits, at most one dot) into that form.  The
//! grammar is deliberately plain: no exponents and no non-finite
//! values, the integer part is capped at twelve digits, and fractional
//! digits beyond the sixth are read but ignored.  Every accepted value
//! therefore fits comfortably in an `i64`.

use vstd::prelude::*;

verus! {

/// Number of micros in one whole unit.
pub const MICRO_SCALE: i64 = 1_000_000;

/// Most digits an accepted integer part may have.
pub const MAX_INT_DIGITS: usize = 12;

pub open spec fn is_digit(c: char) -> bool {
    48 <= c as u32 && c as u32 <= 57
}

pub open spec fn digit_val(c: char) -> int {
    c as u32 - 48
}

pub open spec fn all_digits(s: Seq<char>) -> bool {
    forall|i: int| 0 <= i < s.len() ==> is_digit(#[trigger] s[i])
}

/// Value of a digit string, most significant digit first.
pub open spec fn digits_val(s: Seq<char>) -> int
    decreases s.len(),
{
    if s.len() == 0 {
        0
    } else {
        digits_val(s.drop_last()) * 10 + digit_val(s.last())
    }
}

pub open spec fn pow10(n: nat) -> int
    decreases n,
{
    if n == 0 {
        1
    } else {
        10 * pow10((n - 1) as nat)
    }
}

/// Index of the first `'.'` in `s` at or after `i`, or `s.len()`.
pub open spec fn dot_pos(s: Seq<char>, i: int) -> int
    decreases s.len() - i,
    when 0 <= i <= s.len()
{
    if i >= s.len() {
        s.len() as int
    } else if s[i] == '.' {
        i
    } else {
        dot_pos(s, i + 1)
    }
}

/// Micros contributed by the fractional digit string `fr`: the first
/// six digits, padded with zeroes on the right; digits beyond the
/// sixth carry no weight.
pub open spec fn frac_micros(fr: Seq<char>) -> int {
    let k = if fr.len() < 6 { fr.len() as int } else { 6 };
    digits_val(fr.take(k)) * pow10((6 - k) as nat)
}

/// The numeral grammar and value, in one place: `None` when the token
/// is not an accepted decimal numeral, otherwise its value in micros.
pub open spec fn micro_from_text(s: Seq<char>) -> Option<int> {
    let off: int = if s.len() > 0 && (s[0] == '+' || s[0] == '-') {
        1
    } else {
        0
    };
    let d = dot_pos(s, off);
    let ints = s.subrange(off, d);
    let frs = if d == s.len() {
        Seq::<char>::empty()
    } else {
        s.subrange(d + 1, s.len() as int)
    };
    if all_digits(ints) && all_digits(frs) && ints.len() + frs.len() > 0
        && ints.len() <= MAX_INT_DIGITS {
        let v = digits_val(ints) * MICRO_SCALE + frac_micros(frs);
        Some(if s.len() > 0 && s[0] == '-' { -v } else { v })
    } else {
        None
    }
}

pub proof fn lemma_digits_val_bound(s: Seq<char>)
    requires
        all_digits(s),
    ensures
        0 <= digits_val(s) < pow10(s.len()),
    decreases s.len(),
{
    if s.len() > 0 {
        assert(all_digits(s.drop_last())) by {
            assert(forall|i: int| 0 <= i < s.len() - 1 ==> s.drop_last()[i] == s[i]);
        }
        lemma_digits_val_bound(s.drop_last());
    }
}

proof fn lemma_dot_pos_at(s: Seq<char>, i: int, d: int)
    requires
        0 <= i <= d <= s.len(),
        forall|j: int| i <= j < d ==> s[j] != '.',
        d == s.len() || s[d] == '.',
    ensures
        dot_pos(s, i) == d,
    decreases d - i,
{
    if i < d {
        lemma_dot_pos_at(s, i + 1, d);
    }
}

/// `pow10` of each exponent up to six, as run-time code.
fn pow10_upto6(n: usize) -> (r: i64)
    requires
        n <= 6,
    ensures
        r == pow10(n as nat),
{
    let r: i64 = match n {
        0 => 1,
        1 => 10,
        2 => 100,
        3 => 1_000,
        4 => 10_000,
        5 => 100_000,
        _ => 1_000_000,
    };
    proof {
        assert(pow10(0) == 1);
        assert(pow10(1) == 10);
        assert(pow10(2) == 100);
        assert(pow10(3) == 1000);
        assert(pow10(4) == 10000);
        assert(pow10(5) == 100000);
        assert(pow10(6) == 1000000);
    }
    r
}

fn is_digit_char(c: char) -> (r: bool)
    ensures
        r == is_digit(c),
{
    let u = c as u32;
    48 <= u && u <= 57
}

/// Reads a decimal numeral into micros.  Follows `micro_from_text`
/// exactly: `None` for a token outside the grammar, otherwise the
/// token's value in millionths of a unit.
pub fn parse_micro(s: &str) -> (r: Option<i64>)
    ensures
        match r {
            Some(v) => micro_from_text(s@) == Some(v as int),
            None => micro_from_text(s@) is None,
        },
{
    let n = s.unicode_len();
    let mut off: usize = 0;
    let mut neg = false;
    if n > 0 {
        let c0 = s.get_char(0);
        if c0 == '+' {
            off = 1;
        } else if c0 == '-' {
            off = 1;
            neg = true;
        }
    }

    // First dot at or after the sign, or the end of the token.
    let mut d: usize = off;
    while d < n && s.get_char(d) != '.'
        invariant
            off <= d <= n,
            n == s@.len(),
            forall|j: int| off <= j < d ==> s@[j] != '.',
        decreases n - d,
    {
        d += 1;
    }
    proof {
        lemma_dot_pos_at(s@, off as int, d as int);
    }

    let ghost ints = s@.subrange(off as int, d as int);
    let ghost frs = if d == n {
        Seq::<char>::empty()
    } else {
        s@.subrange(d as int + 1, n as int)
    };

    // Both digit groups must hold digits only.
    let mut ints_ok = true;
    let mut i: usize = off;
    while i < d
        invariant
            off <= i <= d <= n,
            n == s@.len(),
            ints == s@.subrange(off as int, d as int),
            ints_ok <==> (forall|j: int| 0 <= j < i - off ==> is_digit(#[trigger] ints[j])),
        decreases d - i,
    {
        assert(ints[i - off] == s@[i as int]);
        if !is_digit_char(s.get_char(i)) {
            ints_ok = false;
        }
        i += 1;
    }
    assert(ints_ok <==> all_digits(ints));

    let mut frs_ok = true;
    if d < n {
        let mut i: usize = d + 1;
        while i < n
            invariant
                d + 1 <= i <= n,
                n == s@.len(),
                frs == s@.subrange(d as int + 1, n as int),
                frs_ok <==> (forall|j: int| 0 <= j < i - (d + 1) ==> is_digit(
                    #[trigger] frs[j],
                )),
            decreases n - i,
        {
            assert(frs[i - (d + 1)] == s@[i as int]);
            if !is_digit_char(s.get_char(i)) {
                frs_ok = false;
            }
            i += 1;
        }
    }
    assert(frs_ok <==> all_digits(frs));

    let ints_len = d - off;
    let frs_len = if d < n { n - d - 1 } else { 0 };
    if !(ints_ok && frs_ok && ints_len + frs_len > 0 && ints_len <= MAX_INT_DIGITS) {
        return None;
    }

    // Integer part, at most twelve digits, so no overflow.
    let mut v: i64 = 0;
    let mut i: usize = off;
    while i < d
        invariant
            off <= i <= d <= n,
            n == s@.len(),
            d - off <= MAX_INT_DIGITS,
            ints == s@.subrange(off as int, d as int),
            all_digits(ints),
            v == digits_val(s@.subrange(off as int, i as int)),
            0 <= v < pow10((i - off) as nat),
        decreases d - i,
    {
        let c = s.get_char(i);
        assert(ints[i - off] == s@[i as int]);
        let dv = (c as u32 - 48) as i64;
        proof {
            let pre = s@.subrange(off as int, i as int);
            let cur = s@.subrange(off as int, i + 1int);
            assert(cur.drop_last() =~= pre);
            assert(cur.last() == s@[i as int]);
            lemma_digits_val_bound(pre);
            assert(pow10(((i + 1) - off) as nat) == 10 * pow10((i - off) as nat));
            lemma_pow10_table();
            lemma_pow10_le((i - off) as nat, 11);
        }
        v = v * 10 + dv;
        i += 1;
    }
    assert(v == digits_val(ints));
    proof {
        lemma_pow10_table();
        lemma_pow10_le((d - off) as nat, 12);
    }

    // Fractional part: the first six digits, padded to six places.
    let mut fv: i64 = 0;
    let k = if frs_len < 6 { frs_len } else { 6 };
    if d < n {
        let mut i: usize = d + 1;
        while i < d + 1 + k
            invariant
                d + 1 <= i <= d + 1 + k,
                d + 1 + k <= n,
                n == s@.len(),
                k <= 6,
                frs == s@.subrange(d as int + 1, n as int),
                all_digits(frs),
                fv == digits_val(s@.subrange(d as int + 1, i as int)),
                0 <= fv < pow10((i - (d + 1)) as nat),
            decreases (d + 1 + k) - i,
        {
            let c = s.get_char(i);
            assert(frs[i - (d + 1)] == s@[i as int]);
            let dv = (c as u32 - 48) as i64;
            proof {
                let pre = s@.subrange(d as int + 1, i as int);
                let cur = s@.subrange(d as int + 1, i + 1int);
                assert(cur.drop_last() =~= pre);
                assert(cur.last() == s@[i as int]);
                lemma_digits_val_bound(pre);
                assert(pow10(((i + 1) - (d + 1)) as nat) == 10 * pow10((i - (d + 1)) as nat));
                lemma_pow10_table();
                lemma_pow10_le((i - (d + 1)) as nat, 5);
            }
            fv = fv * 10 + dv;
            i += 1;
        }
        assert(s@.subrange(d as int + 1, (d + 1 + k) as int) =~= frs.take(k as int));
    }
    assert(fv == digits_val(frs.take(k as int)));
    let pad = pow10_upto6(6 - k);
    proof {
        lemma_frac_product_bound(frs.take(k as int), k as nat);
    }
    let fv = fv * pad;
    assert(fv == frac_micros(frs));

    let v = v * MICRO_SCALE + fv;
    assert(v == digits_val(ints) * MICRO_SCALE + frac_micros(frs));
    Some(if neg { -v } else { v })
}

/// Concrete values of the small powers of ten the proofs lean on.
proof fn lemma_pow10_table()
    ensures
        pow10(0) == 1,
        pow10(1) == 10,
        pow10(2) == 100,
        pow10(3) == 1000,
        pow10(4) == 10000,
        pow10(5) == 100000,
        pow10(6) == 1000000,
        pow10(7) == 10000000,
        pow10(8) == 100000000,
        pow10(9) == 1000000000,
        pow10(10) == 10000000000,
        pow10(11) == 100000000000,
        pow10(12) == 1000000000000,
{
    assert(pow10(0) == 1);
    assert(pow10(1) == 10);
    assert(pow10(2) == 100);
    assert(pow10(3) == 1000);
    assert(pow10(4) == 10000);
    assert(pow10(5) == 100000);
    assert(pow10(6) == 1000000);
    assert(pow10(7) == 10000000);
    assert(pow10(8) == 100000000);
    assert(pow10(9) == 1000000000);
    assert(pow10(10) == 10000000000);
    assert(pow10(11) == 100000000000);
    assert(pow10(12) == 1000000000000);
}

proof fn lemma_pow10_le(a: nat, b: nat)
    requires
        a <= b,
    ensures
        1 <= pow10(a) <= pow10(b),
    decreases b,
{
    if b > 0 {
        if a == b {
            lemma_pow10_le((b - 1) as nat, (b - 1) as nat);
        } else {
            lemma_pow10_le(a, (b - 1) as nat);
        }
    }
}

/// The padded fractional value stays below one whole unit of micros.
proof fn lemma_frac_product_bound(digits: Seq<char>, k: nat)
    requires
        all_digits(digits),
        digits.len() == k,
        k <= 6,
    ensures
        0 <= digits_val(digits) * pow10((6 - k) as nat) < 1_000_000,
{
    lemma_digits_val_bound(digits);
    lemma_pow10_le((6 - k) as nat, 6);
    lemma_pow10_table();
    let p = pow10((6 - k) as nat);
    let q = pow10(k);
    assert(pow10((6 - k) as nat) * pow10(k) == pow10(6)) by {
        lemma_pow10_mul((6 - k) as nat, k);
    }
    assert(digits_val(digits) <= q - 1);
    assert(digits_val(digits) * p <= (q - 1) * p) by (nonlinear_arith)
        requires
            digits_val(digits) <= q - 1,
            p >= 1,
            digits_val(digits) >= 0,
    ;
    assert((q - 1) * p == q * p - p) by (nonlinear_arith);
    assert(digits_val(digits) * p >= 0) by (nonlinear_arith)
        requires
            digits_val(digits) >= 0,
            p >= 1,
    ;
}

proof fn lemma_pow10_mul(a: nat, b: nat)
    ensures
        pow10(a) * pow10(b) == pow10(a + b),
    decreases a,
{
    if a > 0 {
        lemma_pow10_mul((a - 1) as nat, b);
        assert(pow10(a) * pow10(b) == 10 * (pow10((a - 1) as nat) * pow10(b)))
            by (nonlinear_arith)
            requires
                pow10(a) == 10 * pow10((a - 1) as nat),
        ;
    }
}

} // verus!
