//! Fixed-point prices.
//!
//! Venues quote prices as decimal strings.  The crate holds them as `u64`
//! multiples of 1/10000 of the quote unit: `"9.7"` becomes `97000`.
//! Fractional digits beyond the fourth are truncated.

use vstd::prelude::*;

verus! {

broadcast use vstd::string::group_string_axioms, vstd::utf8::is_ascii_chars_nat_bound;

/// Number of fixed-point units per whole quote unit.
pub const PRICE_SCALE: u64 = 10000;

/// Largest representable price, chosen so that the sum of two prices
/// always fits in a `u64`.
pub const MAX_PRICE: u64 = 1000000000000000000;

pub open spec fn is_digit(c: char) -> bool {
    48 <= (c as u32) && (c as u32) <= 57
}

pub open spec fn digit_val(c: char) -> int {
    (c as u32) - 48
}

pub open spec fn all_digits(s: Seq<char>) -> bool {
    forall|i: int| 0 <= i < s.len() ==> is_digit(#[trigger] s[i])
}

/// The integer denoted by a digit string, most significant digit first.
pub open spec fn digits_val(s: Seq<char>) -> int
    decreases s.len(),
{
    if s.len() == 0 {
        0
    } else {
        digits_val(s.drop_last()) * 10 + digit_val(s.last())
    }
}

pub open spec fn pow10(k: nat) -> int
    decreases k,
{
    if k == 0 {
        1
    } else {
        10 * pow10((k - 1) as nat)
    }
}

/// Value of a fractional digit string in 1/10000 units, truncating
/// past the fourth digit.
pub open spec fn frac_scaled(s: Seq<char>) -> int {
    if s.len() >= 4 {
        digits_val(s.take(4))
    } else {
        digits_val(s) * pow10((4 - s.len()) as nat)
    }
}

/// Index of the first `.` in `s`, or `s.len()` if there is none.
pub open spec fn find_dot(s: Seq<char>) -> int
    decreases s.len(),
{
    if s.len() == 0 {
        0
    } else if s[0] == '.' {
        0
    } else {
        1 + find_dot(s.drop_first())
    }
}

/// The fixed-point value denoted by a decimal string: one or more digits,
/// optionally followed by `.` and one or more digits.  Anything else
/// (empty parts, signs, exponents, a second dot) denotes nothing.
pub open spec fn dec_string_value(s: Seq<char>) -> Option<int> {
    let p = find_dot(s);
    if p == s.len() {
        if s.len() > 0 && all_digits(s) {
            Some(digits_val(s) * (PRICE_SCALE as int))
        } else {
            None
        }
    } else {
        let ip = s.take(p);
        let fp = s.skip(p + 1);
        if ip.len() > 0 && fp.len() > 0 && all_digits(ip) && all_digits(fp) {
            Some(digits_val(ip) * (PRICE_SCALE as int) + frac_scaled(fp))
        } else {
            None
        }
    }
}

pub proof fn lemma_find_dot_props(s: Seq<char>)
    ensures
        0 <= find_dot(s) <= s.len(),
        find_dot(s) < s.len() ==> s[find_dot(s)] == '.',
        forall|j: int| 0 <= j < find_dot(s) ==> s[j] != '.',
    decreases s.len(),
{
    if s.len() > 0 && s[0] != '.' {
        lemma_find_dot_props(s.drop_first());
        assert forall|j: int| 0 <= j < find_dot(s) implies s[j] != '.' by {
            if j > 0 {
                assert(s.drop_first()[j - 1] == s[j]);
            }
        }
        if find_dot(s) < s.len() {
            assert(s.drop_first()[find_dot(s) - 1] == s[find_dot(s)]);
        }
    }
}

/// A decimal string denotes a non-negative value.
pub proof fn lemma_dec_value_nonneg(s: Seq<char>)
    ensures
        match dec_string_value(s) {
            Some(v) => v >= 0,
            None => true,
        },
{
    let p = find_dot(s);
    lemma_find_dot_props(s);
    if p == s.len() {
        if s.len() > 0 && all_digits(s) {
            lemma_digits_val_nonneg(s);
            assert(digits_val(s) * (PRICE_SCALE as int) >= 0) by (nonlinear_arith)
                requires
                    digits_val(s) >= 0,
            ;
        }
    } else {
        let ip = s.take(p);
        let fp = s.skip(p + 1);
        if ip.len() > 0 && fp.len() > 0 && all_digits(ip) && all_digits(fp) {
            lemma_digits_val_nonneg(ip);
            lemma_frac_scaled_nonneg(fp);
            assert(digits_val(ip) * (PRICE_SCALE as int) >= 0) by (nonlinear_arith)
                requires
                    digits_val(ip) >= 0,
            ;
        }
    }
}

proof fn lemma_find_dot_unique(s: Seq<char>, p: int)
    requires
        0 <= p <= s.len(),
        forall|j: int| 0 <= j < p ==> s[j] != '.',
        p < s.len() ==> s[p] == '.',
    ensures
        find_dot(s) == p,
    decreases s.len(),
{
    if s.len() == 0 {
    } else if s[0] == '.' {
        assert(p == 0);
    } else {
        assert(p >= 1);
        let t = s.drop_first();
        assert(forall|j: int| 0 <= j < p - 1 ==> t[j] == s[j + 1] && t[j] != '.');
        lemma_find_dot_unique(t, p - 1);
    }
}

proof fn lemma_digits_val_nonneg(s: Seq<char>)
    requires
        all_digits(s),
    ensures
        digits_val(s) >= 0,
    decreases s.len(),
{
    if s.len() > 0 {
        assert(all_digits(s.drop_last()));
        lemma_digits_val_nonneg(s.drop_last());
    }
}

/// Appending digits to a digit string never shrinks its value.
proof fn lemma_digits_val_prefix_le(s: Seq<char>, k: int)
    requires
        all_digits(s),
        0 <= k <= s.len(),
    ensures
        digits_val(s.take(k)) <= digits_val(s),
    decreases s.len() - k,
{
    if k < s.len() {
        lemma_digits_val_prefix_le(s, k + 1);
        let a = s.take(k);
        let b = s.take(k + 1);
        assert(b.drop_last() =~= a);
        assert(b.last() == s[k]);
        assert(all_digits(a));
        lemma_digits_val_nonneg(a);
        assert(digits_val(b) == digits_val(a) * 10 + digit_val(s[k]));
    } else {
        assert(s.take(k) =~= s);
    }
}

/// Scans the digit run `s[from..to)`, accumulating its value; reports a
/// non-digit, or a value above `MAX_PRICE`, as `None`.
fn scan_digits(s: &str, from: usize, to: usize) -> (r: Option<u64>)
    requires
        s.is_ascii(),
        from <= to <= s@.len(),
    ensures
        match r {
            Some(v) => all_digits(s@.subrange(from as int, to as int)) && v == digits_val(
                s@.subrange(from as int, to as int),
            ) && v <= MAX_PRICE,
            None => !all_digits(s@.subrange(from as int, to as int)) || digits_val(
                s@.subrange(from as int, to as int),
            ) > MAX_PRICE,
        },
{
    let ghost whole = s@.subrange(from as int, to as int);
    let mut acc: u64 = 0;
    let mut i: usize = from;
    while i < to
        invariant
            s.is_ascii(),
            from <= i <= to <= s@.len(),
            all_digits(s@.subrange(from as int, i as int)),
            acc == digits_val(s@.subrange(from as int, i as int)),
            acc <= MAX_PRICE,
            whole == s@.subrange(from as int, to as int),
        decreases to - i,
    {
        let b = s.get_ascii(i);
        proof {
            assert((s@[i as int] as u32) < 128);
        }
        if b < 48 || b > 57 {
            proof {
                assert(!is_digit(whole[i - from]));
            }
            return None;
        }
        let d = (b - 48) as u64;
        let next: u128 = acc as u128 * 10 + d as u128;
        proof {
            let a = s@.subrange(from as int, i as int);
            let bq = s@.subrange(from as int, i as int + 1);
            assert(bq.drop_last() =~= a);
            assert(bq.last() == s@[i as int]);
            assert(digits_val(bq) == digits_val(a) * 10 + digit_val(s@[i as int]));
        }
        if next > MAX_PRICE as u128 {
            proof {
                let bq = s@.subrange(from as int, i as int + 1);
                if all_digits(whole) {
                    assert(forall|j: int| 0 <= j < bq.len() ==> bq[j] == whole[j]);
                    assert(all_digits(bq));
                    lemma_digits_val_prefix_le(whole, i + 1 - from);
                    assert(whole.take(i + 1 - from) =~= bq);
                }
            }
            return None;
        }
        acc = next as u64;
        i += 1;
    }
    proof {
        assert(s@.subrange(from as int, i as int) =~= whole);
    }
    Some(acc)
}

/// Parses a decimal price string into fixed-point units.
///
/// Returns the denoted value when the string is a well-formed decimal
/// and the value is at most `MAX_PRICE`; `None` otherwise.
pub fn parse_price(s: &str) -> (r: Option<u64>)
    requires
        s.is_ascii(),
    ensures
        match dec_string_value(s@) {
            Some(v) => if v <= MAX_PRICE as int {
                r == Some(v as u64)
            } else {
                r == None::<u64>
            },
            None => r == None::<u64>,
        },
{
    let n = s.unicode_len();
    let mut p: usize = 0;
    while p < n && s.get_ascii(p) != 46
        invariant
            s.is_ascii(),
            p <= n == s@.len(),
            forall|j: int| 0 <= j < p ==> s@[j] != '.',
        decreases n - p,
    {
        proof {
            assert((s@[p as int] as u32) < 128);
            assert(('.' as u32) == 46);
        }
        p += 1;
    }
    proof {
        if p < n {
            assert((s@[p as int] as u32) < 128);
            assert(s@[p as int] == '.');
        }
        lemma_find_dot_unique(s@, p as int);
    }
    if p == n {
        // no fractional part
        if n == 0 {
            return None;
        }
        let ipv = match scan_digits(s, 0, n) {
            Some(v) => v,
            None => {
                proof {
                    assert(s@.subrange(0, n as int) =~= s@);
                    if all_digits(s@) && digits_val(s@) > MAX_PRICE as int {
                        lemma_digits_val_nonneg(s@);
                        assert(digits_val(s@) * (PRICE_SCALE as int) >= digits_val(s@)) by (
                        nonlinear_arith)
                            requires
                                digits_val(s@) >= 0,
                        ;
                    }
                }
                return None;
            },
        };
        proof {
            assert(s@.subrange(0, n as int) =~= s@);
        }
        let total: u128 = ipv as u128 * PRICE_SCALE as u128;
        if total > MAX_PRICE as u128 {
            return None;
        }
        Some(total as u64)
    } else {
        if p == 0 || p + 1 == n {
            return None;
        }
        let ghost ip = s@.take(p as int);
        let ghost fp = s@.skip(p as int + 1);
        let ipv = match scan_digits(s, 0, p) {
            Some(v) => v,
            None => {
                proof {
                    assert(s@.subrange(0, p as int) =~= ip);
                    if all_digits(ip) && digits_val(ip) > MAX_PRICE as int {
                        if all_digits(fp) {
                            lemma_digits_val_nonneg(ip);
                            lemma_frac_scaled_nonneg(fp);
                            assert(digits_val(ip) * (PRICE_SCALE as int) >= digits_val(ip)) by (
                            nonlinear_arith)
                                requires
                                    digits_val(ip) >= 0,
                            ;
                        }
                    }
                }
                return None;
            },
        };
        proof {
            assert(s@.subrange(0, p as int) =~= ip);
        }
        // the fractional part must be all digits, even past the fourth
        if !all_digits_range(s, p + 1, n) {
            proof {
                assert(s@.subrange(p as int + 1, n as int) =~= fp);
            }
            return None;
        }
        let fend = if n - (p + 1) >= 4 {
            p + 1 + 4
        } else {
            n
        };
        let fv = match scan_digits(s, p + 1, fend) {
            Some(v) => v,
            None => {
                proof {
                    assert(s@.subrange(p as int + 1, n as int) =~= fp);
                    let part = s@.subrange(p as int + 1, fend as int);
                    assert(part =~= fp.take(fend as int - (p as int + 1)));
                    assert forall|j: int| 0 <= j < part.len() implies is_digit(
                        #[trigger] part[j],
                    ) by {
                        assert(part[j] == fp[j]);
                    }
                    lemma_digits_val_upper(part);
                    lemma_pow10_mono(part.len() as nat, 4);
                    lemma_pow10_small();
                    assert(false);
                }
                return None;
            },
        };
        proof {
            assert(s@.subrange(p as int + 1, n as int) =~= fp);
            assert(s@.subrange(p as int + 1, fend as int) =~= fp.take(
                fend as int - (p as int + 1),
            ));
        }
        let scale_up: u64 = if n - (p + 1) >= 4 {
            1
        } else if n - (p + 1) == 3 {
            10
        } else if n - (p + 1) == 2 {
            100
        } else {
            1000
        };
        proof {
            lemma_pow10_small();
            lemma_frac_exec(fp, fend as int - (p as int + 1), scale_up as int);
            let part = s@.subrange(p as int + 1, fend as int);
            assert forall|j: int| 0 <= j < part.len() implies is_digit(#[trigger] part[j]) by {
                assert(part[j] == fp[j]);
            }
            lemma_digits_val_upper(part);
            lemma_pow10_mono(part.len() as nat, 4);
            if scale_up != 1 {
                assert(fv as int * scale_up as int <= 10000000) by (nonlinear_arith)
                    requires
                        (fv as int) >= 0,
                        (fv as int) < 10000,
                        (scale_up as int) >= 1,
                        (scale_up as int) <= 1000,
                ;
            }
        }
        let frac: u64 = fv * scale_up;
        let total: u128 = ipv as u128 * PRICE_SCALE as u128 + frac as u128;
        proof {
            lemma_digits_val_nonneg(fp);
        }
        if total > MAX_PRICE as u128 {
            proof {
                lemma_frac_scaled_nonneg(fp);
            }
            return None;
        }
        Some(total as u64)
    }
}

proof fn lemma_frac_scaled_nonneg(fp: Seq<char>)
    requires
        all_digits(fp),
    ensures
        frac_scaled(fp) >= 0,
{
    if fp.len() >= 4 {
        assert(all_digits(fp.take(4)));
        lemma_digits_val_nonneg(fp.take(4));
    } else {
        lemma_digits_val_nonneg(fp);
        assert(pow10((4 - fp.len()) as nat) >= 1) by {
            lemma_pow10_pos((4 - fp.len()) as nat);
        }
        assert(digits_val(fp) * pow10((4 - fp.len()) as nat) >= 0) by (nonlinear_arith)
            requires
                digits_val(fp) >= 0,
                pow10((4 - fp.len()) as nat) >= 1,
        ;
    }
}

proof fn lemma_pow10_small()
    ensures
        pow10(0) == 1,
        pow10(1) == 10,
        pow10(2) == 100,
        pow10(3) == 1000,
        pow10(4) == 10000,
{
    assert(pow10(0) == 1);
    assert(pow10(1) == 10);
    assert(pow10(2) == 100);
    assert(pow10(3) == 1000);
    assert(pow10(4) == 10000);
}

proof fn lemma_pow10_pos(k: nat)
    ensures
        pow10(k) >= 1,
    decreases k,
{
    if k > 0 {
        lemma_pow10_pos((k - 1) as nat);
    }
}

/// A run of digits denotes less than ten to its length.
proof fn lemma_digits_val_upper(s: Seq<char>)
    requires
        all_digits(s),
    ensures
        digits_val(s) < pow10(s.len() as nat),
    decreases s.len(),
{
    if s.len() == 0 {
    } else {
        let a = s.drop_last();
        assert(all_digits(a));
        lemma_digits_val_upper(a);
        lemma_digits_val_nonneg(a);
        assert(digit_val(s.last()) <= 9);
        assert(digits_val(a) * 10 + digit_val(s.last()) < pow10(a.len() as nat) * 10) by (
        nonlinear_arith)
            requires
                digits_val(a) < pow10(a.len() as nat),
                digit_val(s.last()) <= 9,
        ;
        assert(pow10(s.len() as nat) == 10 * pow10(a.len() as nat));
    }
}

proof fn lemma_pow10_mono(a: nat, b: nat)
    requires
        a <= b,
    ensures
        pow10(a) <= pow10(b),
    decreases b,
{
    if a < b {
        lemma_pow10_mono(a, (b - 1) as nat);
        lemma_pow10_pos((b - 1) as nat);
    }
}

/// Reports whether `s[from..to)` consists of decimal digits only.
fn all_digits_range(s: &str, from: usize, to: usize) -> (r: bool)
    requires
        s.is_ascii(),
        from <= to <= s@.len(),
    ensures
        r == all_digits(s@.subrange(from as int, to as int)),
{
    let ghost whole = s@.subrange(from as int, to as int);
    let mut i: usize = from;
    while i < to
        invariant
            s.is_ascii(),
            from <= i <= to <= s@.len(),
            whole == s@.subrange(from as int, to as int),
            forall|j: int| 0 <= j < i - from ==> is_digit(#[trigger] whole[j]),
        decreases to - i,
    {
        let b = s.get_ascii(i);
        proof {
            assert((s@[i as int] as u32) < 128);
            assert(whole[i - from] == s@[i as int]);
        }
        if b < 48 || b > 57 {
            proof {
                assert(!is_digit(whole[i - from]));
            }
            return false;
        }
        i += 1;
    }
    true
}

/// Links the executable fraction computation (first four digits, then a
/// power-of-ten scale) with `frac_scaled`.
proof fn lemma_frac_exec(fp: Seq<char>, took: int, scale_up: int)
    requires
        all_digits(fp),
        fp.len() >= 4 ==> took == 4 && scale_up == 1,
        fp.len() < 4 ==> took == fp.len() && scale_up == pow10((4 - fp.len()) as nat),
    ensures
        digits_val(fp.take(took)) * scale_up == frac_scaled(fp),
{
    if fp.len() < 4 {
        assert(fp.take(took) =~= fp);
    }
}

} // verus!
