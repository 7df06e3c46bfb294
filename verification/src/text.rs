//! ASCII text helpers: case normalisation, lexicographic order, decimal
//! rendering.  Pair keys, canonical queries and request envelopes are all
//! built from these.

use vstd::prelude::*;

verus! {

broadcast use
    vstd::string::group_string_axioms,
    vstd::utf8::is_ascii_chars_nat_bound,
    vstd::utf8::char_u32_cast;

/// The characters denoted by a sequence of ASCII bytes.
pub open spec fn ascii_chars_of(b: Seq<u8>) -> Seq<char> {
    b.map(|_i: int, x: u8| x as char)
}

/// Relies on `String::from_utf8`: ASCII bytes are valid UTF-8 and decode
/// one character per byte, so the conversion never fails.
#[verifier::external_body]
pub fn string_from_ascii(bytes: Vec<u8>) -> (r: String)
    requires
        forall|i: int| 0 <= i < bytes@.len() ==> bytes@[i] < 128,
    ensures
        r@ == ascii_chars_of(bytes@),
{
    String::from_utf8(bytes).unwrap()
}

/// ASCII upper-casing of one character; everything outside `a`..`z` is kept.
pub open spec fn upper_char(c: char) -> char {
    if 97 <= (c as u32) && (c as u32) <= 122 {
        (((c as u32) - 32) as u32) as char
    } else {
        c
    }
}

pub open spec fn upper_chars(s: Seq<char>) -> Seq<char> {
    s.map(|_i: int, c: char| upper_char(c))
}

/// ASCII upper-casing of a whole string.
pub fn to_upper_ascii(s: &str) -> (r: String)
    requires
        s.is_ascii(),
    ensures
        r@ == upper_chars(s@),
{
    let n = s.unicode_len();
    let mut out: Vec<u8> = Vec::new();
    let mut i: usize = 0;
    while i < n
        invariant
            s.is_ascii(),
            n == s@.len(),
            i <= n,
            out@.len() == i,
            forall|j: int| 0 <= j < i ==> out@[j] < 128,
            forall|j: int| 0 <= j < i ==> #[trigger] out@[j] as char == upper_char(s@[j]),
        decreases n - i,
    {
        let b = s.get_ascii(i);
        let ub = if 97 <= b && b <= 122 {
            b - 32
        } else {
            b
        };
        proof {
            assert((s@[i as int] as u32) < 128);
            assert(ub as char == upper_char(s@[i as int]));
        }
        out.push(ub);
        i += 1;
    }
    let r = string_from_ascii(out);
    proof {
        assert(r@ =~= upper_chars(s@));
    }
    r
}

/// ASCII lower-casing of one character; everything outside `A`..`Z` is kept.
pub open spec fn lower_char(c: char) -> char {
    if 65 <= (c as u32) && (c as u32) <= 90 {
        (((c as u32) + 32) as u32) as char
    } else {
        c
    }
}

pub open spec fn lower_chars(s: Seq<char>) -> Seq<char> {
    s.map(|_i: int, c: char| lower_char(c))
}

/// ASCII lower-casing of a whole string.
pub fn to_lower_ascii(s: &str) -> (r: String)
    requires
        s.is_ascii(),
    ensures
        r@ == lower_chars(s@),
{
    let n = s.unicode_len();
    let mut out: Vec<u8> = Vec::new();
    let mut i: usize = 0;
    while i < n
        invariant
            s.is_ascii(),
            n == s@.len(),
            i <= n,
            out@.len() == i,
            forall|j: int| 0 <= j < i ==> out@[j] < 128,
            forall|j: int| 0 <= j < i ==> #[trigger] out@[j] as char == lower_char(s@[j]),
        decreases n - i,
    {
        let b = s.get_ascii(i);
        let lb = if 65 <= b && b <= 90 {
            b + 32
        } else {
            b
        };
        proof {
            assert((s@[i as int] as u32) < 128);
            assert(lb as char == lower_char(s@[i as int]));
        }
        out.push(lb);
        i += 1;
    }
    let r = string_from_ascii(out);
    proof {
        assert(r@ =~= lower_chars(s@));
    }
    r
}

/// Upper-casing never leaves the ASCII range.
pub proof fn lemma_upper_chars_ascii(s: Seq<char>)
    requires
        vstd::utf8::is_ascii_chars(s),
    ensures
        vstd::utf8::is_ascii_chars(upper_chars(s)),
{
    assert forall|i: int|
        0 <= i < upper_chars(s).len() implies '\0' <= #[trigger] upper_chars(s)[i]
        <= '\u{7f}' by {
        assert((s[i] as u32) < 128);
        assert(upper_chars(s)[i] == upper_char(s[i]));
    }
}

/// Lexicographic order on character sequences, by Unicode code point;
/// a proper prefix comes first.
pub open spec fn lex_le(a: Seq<char>, b: Seq<char>) -> bool
    decreases a.len(),
{
    if a.len() == 0 {
        true
    } else if b.len() == 0 {
        false
    } else if (a[0] as u32) < (b[0] as u32) {
        true
    } else if (b[0] as u32) < (a[0] as u32) {
        false
    } else {
        lex_le(a.drop_first(), b.drop_first())
    }
}

pub proof fn lemma_lex_le_total(a: Seq<char>, b: Seq<char>)
    ensures
        lex_le(a, b) || lex_le(b, a),
    decreases a.len(),
{
    if a.len() != 0 && b.len() != 0 && (a[0] as u32) == (b[0] as u32) {
        lemma_lex_le_total(a.drop_first(), b.drop_first());
    }
}

pub proof fn lemma_lex_le_antisymmetric(a: Seq<char>, b: Seq<char>)
    requires
        lex_le(a, b),
        lex_le(b, a),
    ensures
        a == b,
    decreases a.len(),
{
    if a.len() == 0 {
        assert(b.len() == 0);
        assert(a =~= b);
    } else {
        lemma_lex_le_antisymmetric(a.drop_first(), b.drop_first());
        vstd::utf8::char_u32_cast(a[0], a[0] as u32);
        vstd::utf8::char_u32_cast(b[0], b[0] as u32);
        assert(a[0] == b[0]);
        assert(a =~= seq![a[0]] + a.drop_first());
        assert(b =~= seq![b[0]] + b.drop_first());
    }
}

pub proof fn lemma_lex_le_transitive(a: Seq<char>, b: Seq<char>, c: Seq<char>)
    requires
        lex_le(a, b),
        lex_le(b, c),
    ensures
        lex_le(a, c),
    decreases a.len(),
{
    if a.len() != 0 && b.len() != 0 && c.len() != 0 && (a[0] as u32) == (b[0] as u32) && (
    b[0] as u32) == (c[0] as u32) {
        lemma_lex_le_transitive(a.drop_first(), b.drop_first(), c.drop_first());
    }
}

/// Strict lexicographic order.
pub open spec fn lex_lt(a: Seq<char>, b: Seq<char>) -> bool {
    lex_le(a, b) && a != b
}

pub proof fn lemma_lex_lt_transitive(a: Seq<char>, b: Seq<char>, c: Seq<char>)
    requires
        lex_lt(a, b),
        lex_lt(b, c),
    ensures
        lex_lt(a, c),
{
    lemma_lex_le_transitive(a, b, c);
    if a == c {
        lemma_lex_le_antisymmetric(a, b);
    }
}

fn str_le_from(a: &str, b: &str, i: usize) -> (r: bool)
    requires
        a.is_ascii(),
        b.is_ascii(),
        i <= a@.len(),
        i <= b@.len(),
    ensures
        r == lex_le(a@.skip(i as int), b@.skip(i as int)),
    decreases a@.len() - i,
{
    if i == a.unicode_len() {
        true
    } else if i == b.unicode_len() {
        false
    } else {
        let ca = a.get_ascii(i);
        let cb = b.get_ascii(i);
        proof {
            assert((a@[i as int] as u32) < 128);
            assert((b@[i as int] as u32) < 128);
            assert(a@.skip(i as int)[0] == a@[i as int]);
            assert(b@.skip(i as int)[0] == b@[i as int]);
        }
        if ca < cb {
            true
        } else if cb < ca {
            false
        } else {
            let r = str_le_from(a, b, i + 1);
            proof {
                assert(a@.skip(i as int).drop_first() =~= a@.skip(i as int + 1));
                assert(b@.skip(i as int).drop_first() =~= b@.skip(i as int + 1));
            }
            r
        }
    }
}

/// `a` comes before `b` (or equals it) in lexicographic code-point order.
pub fn str_le(a: &str, b: &str) -> (r: bool)
    requires
        a.is_ascii(),
        b.is_ascii(),
    ensures
        r == lex_le(a@, b@),
{
    let r = str_le_from(a, b, 0);
    proof {
        assert(a@.skip(0) =~= a@);
        assert(b@.skip(0) =~= b@);
    }
    r
}

fn str_eq_from(a: &str, b: &str, i: usize) -> (r: bool)
    requires
        a.is_ascii(),
        b.is_ascii(),
        i <= a@.len(),
        i <= b@.len(),
        a@.len() == b@.len(),
        forall|j: int| 0 <= j < i ==> a@[j] == b@[j],
    ensures
        r == (a@ == b@),
    decreases a@.len() - i,
{
    if i == a.unicode_len() {
        proof {
            assert(a@ =~= b@);
        }
        true
    } else {
        let ca = a.get_ascii(i);
        let cb = b.get_ascii(i);
        proof {
            assert((a@[i as int] as u32) < 128);
            assert((b@[i as int] as u32) < 128);
        }
        if ca == cb {
            str_eq_from(a, b, i + 1)
        } else {
            proof {
                assert(a@[i as int] != b@[i as int]);
            }
            false
        }
    }
}

/// Character-for-character equality of two ASCII strings.
pub fn str_eq(a: &str, b: &str) -> (r: bool)
    requires
        a.is_ascii(),
        b.is_ascii(),
    ensures
        r == (a@ == b@),
{
    if a.unicode_len() != b.unicode_len() {
        proof {
            assert(a@ != b@);
        }
        false
    } else {
        str_eq_from(a, b, 0)
    }
}

/// The decimal digits of `n`, most significant first, as ASCII bytes.
pub open spec fn dec_bytes(n: nat) -> Seq<u8>
    decreases n,
{
    if n < 10 {
        seq![(48 + n) as u8]
    } else {
        dec_bytes(n / 10).push((48 + n % 10) as u8)
    }
}

pub proof fn lemma_dec_bytes_ascii(n: nat)
    ensures
        forall|i: int| 0 <= i < dec_bytes(n).len() ==> 48 <= #[trigger] dec_bytes(n)[i] <= 57,
    decreases n,
{
    if n < 10 {
        assert(dec_bytes(n) =~= seq![(48 + n) as u8]);
        assert(dec_bytes(n)[0] == (48 + n) as u8);
    } else {
        lemma_dec_bytes_ascii(n / 10);
        let pre = dec_bytes(n / 10);
        assert forall|i: int| 0 <= i < dec_bytes(n).len() implies 48 <= #[trigger] dec_bytes(
            n,
        )[i] <= 57 by {
            if i < pre.len() {
                assert(dec_bytes(n)[i] == pre[i]);
            } else {
                assert(dec_bytes(n)[i] == (48 + n % 10) as u8);
            }
        }
    }
}

/// The decimal rendering of `n` as characters.
pub open spec fn dec_chars(n: nat) -> Seq<char> {
    ascii_chars_of(dec_bytes(n))
}

fn push_dec_u64(n: u64, out: &mut Vec<u8>)
    ensures
        final(out)@ == old(out)@ + dec_bytes(n as nat),
    decreases n,
{
    if n < 10 {
        out.push(48 + n as u8);
        proof {
            assert(out@ =~= old(out)@ + dec_bytes(n as nat));
        }
    } else {
        push_dec_u64(n / 10, out);
        out.push(48 + (n % 10) as u8);
        proof {
            assert(out@ =~= old(out)@ + dec_bytes(n as nat));
        }
    }
}

/// Renders `n` in decimal, without sign or padding.
pub fn u64_to_dec(n: u64) -> (r: String)
    ensures
        r@ == dec_chars(n as nat),
{
    let mut out: Vec<u8> = Vec::new();
    push_dec_u64(n, &mut out);
    proof {
        lemma_dec_bytes_ascii(n as nat);
    }
    string_from_ascii(out)
}

} // verus!
