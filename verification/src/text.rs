//! Case folding for HTTP method tokens.
//!
//! Methods are compared and keyed in lowercase. HTTP method tokens are
//! ASCII, so the folding is ASCII case folding: `'A'..='Z'` map to
//! `'a'..='z'` and every other character is left alone.

use vstd::prelude::*;

verus! {

/// ASCII lowercase of one character.
pub open spec fn lower_char(c: char) -> char {
    if 'A' <= c <= 'Z' {
        (c as u32 + 32) as char
    } else {
        c
    }
}

/// ASCII lowercase of a sequence of characters.
pub open spec fn lower_chars(s: Seq<char>) -> Seq<char> {
    s.map_values(|c: char| lower_char(c))
}

/// Relies on `str::to_ascii_lowercase`: ASCII letters `'A'..='Z'` are
/// mapped to their lowercase counterparts and all other characters are
/// unchanged.
#[verifier::external_body]
pub fn ascii_lowercase(s: &str) -> (r: String)
    ensures
        r@ == lower_chars(s@),
{
    s.to_ascii_lowercase()
}

/// ASCII case folding is idempotent: folding a folded string changes
/// nothing.
pub proof fn lemma_lower_chars_idempotent(s: Seq<char>)
    ensures
        lower_chars(lower_chars(s)) == lower_chars(s),
{
    assert forall|i: int| 0 <= i < s.len() implies lower_char(lower_char(s[i])) == lower_char(s[i]) by {
        assert('a' <= (('A' as u32 + 32) as char));
    }
    assert(lower_chars(lower_chars(s)) =~= lower_chars(s));
}

/// Whether `c` is a decimal digit.
pub open spec fn is_digit(c: char) -> bool {
    '0' <= c <= '9'
}

/// The value of the decimal digit `c`.
pub open spec fn digit_val(c: char) -> int
    recommends
        is_digit(c),
{
    c as int - '0' as int
}

/// Whether every character of `s` is a decimal digit.
pub open spec fn all_digits(s: Seq<char>) -> bool {
    forall|i: int| 0 <= i < s.len() ==> is_digit(#[trigger] s[i])
}

/// The value of the decimal digit string `s`.
pub open spec fn digits_val(s: Seq<char>) -> int
    recommends
        all_digits(s),
    decreases s.len(),
{
    if s.len() == 0 {
        0
    } else {
        digits_val(s.drop_last()) * 10 + digit_val(s.last())
    }
}

/// Prefix values of a digit string never decrease as the prefix grows.
pub proof fn lemma_digits_val_prefix_mono(s: Seq<char>, i: int, j: int)
    requires
        all_digits(s),
        0 <= i <= j <= s.len(),
    ensures
        digits_val(s.take(i)) <= digits_val(s.take(j)),
    decreases j - i,
{
    if i < j {
        lemma_digits_val_prefix_mono(s, i, j - 1);
        assert(s.take(j).drop_last() =~= s.take(j - 1));
        assert(s.take(j).last() == s[j - 1]);
        assert(all_digits(s.take(j - 1))) by {
            assert(forall|n: int| 0 <= n < j - 1 ==> (#[trigger] s.take(j - 1)[n]) == s[n]);
        }
        lemma_digits_val_nonneg(s.take(j - 1));
        let v = digits_val(s.take(j - 1));
        assert(v * 10 + digit_val(s[j - 1]) >= v) by (nonlinear_arith)
            requires
                v >= 0,
                digit_val(s[j - 1]) >= 0,
        ;
    }
}

/// The value of a digit string is never negative.
pub proof fn lemma_digits_val_nonneg(s: Seq<char>)
    requires
        all_digits(s),
    ensures
        digits_val(s) >= 0,
    decreases s.len(),
{
    if s.len() > 0 {
        let dl = s.drop_last();
        assert(forall|i: int| 0 <= i < dl.len() ==> (#[trigger] dl[i]) == s[i]);
        lemma_digits_val_nonneg(dl);
    }
}

/// Whether `s` is a decimal numeral a `u64` can hold: at least one digit,
/// only digits, value at most `u64::MAX`.
pub open spec fn is_u64_digits(s: Seq<char>) -> bool {
    &&& s.len() >= 1
    &&& all_digits(s)
    &&& digits_val(s) <= u64::MAX
}

/// Parse a decimal numeral. The parse succeeds exactly on strings of one
/// or more digits whose value fits a `u64`; leading zeros are accepted.
pub fn parse_u64(s: &str) -> (r: Option<u64>)
    ensures
        match r {
            Some(v) => is_u64_digits(s@) && v == digits_val(s@),
            None => !is_u64_digits(s@),
        },
{
    let len = s.unicode_len();
    if len == 0 {
        return None;
    }
    let mut val: u64 = 0;
    let mut i: usize = 0;
    while i < len
        invariant
            len == s@.len(),
            1 <= len,
            i <= len,
            all_digits(s@.take(i as int)),
            val == digits_val(s@.take(i as int)),
        decreases len - i,
    {
        let c = s.get_char(i);
        if c < '0' || c > '9' {
            proof {
                assert(s@[i as int] == c);
            }
            return None;
        }
        let d = (c as u32 - '0' as u32) as u64;
        proof {
            assert(s@.take(i as int + 1).drop_last() =~= s@.take(i as int));
            assert(s@.take(i as int + 1).last() == s@[i as int]);
            assert(forall|n: int| 0 <= n < i + 1 ==> (#[trigger] s@.take(i as int + 1)[n]) == s@[n]);
            vstd::arithmetic::div_mod::lemma_fundamental_div_mod((u64::MAX - d) as int, 10);
        }
        if val > (u64::MAX - d) / 10 {
            proof {
                assert(digits_val(s@.take(i as int + 1)) > u64::MAX);
                if all_digits(s@) {
                    lemma_digits_val_prefix_mono(s@, i as int + 1, len as int);
                    assert(s@.take(len as int) =~= s@);
                }
            }
            return None;
        }
        val = val * 10 + d;
        i = i + 1;
    }
    proof {
        assert(s@.take(len as int) =~= s@);
    }
    Some(val)
}

/// A digit string of up to three digits is worth at most 999.
pub proof fn lemma_digits_val_bounds(s: Seq<char>)
    requires
        all_digits(s),
    ensures
        digits_val(s) >= 0,
        s.len() == 1 ==> digits_val(s) <= 9,
        s.len() == 2 ==> digits_val(s) <= 99,
        s.len() == 3 ==> digits_val(s) <= 999,
    decreases s.len(),
{
    if s.len() > 0 {
        let dl = s.drop_last();
        assert(forall|i: int| 0 <= i < dl.len() ==> (#[trigger] dl[i]) == s[i]);
        lemma_digits_val_bounds(dl);
    }
}

} // verus!
