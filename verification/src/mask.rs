//! Hexadecimal bitmask decoding for advertised capability (`features`/`ft`)
//! and status (`flags`/`sf`) text-record values.
//!
//! A capability value is a single hexadecimal string, optionally `0x`- or
//! `0X`-prefixed, or two comma-separated hexadecimal halves `low,high`; the
//! halves are concatenated as `high || low` (after stripping each half's
//! prefix) and the result is read as one 64-bit hexadecimal integer.

use vstd::prelude::*;
use crate::strutil::{find_first, lemma_find_first_append, str_find};

verus! {

/// Errors produced while decoding one advertised device record.
#[derive(Clone, Copy, Debug, PartialEq, Eq, Structural)]
pub enum DecodeError {
    /// The `features`/`ft` value is not valid hexadecimal.
    BadFeatures,
    /// The `flags`/`sf` value is not valid hexadecimal.
    BadFlags,
}

/// Whether `c` is an ASCII hexadecimal digit.
pub open spec fn is_hex_digit(c: char) -> bool {
    ('0' <= c && c <= '9') || ('a' <= c && c <= 'f') || ('A' <= c && c <= 'F')
}

/// Numeric value of a hexadecimal digit.
pub open spec fn hex_digit_value(c: char) -> int {
    if '0' <= c && c <= '9' {
        c as int - '0' as int
    } else if 'a' <= c && c <= 'f' {
        c as int - 'a' as int + 10
    } else {
        c as int - 'A' as int + 10
    }
}

/// Every character of `s` is a hexadecimal digit.
pub open spec fn all_hex_digits(s: Seq<char>) -> bool {
    forall|i: int| 0 <= i < s.len() ==> is_hex_digit(#[trigger] s[i])
}

/// The integer a digit string denotes in base 16.
pub open spec fn hex_value(s: Seq<char>) -> int
    decreases s.len(),
{
    if s.len() == 0 {
        0
    } else {
        hex_value(s.drop_last()) * 16 + hex_digit_value(s.last())
    }
}

/// `s` with one leading `0x`/`0X` removed, if present.
pub open spec fn strip_hex_prefix(s: Seq<char>) -> Seq<char> {
    if s.len() >= 2 && s[0] == '0' && (s[1] == 'x' || s[1] == 'X') {
        s.skip(2)
    } else {
        s
    }
}

/// The 64-bit value a plain digit string denotes in base 16, or `None` when
/// it is empty, holds a non-digit, or exceeds 64 bits.
pub open spec fn spec_parse_digits(s: Seq<char>) -> Option<u64> {
    if s.len() > 0 && all_hex_digits(s) && hex_value(s) <= u64::MAX {
        Some(hex_value(s) as u64)
    } else {
        None
    }
}

/// The 64-bit value a single (possibly prefixed) hexadecimal string denotes.
pub open spec fn spec_parse_hex(s: Seq<char>) -> Option<u64> {
    spec_parse_digits(strip_hex_prefix(s))
}

/// The mask a `features`/`flags` text value denotes: a comma splits the value
/// into a low half and a high half, concatenated as `high || low`.
pub open spec fn spec_decode_mask(s: Seq<char>) -> Option<u64> {
    match find_first(s, ',') {
        None => spec_parse_hex(s),
        Some(i) => spec_parse_digits(
            strip_hex_prefix(s.skip(i + 1)) + strip_hex_prefix(s.take(i)),
        ),
    }
}

proof fn lemma_hex_value_nonneg(s: Seq<char>)
    requires
        all_hex_digits(s),
    ensures
        hex_value(s) >= 0,
    decreases s.len(),
{
    if s.len() > 0 {
        assert(all_hex_digits(s.drop_last())) by {
            assert(forall|i: int|
                0 <= i < s.drop_last().len() ==> s.drop_last()[i] == #[trigger] s[i]);
        }
        lemma_hex_value_nonneg(s.drop_last());
    }
}

/// Extending a digit string on the right can only grow its value.
proof fn lemma_hex_value_prefix_le(s: Seq<char>, i: int)
    requires
        all_hex_digits(s),
        0 <= i <= s.len(),
    ensures
        hex_value(s.take(i)) <= hex_value(s),
    decreases s.len() - i,
{
    assert(all_hex_digits(s.take(i))) by {
        assert(forall|j: int| 0 <= j < i ==> s.take(i)[j] == #[trigger] s[j]);
    }
    if i == s.len() {
        assert(s.take(i) =~= s);
    } else {
        lemma_hex_value_prefix_le(s, i + 1);
        assert(s.take(i + 1).drop_last() =~= s.take(i));
        assert(s.take(i + 1).last() == s[i]);
        lemma_hex_value_nonneg(s.take(i));
        assert(hex_value(s.take(i + 1)) == hex_value(s.take(i)) * 16 + hex_digit_value(s[i]));
        assert(hex_value(s.take(i)) * 16 >= hex_value(s.take(i))) by (nonlinear_arith)
            requires
                hex_value(s.take(i)) >= 0,
        ;
        assert(hex_digit_value(s[i]) >= 0);
    }
}

/// Parses the digit characters of `s` (no prefix handling) as base-16.
fn parse_hex_digits(s: &str) -> (r: Option<u64>)
    ensures
        r == (if s@.len() > 0 && all_hex_digits(s@) && hex_value(s@) <= u64::MAX {
            Some(hex_value(s@) as u64)
        } else {
            None::<u64>
        }),
{
    let n = s.unicode_len();
    if n == 0 {
        return None;
    }
    let mut acc: u64 = 0;
    let mut i: usize = 0;
    while i < n
        invariant
            n == s@.len(),
            0 <= i <= n,
            all_hex_digits(s@.take(i as int)),
            acc == hex_value(s@.take(i as int)),
        decreases n - i,
    {
        let c = s.get_char(i);
        let cv = c as u32;
        let d: u64 = if cv >= '0' as u32 && cv <= '9' as u32 {
            (cv - '0' as u32) as u64
        } else if cv >= 'a' as u32 && cv <= 'f' as u32 {
            (cv - 'a' as u32) as u64 + 10
        } else if cv >= 'A' as u32 && cv <= 'F' as u32 {
            (cv - 'A' as u32) as u64 + 10
        } else {
            proof {
                assert(!is_hex_digit(s@[i as int]));
            }
            return None;
        };
        proof {
            assert(is_hex_digit(s@[i as int]));
            assert(d == hex_digit_value(s@[i as int]));
        }
        if acc >= 0x1000_0000_0000_0000u64 {
            proof {
                assert(s@.take(i + 1).drop_last() =~= s@.take(i as int));
                assert(s@.take(i + 1).last() == s@[i as int]);
                assert(all_hex_digits(s@.take(i + 1)));
                assert(hex_value(s@.take(i + 1)) == acc * 16 + d);
                assert(acc * 16 >= 0x1000_0000_0000_0000 * 16) by (nonlinear_arith)
                    requires
                        acc >= 0x1000_0000_0000_0000u64,
                ;
                if all_hex_digits(s@) {
                    lemma_hex_value_prefix_le(s@, i + 1);
                }
            }
            return None;
        }
        proof {
            assert(s@.take(i + 1).drop_last() =~= s@.take(i as int));
            assert(s@.take(i + 1).last() == s@[i as int]);
            assert(all_hex_digits(s@.take(i + 1)));
            assert(acc * 16 + d <= 0xFFFF_FFFF_FFFF_FFFF) by (nonlinear_arith)
                requires
                    acc < 0x1000_0000_0000_0000u64,
                    d <= 15,
            ;
        }
        acc = acc * 16 + d;
        i = i + 1;
    }
    proof {
        assert(s@.take(n as int) =~= s@);
    }
    Some(acc)
}

/// Returns `s` without one leading `0x`/`0X`.
fn strip_prefix_exec<'a>(s: &'a str) -> (r: &'a str)
    ensures
        r@ == strip_hex_prefix(s@),
{
    let n = s.unicode_len();
    if n >= 2 {
        let c0 = s.get_char(0);
        let c1 = s.get_char(1);
        if c0 == '0' && (c1 == 'x' || c1 == 'X') {
            let r = s.substring_char(2, n);
            proof {
                assert(r@ =~= s@.skip(2));
            }
            return r;
        }
    }
    s
}

/// Parses one hexadecimal string, with optional `0x`/`0X` prefix.
pub fn parse_hex(s: &str) -> (r: Option<u64>)
    ensures
        r == spec_parse_hex(s@),
{
    let digits = strip_prefix_exec(s);
    parse_hex_digits(digits)
}

/// Decodes a `features`/`flags` text value into its 64-bit mask.
///
/// A single hexadecimal string decodes directly; a two-part value
/// `low,high` decodes as the concatenation `high || low`. A value that is
/// not valid hexadecimal yields `None`.
pub fn decode_mask(s: &str) -> (r: Option<u64>)
    ensures
        r == spec_decode_mask(s@),
{
    match str_find(s, ',') {
        None => parse_hex(s),
        Some(i) => {
            proof {
                crate::strutil::lemma_find_first_characterization(s@, ',');
            }
            let n = s.unicode_len();
            let low = s.substring_char(0, i);
            let high = s.substring_char(i + 1, n);
            proof {
                assert(low@ =~= s@.take(i as int));
                assert(high@ =~= s@.skip(i + 1));
            }
            let high_digits = strip_prefix_exec(high);
            let low_digits = strip_prefix_exec(low);
            let mut joined = String::from_str(high_digits);
            joined.append(low_digits);
            let r = parse_hex_digits(joined.as_str());
            proof {
                assert(joined@ =~= strip_hex_prefix(s@.skip(i + 1)) + strip_hex_prefix(
                    s@.take(i as int),
                ));
            }
            r
        },
    }
}

/// Two-part law: splitting a mask into comma-separated halves decodes to the
/// same value as the single concatenated string `high || low`, provided
/// neither half holds a comma and the concatenation of the stripped halves
/// does not itself begin with a `0x`/`0X` prefix.
pub proof fn lemma_two_part_mask(low: Seq<char>, high: Seq<char>)
    requires
        forall|j: int| 0 <= j < low.len() ==> low[j] != ',',
        forall|j: int| 0 <= j < high.len() ==> high[j] != ',',
        strip_hex_prefix(strip_hex_prefix(high) + strip_hex_prefix(low)) == strip_hex_prefix(high)
            + strip_hex_prefix(low),
    ensures
        spec_decode_mask(low + seq![','] + high) == spec_decode_mask(
            strip_hex_prefix(high) + strip_hex_prefix(low),
        ),
{
    let two = low + seq![','] + high;
    let cat = strip_hex_prefix(high) + strip_hex_prefix(low);
    lemma_find_first_append(low, seq![','] + high, ',');
    assert(low + (seq![','] + high) =~= two);
    assert((seq![','] + high)[0] == ',');
    assert(find_first(seq![','] + high, ',') == Some(0int));
    assert(find_first(two, ',') == Some(low.len() as int));
    assert(two.take(low.len() as int) =~= low);
    assert(two.skip(low.len() as int + 1) =~= high);
    assert(forall|j: int|
        0 <= j < strip_hex_prefix(high).len() ==> #[trigger] strip_hex_prefix(high)[j] != ',');
    assert(forall|j: int|
        0 <= j < strip_hex_prefix(low).len() ==> #[trigger] strip_hex_prefix(low)[j] != ',');
    assert(forall|j: int| 0 <= j < cat.len() ==> #[trigger] cat[j] != ',');
    lemma_find_first_characterization_none(cat);
}

proof fn lemma_hex_value_append(a: Seq<char>, b: Seq<char>)
    ensures
        hex_value(a + b) == hex_value(a) * vstd::arithmetic::power::pow(16, b.len()) + hex_value(
            b,
        ),
    decreases b.len(),
{
    if b.len() == 0 {
        assert(a + b =~= a);
        assert(vstd::arithmetic::power::pow(16, 0) == 1) by {
            vstd::arithmetic::power::lemma_pow0(16);
        }
    } else {
        lemma_hex_value_append(a, b.drop_last());
        assert((a + b).drop_last() =~= a + b.drop_last());
        assert((a + b).last() == b.last());
        assert(vstd::arithmetic::power::pow(16, b.len()) == vstd::arithmetic::power::pow(
            16,
            (b.len() - 1) as nat,
        ) * 16) by {
            vstd::arithmetic::power::lemma_pow1(16);
            vstd::arithmetic::power::lemma_pow_adds(16, (b.len() - 1) as nat, 1);
        }
        let p1 = vstd::arithmetic::power::pow(16, (b.len() - 1) as nat);
        assert((hex_value(a) * p1 + hex_value(b.drop_last())) * 16 + hex_digit_value(b.last())
            == hex_value(a) * (p1 * 16) + (hex_value(b.drop_last()) * 16 + hex_digit_value(
            b.last(),
        ))) by (nonlinear_arith);
    }
}

/// A digit string's value stays under 16 to the power of its length.
proof fn lemma_hex_value_bound(s: Seq<char>)
    requires
        all_hex_digits(s),
    ensures
        hex_value(s) < vstd::arithmetic::power::pow(16, s.len()),
    decreases s.len(),
{
    if s.len() == 0 {
        vstd::arithmetic::power::lemma_pow0(16);
    } else {
        assert(all_hex_digits(s.drop_last())) by {
            assert(forall|i: int|
                0 <= i < s.drop_last().len() ==> s.drop_last()[i] == #[trigger] s[i]);
        }
        lemma_hex_value_bound(s.drop_last());
        let p1 = vstd::arithmetic::power::pow(16, (s.len() - 1) as nat);
        assert(vstd::arithmetic::power::pow(16, s.len()) == p1 * 16) by {
            vstd::arithmetic::power::lemma_pow1(16);
            vstd::arithmetic::power::lemma_pow_adds(16, (s.len() - 1) as nat, 1);
        }
        assert(hex_digit_value(s.last()) <= 15);
        assert(hex_value(s.drop_last()) <= p1 - 1 ==> hex_value(s.drop_last()) * 16 + 15 <= p1
            * 16 - 1) by (nonlinear_arith);
    }
}

/// Value form of the two-part law: for comma-free digit halves, an 8-digit
/// low half and a high half whose value fits 32 bits, the two-part decode
/// yields exactly the high value shifted left 32 bits, or-ed with the low
/// value.
pub proof fn lemma_two_part_value(low: Seq<char>, high: Seq<char>)
    requires
        low.len() == 8,
        all_hex_digits(low),
        all_hex_digits(high),
        hex_value(high) <= u32::MAX,
    ensures
        spec_decode_mask(low + seq![','] + high) == Some(
            ((hex_value(high) as u64) << 32) | (hex_value(low) as u64),
        ),
{
    let cat = high + low;
    assert(strip_hex_prefix(high) =~= high);
    assert(strip_hex_prefix(low) =~= low);
    assert(forall|j: int| 0 <= j < low.len() ==> low[j] != ',');
    assert(forall|j: int| 0 <= j < high.len() ==> high[j] != ',');
    assert(all_hex_digits(cat)) by {
        assert(forall|i: int|
            0 <= i < cat.len() ==> #[trigger] cat[i] == (if i < high.len() {
                high[i]
            } else {
                low[i - high.len()]
            }));
    }
    assert(strip_hex_prefix(cat) =~= cat);
    lemma_two_part_mask(low, high);
    lemma_find_first_characterization_none(cat);
    lemma_hex_value_append(high, low);
    lemma_hex_value_bound(low);
    lemma_hex_value_nonneg(low);
    lemma_hex_value_nonneg(high);
    assert(vstd::arithmetic::power::pow(16, 8) == 0x1_0000_0000) by {
        vstd::arithmetic::power::lemma_pow1(16);
        vstd::arithmetic::power::lemma_pow_adds(16, 1, 1);
        assert(vstd::arithmetic::power::pow(16, 2) == 256);
        vstd::arithmetic::power::lemma_pow_adds(16, 2, 2);
        assert(vstd::arithmetic::power::pow(16, 4) == 65536);
        vstd::arithmetic::power::lemma_pow_adds(16, 4, 4);
    }
    let h: u64 = hex_value(high) as u64;
    let l: u64 = hex_value(low) as u64;
    assert(hex_value(cat) == h * 0x1_0000_0000 + l);
    assert(h * 0x1_0000_0000 + l <= 0xFFFF_FFFFu64 * 0x1_0000_0000 + 0xFFFF_FFFFu64)
        by (nonlinear_arith)
        requires
            h <= 0xFFFF_FFFFu64,
            l <= 0xFFFF_FFFFu64,
    ;
    assert(((h << 32) | l) == h * 0x1_0000_0000 + l) by (bit_vector)
        requires
            h <= 0xFFFF_FFFFu64,
            l <= 0xFFFF_FFFFu64,
    ;
}

proof fn lemma_find_first_characterization_none(s: Seq<char>)
    requires
        forall|j: int| 0 <= j < s.len() ==> s[j] != ',',
    ensures
        find_first(s, ',') is None,
    decreases s.len(),
{
    if s.len() > 0 {
        assert(forall|j: int|
            0 <= j < s.drop_first().len() ==> #[trigger] s.drop_first()[j] == s[j + 1]);
        lemma_find_first_characterization_none(s.drop_first());
    }
}

} // verus!
