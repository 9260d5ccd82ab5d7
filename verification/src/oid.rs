//! Commit identifiers: 160-bit numbers written as forty lowercase hexadecimal
//! digits.

use crate::text::{char_of, chars_string, digit_char, digit_of, digit_value, str_chars};
use vstd::prelude::*;

verus! {

/// The name of a commit. The twenty bytes are kept as one number, split into
/// its leading sixteen bytes and its trailing four, so that the order of two
/// identifiers is the order of their bytes.
#[derive(Clone, Copy, Debug, PartialEq, Eq, Structural, PartialOrd, Ord, Hash)]
pub struct Oid {
    pub high: u128,
    pub low: u32,
}

/// Why a text is no commit identifier.
#[derive(Clone, Copy, Debug, PartialEq, Eq, Structural)]
pub enum OidError {
    /// The text does not have forty characters.
    WrongLength,
    /// A character is no lowercase hexadecimal digit.
    BadDigit,
}

/// Every character of `s` is a lowercase hexadecimal digit.
pub open spec fn all_hex(s: Seq<char>) -> bool {
    forall|i: int| 0 <= i < s.len() ==> digit_value(#[trigger] s[i]) is Some
}

/// The number that the hexadecimal digits `s` write, most significant first.
pub open spec fn hex_number(s: Seq<char>) -> nat
    decreases s.len(),
{
    if s.len() == 0 {
        0
    } else {
        hex_number(s.drop_last()) * 16 + match digit_value(s.last()) {
            Some(d) => d,
            None => 0,
        }
    }
}

/// `n` written with `width` hexadecimal digits, most significant first; digits
/// beyond the width are cut off.
pub open spec fn hex_digits(n: nat, width: nat) -> Seq<char>
    decreases width,
{
    if width == 0 {
        Seq::empty()
    } else {
        hex_digits(n / 16, (width - 1) as nat).push(digit_char(n % 16))
    }
}

/// Sixteen to the power `k`.
pub open spec fn pow16(k: nat) -> nat
    decreases k,
{
    if k == 0 {
        1
    } else {
        16 * pow16((k - 1) as nat)
    }
}

impl View for Oid {
    type V = nat;

    /// The identifier as one number.
    open spec fn view(&self) -> nat {
        self.high as nat * 0x1_0000_0000 + self.low as nat
    }
}

/// The forty digits of `oid`.
pub open spec fn spec_oid_hex(oid: Oid) -> Seq<char> {
    hex_digits(oid.high as nat, 32) + hex_digits(oid.low as nat, 8)
}

/// The identifier that `s` writes, if `s` is forty lowercase hexadecimal digits.
pub open spec fn spec_parse_oid(s: Seq<char>) -> Result<Oid, OidError> {
    if s.len() != 40 {
        Err(OidError::WrongLength)
    } else if !all_hex(s) {
        Err(OidError::BadDigit)
    } else {
        Ok(Oid { high: hex_number(s.take(32)) as u128, low: hex_number(s.skip(32)) as u32 })
    }
}

/// Sixteen to the eighth and to the thirty-second power.
pub proof fn lemma_pow16_values()
    ensures
        pow16(8) == 0x1_0000_0000,
        pow16(32) == 0x1_0000_0000_0000_0000_0000_0000_0000_0000,
{
    reveal_with_fuel(pow16, 9);
    assert(pow16(8) == 0x1_0000_0000);
    assert(pow16(16) == 0x1_0000_0000 * pow16(8));
    assert(pow16(24) == 0x1_0000_0000 * pow16(16));
    assert(pow16(32) == 0x1_0000_0000 * pow16(24));
}

/// A higher power of sixteen is no smaller.
pub proof fn lemma_pow16_grows(a: nat, b: nat)
    requires
        a <= b,
    ensures
        pow16(a) <= pow16(b),
    decreases b,
{
    if a < b {
        lemma_pow16_grows(a, (b - 1) as nat);
    }
}

/// Digits of a given count write a number below sixteen to that count.
pub proof fn lemma_hex_number_bound(s: Seq<char>)
    ensures
        hex_number(s) < pow16(s.len()),
    decreases s.len(),
{
    if s.len() > 0 {
        lemma_hex_number_bound(s.drop_last());
    }
}

/// Writing a number and reading it back gives the number, if the width holds it.
pub proof fn lemma_hex_round_trip(n: nat, width: nat)
    requires
        n < pow16(width),
    ensures
        hex_digits(n, width).len() == width,
        all_hex(hex_digits(n, width)),
        hex_number(hex_digits(n, width)) == n,
    decreases width,
{
    if width > 0 {
        let shorter = hex_digits(n / 16, (width - 1) as nat);
        lemma_hex_round_trip(n / 16, (width - 1) as nat);
        let s = hex_digits(n, width);
        assert(s.drop_last() =~= shorter);
        assert(digit_value(digit_char(n % 16)) == Some(n % 16));
        assert forall|i: int| 0 <= i < s.len() implies digit_value(#[trigger] s[i]) is Some by {
            if i < shorter.len() {
                assert(s[i] == shorter[i]);
            }
        }
    }
}

/// An identifier is read back from its forty digits.
pub proof fn lemma_oid_round_trip(oid: Oid)
    ensures
        spec_parse_oid(spec_oid_hex(oid)) == Ok::<Oid, OidError>(oid),
{
    lemma_pow16_values();
    lemma_hex_round_trip(oid.high as nat, 32);
    lemma_hex_round_trip(oid.low as nat, 8);
    let front = hex_digits(oid.high as nat, 32);
    let back = hex_digits(oid.low as nat, 8);
    let s = spec_oid_hex(oid);
    assert(s.take(32) =~= front);
    assert(s.skip(32) =~= back);
    assert forall|i: int| 0 <= i < s.len() implies digit_value(#[trigger] s[i]) is Some by {
        if i < 32 {
            assert(s[i] == front[i]);
        } else {
            assert(s[i] == back[i - 32]);
        }
    }
}

/// Reads the digits `text[from..to]`, at most thirty-two of them.
fn read_hex(text: &Vec<char>, from: usize, to: usize) -> (value: Option<u128>)
    requires
        from <= to <= text.len(),
        to - from <= 32,
    ensures
        match value {
            Some(v) => all_hex(text@.subrange(from as int, to as int)) && v == hex_number(
                text@.subrange(from as int, to as int),
            ),
            None => !all_hex(text@.subrange(from as int, to as int)),
        },
{
    let ghost digits = text@.subrange(from as int, to as int);
    let mut value: u128 = 0;
    let mut i: usize = from;
    assert(digits.take(0) =~= Seq::<char>::empty());
    while i < to
        invariant
            from <= i <= to <= text.len(),
            to - from <= 32,
            digits == text@.subrange(from as int, to as int),
            all_hex(digits.take(i - from)),
            value == hex_number(digits.take(i - from)),
        decreases to - i,
    {
        let ghost read = digits.take(i - from);
        let ghost next = digits.take(i - from + 1);
        proof {
            assert(next.drop_last() =~= read);
            assert(next.last() == text@[i as int]);
            lemma_hex_number_bound(read);
            lemma_pow16_grows(read.len(), 31);
            lemma_pow16_values();
            assert(pow16(32) == 16 * pow16(31));
        }
        match digit_of(text[i]) {
            Some(d) => {
                value = value * 16 + d as u128;
                proof {
                    assert forall|k: int| 0 <= k < next.len() implies digit_value(
                        #[trigger] next[k],
                    ) is Some by {
                        if k < read.len() {
                            assert(next[k] == read[k]);
                        }
                    }
                }
            },
            None => {
                assert(digits[i - from] == text@[i as int]);
                return None;
            },
        }
        i += 1;
    }
    assert(digits.take(to - from) =~= digits);
    Some(value)
}

/// Appends `value` as `width` hexadecimal digits.
fn write_hex(out: &mut Vec<char>, value: u128, width: usize)
    ensures
        final(out)@ == old(out)@ + hex_digits(value as nat, width as nat),
    decreases width,
{
    if width == 0 {
        assert(out@ =~= old(out)@ + hex_digits(value as nat, 0));
    } else {
        write_hex(out, value / 16, width - 1);
        out.push(char_of((value % 16) as u8));
        assert(out@ =~= old(out)@ + hex_digits(value as nat, width as nat));
    }
}

impl Oid {
    /// Reads an identifier from its forty lowercase hexadecimal digits.
    pub fn parse(text: &str) -> (parsed: Result<Oid, OidError>)
        ensures
            parsed == spec_parse_oid(text@),
    {
        let chars = str_chars(text);
        if chars.len() != 40 {
            return Err(OidError::WrongLength);
        }
        assert(chars@.subrange(0, 32) =~= chars@.take(32));
        assert(chars@.subrange(32, 40) =~= chars@.skip(32));
        let high = read_hex(&chars, 0, 32);
        let low = read_hex(&chars, 32, 40);
        match (high, low) {
            (Some(high), Some(low)) => {
                proof {
                    lemma_hex_number_bound(chars@.skip(32));
                    lemma_pow16_values();
                    assert forall|i: int| 0 <= i < 40 implies digit_value(
                        #[trigger] chars@[i],
                    ) is Some by {
                        if i < 32 {
                            assert(chars@[i] == chars@.take(32)[i]);
                        } else {
                            assert(chars@[i] == chars@.skip(32)[i - 32]);
                        }
                    }
                }
                Ok(Oid { high, low: low as u32 })
            },
            (None, _) => {
                proof {
                    if all_hex(chars@) {
                        assert forall|i: int| 0 <= i < 32 implies digit_value(
                            #[trigger] chars@.take(32)[i],
                        ) is Some by {
                            assert(chars@.take(32)[i] == chars@[i]);
                        }
                    }
                }
                Err(OidError::BadDigit)
            },
            (_, None) => {
                proof {
                    if all_hex(chars@) {
                        assert forall|i: int| 0 <= i < 8 implies digit_value(
                            #[trigger] chars@.skip(32)[i],
                        ) is Some by {
                            assert(chars@.skip(32)[i] == chars@[i + 32]);
                        }
                    }
                }
                Err(OidError::BadDigit)
            },
        }
    }

    /// The forty lowercase hexadecimal digits of the identifier.
    pub fn to_hex(&self) -> (hex: String)
        ensures
            hex@ == spec_oid_hex(*self),
    {
        let mut out: Vec<char> = Vec::new();
        write_hex(&mut out, self.high, 32);
        write_hex(&mut out, self.low as u128, 8);
        chars_string(&out)
    }

    /// Whether the bytes of `self` come before those of `other`.
    pub fn precedes(&self, other: &Oid) -> (before: bool)
        ensures
            before == (self@ < other@),
    {
        self.high < other.high || (self.high == other.high && self.low < other.low)
    }
}

} // verus!
