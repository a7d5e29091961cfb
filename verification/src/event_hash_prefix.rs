//! Unguessable path component binding a download link to its own stream.

use subtle::ConstantTimeEq;
use vstd::prelude::*;
use vstd::utf8::encode_utf8;
use vstd::string::StringSliceAdditionalSpecFns;

use crate::event::EventHash;

verus! {

/// Why a submitted value was refused.
#[derive(Clone, Copy, Debug, PartialEq, Eq)]
pub enum ValidationError {
    InvalidValue,
}

/// The first eight bytes of an event's chain hash, spelled as lowercase hex.
///
/// Downloads and exports are GET links, which every CSRF check exempts, yet
/// they write audit events. Naming one of the stream's own event hashes is
/// what a cross-site navigation cannot do. Unguessable, not secret.
#[derive(Clone, Copy, PartialEq, Eq, Debug)]
pub struct EventHashPrefix([u8; 8]);

impl View for EventHashPrefix {
    type V = Seq<u8>;

    closed spec fn view(&self) -> Seq<u8> {
        self.0@
    }
}

/// The all-zero prefix, which names the genesis placeholder.
pub open spec fn zero_prefix() -> Seq<u8> {
    Seq::new(8, |i: int| 0u8)
}

/// The value of one hex digit, either case.
pub open spec fn hex_value(byte: u8) -> Option<u8> {
    if 48 <= byte <= 57 {
        Some((byte - 48) as u8)
    } else if 97 <= byte <= 102 {
        Some((byte - 97 + 10) as u8)
    } else if 65 <= byte <= 70 {
        Some((byte - 65 + 10) as u8)
    } else {
        None
    }
}

/// The lowercase hex digit for a value below 16.
pub open spec fn hex_char(n: u8) -> char {
    if n < 10 {
        (48 + n) as char
    } else {
        (87 + n) as char
    }
}

/// The uppercase hex digit for a value below 16.
pub open spec fn hex_char_upper(n: u8) -> char {
    if n < 10 {
        (48 + n) as char
    } else {
        (55 + n) as char
    }
}

/// Two lowercase hex digits per byte, high nibble first.
pub open spec fn hex_lower(bytes: Seq<u8>) -> Seq<char> {
    Seq::new(
        2 * bytes.len(),
        |i: int|
            if i % 2 == 0 {
                hex_char(bytes[i / 2] / 16)
            } else {
                hex_char(bytes[i / 2] % 16)
            },
    )
}

/// Two uppercase hex digits per byte, high nibble first.
pub open spec fn hex_upper(bytes: Seq<u8>) -> Seq<char> {
    Seq::new(
        2 * bytes.len(),
        |i: int|
            if i % 2 == 0 {
                hex_char_upper(bytes[i / 2] / 16)
            } else {
                hex_char_upper(bytes[i / 2] % 16)
            },
    )
}

/// What a spelling parses to: exactly sixteen hex digits, either case,
/// giving eight bytes; anything else is refused.
pub open spec fn parse_prefix_bytes(b: Seq<u8>) -> Option<Seq<u8>> {
    if b.len() == 16 && forall|i: int| 0 <= i < 16 ==> (#[trigger] hex_value(b[i])) is Some {
        Some(
            Seq::new(
                8,
                |i: int| (hex_value(b[2 * i]).unwrap() * 16 + hex_value(b[2 * i + 1]).unwrap()) as u8,
            ),
        )
    } else {
        None
    }
}

/// Calls `subtle`'s `ConstantTimeEq::ct_eq` on the prefix and the first
/// eight bytes of the hash. Trusted: the result is whether they are equal.
#[verifier::external_body]
fn ct_eq_prefix(prefix: &[u8; 8], hash: &EventHash) -> (r: bool)
    ensures
        r == (prefix@ == hash@.subrange(0, 8)),
{
    prefix.ct_eq(&hash[..8]).into()
}

/// Calls `String::push`. Trusted: std documents it as appending the char.
#[verifier::external_body]
pub(crate) fn string_push(s: &mut String, c: char)
    ensures
        final(s)@ == old(s)@.push(c),
{
    s.push(c);
}

/// One hex digit's value.
pub fn hex_digit(byte: u8) -> (r: Option<u8>)
    ensures
        r == hex_value(byte),
{
    if 48u8 <= byte && byte <= 57u8 {
        Some(byte - 48u8)
    } else if 97u8 <= byte && byte <= 102u8 {
        Some(byte - 97u8 + 10)
    } else if 65u8 <= byte && byte <= 70u8 {
        Some(byte - 65u8 + 10)
    } else {
        None
    }
}

pub(crate) fn hex_char_of(n: u8) -> (c: char)
    requires
        n < 16,
    ensures
        c == hex_char(n),
{
    if n < 10 {
        (48u8 + n) as char
    } else {
        (97u8 + (n - 10)) as char
    }
}

impl EventHashPrefix {
    /// The prefix naming `hash`.
    pub fn of(hash: &EventHash) -> (r: Self)
        ensures
            r@ == hash@.subrange(0, 8),
    {
        let mut prefix: [u8; 8] = [0u8; 8];
        let mut i: usize = 0;
        while i < 8
            invariant
                i <= 8,
                prefix@.len() == 8,
                forall|j: int| 0 <= j < i ==> prefix@[j] == hash@[j],
            decreases 8 - i,
        {
            prefix[i] = hash[i];
            i = i + 1;
        }
        let r = EventHashPrefix(prefix);
        assert(r@ =~= hash@.subrange(0, 8));
        r
    }

    /// Whether this prefix names `hash`.
    pub fn matches(&self, hash: &EventHash) -> (r: bool)
        ensures
            r == (self@ == hash@.subrange(0, 8)),
    {
        ct_eq_prefix(&self.0, hash)
    }

    /// The all-zero prefix: a placeholder shared by every stream, so guessable.
    pub fn is_genesis(&self) -> (r: bool)
        ensures
            r == (self@ == zero_prefix()),
    {
        let mut i: usize = 0;
        while i < 8
            invariant
                i <= 8,
                self@.len() == 8,
                forall|j: int| 0 <= j < i ==> self@[j] == 0u8,
            decreases 8 - i,
        {
            if self.0[i] != 0 {
                assert(self@ != zero_prefix()) by {
                    assert(self@[i as int] != zero_prefix()[i as int]);
                }
                return false;
            }
            i = i + 1;
        }
        assert(self@ =~= zero_prefix());
        true
    }

    /// The lowercase hex spelling, two digits per byte.
    pub fn to_string(&self) -> (s: String)
        ensures
            s@ == hex_lower(self@),
    {
        let mut s = String::new();
        let mut i: usize = 0;
        while i < 8
            invariant
                i <= 8,
                self@.len() == 8,
                s@ =~= hex_lower(self@.take(i as int)),
            decreases 8 - i,
        {
            let byte = self.0[i];
            string_push(&mut s, hex_char_of(byte / 16));
            string_push(&mut s, hex_char_of(byte % 16));
            assert(s@ =~= hex_lower(self@.take(i + 1)));
            i = i + 1;
        }
        assert(self@.take(8) =~= self@);
        s
    }

    /// Parse exactly the spelling [`EventHashPrefix::to_string`] produces,
    /// case-insensitively: sixteen hex digits as bytes. Any other input is
    /// refused, so no shorter prefix and no signed digit can be smuggled in.
    pub fn parse_bytes(b: &[u8]) -> (r: Result<Self, ValidationError>)
        ensures
            match parse_prefix_bytes(b@) {
                Some(p) => r matches Ok(prefix) && prefix@ == p,
                None => r == Err::<Self, ValidationError>(ValidationError::InvalidValue),
            },
    {
        if b.len() != 16 {
            return Err(ValidationError::InvalidValue);
        }
        let mut prefix: [u8; 8] = [0u8; 8];
        let mut i: usize = 0;
        while i < 8
            invariant
                i <= 8,
                b@.len() == 16,
                prefix@.len() == 8,
                forall|k: int| 0 <= k < 2 * i ==> (#[trigger] hex_value(b@[k])) is Some,
                forall|j: int|
                    0 <= j < i ==> prefix@[j] == (hex_value(b@[2 * j]).unwrap() * 16 + hex_value(
                        b@[2 * j + 1],
                    ).unwrap()) as u8,
            decreases 8 - i,
        {
            let high = hex_digit(b[2 * i]);
            let low = hex_digit(b[2 * i + 1]);
            match (high, low) {
                (Some(h), Some(l)) => {
                    prefix[i] = h * 16 + l;
                },
                _ => {
                    assert(parse_prefix_bytes(b@) is None) by {
                        if hex_value(b@[2 * i as int]) is None {
                            assert(!(hex_value(b@[2 * i as int]) is Some));
                        } else {
                            assert(!(hex_value(b@[2 * i + 1]) is Some));
                        }
                    }
                    return Err(ValidationError::InvalidValue);
                },
            }
            i = i + 1;
        }
        let r = EventHashPrefix(prefix);
        assert(forall|k: int| 0 <= k < 16 ==> (#[trigger] hex_value(b@[k])) is Some);
        assert(r@ =~= parse_prefix_bytes(b@).unwrap());
        Ok(r)
    }

    /// Parse a spelling given as text: its UTF-8 bytes go through
    /// [`EventHashPrefix::parse_bytes`].
    pub fn parse(s: &str) -> (r: Result<Self, ValidationError>)
        ensures
            match parse_prefix_bytes(s.spec_bytes()) {
                Some(p) => r matches Ok(prefix) && prefix@ == p,
                None => r == Err::<Self, ValidationError>(ValidationError::InvalidValue),
            },
    {
        Self::parse_bytes(s.as_bytes())
    }
}

impl core::str::FromStr for EventHashPrefix {
    type Err = ValidationError;

    fn from_str(s: &str) -> (r: Result<Self, ValidationError>)
        ensures
            match parse_prefix_bytes(s.spec_bytes()) {
                Some(p) => r matches Ok(prefix) && prefix@ == p,
                None => r == Err::<Self, ValidationError>(ValidationError::InvalidValue),
            },
    {
        Self::parse(s)
    }
}

/// The lowercase spelling parses back to the prefix it spells.
pub proof fn lemma_parse_lowercase_round_trip(p: Seq<u8>)
    requires
        p.len() == 8,
    ensures
        parse_prefix_bytes(encode_utf8(hex_lower(p))) == Some(p),
{
    lemma_hex_lower_ascii(p);
    let chars = hex_lower(p);
    let b = encode_utf8(chars);
    vstd::utf8::is_ascii_chars_encode_utf8(chars);
    assert forall|k: int| 0 <= k < 16 implies (#[trigger] hex_value(b[k])) is Some
        && hex_value(b[k]).unwrap() == (if k % 2 == 0 { p[k / 2] / 16 } else { p[k / 2] % 16 }) by {
        assert(b[k] == chars[k] as u8);
    }
    assert forall|i: int| 0 <= i < 8 implies (hex_value(b[2 * i]).unwrap() * 16 + hex_value(
        b[2 * i + 1],
    ).unwrap()) as u8 == p[i] by {
        assert(hex_value(b[2 * i]).unwrap() == p[i] / 16);
        assert(hex_value(b[2 * i + 1]).unwrap() == p[i] % 16);
    }
    assert(parse_prefix_bytes(b).unwrap() =~= p);
}

/// The uppercase spelling a hand-typed URL may use parses to the same prefix.
pub proof fn lemma_parse_uppercase_round_trip(p: Seq<u8>)
    requires
        p.len() == 8,
    ensures
        parse_prefix_bytes(encode_utf8(hex_upper(p))) == Some(p),
{
    lemma_hex_upper_ascii(p);
    let chars = hex_upper(p);
    let b = encode_utf8(chars);
    vstd::utf8::is_ascii_chars_encode_utf8(chars);
    assert forall|k: int| 0 <= k < 16 implies (#[trigger] hex_value(b[k])) is Some
        && hex_value(b[k]).unwrap() == (if k % 2 == 0 { p[k / 2] / 16 } else { p[k / 2] % 16 }) by {
        assert(b[k] == chars[k] as u8);
    }
    assert forall|i: int| 0 <= i < 8 implies (hex_value(b[2 * i]).unwrap() * 16 + hex_value(
        b[2 * i + 1],
    ).unwrap()) as u8 == p[i] by {
        assert(hex_value(b[2 * i]).unwrap() == p[i] / 16);
        assert(hex_value(b[2 * i + 1]).unwrap() == p[i] % 16);
    }
    assert(parse_prefix_bytes(b).unwrap() =~= p);
}

/// Only the prefix's own spelling parses to it: a spelling that parses to
/// `p` is, digit by digit, a lowercase or uppercase digit of `hex_lower(p)`.
pub proof fn lemma_parse_only_its_spelling(b: Seq<u8>, p: Seq<u8>)
    requires
        parse_prefix_bytes(b) == Some(p),
    ensures
        b.len() == 16,
        forall|k: int|
            0 <= k < 16 ==> (b[k] as char == #[trigger] hex_lower(p)[k] || b[k] as char
                == hex_upper(p)[k]),
{
    assert forall|k: int| 0 <= k < 16 implies (b[k] as char == #[trigger] hex_lower(p)[k] || b[k]
        as char == hex_upper(p)[k]) by {
        assert(hex_value(b[k]) is Some);
        let i = k / 2;
        assert(hex_value(b[2 * i]) is Some);
        assert(hex_value(b[2 * i + 1]) is Some);
        let h = hex_value(b[2 * i]).unwrap();
        let l = hex_value(b[2 * i + 1]).unwrap();
        assert(h < 16 && l < 16);
        assert(p[i] == (h * 16 + l) as u8);
        assert(p[i] / 16 == h && p[i] % 16 == l);
    }
}

proof fn lemma_hex_lower_ascii(p: Seq<u8>)
    ensures
        vstd::utf8::is_ascii_chars(hex_lower(p)),
{
}

proof fn lemma_hex_upper_ascii(p: Seq<u8>)
    ensures
        vstd::utf8::is_ascii_chars(hex_upper(p)),
{
}

} // verus!
