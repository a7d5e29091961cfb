//! Identifiers of persisted event streams.

use vstd::prelude::*;

use crate::bytes::{push_u128_be, u128_be, lemma_le_bytes_len};
use crate::event_hash_prefix::{hex_char_of, hex_lower, string_push};

verus! {

/// Identifier for a persisted event stream: the UUID as a 128-bit value.
#[derive(Clone, Copy, PartialEq, Eq, Debug, Hash, Structural)]
pub struct StreamId(pub u128);

/// Who a stream belongs to, which decides the backends that may hold it.
#[derive(Clone, Copy, PartialEq, Eq, Debug, Hash, Structural)]
pub enum Scope {
    PoliticalGroup,
    CentralElectoralCommittee,
    ImportedByCsb,
}

/// The hyphenated lowercase spelling of a UUID (`8-4-4-4-12` hex digits of
/// its big-endian bytes), as the `uuid` crate displays it.
pub open spec fn uuid_text(id: u128) -> Seq<char> {
    let h = hex_lower(u128_be(id));
    h.subrange(0, 8) + seq!['-'] + h.subrange(8, 12) + seq!['-'] + h.subrange(12, 16) + seq!['-']
        + h.subrange(16, 20) + seq!['-'] + h.subrange(20, 32)
}

fn push_range(out: &mut String, h: &Vec<char>, from: usize, to: usize)
    requires
        from <= to <= h@.len(),
    ensures
        final(out)@ == old(out)@ + h@.subrange(from as int, to as int),
{
    let ghost start = out@;
    let mut i: usize = from;
    while i < to
        invariant
            from <= i <= to,
            to <= h@.len(),
            out@ == start + h@.subrange(from as int, i as int),
        decreases to - i,
    {
        string_push(out, h[i]);
        assert(h@.subrange(from as int, i + 1) =~= h@.subrange(from as int, i as int).push(h@[i as int]));
        i = i + 1;
    }
}

impl StreamId {
    /// The 16 big-endian bytes of the UUID.
    pub fn as_bytes(&self) -> (b: Vec<u8>)
        ensures
            b@ == u128_be(self.0),
    {
        let mut b: Vec<u8> = Vec::new();
        push_u128_be(&mut b, self.0);
        assert(b@ =~= u128_be(self.0));
        b
    }

    /// The hyphenated lowercase spelling of the UUID.
    pub fn to_string(&self) -> (s: String)
        ensures
            s@ == uuid_text(self.0),
    {
        let bytes = self.as_bytes();
        proof {
            lemma_le_bytes_len(self.0 as nat, 16);
        }
        let mut h: Vec<char> = Vec::new();
        let mut i: usize = 0;
        while i < 16
            invariant
                i <= 16,
                bytes@.len() == 16,
                h@ =~= hex_lower(bytes@.take(i as int)),
            decreases 16 - i,
        {
            let byte = bytes[i];
            h.push(hex_char_of(byte / 16));
            h.push(hex_char_of(byte % 16));
            assert(h@ =~= hex_lower(bytes@.take(i + 1)));
            i = i + 1;
        }
        assert(bytes@.take(16) =~= bytes@);
        let mut s = String::new();
        push_range(&mut s, &h, 0, 8);
        string_push(&mut s, '-');
        push_range(&mut s, &h, 8, 12);
        string_push(&mut s, '-');
        push_range(&mut s, &h, 12, 16);
        string_push(&mut s, '-');
        push_range(&mut s, &h, 16, 20);
        string_push(&mut s, '-');
        push_range(&mut s, &h, 20, 32);
        assert(s@ =~= uuid_text(self.0));
        s
    }
}

} // verus!
