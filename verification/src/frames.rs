//! The on-disk layout of a stream file and the names of a stream's files.
//!
//! A stream file is a sequence of frames, each
//! `[4 bytes: body length (u32, little-endian)] [body]`. The length prefix
//! lets frames be read one at a time and appended without rewriting.

use vstd::prelude::*;

use crate::bytes::{le_bytes, le_value, lemma_le_bytes_len, lemma_le_value_of_le_bytes, push_u32_le, read_u32_le, u32_le};
use crate::error::AppError;
use crate::event_hash_prefix::string_push;
use crate::event_hash_prefix::{hex_char, hex_lower};
use crate::stream::{uuid_text, StreamId};
use vstd::string::StrSliceExecFns;

verus! {

/// Length of a frame header.
pub const FRAME_HEADER_LEN: usize = 4;

/// The bytes of one frame holding `body`.
pub open spec fn frame_bytes(body: Seq<u8>) -> Seq<u8> {
    le_bytes(body.len(), 4) + body
}

/// The frame bodies of a stream file, in order. A trailing piece too short
/// to hold a header ends the file (a torn header write reads as the end of
/// the stream); a header announcing more bytes than remain makes the file
/// unreadable.
pub open spec fn frames_of(file: Seq<u8>) -> Option<Seq<Seq<u8>>>
    decreases file.len(),
{
    if file.len() < 4 {
        Some(Seq::empty())
    } else {
        let n = le_value(file.subrange(0, 4)) as int;
        if file.len() - 4 < n {
            None
        } else {
            match frames_of(file.skip(4 + n)) {
                Some(rest) => Some(seq![file.subrange(4, 4 + n)] + rest),
                None => None,
            }
        }
    }
}

/// The concatenated frames of `bodies`.
pub open spec fn file_of(bodies: Seq<Seq<u8>>) -> Seq<u8>
    decreases bodies.len(),
{
    if bodies.len() == 0 {
        Seq::empty()
    } else {
        frame_bytes(bodies[0]) + file_of(bodies.drop_first())
    }
}

/// Frame `body` for appending to a stream file.
pub fn frame(body: &[u8]) -> (r: Result<Vec<u8>, AppError>)
    ensures
        match r {
            Ok(f) => body@.len() <= u32::MAX && f@ == frame_bytes(body@),
            Err(e) => body@.len() > u32::MAX && e is ServerError,
        },
{
    if body.len() > 0xffff_ffffusize {
        return Err(AppError::ServerError("frame body exceeds u32::MAX".to_string()));
    }
    let len = body.len() as u32;
    let mut out: Vec<u8> = Vec::new();
    push_u32_le(&mut out, len);
    let ghost head = out@;
    let mut i: usize = 0;
    while i < body.len()
        invariant
            i <= body@.len(),
            out@ == head + body@.take(i as int),
        decreases body@.len() - i,
    {
        out.push(body[i]);
        assert(body@.take(i + 1) =~= body@.take(i as int).push(body@[i as int]));
        i = i + 1;
    }
    assert(body@.take(body@.len() as int) =~= body@);
    Ok(out)
}

/// Split a stream file into its frame bodies.
pub fn split_frames(file: &[u8]) -> (r: Result<Vec<Vec<u8>>, AppError>)
    ensures
        match frames_of(file@) {
            Some(bodies) => r matches Ok(v) && v@.len() == bodies.len() && forall|i: int|
                0 <= i < bodies.len() ==> #[trigger] v@[i]@ == bodies[i],
            None => r matches Err(AppError::ServerError(_)),
        },
{
    let mut out: Vec<Vec<u8>> = Vec::new();
    let mut pos: usize = 0;
    let flen = file.len();
    assert(file@.skip(0) =~= file@);
    assert(frames_of(file@) matches Some(b) ==> out@.map_values(|v: Vec<u8>| v@) + b =~= b);
    while flen - pos >= 4
        invariant
            flen == file@.len(),
            pos <= file@.len(),
            frames_of(file@) == match frames_of(file@.skip(pos as int)) {
                Some(rest) => Some(out@.map_values(|v: Vec<u8>| v@) + rest),
                None => None::<Seq<Seq<u8>>>,
            },
        decreases file@.len() - pos,
    {
        let n = read_u32_le(file, pos) as usize;
        let ghost tail = file@.skip(pos as int);
        assert(tail.subrange(0, 4) =~= file@.subrange(pos as int, pos + 4));
        if file.len() - pos - 4 < n {
            assert(frames_of(tail) is None);
            return Err(AppError::ServerError("truncated frame body".to_string()));
        }
        let mut body: Vec<u8> = Vec::new();
        let mut i: usize = 0;
        while i < n
            invariant
                i <= n,
                flen == file@.len(),
                pos + 4 + n <= file@.len(),
                body@ == file@.subrange(pos + 4, pos + 4 + i),
            decreases n - i,
        {
            body.push(file[pos + 4 + i]);
            assert(file@.subrange(pos + 4, pos + 4 + i + 1) =~= file@.subrange(
                pos + 4,
                pos + 4 + i,
            ).push(file@[pos + 4 + i]));
            i = i + 1;
        }
        assert(tail.subrange(4, 4 + n as int) =~= body@);
        assert(tail.skip(4 + n as int) =~= file@.skip(pos + 4 + n));
        let ghost prev = out@;
        out.push(body);
        assert(out@.map_values(|v: Vec<u8>| v@) =~= prev.map_values(|v: Vec<u8>| v@).push(body@));
        proof {
            let rest = frames_of(file@.skip(pos + 4 + n));
            if rest is Some {
                assert(prev.map_values(|v: Vec<u8>| v@) + (seq![body@] + rest.unwrap()) =~= out@.map_values(
                    |v: Vec<u8>| v@,
                ) + rest.unwrap());
            }
        }
        pos = pos + 4 + n;
    }
    assert(frames_of(file@.skip(pos as int)) == Some(Seq::<Seq<u8>>::empty()));
    assert(out@.map_values(|v: Vec<u8>| v@) + Seq::<Seq<u8>>::empty() =~= out@.map_values(
        |v: Vec<u8>| v@,
    ));
    Ok(out)
}

/// Reading back a file written frame by frame gives the bodies that were
/// written, in order.
pub proof fn lemma_frames_round_trip(bodies: Seq<Seq<u8>>)
    requires
        forall|i: int| 0 <= i < bodies.len() ==> (#[trigger] bodies[i]).len() <= u32::MAX,
    ensures
        frames_of(file_of(bodies)) == Some(bodies),
    decreases bodies.len(),
{
    if bodies.len() == 0 {
        assert(file_of(bodies) =~= Seq::<u8>::empty());
    } else {
        let b = bodies[0];
        let rest = bodies.drop_first();
        assert forall|i: int| 0 <= i < rest.len() implies (#[trigger] rest[i]).len() <= u32::MAX by {
            assert(rest[i] == bodies[i + 1]);
        }
        lemma_frames_round_trip(rest);
        let f = file_of(bodies);
        lemma_le_bytes_len(b.len(), 4);
        assert(vstd::arithmetic::power::pow(256, 4) == 0x1_0000_0000) by {
            reveal_with_fuel(vstd::arithmetic::power::pow, 5);
        }
        lemma_le_value_of_le_bytes(b.len(), 4);
        assert(f.subrange(0, 4) =~= le_bytes(b.len(), 4));
        assert(f.subrange(4, 4 + b.len() as int) =~= b);
        assert(f.skip(4 + b.len() as int) =~= file_of(rest));
        assert(seq![b] + rest =~= bodies);
    }
}

/// The file-name form of an election id: `:` becomes `_` so the name stays
/// portable.
pub open spec fn file_segment(election_id: Seq<char>) -> Seq<char> {
    Seq::new(election_id.len(), |i: int| if election_id[i] == ':' { '_' } else { election_id[i] })
}

/// `{stream_id}_{election segment}.{ext}`.
pub open spec fn stream_file_name(stream_id: StreamId, election_id: Seq<char>, ext: Seq<char>) -> Seq<char> {
    uuid_text(stream_id.0) + seq!['_'] + file_segment(election_id) + seq!['.'] + ext
}

fn push_str(out: &mut String, s: &str)
    ensures
        final(out)@ == old(out)@ + s@,
{
    let n = s.unicode_len();
    let ghost start = out@;
    let mut i: usize = 0;
    while i < n
        invariant
            i <= n,
            n == s@.len(),
            out@ == start + s@.take(i as int),
        decreases n - i,
    {
        string_push(out, s.get_char(i));
        assert(s@.take(i + 1) =~= s@.take(i as int).push(s@[i as int]));
        i = i + 1;
    }
    assert(s@.take(n as int) =~= s@);
}

/// The name of one of a stream's files in the storage directory.
pub fn stream_file(stream_id: StreamId, election_id: &str, ext: &str) -> (name: String)
    ensures
        name@ == stream_file_name(stream_id, election_id@, ext@),
{
    let mut name = stream_id.to_string();
    string_push(&mut name, '_');
    let n = election_id.unicode_len();
    let ghost start = name@;
    let mut i: usize = 0;
    while i < n
        invariant
            i <= n,
            n == election_id@.len(),
            name@ == start + file_segment(election_id@.take(i as int)),
        decreases n - i,
    {
        let c = election_id.get_char(i);
        string_push(&mut name, if c == ':' { '_' } else { c });
        assert(file_segment(election_id@.take(i + 1)) =~= file_segment(election_id@.take(i as int)).push(
            if c == ':' { '_' } else { c },
        ));
        i = i + 1;
    }
    assert(election_id@.take(n as int) =~= election_id@);
    string_push(&mut name, '.');
    push_str(&mut name, ext);
    assert(name@ =~= stream_file_name(stream_id, election_id@, ext@));
    name
}

/// The name of a stream's event file.
pub fn stream_path(stream_id: StreamId, election_id: &str) -> (name: String)
    ensures
        name@ == stream_file_name(stream_id, election_id@, seq!['b', 'i', 'n']),
{
    let ext = "bin";
    proof {
        reveal_strlit("bin");
    }
    stream_file(stream_id, election_id, ext)
}

/// The name of the sidecar file holding a stream's wrapped key.
pub fn key_path(stream_id: StreamId, election_id: &str) -> (name: String)
    ensures
        name@ == stream_file_name(stream_id, election_id@, seq!['k', 'e', 'y']),
{
    let ext = "key";
    proof {
        reveal_strlit("key");
    }
    stream_file(stream_id, election_id, ext)
}

/// What `uuid::Uuid::parse_str` reads from `text`, as a 128-bit value.
pub uninterp spec fn uuid_parse(text: Seq<char>) -> Option<u128>;

/// Calls `uuid::Uuid::parse_str`. Trusted: the result is what `uuid_parse`
/// names for the text; the hyphenated lowercase spelling that `Uuid`
/// displays (`uuid_text`) parses back to the same UUID.
#[verifier::external_body]
fn parse_uuid(text: &str) -> (r: Option<u128>)
    ensures
        r == uuid_parse(text@),
        forall|id: u128| text@ == uuid_text(id) ==> r == Some(id),
{
    match uuid::Uuid::parse_str(text) {
        Ok(u) => Some(u.as_u128()),
        Err(_) => None,
    }
}

/// The position of the first `c` in `s`.
pub open spec fn first_index(s: Seq<char>, c: char) -> Option<int>
    decreases s.len(),
{
    if s.len() == 0 {
        None
    } else if s[0] == c {
        Some(0)
    } else {
        match first_index(s.drop_first(), c) {
            Some(k) => Some(k + 1),
            None => None,
        }
    }
}

/// An election segment with its first `_` turned back into `:`.
pub open spec fn unmangle(segment: Seq<char>) -> Seq<char> {
    match first_index(segment, '_') {
        Some(k) => segment.update(k, ':'),
        None => segment,
    }
}

/// What a stream file name `{uuid}_{election segment}.bin` names: the
/// stream and the election, or nothing for an unrelated file.
pub open spec fn parse_stream_name(name: Seq<char>) -> Option<(u128, Seq<char>)> {
    let n = name.len();
    if n >= 4 && name.subrange(n - 4, n as int) == seq!['.', 'b', 'i', 'n'] {
        let stem = name.subrange(0, n - 4);
        match first_index(stem, '_') {
            Some(k) => match uuid_parse(stem.take(k)) {
                Some(id) => Some((id, unmangle(stem.skip(k + 1)))),
                None => None,
            },
            None => None,
        }
    } else {
        None
    }
}

/// Where the first `c` stands, from a scan that found it at `i` and nothing
/// before.
proof fn lemma_first_index(s: Seq<char>, c: char, i: int)
    requires
        0 <= i <= s.len(),
        forall|j: int| 0 <= j < i ==> s[j] != c,
        i < s.len() ==> s[i] == c,
    ensures
        first_index(s, c) == (if i < s.len() { Some(i) } else { None::<int> }),
    decreases s.len(),
{
    if s.len() > 0 && i > 0 {
        assert(s[0] != c);
        let t = s.drop_first();
        assert forall|j: int| 0 <= j < i - 1 implies t[j] != c by {
            assert(t[j] == s[j + 1]);
        }
        if i < s.len() {
            assert(t[i - 1] == s[i]);
        }
        lemma_first_index(t, c, i - 1);
    }
}

/// A found position lies in the sequence and holds the character.
proof fn lemma_first_index_found(s: Seq<char>, c: char)
    requires
        first_index(s, c) is Some,
    ensures
        0 <= first_index(s, c).unwrap() < s.len(),
        s[first_index(s, c).unwrap()] == c,
    decreases s.len(),
{
    if s[0] != c {
        lemma_first_index_found(s.drop_first(), c);
    }
}

fn find_char(s: &str, c: char) -> (r: Option<usize>)
    ensures
        r matches Some(k) ==> first_index(s@, c) == Some(k as int) && k < s@.len(),
        r is None ==> first_index(s@, c) is None,
{
    let n = s.unicode_len();
    let mut i: usize = 0;
    while i < n
        invariant
            i <= n,
            n == s@.len(),
            forall|j: int| 0 <= j < i ==> s@[j] != c,
        decreases n - i,
    {
        if s.get_char(i) == c {
            proof {
                lemma_first_index(s@, c, i as int);
            }
            return Some(i);
        }
        i = i + 1;
    }
    proof {
        lemma_first_index(s@, c, n as int);
    }
    None
}

/// The characters of `s` from `from` up to `to`.
fn chars_between(s: &str, from: usize, to: usize) -> (r: String)
    requires
        from <= to <= s@.len(),
    ensures
        r@ == s@.subrange(from as int, to as int),
{
    let mut r = String::new();
    let mut i: usize = from;
    while i < to
        invariant
            from <= i <= to,
            to <= s@.len(),
            r@ == s@.subrange(from as int, i as int),
        decreases to - i,
    {
        string_push(&mut r, s.get_char(i));
        assert(s@.subrange(from as int, i + 1) =~= s@.subrange(from as int, i as int).push(s@[i as int]));
        i = i + 1;
    }
    r
}

/// Parse a stream file name `{uuid}_{election segment}.bin` back into the
/// stream and the election's stable id, undoing the `:` to `_` mangling of
/// its first `:`. `None` for unrelated files.
pub fn parse_stream_filename(file_name: &str) -> (r: Option<(StreamId, String)>)
    ensures
        r matches Some((id, e)) ==> parse_stream_name(file_name@) == Some((id.0, e@)),
        r is None ==> parse_stream_name(file_name@) is None,
{
    let n = file_name.unicode_len();
    if n < 4 {
        return None;
    }
    let suffix = chars_between(file_name, n - 4, n);
    let bin = "bin";
    proof {
        reveal_strlit("bin");
    }
    if !(suffix.as_str().get_char(0) == '.' && suffix.as_str().get_char(1) == 'b' && suffix.as_str().get_char(2) == 'i'
        && suffix.as_str().get_char(3) == 'n') {
        proof {
            assert(file_name@.subrange(n - 4, n as int) != seq!['.', 'b', 'i', 'n']) by {
                if file_name@.subrange(n - 4, n as int) == seq!['.', 'b', 'i', 'n'] {
                    assert(suffix@[0] == '.');
                    assert(suffix@[1] == 'b');
                    assert(suffix@[2] == 'i');
                    assert(suffix@[3] == 'n');
                }
            }
        }
        return None;
    }
    assert(suffix@ =~= seq!['.', 'b', 'i', 'n']);
    let stem = chars_between(file_name, 0, n - 4);
    let k = match find_char(stem.as_str(), '_') {
        Some(k) => k,
        None => {
            return None;
        },
    };
    let id_text = chars_between(stem.as_str(), 0, k);
    assert(id_text@ =~= stem@.take(k as int));
    let id = match parse_uuid(id_text.as_str()) {
        Some(id) => id,
        None => {
            return None;
        },
    };
    let segment = chars_between(stem.as_str(), k + 1, stem.as_str().unicode_len());
    assert(segment@ =~= stem@.skip(k + 1));
    let mut election = String::new();
    let m = segment.as_str().unicode_len();
    let mut replaced = false;
    let mut i: usize = 0;
    while i < m
        invariant
            i <= m,
            m == segment@.len(),
            replaced == (exists|j: int| 0 <= j < i && segment@[j] == '_'),
            !replaced ==> election@ == segment@.take(i as int),
            replaced ==> election@ == unmangle(segment@).take(i as int) && first_index(segment@, '_') is Some
                && first_index(segment@, '_').unwrap() < i,
            forall|j: int| 0 <= j < i && !replaced ==> segment@[j] != '_',
        decreases m - i,
    {
        let c = segment.as_str().get_char(i);
        if c == '_' && !replaced {
            proof {
                lemma_first_index(segment@, '_', i as int);
                assert(unmangle(segment@).take(i + 1) =~= segment@.take(i as int).push(':'));
            }
            string_push(&mut election, ':');
            replaced = true;
        } else {
            proof {
                if replaced {
                    let k0 = first_index(segment@, '_').unwrap();
                    lemma_first_index_found(segment@, '_');
                    assert(unmangle(segment@) == segment@.update(k0, ':'));
                    assert(unmangle(segment@)[i as int] == c);
                    assert(unmangle(segment@).take(i + 1) =~= unmangle(segment@).take(i as int).push(c));
                }
            }
            string_push(&mut election, c);
        }
        i = i + 1;
    }
    proof {
        if !replaced {
            lemma_first_index(segment@, '_', m as int);
            assert(election@ =~= unmangle(segment@));
        } else {
            let k0 = first_index(segment@, '_').unwrap();
            lemma_first_index_found(segment@, '_');
            assert(unmangle(segment@) == segment@.update(k0, ':'));
            assert(unmangle(segment@).take(m as int) =~= unmangle(segment@));
            assert(election@ =~= unmangle(segment@));
        }
    }
    Some((StreamId(id), election))
}

/// A stream id's spelling has no `_`: its digits are hexadecimal.
proof fn lemma_uuid_text_has_no_underscore(id: u128)
    ensures
        forall|i: int| 0 <= i < uuid_text(id).len() ==> uuid_text(id)[i] != '_',
{
    crate::bytes::lemma_le_bytes_len(id as nat, 16);
    let h = hex_lower(crate::bytes::u128_be(id));
    assert(h.len() == 32);
    assert forall|k: int| 0 <= k < h.len() implies h[k] != '_' by {
        let b = crate::bytes::u128_be(id)[k / 2];
        let d: u8 = if k % 2 == 0 { b / 16 } else { b % 16 };
        assert(d < 16);
        assert(h[k] == hex_char(d));
    }
    let t = uuid_text(id);
    assert forall|i: int| 0 <= i < t.len() implies t[i] != '_' by {
        if i < 8 {
            assert(t[i] == h[i]);
        } else if i == 8 || i == 13 || i == 18 || i == 23 {
            assert(t[i] == '-');
        } else if i < 13 {
            assert(t[i] == h[i - 1]);
        } else if i < 18 {
            assert(t[i] == h[i - 2]);
        } else if i < 23 {
            assert(t[i] == h[i - 3]);
        } else {
            assert(t[i] == h[i - 4]);
        }
    }
}

/// A stream file's name reads back as the stream and the election it was
/// made for, provided the election id holds no `_` and at most one `:` (a
/// name turns every `:` into `_`, and reading it back turns only the first
/// `_` after the id into `:`) and the `uuid` crate reads its own spelling of
/// the stream id back.
pub proof fn lemma_stream_path_round_trip(id: StreamId, election: Seq<char>)
    requires
        forall|i: int| 0 <= i < election.len() ==> election[i] != '_',
        forall|i: int, j: int| 0 <= i < j < election.len() && election[i] == ':' ==> election[j] != ':',
    ensures
        uuid_parse(uuid_text(id.0)) == Some(id.0) ==> parse_stream_name(
            stream_file_name(id, election, seq!['b', 'i', 'n']),
        ) == Some((id.0, election)),
{
    let u = uuid_text(id.0);
    crate::bytes::lemma_le_bytes_len(id.0 as nat, 16);
    lemma_uuid_text_has_no_underscore(id.0);
    assert(u.len() == 36);
    let f = file_segment(election);
    let name = stream_file_name(id, election, seq!['b', 'i', 'n']);
    let n = name.len();
    assert(name.subrange(n - 4, n as int) =~= seq!['.', 'b', 'i', 'n']);
    let stem = name.subrange(0, n - 4);
    assert(stem =~= u + seq!['_'] + f);
    assert forall|j: int| 0 <= j < 36 implies stem[j] != '_' by {
        assert(stem[j] == u[j]);
    }
    lemma_first_index(stem, '_', 36);
    assert(stem.take(36) =~= u);
    assert(stem.skip(37) =~= f);
    if exists|p: int| 0 <= p < election.len() && election[p] == ':' {
        let p = choose|p: int| 0 <= p < election.len() && election[p] == ':';
        assert forall|j: int| 0 <= j < p implies f[j] != '_' by {
            assert(election[j] != ':');
        }
        lemma_first_index(f, '_', p);
        assert(f.update(p, ':') =~= election) by {
            assert forall|j: int| 0 <= j < election.len() implies f.update(p, ':')[j] == election[j] by {
                if j != p {
                    if j > p {
                        assert(election[j] != ':');
                    }
                }
            }
        }
    } else {
        lemma_first_index(f, '_', f.len() as int);
        assert(f =~= election);
    }
}

} // verus!
