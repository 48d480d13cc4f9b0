//! DNS message layout: the fixed header, the transaction ID and the question name.

use vstd::prelude::*;

verus! {

/// Length in bytes of the transaction ID that opens every DNS message.
pub const ID_LEN: usize = 2;

/// Length in bytes of the fixed DNS header.
pub const HEADER_LEN: usize = 12;

/// The cache key of a query, as a sequence: every byte after the transaction ID.
pub open spec fn key_of(query: Seq<u8>) -> Seq<u8> {
    query.skip(2)
}

/// The wire reply, as a sequence: the requester's transaction ID, then the payload.
pub open spec fn spliced(query: Seq<u8>, payload: Seq<u8>) -> Seq<u8> {
    query.take(2) + payload
}

/// Copies the bytes of `bytes` from `from` onward into a fresh vector.
pub fn tail_from(bytes: &[u8], from: usize) -> (out: Vec<u8>)
    requires
        from <= bytes@.len(),
    ensures
        out@ == bytes@.skip(from as int),
{
    let mut out: Vec<u8> = Vec::new();
    let mut i: usize = from;
    while i < bytes.len()
        invariant
            from <= i <= bytes@.len(),
            out@ == bytes@.subrange(from as int, i as int),
        decreases bytes@.len() - i,
    {
        out.push(bytes[i]);
        i += 1;
        assert(out@ =~= bytes@.subrange(from as int, i as int));
    }
    assert(out@ =~= bytes@.skip(from as int));
    out
}

/// The cache key of `query`: the query without its transaction ID.
pub fn key_for(query: &[u8]) -> (key: Vec<u8>)
    requires
        query@.len() >= 2,
    ensures
        key@ == key_of(query@),
{
    tail_from(query, 2)
}

/// Builds the reply for the requester: the first two bytes of `original_query`
/// followed by `cached_payload`.
pub fn splice_reply(original_query: &[u8], cached_payload: &[u8]) -> (reply: Vec<u8>)
    requires
        original_query@.len() >= 2,
    ensures
        reply@ == spliced(original_query@, cached_payload@),
        reply@.len() == 2 + cached_payload@.len(),
        reply@[0] == original_query@[0],
        reply@[1] == original_query@[1],
        reply@.skip(2) == cached_payload@,
{
    let mut reply: Vec<u8> = Vec::new();
    reply.push(original_query[0]);
    reply.push(original_query[1]);
    let mut i: usize = 0;
    while i < cached_payload.len()
        invariant
            i <= cached_payload@.len(),
            original_query@.len() >= 2,
            reply@ == original_query@.take(2) + cached_payload@.take(i as int),
        decreases cached_payload@.len() - i,
    {
        reply.push(cached_payload[i]);
        i += 1;
        assert(reply@ =~= original_query@.take(2) + cached_payload@.take(i as int));
    }
    assert(cached_payload@.take(i as int) =~= cached_payload@);
    assert(reply@.skip(2) =~= cached_payload@);
    reply
}

/// The most octets an encoded name may take, its terminating zero included.
pub const MAX_NAME_LEN: usize = 255;

/// Why a question name could not be decoded.
#[derive(Clone, Copy, Debug, PartialEq, Eq, Structural)]
pub enum DecodeError {
    /// The bytes end before the terminating zero-length label, or inside a label.
    Truncated,
    /// A label holds a byte outside the printable ASCII range `0x20..=0x7e`.
    IllegalByte,
    /// No terminating zero-length label within the first `MAX_NAME_LEN` octets.
    TooLong,
}

/// Whether `b` may stand inside a label: printable ASCII, `0x20..=0x7e`, the space included.
pub open spec fn is_label_byte(b: u8) -> bool {
    0x20 <= b <= 0x7e
}

/// The characters of a label: each byte taken as the character with that code.
pub open spec fn label_chars(label: Seq<u8>) -> Seq<char> {
    label.map_values(|b: u8| b as char)
}

/// Whether every byte of `label` may stand inside a label.
pub open spec fn label_is_legal(label: Seq<u8>) -> bool {
    forall|i: int| 0 <= i < label.len() ==> is_label_byte(#[trigger] label[i])
}

/// Puts `prefix` in front of a decoded remainder; an error stays as it is.
pub open spec fn prepend(prefix: Seq<char>, rest: Result<Seq<char>, DecodeError>) -> Result<
    Seq<char>,
    DecodeError,
> {
    match rest {
        Ok(s) => Ok(prefix + s),
        Err(e) => Err(e),
    }
}

/// The name encoded in `bytes` from the length byte at `pos` onward: each label
/// followed by a dot, up to the zero-length label. The first fault met from the
/// left decides the error; inside one label an overrun comes before an illegal byte.
pub open spec fn decoded_from(bytes: Seq<u8>, pos: int) -> Result<Seq<char>, DecodeError>
    decreases bytes.len() - pos,
{
    if pos < 0 || pos >= MAX_NAME_LEN {
        Err(DecodeError::TooLong)
    } else if pos >= bytes.len() {
        Err(DecodeError::Truncated)
    } else if bytes[pos] == 0 {
        Ok(Seq::empty())
    } else {
        let end = pos + 1 + bytes[pos];
        if end > bytes.len() {
            Err(DecodeError::Truncated)
        } else if !label_is_legal(bytes.subrange(pos + 1, end)) {
            Err(DecodeError::IllegalByte)
        } else {
            prepend(
                label_chars(bytes.subrange(pos + 1, end)).push('.'),
                decoded_from(bytes, end),
            )
        }
    }
}

/// The name that a question section encodes, or the reason it encodes none.
pub open spec fn decoded_name(question: Seq<u8>) -> Result<Seq<char>, DecodeError> {
    decoded_from(question, 0)
}

/// `String::push` appends one character to the end of the string.
pub assume_specification[ String::push ](s: &mut String, ch: char)
    ensures
        final(s)@ == old(s)@.push(ch),
;

/// Decodes the dot-joined query name from `question`, which starts at the first
/// length byte of the question section.
pub fn decode_name(question: &[u8]) -> (name: Result<String, DecodeError>)
    ensures
        match name {
            Ok(s) => decoded_name(question@) == Ok::<Seq<char>, DecodeError>(s@),
            Err(e) => decoded_name(question@) == Err::<Seq<char>, DecodeError>(e),
        },
{
    let mut name = String::new();
    let mut pos: usize = 0;
    loop
        invariant
            pos <= question@.len(),
            decoded_name(question@) == prepend(name@, decoded_from(question@, pos as int)),
        decreases question@.len() - pos,
    {
        if pos >= MAX_NAME_LEN {
            return Err(DecodeError::TooLong);
        }
        if pos >= question.len() {
            return Err(DecodeError::Truncated);
        }
        let len: usize = question[pos] as usize;
        if len == 0 {
            assert(name@ + Seq::<char>::empty() =~= name@);
            return Ok(name);
        }
        if len > question.len() - pos - 1 {
            return Err(DecodeError::Truncated);
        }
        let start: usize = pos + 1;
        let end: usize = start + len;
        let ghost before = name@;
        let ghost label = question@.subrange(start as int, end as int);
        let mut k: usize = start;
        while k < end
            invariant
                start <= k <= end <= question@.len(),
                pos < MAX_NAME_LEN,
                start == pos + 1,
                end == start + question@[pos as int],
                question@[pos as int] != 0,
                decoded_name(question@) == prepend(before, decoded_from(question@, pos as int)),
                label == question@.subrange(start as int, end as int),
                forall|i: int| 0 <= i < k - start ==> is_label_byte(#[trigger] label[i]),
                name@ == before + label_chars(label.take(k - start)),
            decreases end - k,
        {
            let b: u8 = question[k];
            if b < 0x20 || b > 0x7e {
                assert(!is_label_byte(label[k - start]));
                return Err(DecodeError::IllegalByte);
            }
            name.push(b as char);
            k += 1;
            assert(name@ =~= before + label_chars(label.take(k - start)));
        }
        assert(label.take(k - start) =~= label);
        name.push('.');
        assert(name@ =~= before + label_chars(label).push('.'));
        proof {
            let rest = decoded_from(question@, end as int);
            match rest {
                Ok(s) => {
                    assert(before + (label_chars(label).push('.') + s) =~= name@ + s);
                },
                Err(_) => {},
            }
        }
        pos = end;
    }
}

} // verus!
