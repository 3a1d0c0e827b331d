//! Standard base64 (RFC 4648 alphabet, `=` padding) used for identity tokens.

use vstd::prelude::*;

use crate::text::push_char;
use vstd::string::StringSliceAdditionalSpecFns;

verus! {

broadcast use vstd::string::group_string_axioms;

/// Why a base64 string was rejected.
#[derive(Debug, Clone, Copy, PartialEq, Eq)]
pub enum Base64Error {
    /// The input length is not a multiple of four.
    InvalidLength,
    /// A byte outside the alphabet (other than `=`) was found.
    InvalidCharacter,
}

/// The alphabet byte for a six-bit value.
pub open spec fn alphabet_byte(v: u32) -> u8 {
    if v < 26 {
        (65 + v) as u8
    } else if v < 52 {
        (97 + (v - 26)) as u8
    } else if v < 62 {
        (48 + (v - 52)) as u8
    } else if v == 62 {
        43u8
    } else {
        47u8
    }
}

/// The six-bit value of an alphabet byte, if it is one.
pub open spec fn alphabet_value(b: u8) -> Option<u32> {
    if 65 <= b <= 90 {
        Some((b - 65) as u32)
    } else if 97 <= b <= 122 {
        Some((b - 97 + 26) as u32)
    } else if 48 <= b <= 57 {
        Some((b - 48 + 52) as u32)
    } else if b == 43 {
        Some(62u32)
    } else if b == 47 {
        Some(63u32)
    } else {
        None
    }
}

/// The 24-bit group of a chunk of one to three bytes (missing bytes count as 0).
pub open spec fn chunk_triple(chunk: Seq<u8>) -> u32 {
    let b0 = chunk[0] as u32;
    let b1 = if chunk.len() > 1 { chunk[1] as u32 } else { 0u32 };
    let b2 = if chunk.len() > 2 { chunk[2] as u32 } else { 0u32 };
    (b0 << 16u32) | (b1 << 8u32) | b2
}

/// The four output bytes of a chunk of one to three input bytes.
pub open spec fn encode_chunk(chunk: Seq<u8>) -> Seq<u8> {
    let t = chunk_triple(chunk);
    seq![
        alphabet_byte((t >> 18u32) & 0x3Fu32),
        alphabet_byte((t >> 12u32) & 0x3Fu32),
        if chunk.len() > 1 { alphabet_byte((t >> 6u32) & 0x3Fu32) } else { 61u8 },
        if chunk.len() > 2 { alphabet_byte(t & 0x3Fu32) } else { 61u8 },
    ]
}

/// Base64 encoding of `data`, as bytes.
pub open spec fn encode_bytes(data: Seq<u8>) -> Seq<u8>
    decreases data.len(),
{
    if data.len() == 0 {
        Seq::empty()
    } else if data.len() <= 3 {
        encode_chunk(data)
    } else {
        encode_chunk(data.take(3)) + encode_bytes(data.skip(3))
    }
}

/// Base64 encoding of `data`, as characters.
pub open spec fn encode_chars(data: Seq<u8>) -> Seq<char> {
    encode_bytes(data).map_values(|b: u8| b as char)
}

/// The bytes of a chunk that are not `=`, in order.
pub open spec fn strip_pad(s: Seq<u8>) -> Seq<u8>
    decreases s.len(),
{
    if s.len() == 0 {
        Seq::empty()
    } else if s.last() == 61u8 {
        strip_pad(s.drop_last())
    } else {
        strip_pad(s.drop_last()).push(s.last())
    }
}

/// The number of `=` bytes of a chunk.
pub open spec fn count_pad(s: Seq<u8>) -> nat
    decreases s.len(),
{
    if s.len() == 0 {
        0
    } else if s.last() == 61u8 {
        count_pad(s.drop_last()) + 1
    } else {
        count_pad(s.drop_last())
    }
}

/// Every byte that is not `=` is an alphabet byte.
pub open spec fn all_in_alphabet(s: Seq<u8>) -> bool {
    forall|i: int| 0 <= i < s.len() ==> alphabet_value(#[trigger] s[i]) is Some
}

/// The six-bit value of the `i`-th non-pad byte, or 0 when there is none.
pub open spec fn value_at(vals: Seq<u8>, i: int) -> u32 {
    if i < vals.len() {
        alphabet_value(vals[i])->0
    } else {
        0u32
    }
}

/// The bytes that a four-byte chunk decodes to.
pub open spec fn decode_chunk(chunk: Seq<u8>) -> Result<Seq<u8>, Base64Error> {
    let vals = strip_pad(chunk);
    let pad = count_pad(chunk);
    if !all_in_alphabet(vals) {
        Err(Base64Error::InvalidCharacter)
    } else {
        let t = (value_at(vals, 0) << 18u32) | (value_at(vals, 1) << 12u32) | (value_at(vals, 2)
            << 6u32) | value_at(vals, 3);
        let first = seq![((t >> 16u32) & 0xFFu32) as u8];
        let second = if pad < 2 { first.push(((t >> 8u32) & 0xFFu32) as u8) } else { first };
        Ok(if pad < 1 { second.push((t & 0xFFu32) as u8) } else { second })
    }
}

/// Base64 decoding of `input`, chunk by chunk, failing at the first bad chunk.
pub open spec fn decode_bytes(input: Seq<u8>) -> Result<Seq<u8>, Base64Error>
    decreases input.len(),
{
    if input.len() == 0 {
        Ok(Seq::empty())
    } else if input.len() < 4 {
        Err(Base64Error::InvalidLength)
    } else {
        match decode_chunk(input.take(4)) {
            Err(e) => Err(e),
            Ok(out) => match decode_bytes(input.skip(4)) {
                Err(e) => Err(e),
                Ok(rest) => Ok(out + rest),
            },
        }
    }
}

fn alphabet_char(v: u32) -> (c: char)
    requires
        v < 64,
    ensures
        c == alphabet_byte(v) as char,
        alphabet_byte(v) < 128,
{
    let b: u8 = if v < 26 {
        (65 + v) as u8
    } else if v < 52 {
        (97 + (v - 26)) as u8
    } else if v < 62 {
        (48 + (v - 52)) as u8
    } else if v == 62 {
        43u8
    } else {
        47u8
    };
    b as char
}

proof fn lemma_masked(t: u32)
    ensures
        (t >> 18u32) & 0x3Fu32 < 64,
        (t >> 12u32) & 0x3Fu32 < 64,
        (t >> 6u32) & 0x3Fu32 < 64,
        t & 0x3Fu32 < 64,
{
    assert((t >> 18u32) & 0x3Fu32 < 64) by (bit_vector);
    assert((t >> 12u32) & 0x3Fu32 < 64) by (bit_vector);
    assert((t >> 6u32) & 0x3Fu32 < 64) by (bit_vector);
    assert(t & 0x3Fu32 < 64) by (bit_vector);
}

/// Encode `data` as base64 with `=` padding.
pub fn base64_encode(data: &[u8]) -> (r: String)
    ensures
        r@ == encode_chars(data@),
        r@.len() == encode_bytes(data@).len(),
{
    let mut out = String::new();
    let n = data.len();
    let mut i: usize = 0;
    proof {
        assert(data@.skip(0) =~= data@);
    }
    while i < n
        invariant
            n == data@.len(),
            i <= n,
            out@ + encode_chars(data@.skip(i as int)) == encode_chars(data@),
        decreases n - i,
    {
        let rest = n - i;
        let len: usize = if rest >= 3 { 3 } else { rest };
        let b0 = data[i] as u32;
        let b1: u32 = if len > 1 { data[i + 1] as u32 } else { 0 };
        let b2: u32 = if len > 2 { data[i + 2] as u32 } else { 0 };
        let triple: u32 = (b0 << 16u32) | (b1 << 8u32) | b2;
        let ghost chunk = data@.subrange(i as int, i + len);
        let ghost tail = data@.skip(i as int);
        proof {
            lemma_masked(triple);
            assert(chunk_triple(chunk) == triple);
        }
        let ghost before = out@;
        let c0 = alphabet_char((triple >> 18u32) & 0x3F);
        let c1 = alphabet_char((triple >> 12u32) & 0x3F);
        push_char(&mut out, c0);
        push_char(&mut out, c1);
        if len > 1 {
            let c2 = alphabet_char((triple >> 6u32) & 0x3F);
            push_char(&mut out, c2);
        } else {
            push_char(&mut out, '=');
        }
        if len > 2 {
            let c3 = alphabet_char(triple & 0x3F);
            push_char(&mut out, c3);
        } else {
            push_char(&mut out, '=');
        }
        proof {
            let ec = encode_chunk(chunk).map_values(|b: u8| b as char);
            assert(out@ =~= before + ec);
            assert(data@.skip(i + len) =~= tail.skip(len as int));
            if rest <= 3 {
                assert(tail =~= chunk);
                assert(data@.skip(i + len) =~= Seq::<u8>::empty());
                assert(encode_bytes(tail) == encode_chunk(chunk));
            } else {
                assert(tail.take(3) =~= chunk);
                assert(encode_bytes(tail) == encode_chunk(chunk) + encode_bytes(tail.skip(3)));
                assert(encode_chars(tail) =~= ec + encode_chars(tail.skip(3)));
            }
            assert(encode_bytes(data@.skip(i + len)).map_values(|b: u8| b as char) == encode_chars(
                data@.skip(i + len),
            ));
        }
        i = i + len;
    }
    proof {
        assert(data@.skip(n as int) =~= Seq::<u8>::empty());
        assert(encode_chars(Seq::<u8>::empty()) =~= Seq::<char>::empty());
        assert(out@ =~= encode_chars(data@));
    }
    out
}

fn alphabet_lookup(b: u8) -> (r: Option<u32>)
    ensures
        r == alphabet_value(b),
{
    if 65 <= b && b <= 90 {
        Some((b - 65) as u32)
    } else if 97 <= b && b <= 122 {
        Some((b - 97 + 26) as u32)
    } else if 48 <= b && b <= 57 {
        Some((b - 48 + 52) as u32)
    } else if b == 43 {
        Some(62)
    } else if b == 47 {
        Some(63)
    } else {
        None
    }
}

/// Decode one four-byte chunk `input[at..at + 4]`, appending to `out`.
fn decode_chunk_into(input: &[u8], at: usize, out: &mut Vec<u8>) -> (r: Result<(), Base64Error>)
    requires
        at + 4 <= input.len(),
    ensures
        decode_chunk(input@.subrange(at as int, at + 4)) matches Ok(bytes) ==> r is Ok
            && final(out)@ == old(out)@ + bytes,
        decode_chunk(input@.subrange(at as int, at + 4)) matches Err(e) ==> r == Err::<(), _>(e),
{
    let ghost chunk = input@.subrange(at as int, at + 4);
    let mut vals: Vec<u32> = Vec::new();
    let ghost mut raw_vals: Seq<u8> = Seq::empty();
    let mut pad: usize = 0;
    let mut j: usize = 0;
    while j < 4
        invariant
            at + 4 <= input.len(),
            chunk == input@.subrange(at as int, at + 4),
            j <= 4,
            raw_vals == strip_pad(chunk.subrange(0, j as int)),
            pad == count_pad(chunk.subrange(0, j as int)),
            all_in_alphabet(raw_vals),
            vals@.len() == raw_vals.len(),
            forall|k: int| 0 <= k < vals@.len() ==> vals@[k] == alphabet_value(raw_vals[k])->0,
            pad <= j,
        decreases 4 - j,
    {
        let b = input[at + j];
        proof {
            assert(chunk.subrange(0, j + 1).drop_last() =~= chunk.subrange(0, j as int));
            assert(chunk.subrange(0, j + 1).last() == b);
        }
        if b == 61 {
            pad += 1;
        } else {
            match alphabet_lookup(b) {
                Some(v) => {
                    vals.push(v);
                    proof {
                        raw_vals = raw_vals.push(b);
                    }
                },
                None => {
                    proof {
                        let s = strip_pad(chunk.subrange(0, j + 1));
                        assert(s == raw_vals.push(b));
                        assert(s[s.len() - 1] == b);
                        lemma_strip_pad_prefix(chunk, j as int + 1);
                        assert(!all_in_alphabet(strip_pad(chunk)));
                    }
                    return Err(Base64Error::InvalidCharacter);
                },
            }
        }
        j += 1;
    }
    proof {
        assert(chunk.subrange(0, 4) =~= chunk);
    }
    let v0: u32 = if vals.len() > 0 { vals[0] } else { 0 };
    let v1: u32 = if vals.len() > 1 { vals[1] } else { 0 };
    let v2: u32 = if vals.len() > 2 { vals[2] } else { 0 };
    let v3: u32 = if vals.len() > 3 { vals[3] } else { 0 };
    let triple: u32 = (v0 << 18u32) | (v1 << 12u32) | (v2 << 6u32) | v3;
    let ghost before = out@;
    out.push(((triple >> 16u32) & 0xFF) as u8);
    if pad < 2 {
        out.push(((triple >> 8u32) & 0xFF) as u8);
    }
    if pad < 1 {
        out.push((triple & 0xFF) as u8);
    }
    proof {
        let t = (value_at(raw_vals, 0) << 18u32) | (value_at(raw_vals, 1) << 12u32) | (value_at(
            raw_vals,
            2,
        ) << 6u32) | value_at(raw_vals, 3);
        assert(t == triple);
        let expected = decode_chunk(chunk)->Ok_0;
        assert(out@ =~= before + expected);
    }
    Ok(())
}

/// Any non-alphabet byte among the first `j` bytes makes the whole chunk fail.
proof fn lemma_strip_pad_prefix(chunk: Seq<u8>, j: int)
    requires
        0 <= j <= chunk.len(),
        !all_in_alphabet(strip_pad(chunk.subrange(0, j))),
    ensures
        !all_in_alphabet(strip_pad(chunk)),
    decreases chunk.len() - j,
{
    if j < chunk.len() {
        let s = chunk.subrange(0, j + 1);
        assert(s.drop_last() =~= chunk.subrange(0, j));
        let bad = choose|i: int|
            0 <= i < strip_pad(chunk.subrange(0, j)).len() && alphabet_value(
                #[trigger] strip_pad(chunk.subrange(0, j))[i],
            ) is None;
        if s.last() != 61u8 {
            assert(strip_pad(s)[bad] == strip_pad(chunk.subrange(0, j))[bad]);
        }
        assert(alphabet_value(strip_pad(s)[bad]) is None);
        lemma_strip_pad_prefix(chunk, j + 1);
    } else {
        assert(chunk.subrange(0, j) =~= chunk);
    }
}

/// Decode a base64 string (`=` padding, standard alphabet).
pub fn base64_decode(input: &str) -> (r: Result<Vec<u8>, Base64Error>)
    ensures
        decode_bytes(input.spec_bytes()) matches Ok(bytes) ==> r matches Ok(v) && v@ == bytes,
        decode_bytes(input.spec_bytes()) matches Err(e) ==> r == Err::<Vec<u8>, _>(e),
{
    let bytes = input.as_bytes();
    let n = bytes.len();
    let mut out: Vec<u8> = Vec::new();
    let mut i: usize = 0;
    proof {
        assert(bytes@.skip(0) =~= bytes@);
    }
    while i < n
        invariant
            n == bytes@.len(),
            bytes@ == input.spec_bytes(),
            i <= n,
            decode_bytes(bytes@) == match decode_bytes(bytes@.skip(i as int)) {
                Ok(rest) => Ok(out@ + rest),
                Err(e) => Err(e),
            },
        decreases n - i,
    {
        let ghost tail = bytes@.skip(i as int);
        if n - i < 4 {
            assert(decode_bytes(tail) == Err::<Seq<u8>, _>(Base64Error::InvalidLength));
            return Err(Base64Error::InvalidLength);
        }
        let ghost before = out@;
        proof {
            assert(tail.take(4) =~= bytes@.subrange(i as int, i + 4));
            assert(tail.skip(4) =~= bytes@.skip(i + 4));
        }
        let step = decode_chunk_into(bytes, i, &mut out);
        match step {
            Err(e) => {
                return Err(e);
            },
            Ok(()) => {
                proof {
                    let chunk_out = decode_chunk(tail.take(4))->Ok_0;
                    match decode_bytes(bytes@.skip(i + 4)) {
                        Ok(rest) => {
                            assert(before + (chunk_out + rest) =~= out@ + rest);
                        },
                        Err(e) => {},
                    }
                }
            },
        }
        i += 4;
    }
    proof {
        assert(bytes@.skip(n as int) =~= Seq::<u8>::empty());
        assert(out@ + Seq::<u8>::empty() =~= out@);
    }
    Ok(out)
}


proof fn lemma_triple_bits(b0: u32, b1: u32, b2: u32) by (bit_vector)
    requires
        b0 < 256,
        b1 < 256,
        b2 < 256,
    ensures
        ((((((b0 << 16u32) | (b1 << 8u32) | b2) >> 18u32) & 0x3Fu32) << 18u32) | (((((b0
            << 16u32) | (b1 << 8u32) | b2) >> 12u32) & 0x3Fu32) << 12u32) | (((((b0 << 16u32) | (b1
            << 8u32) | b2) >> 6u32) & 0x3Fu32) << 6u32) | (((b0 << 16u32) | (b1 << 8u32) | b2)
            & 0x3Fu32)) == ((b0 << 16u32) | (b1 << 8u32) | b2),
        (((b0 << 16u32) | (b1 << 8u32) | b2) >> 16u32) & 0xFFu32 == b0,
        (((b0 << 16u32) | (b1 << 8u32) | b2) >> 8u32) & 0xFFu32 == b1,
        ((b0 << 16u32) | (b1 << 8u32) | b2) & 0xFFu32 == b2,
        b2 == 0 ==> ((b0 << 16u32) | (b1 << 8u32) | b2) & 0x3Fu32 == 0,
        b1 == 0 && b2 == 0 ==> (((b0 << 16u32) | (b1 << 8u32) | b2) >> 6u32) & 0x3Fu32 == 0,
{
}

proof fn lemma_alphabet_roundtrip(v: u32)
    requires
        v < 64,
    ensures
        alphabet_value(alphabet_byte(v)) == Some(v),
        alphabet_byte(v) != 61u8,
        alphabet_byte(v) < 128,
{
}

/// Decoding the encoding of one chunk of one to three bytes gives the chunk back.
proof fn lemma_chunk_roundtrip(chunk: Seq<u8>)
    requires
        1 <= chunk.len() <= 3,
    ensures
        decode_chunk(encode_chunk(chunk)) == Ok::<Seq<u8>, Base64Error>(chunk),
{
    let b0 = chunk[0] as u32;
    let b1 = if chunk.len() > 1 { chunk[1] as u32 } else { 0u32 };
    let b2 = if chunk.len() > 2 { chunk[2] as u32 } else { 0u32 };
    let t = chunk_triple(chunk);
    lemma_triple_bits(b0, b1, b2);
    lemma_masked(t);
    let c0 = (t >> 18u32) & 0x3Fu32;
    let c1 = (t >> 12u32) & 0x3Fu32;
    let c2 = (t >> 6u32) & 0x3Fu32;
    let c3 = t & 0x3Fu32;
    lemma_alphabet_roundtrip(c0);
    lemma_alphabet_roundtrip(c1);
    lemma_alphabet_roundtrip(c2);
    lemma_alphabet_roundtrip(c3);
    let enc = encode_chunk(chunk);
    reveal_with_fuel(strip_pad, 5);
    reveal_with_fuel(count_pad, 5);
    assert(enc.drop_last().drop_last().drop_last().drop_last() =~= Seq::<u8>::empty());
    assert(enc.drop_last().drop_last().drop_last() =~= seq![enc[0]]);
    assert(enc.drop_last().drop_last() =~= seq![enc[0], enc[1]]);
    assert(enc.drop_last() =~= seq![enc[0], enc[1], enc[2]]);
    let vals = strip_pad(enc);
    if chunk.len() == 1 {
        assert(vals =~= seq![alphabet_byte(c0), alphabet_byte(c1)]);
        assert(count_pad(enc) == 2);
    } else if chunk.len() == 2 {
        assert(vals =~= seq![alphabet_byte(c0), alphabet_byte(c1), alphabet_byte(c2)]);
        assert(count_pad(enc) == 1);
    } else {
        assert(vals =~= seq![alphabet_byte(c0), alphabet_byte(c1), alphabet_byte(c2), alphabet_byte(c3)]);
        assert(count_pad(enc) == 0);
    }
    assert(all_in_alphabet(vals));
    assert(decode_chunk(enc)->Ok_0 =~= chunk);
}

/// The encoding is four bytes per started three-byte chunk.
proof fn lemma_encode_len(data: Seq<u8>)
    ensures
        encode_bytes(data).len() % 4 == 0,
        data.len() > 0 ==> encode_bytes(data).len() >= 4,
    decreases data.len(),
{
    if data.len() > 3 {
        lemma_encode_len(data.skip(3));
    }
}

/// One decoding step: a good first chunk followed by a good rest.
proof fn lemma_decode_step(e: Seq<u8>, out: Seq<u8>, rest: Seq<u8>)
    requires
        e.len() >= 4,
        decode_chunk(e.take(4)) == Ok::<Seq<u8>, Base64Error>(out),
        decode_bytes(e.skip(4)) == Ok::<Seq<u8>, Base64Error>(rest),
    ensures
        decode_bytes(e) == Ok::<Seq<u8>, Base64Error>(out + rest),
{
}

/// One encoding step for more than three bytes.
proof fn lemma_encode_step(data: Seq<u8>)
    requires
        data.len() > 3,
    ensures
        encode_bytes(data) == encode_chunk(data.take(3)) + encode_bytes(data.skip(3)),
        encode_chunk(data.take(3)).len() == 4,
{
}

/// Decoding an encoding gives back the original bytes: for every byte string
/// `d`, `decode(encode(d)) == d`.
pub proof fn law_base64_roundtrip(data: Seq<u8>)
    ensures
        decode_bytes(encode_bytes(data)) == Ok::<Seq<u8>, Base64Error>(data),
    decreases data.len(),
{
    if data.len() == 0 {
        assert(encode_bytes(data) == Seq::<u8>::empty());
        assert(data =~= Seq::<u8>::empty());
    } else if data.len() <= 3 {
        lemma_chunk_roundtrip(data);
        let e = encode_chunk(data);
        assert(encode_bytes(data) == e);
        assert(e.take(4) =~= e);
        assert(e.skip(4) =~= Seq::<u8>::empty());
        assert(decode_bytes(Seq::<u8>::empty()) == Ok::<Seq<u8>, Base64Error>(Seq::empty()));
        lemma_decode_step(e, data, Seq::empty());
        assert(data + Seq::<u8>::empty() =~= data);
        assert(decode_bytes(encode_bytes(data)) == Ok::<Seq<u8>, Base64Error>(data));
    } else {
        let head = data.take(3);
        let rest = data.skip(3);
        lemma_chunk_roundtrip(head);
        law_base64_roundtrip(rest);
        lemma_encode_step(data);
        let e = encode_chunk(head) + encode_bytes(rest);
        assert(e.take(4) =~= encode_chunk(head));
        assert(e.skip(4) =~= encode_bytes(rest));
        lemma_decode_step(e, head, rest);
        assert(head + rest =~= data);
        assert(decode_bytes(encode_bytes(data)) == Ok::<Seq<u8>, Base64Error>(data));
    }
}

/// Every byte of an encoding is ASCII.
proof fn lemma_encode_ascii(data: Seq<u8>)
    ensures
        forall|i: int| 0 <= i < encode_bytes(data).len() ==> #[trigger] encode_bytes(data)[i] < 128,
    decreases data.len(),
{
    if data.len() > 0 {
        let t = if data.len() <= 3 { chunk_triple(data) } else { chunk_triple(data.take(3)) };
        lemma_masked(t);
        lemma_alphabet_roundtrip((t >> 18u32) & 0x3Fu32);
        lemma_alphabet_roundtrip((t >> 12u32) & 0x3Fu32);
        lemma_alphabet_roundtrip((t >> 6u32) & 0x3Fu32);
        lemma_alphabet_roundtrip(t & 0x3Fu32);
        if data.len() > 3 {
            lemma_encode_ascii(data.skip(3));
            let e = encode_bytes(data);
            assert forall|i: int| 0 <= i < e.len() implies #[trigger] e[i] < 128 by {
                if i >= 4 {
                    assert(e[i] == encode_bytes(data.skip(3))[i - 4]);
                }
            }
        }
    }
}

/// The UTF-8 bytes of an encoded string are exactly the encoding bytes: the
/// string that `base64_encode` returns decodes back to its input.
pub proof fn law_encoded_string_bytes(data: Seq<u8>, s: &str)
    requires
        s@ == encode_chars(data),
    ensures
        s.spec_bytes() == encode_bytes(data),
        decode_bytes(s.spec_bytes()) == Ok::<Seq<u8>, Base64Error>(data),
{
    lemma_encode_ascii(data);
    let e = encode_bytes(data);
    assert(vstd::utf8::is_ascii_chars(s@)) by {
        assert forall|i: int| 0 <= i < s@.len() implies '\0' <= #[trigger] s@[i] <= '\u{7f}' by {
            assert(s@[i] == e[i] as char);
            assert(e[i] < 128);
        }
    }
    vstd::utf8::is_ascii_chars_encode_utf8(s@);
    assert(s.spec_bytes() =~= e) by {
        assert forall|i: int| 0 <= i < e.len() implies s.spec_bytes()[i] == e[i] by {
            assert(s@[i] as u8 == s.spec_bytes()[i]);
            assert(s@[i] == e[i] as char);
        }
    }
    law_base64_roundtrip(data);
}

} // verus!
