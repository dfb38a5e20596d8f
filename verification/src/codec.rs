//! The wire codec: deterministic little-endian binary encodings for the
//! values that move between the harness, the service and the prover — 64-bit
//! words, length-prefixed blobs and strings, and field-element sequences.
//!
//! Every decoder's contract is an exact characterisation: it returns a value
//! if and only if the buffer is the encoding of that value, so decoding an
//! encoding is the identity and decoding a truncated or malformed buffer
//! fails. Decoders are verified, hence they never panic and never read out
//! of bounds.

use vstd::prelude::*;
use vstd::bytes::lemma_auto_spec_u64_to_from_le_bytes;
use vstd::bytes::spec_u64_from_le_bytes;
use vstd::bytes::spec_u64_to_le_bytes;
use vstd::bytes::u64_from_le_bytes;
use vstd::bytes::u64_to_le_bytes;
use vstd::slice::slice_subrange;
use vstd::slice::slice_to_vec;
use vstd::string::StringSliceAdditionalSpecFns;
use crate::field::is_field_element;
use crate::field::FIELD_MODULUS;

verus! {

/// Why a buffer failed to decode: it ended before the value did, or a field
/// held a value the type does not allow.
#[derive(Debug, Clone, Copy, PartialEq, Eq, Structural)]
pub enum DecodeError {
    Truncated,
    InvalidValue,
}

// ---------------------------------------------------------------------------
// Sequences of 64-bit words, each little-endian, back to back.
// ---------------------------------------------------------------------------

/// The bytes of a sequence of 64-bit words, each little-endian, concatenated.
pub open spec fn spec_encode_words(s: Seq<u64>) -> Seq<u8>
    decreases s.len(),
{
    if s.len() == 0 {
        Seq::<u8>::empty()
    } else {
        spec_u64_to_le_bytes(s[0]) + spec_encode_words(s.skip(1))
    }
}

pub proof fn lemma_words_len(s: Seq<u64>)
    ensures
        spec_encode_words(s).len() == 8 * s.len(),
    decreases s.len(),
{
    lemma_auto_spec_u64_to_from_le_bytes();
    if s.len() > 0 {
        lemma_words_len(s.skip(1));
    }
}

pub proof fn lemma_words_index(s: Seq<u64>, i: int)
    requires
        0 <= i < s.len(),
    ensures
        spec_encode_words(s).subrange(8 * i, 8 * i + 8) == spec_u64_to_le_bytes(s[i]),
    decreases s.len(),
{
    lemma_auto_spec_u64_to_from_le_bytes();
    lemma_words_len(s);
    lemma_words_len(s.skip(1));
    if i == 0 {
        assert(spec_encode_words(s).subrange(0, 8) =~= spec_u64_to_le_bytes(s[0]));
    } else {
        lemma_words_index(s.skip(1), i - 1);
        assert(s.skip(1)[i - 1] == s[i]);
        assert(spec_encode_words(s).subrange(8 * i, 8 * i + 8) =~= spec_encode_words(
            s.skip(1),
        ).subrange(8 * (i - 1), 8 * (i - 1) + 8));
    }
}

/// A byte sequence made of little-endian chunks is the encoding of the words
/// those chunks hold.
pub proof fn lemma_words_from_chunks(b: Seq<u8>, s: Seq<u64>)
    requires
        b.len() == 8 * s.len(),
        forall|i: int|
            0 <= i < s.len() ==> b.subrange(8 * i, 8 * i + 8) == spec_u64_to_le_bytes(s[i]),
    ensures
        b == spec_encode_words(s),
    decreases s.len(),
{
    lemma_auto_spec_u64_to_from_le_bytes();
    if s.len() == 0 {
        assert(b =~= spec_encode_words(s));
    } else {
        let b1 = b.skip(8);
        assert forall|i: int| 0 <= i < s.skip(1).len() implies b1.subrange(8 * i, 8 * i + 8)
            == spec_u64_to_le_bytes(s.skip(1)[i]) by {
            assert(b1.subrange(8 * i, 8 * i + 8) =~= b.subrange(8 * (i + 1), 8 * (i + 1) + 8));
            assert(s.skip(1)[i] == s[i + 1]);
        }
        lemma_words_from_chunks(b1, s.skip(1));
        lemma_words_len(s.skip(1));
        assert(b.subrange(0, 8) == spec_u64_to_le_bytes(s[0]));
        assert(b =~= spec_u64_to_le_bytes(s[0]) + spec_encode_words(s.skip(1)));
    }
}

/// Word sequences of equal length with equal encodings are equal.
pub proof fn lemma_words_injective(s1: Seq<u64>, s2: Seq<u64>)
    requires
        s1.len() == s2.len(),
        spec_encode_words(s1) == spec_encode_words(s2),
    ensures
        s1 == s2,
{
    lemma_auto_spec_u64_to_from_le_bytes();
    assert forall|i: int| 0 <= i < s1.len() implies s1[i] == s2[i] by {
        lemma_words_index(s1, i);
        lemma_words_index(s2, i);
        assert(spec_u64_from_le_bytes(spec_u64_to_le_bytes(s1[i])) == s1[i]);
        assert(spec_u64_from_le_bytes(spec_u64_to_le_bytes(s2[i])) == s2[i]);
    }
    assert(s1 =~= s2);
}

/// Appending one word appends its eight bytes.
pub proof fn lemma_words_snoc(s: Seq<u64>, x: u64)
    ensures
        spec_encode_words(s.push(x)) == spec_encode_words(s) + spec_u64_to_le_bytes(x),
    decreases s.len(),
{
    lemma_auto_spec_u64_to_from_le_bytes();
    if s.len() == 0 {
        assert(s.push(x).skip(1) =~= s);
        assert(spec_encode_words(s.push(x)) =~= spec_u64_to_le_bytes(x));
        assert(spec_encode_words(s) + spec_u64_to_le_bytes(x) =~= spec_u64_to_le_bytes(x));
    } else {
        assert(s.push(x).skip(1) =~= s.skip(1).push(x));
        lemma_words_snoc(s.skip(1), x);
        assert(spec_encode_words(s.push(x)) =~= spec_encode_words(s) + spec_u64_to_le_bytes(x));
    }
}

/// Reads `count` words of eight little-endian bytes each, starting at `pos`.
pub fn read_words(buf: &[u8], pos: usize, count: usize) -> (out: Vec<u64>)
    requires
        pos + 8 * count <= buf@.len(),
    ensures
        out@.len() == count,
        spec_encode_words(out@) == buf@.subrange(pos as int, pos + 8 * count),
{
    let buf_len: usize = buf.len();
    let mut out: Vec<u64> = Vec::new();
    let mut i: usize = 0;
    while i < count
        invariant
            i <= count,
            buf_len == buf@.len(),
            pos + 8 * count <= buf_len,
            out@.len() == i,
            forall|j: int|
                0 <= j < i ==> buf@.subrange(pos + 8 * j, pos + 8 * j + 8) == spec_u64_to_le_bytes(
                    out@[j],
                ),
        decreases count - i,
    {
        let w = u64_from_le_bytes(slice_subrange(buf, pos + 8 * i, pos + 8 * i + 8));
        proof {
            lemma_auto_spec_u64_to_from_le_bytes();
            assert(spec_u64_to_le_bytes(w) == buf@.subrange(pos + 8 * i as int, pos + 8 * i + 8));
        }
        out.push(w);
        i += 1;
    }
    proof {
        let b = buf@.subrange(pos as int, pos + 8 * count);
        assert forall|j: int| 0 <= j < out@.len() implies b.subrange(8 * j, 8 * j + 8)
            == spec_u64_to_le_bytes(out@[j]) by {
            assert(b.subrange(8 * j, 8 * j + 8) =~= buf@.subrange(pos + 8 * j, pos + 8 * j + 8));
        }
        lemma_words_from_chunks(b, out@);
    }
    out
}

/// Appends the words to the buffer, each as eight little-endian bytes.
pub fn write_words(out: &mut Vec<u8>, words: &[u64])
    ensures
        final(out)@ == old(out)@ + spec_encode_words(words@),
{
    let ghost orig: Seq<u8> = out@;
    let mut i: usize = 0;
    while i < words.len()
        invariant
            i <= words@.len(),
            out@ == orig + spec_encode_words(words@.take(i as int)),
        decreases words@.len() - i,
    {
        let mut bs = u64_to_le_bytes(words[i]);
        out.append(&mut bs);
        proof {
            lemma_words_snoc(words@.take(i as int), words@[i as int]);
            assert(words@.take(i + 1) =~= words@.take(i as int).push(words@[i as int]));
        }
        i += 1;
    }
    proof {
        assert(words@.take(words@.len() as int) =~= words@);
    }
}

// ---------------------------------------------------------------------------
// Length-prefixed blobs and strings: an eight-byte little-endian length,
// then the raw bytes.
// ---------------------------------------------------------------------------

/// A length-prefixed blob: eight little-endian length bytes, then the bytes.
pub open spec fn spec_frame(b: Seq<u8>) -> Seq<u8> {
    spec_u64_to_le_bytes(b.len() as u64) + b
}

/// What reading one length-prefixed blob at `pos` yields: the blob and the
/// position just past it, or nothing if the buffer ends too early.
pub open spec fn spec_blob_at(b: Seq<u8>, pos: int) -> Option<(Seq<u8>, int)> {
    if pos + 8 > b.len() {
        None
    } else {
        let n = spec_u64_from_le_bytes(b.subrange(pos, pos + 8)) as int;
        if pos + 8 + n > b.len() {
            None
        } else {
            Some((b.subrange(pos + 8, pos + 8 + n), pos + 8 + n))
        }
    }
}

/// Appends a 64-bit value as eight little-endian bytes.
pub fn write_u64(out: &mut Vec<u8>, n: u64)
    ensures
        final(out)@ == old(out)@ + spec_u64_to_le_bytes(n),
{
    let mut bs = u64_to_le_bytes(n);
    out.append(&mut bs);
}

/// Appends a byte array as a length-prefixed blob.
pub fn write_byte_array(out: &mut Vec<u8>, arr: &[u8])
    ensures
        final(out)@ == old(out)@ + spec_frame(arr@),
{
    write_u64(out, arr.len() as u64);
    let mut bs = slice_to_vec(arr);
    out.append(&mut bs);
    proof {
        assert(out@ =~= old(out)@ + spec_frame(arr@));
    }
}

/// Appends a string's bytes as a length-prefixed blob.
pub fn write_string(out: &mut Vec<u8>, s: &str)
    ensures
        final(out)@ == old(out)@ + spec_frame(s.spec_bytes()),
{
    write_byte_array(out, s.as_bytes());
}

/// Reads one length-prefixed blob starting at `pos`; returns the blob and the
/// position just past it. Fails exactly when the buffer ends before the blob
/// does.
pub fn read_blob(buf: &[u8], pos: usize) -> (r: Result<(Vec<u8>, usize), DecodeError>)
    requires
        pos <= buf@.len(),
    ensures
        match r {
            Ok(v) => {
                &&& spec_blob_at(buf@, pos as int) == Some((v.0@, v.1 as int))
                &&& pos + 8 <= v.1 <= buf@.len()
                &&& buf@.subrange(pos as int, v.1 as int) == spec_frame(v.0@)
            },
            Err(e) => {
                &&& spec_blob_at(buf@, pos as int) is None
                &&& e == DecodeError::Truncated
            },
        },
{
    let buf_len: usize = buf.len();
    if buf_len - pos < 8 {
        return Err(DecodeError::Truncated);
    }
    let n = u64_from_le_bytes(slice_subrange(buf, pos, pos + 8));
    if n > (buf_len - pos - 8) as u64 {
        return Err(DecodeError::Truncated);
    }
    let nn = n as usize;
    let v = slice_to_vec(slice_subrange(buf, pos + 8, pos + 8 + nn));
    proof {
        lemma_auto_spec_u64_to_from_le_bytes();
        assert(buf@.subrange(pos as int, pos + 8 as int) == spec_u64_to_le_bytes(n));
        assert(buf@.subrange(pos as int, pos + 8 + nn as int) =~= spec_frame(v@));
    }
    Ok((v, pos + 8 + nn))
}

// ---------------------------------------------------------------------------
// Field-element sequences: an eight-byte little-endian count, then each
// element as eight little-endian bytes.
// ---------------------------------------------------------------------------

/// A sequence the format can carry: its length fits the eight-byte count
/// field and every element is a canonical field element.
pub open spec fn valid_felts(s: Seq<u64>) -> bool {
    &&& s.len() <= u64::MAX
    &&& forall|i: int| 0 <= i < s.len() ==> is_field_element(s[i])
}

/// The encoding of a field-element sequence.
pub open spec fn spec_encode_felts(s: Seq<u64>) -> Seq<u8> {
    spec_u64_to_le_bytes(s.len() as u64) + spec_encode_words(s)
}

pub proof fn lemma_felts_len(s: Seq<u64>)
    ensures
        spec_encode_felts(s).len() == 8 + 8 * s.len(),
{
    lemma_auto_spec_u64_to_from_le_bytes();
    lemma_words_len(s);
}

/// Encodes a field-element sequence.
pub fn encode_felts(v: &[u64]) -> (r: Vec<u8>)
    ensures
        r@ == spec_encode_felts(v@),
{
    let mut out: Vec<u8> = Vec::new();
    write_u64(&mut out, v.len() as u64);
    write_words(&mut out, v);
    out
}

/// Decodes a field-element sequence, consuming the whole buffer. Succeeds
/// exactly on the encodings: decoding an encoded sequence returns that
/// sequence, and any other buffer — truncated, padded, or holding a
/// non-canonical element — is rejected.
pub fn decode_felts(buf: &[u8]) -> (r: Result<Vec<u64>, DecodeError>)
    ensures
        match r {
            Ok(v) => valid_felts(v@) && buf@ == spec_encode_felts(v@),
            Err(_) => forall|s: Seq<u64>| valid_felts(s) ==> buf@ != spec_encode_felts(s),
        },
{
    let buf_len: usize = buf.len();
    if buf_len < 8 {
        proof {
            assert forall|s: Seq<u64>| valid_felts(s) implies buf@ != spec_encode_felts(s) by {
                lemma_felts_len(s);
            }
        }
        return Err(DecodeError::Truncated);
    }
    let n = u64_from_le_bytes(slice_subrange(buf, 0, 8));
    let rem = buf_len - 8;
    if rem % 8 != 0 || (rem / 8) as u64 != n {
        proof {
            lemma_auto_spec_u64_to_from_le_bytes();
            assert forall|s: Seq<u64>| valid_felts(s) implies buf@ != spec_encode_felts(s) by {
                lemma_felts_len(s);
                if buf@ == spec_encode_felts(s) {
                    assert(buf@.subrange(0, 8) =~= spec_u64_to_le_bytes(s.len() as u64));
                    assert(n == s.len() as u64);
                    assert(rem == 8 * s.len());
                    assert(false);
                }
            }
        }
        return Err(DecodeError::Truncated);
    }
    let count = rem / 8;
    let v = read_words(buf, 8, count);
    proof {
        lemma_auto_spec_u64_to_from_le_bytes();
        assert(buf@.subrange(0, 8) == spec_u64_to_le_bytes(n));
    }
    let mut i: usize = 0;
    while i < count
        invariant
            i <= count,
            buf_len == buf@.len(),
            buf_len == 8 + 8 * count,
            n == count as u64,
            v@.len() == count,
            spec_encode_words(v@) == buf@.subrange(8, buf_len as int),
            buf@.subrange(0, 8) == spec_u64_to_le_bytes(n),
            forall|j: int| 0 <= j < i ==> is_field_element(v@[j]),
        decreases count - i,
    {
        if v[i] >= FIELD_MODULUS {
            proof {
                lemma_auto_spec_u64_to_from_le_bytes();
                assert forall|s: Seq<u64>| valid_felts(s) implies buf@ != spec_encode_felts(s) by {
                    lemma_felts_len(s);
                    lemma_words_len(s);
                    if buf@ == spec_encode_felts(s) {
                        assert(buf@.subrange(0, 8) =~= spec_u64_to_le_bytes(s.len() as u64));
                        assert(n == s.len() as u64);
                        assert(s.len() == count);
                        assert(spec_encode_words(s) =~= buf@.subrange(8, buf_len as int));
                        lemma_words_injective(s, v@);
                        assert(!is_field_element(s[i as int]));
                        assert(false);
                    }
                }
            }
            return Err(DecodeError::InvalidValue);
        }
        i += 1;
    }
    proof {
        assert(buf@ =~= spec_encode_felts(v@));
    }
    Ok(v)
}

/// An encoding that starts another encoding is that whole encoding: the first
/// eight bytes pin the length, so no encoding is a proper prefix of another.
pub proof fn lemma_felts_prefix(s1: Seq<u64>, s2: Seq<u64>)
    requires
        s1.len() <= u64::MAX,
        s2.len() <= u64::MAX,
        spec_encode_felts(s1).len() <= spec_encode_felts(s2).len(),
        spec_encode_felts(s2).subrange(0, spec_encode_felts(s1).len() as int) == spec_encode_felts(
            s1,
        ),
    ensures
        s1 == s2,
        spec_encode_felts(s1) == spec_encode_felts(s2),
{
    lemma_auto_spec_u64_to_from_le_bytes();
    lemma_felts_len(s1);
    lemma_felts_len(s2);
    let e1 = spec_encode_felts(s1);
    let e2 = spec_encode_felts(s2);
    assert(e1.subrange(0, 8) =~= spec_u64_to_le_bytes(s1.len() as u64));
    assert(e2.subrange(0, 8) =~= spec_u64_to_le_bytes(s2.len() as u64));
    assert(e2.subrange(0, e1.len() as int).subrange(0, 8) =~= e2.subrange(0, 8));
    assert(s1.len() as u64 == s2.len() as u64);
    assert(s1.len() == s2.len());
    assert(e2.subrange(0, e1.len() as int) =~= e2);
    lemma_words_len(s1);
    lemma_words_len(s2);
    assert(spec_encode_words(s1) =~= e1.subrange(8, e1.len() as int));
    assert(spec_encode_words(s2) =~= e2.subrange(8, e2.len() as int));
    lemma_words_injective(s1, s2);
}

/// Law: the field-element-sequence encoding is injective. Together with
/// `decode_felts`'s contract, encode-then-decode is the identity.
pub proof fn lemma_felts_encoding_injective(s1: Seq<u64>, s2: Seq<u64>)
    requires
        valid_felts(s1),
        valid_felts(s2),
        spec_encode_felts(s1) == spec_encode_felts(s2),
    ensures
        s1 == s2,
{
    lemma_felts_len(s1);
    lemma_felts_len(s2);
    assert(spec_encode_felts(s2).subrange(0, spec_encode_felts(s1).len() as int)
        =~= spec_encode_felts(s1));
    lemma_felts_prefix(s1, s2);
}

/// Law: no proper prefix of a field-element-sequence encoding is itself such
/// an encoding. Together with `decode_felts`'s contract, decoding any
/// truncated prefix of a valid encoding fails.
pub proof fn lemma_felts_truncation(s1: Seq<u64>, k: int, s2: Seq<u64>)
    requires
        valid_felts(s1),
        valid_felts(s2),
        0 <= k < spec_encode_felts(s1).len(),
    ensures
        spec_encode_felts(s1).subrange(0, k) != spec_encode_felts(s2),
{
    lemma_felts_len(s1);
    lemma_felts_len(s2);
    if spec_encode_felts(s1).subrange(0, k) == spec_encode_felts(s2) {
        assert(spec_encode_felts(s1).subrange(0, spec_encode_felts(s2).len() as int)
            =~= spec_encode_felts(s2));
        lemma_felts_prefix(s2, s1);
        assert(false);
    }
}

} // verus!
