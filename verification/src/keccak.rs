//! The permutation-hash circuit's witness: one 25-word, 1600-bit permutation
//! state per hash instance, its wire encoding, and its deterministic
//! derivation from a raw input blob.

use vstd::prelude::*;
use vstd::bytes::lemma_auto_spec_u64_to_from_le_bytes;
use vstd::bytes::spec_u64_from_le_bytes;
use vstd::bytes::spec_u64_to_le_bytes;
use vstd::bytes::u64_from_le_bytes;
use vstd::slice::slice_subrange;
use crate::codec::lemma_words_index;
use crate::codec::lemma_words_injective;
use crate::codec::lemma_words_len;
use crate::codec::read_words;
use crate::codec::spec_encode_words;
use crate::codec::write_u64;
use crate::codec::write_words;
use crate::codec::DecodeError;

verus! {

/// The number of hash instances one benchmark witness carries.
pub const NUM_HASHES: usize = 8;

/// A sequence the format can carry: its length fits the eight-byte count
/// field and every state holds exactly 25 words.
pub open spec fn valid_states(xs: Seq<Seq<u64>>) -> bool {
    &&& xs.len() <= u64::MAX
    &&& forall|i: int| 0 <= i < xs.len() ==> (#[trigger] xs[i]).len() == 25
}

/// The witness the permutation-hash prover consumes.
pub struct MyWitness {
    pub inputs: Vec<Vec<u64>>,
}

/// The states of a witness, as plain sequences.
pub open spec fn states_view(w: MyWitness) -> Seq<Seq<u64>> {
    w.inputs@.map_values(|v: Vec<u64>| v@)
}

impl MyWitness {
    pub open spec fn wf(&self) -> bool {
        valid_states(states_view(*self))
    }
}

/// The bytes of the states, back to back, each state as 25 little-endian
/// words.
pub open spec fn spec_encode_states_body(xs: Seq<Seq<u64>>) -> Seq<u8>
    decreases xs.len(),
{
    if xs.len() == 0 {
        Seq::<u8>::empty()
    } else {
        spec_encode_words(xs[0]) + spec_encode_states_body(xs.skip(1))
    }
}

/// The encoding of a state sequence: an eight-byte little-endian count, then
/// the states.
pub open spec fn spec_encode_states(xs: Seq<Seq<u64>>) -> Seq<u8> {
    spec_u64_to_le_bytes(xs.len() as u64) + spec_encode_states_body(xs)
}

/// The encoding of a hash witness.
pub open spec fn spec_encode_keccak_witness(w: MyWitness) -> Seq<u8> {
    spec_encode_states(states_view(w))
}

pub proof fn lemma_states_body_len(xs: Seq<Seq<u64>>)
    requires
        forall|i: int| 0 <= i < xs.len() ==> (#[trigger] xs[i]).len() == 25,
    ensures
        spec_encode_states_body(xs).len() == 200 * xs.len(),
    decreases xs.len(),
{
    if xs.len() > 0 {
        lemma_words_len(xs[0]);
        assert forall|i: int| 0 <= i < xs.skip(1).len() implies (#[trigger] xs.skip(1)[i]).len()
            == 25 by {
            assert(xs.skip(1)[i] == xs[i + 1]);
        }
        lemma_states_body_len(xs.skip(1));
    }
}

pub proof fn lemma_states_len(xs: Seq<Seq<u64>>)
    requires
        forall|i: int| 0 <= i < xs.len() ==> (#[trigger] xs[i]).len() == 25,
    ensures
        spec_encode_states(xs).len() == 8 + 200 * xs.len(),
{
    lemma_auto_spec_u64_to_from_le_bytes();
    lemma_states_body_len(xs);
}

/// Appending one state appends its 200 bytes.
pub proof fn lemma_states_body_snoc(xs: Seq<Seq<u64>>, x: Seq<u64>)
    ensures
        spec_encode_states_body(xs.push(x)) == spec_encode_states_body(xs) + spec_encode_words(x),
    decreases xs.len(),
{
    if xs.len() == 0 {
        assert(xs.push(x).skip(1) =~= xs);
        assert(xs.push(x)[0] == x);
        assert(spec_encode_states_body(xs) == Seq::<u8>::empty());
        assert(spec_encode_states_body(xs.push(x)) =~= spec_encode_words(x));
        assert(spec_encode_states_body(xs) + spec_encode_words(x) =~= spec_encode_words(x));
    } else {
        assert(xs.push(x).skip(1) =~= xs.skip(1).push(x));
        lemma_states_body_snoc(xs.skip(1), x);
        assert(spec_encode_states_body(xs.push(x)) =~= spec_encode_states_body(xs)
            + spec_encode_words(x));
    }
}

/// A byte sequence made of 200-byte state chunks is the encoding of the
/// states those chunks hold.
pub proof fn lemma_states_body_from_chunks(b: Seq<u8>, xs: Seq<Seq<u64>>)
    requires
        b.len() == 200 * xs.len(),
        forall|i: int| 0 <= i < xs.len() ==> (#[trigger] xs[i]).len() == 25,
        forall|i: int|
            0 <= i < xs.len() ==> b.subrange(200 * i, 200 * i + 200) == spec_encode_words(
                #[trigger] xs[i],
            ),
    ensures
        b == spec_encode_states_body(xs),
    decreases xs.len(),
{
    if xs.len() == 0 {
        assert(b =~= spec_encode_states_body(xs));
    } else {
        let b1 = b.skip(200);
        assert forall|i: int| 0 <= i < xs.skip(1).len() implies (#[trigger] xs.skip(1)[i]).len()
            == 25 && b1.subrange(200 * i, 200 * i + 200) == spec_encode_words(xs.skip(1)[i]) by {
            assert(xs.skip(1)[i] == xs[i + 1]);
            assert(b1.subrange(200 * i, 200 * i + 200) =~= b.subrange(
                200 * (i + 1),
                200 * (i + 1) + 200,
            ));
        }
        lemma_states_body_from_chunks(b1, xs.skip(1));
        lemma_states_body_len(xs.skip(1));
        lemma_words_len(xs[0]);
        assert(b.subrange(0, 200) == spec_encode_words(xs[0]));
        assert(b =~= spec_encode_words(xs[0]) + spec_encode_states_body(xs.skip(1)));
    }
}

/// State sequences of equal length with equal encodings are equal.
pub proof fn lemma_states_body_injective(xs1: Seq<Seq<u64>>, xs2: Seq<Seq<u64>>)
    requires
        xs1.len() == xs2.len(),
        forall|i: int| 0 <= i < xs1.len() ==> (#[trigger] xs1[i]).len() == 25,
        forall|i: int| 0 <= i < xs2.len() ==> (#[trigger] xs2[i]).len() == 25,
        spec_encode_states_body(xs1) == spec_encode_states_body(xs2),
    ensures
        xs1 == xs2,
    decreases xs1.len(),
{
    if xs1.len() > 0 {
        lemma_states_body_len(xs1);
        lemma_words_len(xs1[0]);
        lemma_words_len(xs2[0]);
        lemma_states_body_len(xs1.skip(1));
        assert(spec_encode_words(xs1[0]) =~= spec_encode_states_body(xs1).subrange(0, 200));
        assert(spec_encode_words(xs2[0]) =~= spec_encode_states_body(xs2).subrange(0, 200));
        lemma_words_injective(xs1[0], xs2[0]);
        assert(spec_encode_states_body(xs1.skip(1)) =~= spec_encode_states_body(xs1).skip(200));
        assert(spec_encode_states_body(xs2.skip(1)) =~= spec_encode_states_body(xs2).skip(200));
        assert forall|i: int| 0 <= i < xs1.skip(1).len() implies (#[trigger] xs1.skip(1)[i]).len()
            == 25 by {
            assert(xs1.skip(1)[i] == xs1[i + 1]);
        }
        assert forall|i: int| 0 <= i < xs2.skip(1).len() implies (#[trigger] xs2.skip(1)[i]).len()
            == 25 by {
            assert(xs2.skip(1)[i] == xs2[i + 1]);
        }
        lemma_states_body_injective(xs1.skip(1), xs2.skip(1));
        assert forall|i: int| 0 <= i < xs1.len() implies xs1[i] == xs2[i] by {
            if i > 0 {
                assert(xs1.skip(1)[i - 1] == xs2.skip(1)[i - 1]);
            }
        }
        assert(xs1 =~= xs2);
    } else {
        assert(xs1 =~= xs2);
    }
}

/// Encodes a hash witness.
pub fn encode_witness(w: &MyWitness) -> (r: Vec<u8>)
    requires
        w.wf(),
    ensures
        r@ == spec_encode_keccak_witness(*w),
{
    let mut out: Vec<u8> = Vec::new();
    write_u64(&mut out, w.inputs.len() as u64);
    let ghost header: Seq<u8> = out@;
    let mut i: usize = 0;
    while i < w.inputs.len()
        invariant
            i <= w.inputs@.len(),
            w.wf(),
            header == spec_u64_to_le_bytes(w.inputs@.len() as u64),
            out@ == header + spec_encode_states_body(states_view(*w).take(i as int)),
        decreases w.inputs@.len() - i,
    {
        write_words(&mut out, w.inputs[i].as_slice());
        proof {
            lemma_states_body_snoc(states_view(*w).take(i as int), states_view(*w)[i as int]);
            assert(states_view(*w).take(i + 1) =~= states_view(*w).take(i as int).push(
                states_view(*w)[i as int],
            ));
        }
        i += 1;
    }
    proof {
        assert(states_view(*w).take(w.inputs@.len() as int) =~= states_view(*w));
    }
    out
}

/// Decodes a hash witness, consuming the whole buffer. Succeeds exactly on
/// the encodings of well-formed witnesses.
pub fn decode_witness(buf: &[u8]) -> (r: Result<MyWitness, DecodeError>)
    ensures
        match r {
            Ok(w) => w.wf() && buf@ == spec_encode_keccak_witness(w),
            Err(_) => forall|xs: Seq<Seq<u64>>| valid_states(xs) ==> buf@ != spec_encode_states(
                xs,
            ),
        },
{
    let buf_len: usize = buf.len();
    if buf_len < 8 {
        proof {
            assert forall|xs: Seq<Seq<u64>>| valid_states(xs) implies buf@
                != spec_encode_states(xs) by {
                lemma_states_len(xs);
            }
        }
        return Err(DecodeError::Truncated);
    }
    let n = u64_from_le_bytes(slice_subrange(buf, 0, 8));
    let rem = buf_len - 8;
    if rem % 200 != 0 || (rem / 200) as u64 != n {
        proof {
            lemma_auto_spec_u64_to_from_le_bytes();
            assert forall|xs: Seq<Seq<u64>>| valid_states(xs) implies buf@
                != spec_encode_states(xs) by {
                lemma_states_len(xs);
                if buf@ == spec_encode_states(xs) {
                    assert(buf@.subrange(0, 8) =~= spec_u64_to_le_bytes(xs.len() as u64));
                    assert(n == xs.len() as u64);
                    assert(rem == 200 * xs.len());
                    assert(false);
                }
            }
        }
        return Err(DecodeError::Truncated);
    }
    let count = rem / 200;
    let mut inputs: Vec<Vec<u64>> = Vec::new();
    let mut i: usize = 0;
    while i < count
        invariant
            i <= count,
            buf_len == buf@.len(),
            buf_len == 8 + 200 * count,
            inputs@.len() == i,
            forall|j: int|
                0 <= j < i ==> (#[trigger] inputs@[j])@.len() == 25 && buf@.subrange(
                    8 + 200 * j,
                    8 + 200 * j + 200,
                ) == spec_encode_words(inputs@[j]@),
        decreases count - i,
    {
        let st = read_words(buf, 8 + 200 * i, 25);
        inputs.push(st);
        i += 1;
    }
    let w = MyWitness { inputs };
    proof {
        lemma_auto_spec_u64_to_from_le_bytes();
        let xs = states_view(w);
        assert(xs.len() == count);
        assert forall|j: int| 0 <= j < count implies (#[trigger] xs[j]).len() == 25 && buf@.skip(
            8,
        ).subrange(200 * j, 200 * j + 200) == spec_encode_words(xs[j]) by {
            assert(xs[j] == w.inputs@[j]@);
            assert(buf@.skip(8).subrange(200 * j, 200 * j + 200) =~= buf@.subrange(
                8 + 200 * j,
                8 + 200 * j + 200,
            ));
        }
        lemma_states_body_from_chunks(buf@.skip(8), xs);
        assert(buf@.subrange(0, 8) == spec_u64_to_le_bytes(n));
        assert(buf@ =~= spec_encode_states(xs));
    }
    Ok(w)
}

/// An encoding that starts another encoding is that whole encoding: the
/// count field pins the byte length, so no state-sequence encoding is a
/// proper prefix of another.
pub proof fn lemma_states_prefix(xs1: Seq<Seq<u64>>, xs2: Seq<Seq<u64>>)
    requires
        valid_states(xs1),
        valid_states(xs2),
        spec_encode_states(xs1).len() <= spec_encode_states(xs2).len(),
        spec_encode_states(xs2).subrange(0, spec_encode_states(xs1).len() as int)
            == spec_encode_states(xs1),
    ensures
        xs1 == xs2,
        spec_encode_states(xs1) == spec_encode_states(xs2),
{
    lemma_auto_spec_u64_to_from_le_bytes();
    lemma_states_len(xs1);
    lemma_states_len(xs2);
    let e1 = spec_encode_states(xs1);
    let e2 = spec_encode_states(xs2);
    assert(e1.subrange(0, 8) =~= spec_u64_to_le_bytes(xs1.len() as u64));
    assert(e2.subrange(0, 8) =~= spec_u64_to_le_bytes(xs2.len() as u64));
    assert(e2.subrange(0, e1.len() as int).subrange(0, 8) =~= e2.subrange(0, 8));
    assert(xs1.len() as u64 == xs2.len() as u64);
    assert(xs1.len() == xs2.len());
    assert(e2.subrange(0, e1.len() as int) =~= e2);
    lemma_states_body_len(xs1);
    lemma_states_body_len(xs2);
    assert(spec_encode_states_body(xs1) =~= e1.subrange(8, e1.len() as int));
    assert(spec_encode_states_body(xs2) =~= e2.subrange(8, e2.len() as int));
    lemma_states_body_injective(xs1, xs2);
}

/// Law: the state-sequence encoding is injective. Together with
/// `decode_witness`'s contract, encode-then-decode is the identity.
pub proof fn lemma_states_encoding_injective(xs1: Seq<Seq<u64>>, xs2: Seq<Seq<u64>>)
    requires
        valid_states(xs1),
        valid_states(xs2),
        spec_encode_states(xs1) == spec_encode_states(xs2),
    ensures
        xs1 == xs2,
{
    assert(spec_encode_states(xs2).subrange(0, spec_encode_states(xs1).len() as int)
        =~= spec_encode_states(xs1));
    lemma_states_prefix(xs1, xs2);
}

/// Law: no proper prefix of a state-sequence encoding is itself such an
/// encoding. Together with `decode_witness`'s contract, decoding any
/// truncated prefix of a valid encoding fails.
pub proof fn lemma_states_truncation(xs1: Seq<Seq<u64>>, k: int, xs2: Seq<Seq<u64>>)
    requires
        valid_states(xs1),
        valid_states(xs2),
        0 <= k < spec_encode_states(xs1).len(),
    ensures
        spec_encode_states(xs1).subrange(0, k) != spec_encode_states(xs2),
{
    if spec_encode_states(xs1).subrange(0, k) == spec_encode_states(xs2) {
        lemma_states_len(xs1);
        lemma_states_len(xs2);
        assert(spec_encode_states(xs1).subrange(0, spec_encode_states(xs2).len() as int)
            =~= spec_encode_states(xs2));
        lemma_states_prefix(xs2, xs1);
        assert(false);
    }
}

/// The `i`-th 64-byte block of a blob, the last block zero-padded to 64
/// bytes.
pub open spec fn spec_padded_chunk(b: Seq<u8>, i: int) -> Seq<u8> {
    let lo = 64 * i;
    let hi = if 64 * i + 64 <= b.len() {
        64 * i + 64
    } else {
        b.len() as int
    };
    b.subrange(lo, hi) + Seq::new((64 - (hi - lo)) as nat, |j: int| 0u8)
}

/// The word at position `j` of the state derived from the `i`-th 64-byte
/// block of `b`: the block's bytes fill the first eight words little-endian,
/// the remaining seventeen words are zero.
pub open spec fn spec_state_word(b: Seq<u8>, i: int, j: int) -> u64 {
    if j < 8 {
        spec_u64_from_le_bytes(spec_padded_chunk(b, i).subrange(8 * j, 8 * j + 8))
    } else {
        0u64
    }
}

/// Derives the hash witness deterministically from a raw input blob: one
/// state per 64-byte block (the last block zero-padded), the block's bytes
/// filling the first eight words little-endian and the remaining seventeen
/// words zero.
pub fn witness_from_input(input: &[u8]) -> (w: MyWitness)
    requires
        input@.len() + 63 <= usize::MAX,
    ensures
        w.wf(),
        w.inputs@.len() == (input@.len() + 63) / 64,
        forall|i: int| 0 <= i < w.inputs@.len() ==> (#[trigger] w.inputs@[i])@.len() == 25,
        forall|i: int, j: int|
            0 <= i < w.inputs@.len() && 0 <= j < 25 ==> #[trigger] w.inputs@[i]@[j]
                == spec_state_word(input@, i, j),
{
    let input_len: usize = input.len();
    let count: usize = (input_len + 63) / 64;
    let mut inputs: Vec<Vec<u64>> = Vec::new();
    let mut i: usize = 0;
    while i < count
        invariant
            i <= count,
            input_len == input@.len(),
            count == (input_len + 63) / 64,
            inputs@.len() == i,
            forall|i2: int| 0 <= i2 < i ==> (#[trigger] inputs@[i2])@.len() == 25,
            forall|i2: int, j: int|
                0 <= i2 < i && 0 <= j < 25 ==> #[trigger] inputs@[i2]@[j] == spec_state_word(
                    input@,
                    i2,
                    j,
                ),
        decreases count - i,
    {
        let mut chunk: Vec<u8> = Vec::new();
        let mut k: usize = 0;
        while k < 64
            invariant
                k <= 64,
                i < count,
                input_len == input@.len(),
                count == (input_len + 63) / 64,
                chunk@.len() == k,
                forall|t: int|
                    0 <= t < k ==> chunk@[t] == if 64 * (i as int) + t < input@.len() {
                        input@[64 * (i as int) + t]
                    } else {
                        0u8
                    },
            decreases 64 - k,
        {
            if 64 * i + k < input_len {
                chunk.push(input[64 * i + k]);
            } else {
                chunk.push(0u8);
            }
            k += 1;
        }
        proof {
            assert(chunk@ =~= spec_padded_chunk(input@, i as int));
        }
        let mut st = read_words(chunk.as_slice(), 0, 8);
        let ghost first8: Seq<u64> = st@;
        proof {
            lemma_auto_spec_u64_to_from_le_bytes();
            assert(spec_encode_words(first8) == chunk@.subrange(0, 64));
            assert forall|j: int| 0 <= j < 8 implies first8[j] == spec_u64_from_le_bytes(
                chunk@.subrange(8 * j, 8 * j + 8),
            ) by {
                lemma_words_index(first8, j);
                assert(spec_encode_words(first8).subrange(8 * j, 8 * j + 8) =~= chunk@.subrange(
                    8 * j,
                    8 * j + 8,
                ));
            }
        }
        let mut z: usize = 8;
        while z < 25
            invariant
                8 <= z <= 25,
                st@.len() == z,
                st@.subrange(0, 8) == first8,
                chunk@ == spec_padded_chunk(input@, i as int),
                forall|j: int|
                    0 <= j < 8 ==> first8[j] == spec_u64_from_le_bytes(
                        #[trigger] chunk@.subrange(8 * j, 8 * j + 8),
                    ),
                forall|j: int| 8 <= j < z ==> st@[j] == 0u64,
            decreases 25 - z,
        {
            st.push(0u64);
            proof {
                assert(st@.subrange(0, 8) =~= first8);
            }
            z += 1;
        }
        proof {
            assert forall|j: int| 0 <= j < 8 implies st@[j] == first8[j] by {
                assert(st@.subrange(0, 8)[j] == st@[j]);
            }
            assert forall|j: int| 0 <= j < 25 implies st@[j] == spec_state_word(
                input@,
                i as int,
                j,
            ) by {
                if j < 8 {
                    assert(st@[j] == spec_u64_from_le_bytes(chunk@.subrange(8 * j, 8 * j + 8)));
                }
            }
        }
        inputs.push(st);
        i += 1;
    }
    let w = MyWitness { inputs };
    proof {
        assert forall|i2: int| 0 <= i2 < states_view(w).len() implies (
        #[trigger] states_view(w)[i2]).len() == 25 by {
            assert(states_view(w)[i2] == w.inputs@[i2]@);
        }
    }
    w
}

} // verus!
