//! The benchmark-harness protocol: the length-prefixed frames the adapter
//! writes to the orchestrator's pipe, the baseline digest over the raw input,
//! the request body it sends to the spawned service, and the choice of the
//! service's ephemeral port. The pipe and process handling around these
//! functions only moves the bytes built here.

use vstd::prelude::*;
use vstd::bytes::lemma_auto_spec_u64_to_from_le_bytes;
use vstd::bytes::spec_u64_to_le_bytes;
use vstd::slice::slice_subrange;
use vstd::slice::slice_to_vec;
use vstd::string::StringSliceAdditionalSpecFns;
use tiny_keccak::Hasher;
use crate::codec::spec_frame;
use crate::codec::write_byte_array;
use crate::codec::write_string;
use crate::codec::write_u64;
use crate::service::spec_split_verify_body;

verus! {

/// The byte at position `i` of the Keccak-256 digest of the given bytes: a
/// function of the input alone, of which nothing further is assumed.
pub uninterp spec fn keccak256_word(data: Seq<u8>, i: int) -> u8;

/// The Keccak-256 digest of the given bytes: 32 bytes, each a function of the
/// input alone.
pub open spec fn keccak256_of(data: Seq<u8>) -> Seq<u8> {
    Seq::new(32, |i: int| keccak256_word(data, i))
}

/// Relies on tiny_keccak's `Keccak::v256` (Keccak-256): the digest is 32
/// bytes and depends on the input bytes alone.
#[verifier::external_body]
fn keccak256(data: &[u8]) -> (r: Vec<u8>)
    ensures
        r@ == keccak256_of(data@),
        forall|i: int| 0 <= i < 32 ==> r@[i] == keccak256_word(data@, i),
        r@.len() == 32,
{
    let mut hasher = tiny_keccak::Keccak::v256();
    let mut output = [0u8; 32];
    hasher.update(data);
    hasher.finalize(&mut output);
    output.to_vec()
}

/// The baseline digest of a blob: the Keccak-256 digest of each full 64-byte
/// block, concatenated; a trailing partial block is dropped.
pub open spec fn spec_baseline(b: Seq<u8>) -> Seq<u8>
    decreases b.len(),
{
    if b.len() < 64 {
        Seq::<u8>::empty()
    } else {
        keccak256_of(b.subrange(0, 64)) + spec_baseline(b.skip(64))
    }
}

pub proof fn lemma_baseline_len(b: Seq<u8>)
    ensures
        spec_baseline(b).len() == 32 * (b.len() as int / 64),
    decreases b.len(),
{
    if b.len() >= 64 {
        lemma_baseline_len(b.skip(64));
        assert((b.len() as int - 64) / 64 == b.len() as int / 64 - 1);
    }
}

/// The `i`-th 32-byte block of the baseline digest is the digest of the
/// `i`-th full 64-byte block of the input.
pub proof fn lemma_baseline_chunk(b: Seq<u8>, i: int)
    requires
        0 <= i < b.len() as int / 64,
    ensures
        spec_baseline(b).subrange(32 * i, 32 * i + 32) == keccak256_of(
            b.subrange(64 * i, 64 * i + 64),
        ),
    decreases i,
{
    lemma_baseline_len(b);
    lemma_baseline_len(b.skip(64));
    if i == 0 {
        assert(spec_baseline(b).subrange(0, 32) =~= keccak256_of(b.subrange(0, 64)));
    } else {
        assert((b.len() as int - 64) / 64 == b.len() as int / 64 - 1);
        lemma_baseline_chunk(b.skip(64), i - 1);
        assert(spec_baseline(b).subrange(32 * i, 32 * i + 32) =~= spec_baseline(
            b.skip(64),
        ).subrange(32 * (i - 1), 32 * (i - 1) + 32));
        assert(b.skip(64).subrange(64 * (i - 1), 64 * (i - 1) + 64) =~= b.subrange(
            64 * i,
            64 * i + 64,
        ));
    }
}

/// The harness's cheap sanity oracle, independent of the proving service:
/// hashes each full 64-byte block of the input with Keccak-256 and
/// concatenates the digests.
pub fn baseline_hasher(inputs: &[u8]) -> (r: Vec<u8>)
    ensures
        r@ == spec_baseline(inputs@),
        r@.len() == 32 * (inputs@.len() as int / 64),
{
    let len: usize = inputs.len();
    let count: usize = len / 64;
    let mut out: Vec<u8> = Vec::new();
    let mut i: usize = 0;
    proof {
        assert(inputs@.skip(0) =~= inputs@);
    }
    while i < count
        invariant
            i <= count,
            count == len / 64,
            len == inputs@.len(),
            out@.len() == 32 * i,
            out@ + spec_baseline(inputs@.skip(64 * i)) == spec_baseline(inputs@),
        decreases count - i,
    {
        let d = keccak256(slice_subrange(inputs, 64 * i, 64 * i + 64));
        let ghost tail: Seq<u8> = inputs@.skip(64 * i);
        let mut dm = d;
        out.append(&mut dm);
        proof {
            assert(tail.len() >= 64);
            assert(tail.subrange(0, 64) =~= inputs@.subrange(64 * i, 64 * i + 64));
            assert(tail.skip(64) =~= inputs@.skip(64 * (i + 1)));
            assert(spec_baseline(tail) == keccak256_of(tail.subrange(0, 64)) + spec_baseline(
                tail.skip(64),
            ));
            assert(out@ + spec_baseline(inputs@.skip(64 * (i + 1))) =~= spec_baseline(inputs@));
        }
        i += 1;
    }
    proof {
        assert(inputs@.skip(64 * count as int).len() < 64);
        assert(out@ =~= spec_baseline(inputs@));
        lemma_baseline_len(inputs@);
    }
    out
}

/// The three length-prefixed identification strings the harness announces
/// first, in their fixed order: prover name, proof-system name, algorithm
/// name.
pub open spec fn spec_handshake() -> Seq<u8> {
    spec_frame("pcbin-plonky3-keccak".spec_bytes()) + spec_frame("STARK".spec_bytes())
        + spec_frame("Plonky3".spec_bytes())
}

/// Everything the prove path writes to the orchestrator's pipe, in its fixed
/// order: the handshake strings, the raw instance count, the baseline digest
/// of the input, the witness-generated marker, the proof, an empty
/// verification key, and empty public inputs.
pub open spec fn spec_prove_output(count: u64, input: Seq<u8>, proof: Seq<u8>) -> Seq<u8> {
    spec_handshake() + spec_u64_to_le_bytes(count) + spec_frame(spec_baseline(input)) + spec_frame(
        "witness generated".spec_bytes(),
    ) + spec_frame(proof) + spec_frame(Seq::<u8>::empty()) + spec_frame(Seq::<u8>::empty())
}

/// Everything the verify path writes back: the result byte, then the repeat
/// count as eight little-endian bytes, each length-prefixed.
pub open spec fn spec_verify_output(ok: bool, repeat_count: u64) -> Seq<u8> {
    spec_frame(
        seq![
            if ok {
                0xffu8
            } else {
                0x00u8
            },
        ],
    ) + spec_frame(spec_u64_to_le_bytes(repeat_count))
}

/// Writes the handshake strings.
pub fn handshake_frames() -> (r: Vec<u8>)
    ensures
        r@ == spec_handshake(),
{
    let mut out: Vec<u8> = Vec::new();
    write_string(&mut out, "pcbin-plonky3-keccak");
    write_string(&mut out, "STARK");
    write_string(&mut out, "Plonky3");
    out
}

/// The frames the harness writes once the witness is ready: the baseline
/// digest of the input, then the literal marker `"witness generated"`, each
/// length-prefixed.
pub fn witness_ready_frames(input: &[u8]) -> (r: Vec<u8>)
    ensures
        r@ == spec_frame(spec_baseline(input@)) + spec_frame("witness generated".spec_bytes()),
{
    let digest = baseline_hasher(input);
    let mut out: Vec<u8> = Vec::new();
    write_byte_array(&mut out, digest.as_slice());
    write_string(&mut out, "witness generated");
    out
}

/// The closing frames of the harness prove path: the proof, an empty
/// verification key, and empty public inputs, each length-prefixed.
pub fn proof_frames(proof: &[u8]) -> (r: Vec<u8>)
    ensures
        r@ == spec_frame(proof@) + spec_frame(Seq::<u8>::empty()) + spec_frame(
            Seq::<u8>::empty(),
        ),
{
    let mut out: Vec<u8> = Vec::new();
    write_byte_array(&mut out, proof);
    let empty: Vec<u8> = Vec::new();
    write_byte_array(&mut out, empty.as_slice());
    write_byte_array(&mut out, empty.as_slice());
    out
}

/// Law: written in their protocol order — `handshake_frames`, the raw count
/// from `write_u64`, `witness_ready_frames`, then `proof_frames` — the prove
/// path's frame groups form exactly the documented output stream; only the
/// pipe writes between them are left to the caller.
pub proof fn lemma_prove_output_order(count: u64, input: Seq<u8>, proof: Seq<u8>)
    ensures
        spec_handshake() + spec_u64_to_le_bytes(count) + (spec_frame(spec_baseline(input))
            + spec_frame("witness generated".spec_bytes())) + (spec_frame(proof) + spec_frame(
            Seq::<u8>::empty(),
        ) + spec_frame(Seq::<u8>::empty())) == spec_prove_output(count, input, proof),
{
    assert(spec_handshake() + spec_u64_to_le_bytes(count) + (spec_frame(spec_baseline(input))
        + spec_frame("witness generated".spec_bytes())) + (spec_frame(proof) + spec_frame(
        Seq::<u8>::empty(),
    ) + spec_frame(Seq::<u8>::empty())) =~= spec_prove_output(count, input, proof));
}

/// The result byte the harness verify path reports. The adapters this
/// library replaces disagreed on the sentinel; the binding convention here is
/// 0xff for success and 0x00 for failure.
pub fn verify_result_byte(ok: bool) -> (r: u8)
    ensures
        r == if ok {
            0xffu8
        } else {
            0x00u8
        },
{
    if ok {
        0xff
    } else {
        0x00
    }
}

/// The two closing frames of the harness verify path, together the whole
/// stream the verify path writes back.
pub fn verify_result_frames(ok: bool, repeat_count: u64) -> (r: Vec<u8>)
    ensures
        r@ == spec_verify_output(ok, repeat_count),
{
    let mut out: Vec<u8> = Vec::new();
    let byte: Vec<u8> = vec![verify_result_byte(ok)];
    proof {
        assert(byte@ =~= seq![
            if ok {
                0xffu8
            } else {
                0x00u8
            },
        ]);
    }
    write_byte_array(&mut out, byte.as_slice());
    let mut count_bytes: Vec<u8> = Vec::new();
    write_u64(&mut count_bytes, repeat_count);
    write_byte_array(&mut out, count_bytes.as_slice());
    out
}

/// The verify request body the harness sends to the spawned service:
/// `[pis length][proof length][pis][proof]`.
pub fn build_verify_request(pis: &[u8], proof: &[u8]) -> (r: Vec<u8>)
    ensures
        r@ == spec_u64_to_le_bytes(pis@.len() as u64) + spec_u64_to_le_bytes(proof@.len() as u64)
            + pis@ + proof@,
{
    let mut out: Vec<u8> = Vec::new();
    write_u64(&mut out, pis.len() as u64);
    write_u64(&mut out, proof.len() as u64);
    let mut p = slice_to_vec(pis);
    out.append(&mut p);
    let mut q = slice_to_vec(proof);
    out.append(&mut q);
    out
}

/// Law: a verify request the harness builds always splits back, on the
/// service side, into the same public-input and proof blobs.
pub proof fn lemma_verify_request_splits(pis: Seq<u8>, proof: Seq<u8>)
    requires
        pis.len() <= u64::MAX,
        proof.len() <= u64::MAX,
    ensures
        spec_split_verify_body(
            spec_u64_to_le_bytes(pis.len() as u64) + spec_u64_to_le_bytes(proof.len() as u64) + pis
                + proof,
        ) == Some((pis, proof)),
{
    lemma_auto_spec_u64_to_from_le_bytes();
    let b = spec_u64_to_le_bytes(pis.len() as u64) + spec_u64_to_le_bytes(proof.len() as u64) + pis
        + proof;
    assert(b.subrange(0, 8) =~= spec_u64_to_le_bytes(pis.len() as u64));
    assert(b.subrange(8, 16) =~= spec_u64_to_le_bytes(proof.len() as u64));
    assert(b.subrange(16, 16 + pis.len() as int) =~= pis);
    assert(b.subrange(16 + pis.len() as int, 16 + pis.len() as int + proof.len() as int)
        =~= proof);
}

/// The service port for one harness session: the caller's fresh entropy,
/// folded into the adapter's ephemeral range, so distinct draws give distinct
/// ports and a session isolates itself from the last one.
pub fn choose_port(entropy: u64) -> (p: u16)
    ensures
        p == 20000 + (entropy % 10000) as u16,
        20000 <= p < 30000,
{
    20000 + (entropy % 10000) as u16
}

} // verus!
