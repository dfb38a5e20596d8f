//! The service's request dispatch: what each route replies, as total
//! functions of the request body. The asynchronous HTTP listener around the
//! library decodes nothing itself — it hands bodies here, calls the black-box
//! prover or verifier on what comes back, and sends the replies built here.

use vstd::prelude::*;
use vstd::bytes::spec_u64_from_le_bytes;
use vstd::bytes::u64_from_le_bytes;
use vstd::slice::slice_subrange;
use vstd::slice::slice_to_vec;
use vstd::string::StringExecFns;
use crate::codec::spec_encode_felts;
use crate::codec::valid_felts;
use crate::fib;
use crate::keccak;

verus! {

/// An HTTP reply: a status code and a body.
pub struct HttpReply {
    pub status: u16,
    pub body: Vec<u8>,
}

/// Dispatches a prove request for the recurrence service: decodes the witness
/// from the request body. A body that is not the encoding of a well-formed
/// witness is answered with status 400 and an empty body; otherwise the
/// witness is handed on to the black-box prover.
pub fn dispatch_prove(body: &[u8]) -> (r: Result<fib::MyWitness, HttpReply>)
    ensures
        match r {
            Ok(w) => w.wf() && body@ == fib::spec_encode_fib_witness(w),
            Err(rep) => {
                &&& rep.status == 400
                &&& rep.body@ == Seq::<u8>::empty()
                &&& forall|w: fib::MyWitness| w.wf() ==> body@ != fib::spec_encode_fib_witness(w)
            },
        },
{
    match fib::decode_witness(body) {
        Ok(w) => Ok(w),
        Err(_) => Err(HttpReply { status: 400, body: Vec::new() }),
    }
}

/// Dispatches a prove request for the permutation-hash service, as
/// `dispatch_prove` does for the recurrence service.
pub fn dispatch_prove_keccak(body: &[u8]) -> (r: Result<keccak::MyWitness, HttpReply>)
    ensures
        match r {
            Ok(w) => w.wf() && body@ == keccak::spec_encode_keccak_witness(w),
            Err(rep) => {
                &&& rep.status == 400
                &&& rep.body@ == Seq::<u8>::empty()
                &&& forall|xs: Seq<Seq<u64>>|
                    keccak::valid_states(xs) ==> body@ != keccak::spec_encode_states(xs)
            },
        },
{
    match keccak::decode_witness(body) {
        Ok(w) => Ok(w),
        Err(_) => Err(HttpReply { status: 400, body: Vec::new() }),
    }
}

/// The reply to a successful prove: status 200 and the encoded proof.
pub fn prove_reply(proof: Vec<u8>) -> (r: HttpReply)
    ensures
        r.status == 200,
        r.body@ == proof@,
{
    HttpReply { status: 200, body: proof }
}

/// The liveness reply: status 200, always — it depends on the startup
/// timestamp alone and on no earlier request.
pub fn ready_reply(timestamp: &str) -> (r: (u16, String))
    ensures
        r.0 == 200,
        r.1@ == "Ready since "@ + timestamp@,
{
    let mut s = "Ready since ".to_owned();
    s.append(timestamp);
    (200, s)
}

/// How a verify request body `[pis length][proof length][pis][proof]` splits
/// into its two blobs, or nothing when the lengths do not fit the body.
pub open spec fn spec_split_verify_body(b: Seq<u8>) -> Option<(Seq<u8>, Seq<u8>)> {
    if b.len() < 16 {
        None
    } else {
        let pis_len = spec_u64_from_le_bytes(b.subrange(0, 8)) as int;
        let proof_len = spec_u64_from_le_bytes(b.subrange(8, 16)) as int;
        if 16 + pis_len + proof_len > b.len() {
            None
        } else {
            Some(
                (
                    b.subrange(16, 16 + pis_len),
                    b.subrange(16 + pis_len, 16 + pis_len + proof_len),
                ),
            )
        }
    }
}

/// Splits a verify request body into its public-input and proof blobs.
/// Returns nothing exactly when the recorded lengths overrun the body; a
/// short or lying body is rejected, never sliced out of bounds.
pub fn split_verify_body(body: &[u8]) -> (r: Option<(Vec<u8>, Vec<u8>)>)
    ensures
        match r {
            Some(v) => spec_split_verify_body(body@) == Some((v.0@, v.1@)),
            None => spec_split_verify_body(body@) is None,
        },
{
    let body_len: usize = body.len();
    if body_len < 16 {
        return None;
    }
    let pis_len = u64_from_le_bytes(slice_subrange(body, 0, 8));
    let proof_len = u64_from_le_bytes(slice_subrange(body, 8, 16));
    if pis_len > (body_len - 16) as u64 {
        return None;
    }
    let pl = pis_len as usize;
    if proof_len > (body_len - 16 - pl) as u64 {
        return None;
    }
    let ql = proof_len as usize;
    let pis = slice_to_vec(slice_subrange(body, 16, 16 + pl));
    let proof = slice_to_vec(slice_subrange(body, 16 + pl, 16 + pl + ql));
    Some((pis, proof))
}

/// What the recurrence service's verify route decides before the black-box
/// check: reply `"failure"` at once for a malformed body, or hand the decoded
/// public inputs and the raw proof bytes to the verifier.
pub enum VerifyDispatch {
    Malformed,
    Run { pis: Vec<u64>, proof: Vec<u8> },
}

/// Dispatches a verify request for the recurrence service: splits the body
/// and decodes the public inputs. Malformed exactly when the body does not
/// split or the public-input blob is not an encoded field-element sequence.
pub fn dispatch_verify(body: &[u8]) -> (r: VerifyDispatch)
    ensures
        ({
            let sp = spec_split_verify_body(body@);
            match r {
                VerifyDispatch::Malformed => sp is None || (forall|s: Seq<u64>|
                    valid_felts(s) ==> match sp {
                        Some(v) => v.0 != spec_encode_felts(s),
                        None => true,
                    }),
                VerifyDispatch::Run { pis, proof } => match sp {
                    Some(v) => {
                        &&& valid_felts(pis@)
                        &&& v.0 == spec_encode_felts(pis@)
                        &&& proof@ == v.1
                    },
                    None => false,
                },
            }
        }),
{
    match split_verify_body(body) {
        None => VerifyDispatch::Malformed,
        Some((pis_bytes, proof)) => {
            match crate::codec::decode_felts(pis_bytes.as_slice()) {
                Err(_) => VerifyDispatch::Malformed,
                Ok(pis) => VerifyDispatch::Run { pis, proof },
            }
        },
    }
}

/// Dispatches a verify request for the permutation-hash service, which takes
/// no public inputs: splits the body and hands back the raw proof bytes, or
/// nothing for a body that does not split.
pub fn dispatch_verify_keccak(body: &[u8]) -> (r: Option<Vec<u8>>)
    ensures
        match r {
            Some(proof) => match spec_split_verify_body(body@) {
                Some(v) => proof@ == v.1,
                None => false,
            },
            None => spec_split_verify_body(body@) is None,
        },
{
    match split_verify_body(body) {
        None => None,
        Some((_pis_bytes, proof)) => Some(proof),
    }
}

/// The verify route's reply text: `"success"` exactly when the black box
/// reported the proof valid, `"failure"` otherwise.
pub fn verify_reply(ok: bool) -> (r: String)
    ensures
        ok ==> r@ == "success"@,
        !ok ==> r@ == "failure"@,
{
    if ok {
        "success".to_owned()
    } else {
        "failure".to_owned()
    }
}

} // verus!
