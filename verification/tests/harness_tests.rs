use proof_serve::harness::baseline_hasher;
use proof_serve::harness::build_verify_request;
use proof_serve::harness::choose_port;
use proof_serve::harness::handshake_frames;
use proof_serve::harness::proof_frames;
use proof_serve::harness::verify_result_byte;
use proof_serve::harness::verify_result_frames;
use proof_serve::harness::witness_ready_frames;
use proof_serve::keccak::witness_from_input;

fn le(n: u64) -> Vec<u8> {
    let mut out: Vec<u8> = Vec::new();
    proof_serve::codec::write_u64(&mut out, n);
    out
}

#[test]
fn baseline_digest_of_one_block_is_32_bytes() {
    let digest = baseline_hasher(&[0u8; 64]);
    assert_eq!(digest.len(), 32);
}

#[test]
fn baseline_digest_drops_the_partial_block() {
    assert!(baseline_hasher(&[]).is_empty());
    assert!(baseline_hasher(&[1u8; 63]).is_empty());
    assert_eq!(baseline_hasher(&[1u8; 100]).len(), 32);
    assert_eq!(baseline_hasher(&[1u8; 128]).len(), 64);
}

#[test]
fn baseline_digest_is_deterministic_and_really_hashes() {
    let input = [0u8; 64];
    let once = baseline_hasher(&input);
    let twice = baseline_hasher(&input);
    assert_eq!(once, twice);
    assert_ne!(once.as_slice(), &input[..32]);
    let other = baseline_hasher(&[1u8; 64]);
    assert_ne!(once, other);
}

#[test]
fn baseline_digest_is_per_block() {
    let mut input: Vec<u8> = vec![5u8; 64];
    input.extend_from_slice(&[6u8; 64]);
    let digest = baseline_hasher(input.as_slice());
    assert_eq!(&digest[..32], baseline_hasher(&[5u8; 64]).as_slice());
    assert_eq!(&digest[32..], baseline_hasher(&[6u8; 64]).as_slice());
}

#[test]
fn handshake_frames_name_the_prover_in_order() {
    let mut expect: Vec<u8> = Vec::new();
    expect.extend_from_slice(le(20).as_slice());
    expect.extend_from_slice(b"pcbin-plonky3-keccak");
    expect.extend_from_slice(le(5).as_slice());
    expect.extend_from_slice(b"STARK");
    expect.extend_from_slice(le(7).as_slice());
    expect.extend_from_slice(b"Plonky3");
    assert_eq!(handshake_frames(), expect);
}

#[test]
fn witness_ready_frames_carry_digest_then_marker() {
    let input = [3u8; 64];
    let frames = witness_ready_frames(&input);
    let digest = baseline_hasher(&input);
    let mut expect: Vec<u8> = Vec::new();
    expect.extend_from_slice(le(32).as_slice());
    expect.extend_from_slice(digest.as_slice());
    expect.extend_from_slice(le(17).as_slice());
    expect.extend_from_slice(b"witness generated");
    assert_eq!(frames, expect);
}

#[test]
fn proof_frames_end_with_two_empty_blobs() {
    let frames = proof_frames(&[0xde, 0xad]);
    let mut expect: Vec<u8> = Vec::new();
    expect.extend_from_slice(le(2).as_slice());
    expect.extend_from_slice(&[0xde, 0xad]);
    expect.extend_from_slice(le(0).as_slice());
    expect.extend_from_slice(le(0).as_slice());
    assert_eq!(frames, expect);
}

#[test]
fn verify_result_byte_convention() {
    assert_eq!(verify_result_byte(true), 0xff);
    assert_eq!(verify_result_byte(false), 0x00);
}

#[test]
fn verify_result_frames_report_byte_and_count() {
    let frames = verify_result_frames(true, 3);
    let mut expect: Vec<u8> = Vec::new();
    expect.extend_from_slice(le(1).as_slice());
    expect.push(0xff);
    expect.extend_from_slice(le(8).as_slice());
    expect.extend_from_slice(le(3).as_slice());
    assert_eq!(frames, expect);
    let failure = verify_result_frames(false, 1);
    assert_eq!(failure[8], 0x00);
}

#[test]
fn verify_request_round_trips_through_the_service_split() {
    let body = build_verify_request(&[1, 2, 3], &[4, 5]);
    let (pis, proof) = proof_serve::service::split_verify_body(body.as_slice()).unwrap();
    assert_eq!(pis, vec![1, 2, 3]);
    assert_eq!(proof, vec![4, 5]);
}

#[test]
fn choose_port_stays_in_the_ephemeral_range() {
    for entropy in [0u64, 1, 9999, 10000, 12345, u64::MAX] {
        let p = choose_port(entropy);
        assert!((20000..30000).contains(&p));
    }
}

#[test]
fn choose_port_folds_the_entropy_into_the_range() {
    assert_eq!(choose_port(0), 20000);
    assert_eq!(choose_port(1), 20001);
    assert_eq!(choose_port(9999), 29999);
    assert_eq!(choose_port(10000), 20000);
    assert_eq!(choose_port(12345), 22345);
    assert_eq!(choose_port(u64::MAX), 20000 + (u64::MAX % 10000) as u16);
}

#[test]
fn witness_from_input_packs_words_little_endian() {
    let mut input: Vec<u8> = Vec::new();
    for b in 1..=64u8 {
        input.push(b);
    }
    let w = witness_from_input(input.as_slice());
    assert_eq!(w.inputs.len(), 1);
    let state = &w.inputs[0];
    assert_eq!(state.len(), 25);
    assert_eq!(state[0], u64::from_le_bytes([1, 2, 3, 4, 5, 6, 7, 8]));
    assert_eq!(state[7], u64::from_le_bytes([57, 58, 59, 60, 61, 62, 63, 64]));
    for j in 8..25 {
        assert_eq!(state[j], 0);
    }
}

#[test]
fn witness_from_input_pads_the_last_block_with_zeros() {
    let w = witness_from_input(&[0xffu8; 65]);
    assert_eq!(w.inputs.len(), 2);
    assert_eq!(w.inputs[1][0], 0xff);
    for j in 1..25 {
        assert_eq!(w.inputs[1][j], 0);
    }
}

#[test]
fn witness_from_input_of_nothing_is_empty() {
    assert!(witness_from_input(&[]).inputs.is_empty());
}

#[test]
fn keccak_witness_round_trip() {
    let w = witness_from_input(&[9u8; 200]);
    let enc = proof_serve::keccak::encode_witness(&w);
    let dec = proof_serve::keccak::decode_witness(enc.as_slice()).unwrap();
    assert_eq!(dec.inputs, w.inputs);
}

#[test]
fn keccak_witness_of_benchmark_size_round_trips() {
    let w = witness_from_input(&vec![2u8; 64 * proof_serve::keccak::NUM_HASHES]);
    assert_eq!(w.inputs.len(), proof_serve::keccak::NUM_HASHES);
    let enc = proof_serve::keccak::encode_witness(&w);
    let dec = proof_serve::keccak::decode_witness(enc.as_slice()).unwrap();
    assert_eq!(dec.inputs, w.inputs);
}

#[test]
fn keccak_witness_with_extreme_words_round_trips() {
    let w = proof_serve::keccak::MyWitness {
        inputs: vec![vec![u64::MAX; 25], vec![0u64; 25]],
    };
    let enc = proof_serve::keccak::encode_witness(&w);
    let dec = proof_serve::keccak::decode_witness(enc.as_slice()).unwrap();
    assert_eq!(dec.inputs, w.inputs);
}

#[test]
fn keccak_witness_every_truncated_prefix_fails() {
    let w = witness_from_input(&[4u8; 64]);
    let enc = proof_serve::keccak::encode_witness(&w);
    for k in 0..enc.len() {
        assert!(proof_serve::keccak::decode_witness(&enc[..k]).is_err());
    }
}

#[test]
fn keccak_witness_rejects_lying_count() {
    let mut enc: Vec<u8> = Vec::new();
    proof_serve::codec::write_u64(&mut enc, 2);
    for _ in 0..25 {
        proof_serve::codec::write_u64(&mut enc, 1);
    }
    assert!(proof_serve::keccak::decode_witness(enc.as_slice()).is_err());
}
