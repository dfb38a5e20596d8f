use p3_air::Air;
use p3_air::AirBuilder;
use p3_air::BaseAir;
use p3_air::WindowAccess;
use p3_baby_bear::BabyBear;
use p3_baby_bear::Poseidon2BabyBear;
use p3_challenger::DuplexChallenger;
use p3_commit::ExtensionMmcs;
use p3_dft::Radix2DitParallel;
use p3_field::extension::BinomialExtensionField;
use p3_field::Field;
use p3_field::PrimeCharacteristicRing;
use p3_fri::FriParameters;
use p3_fri::TwoAdicFriPcs;
use p3_matrix::dense::RowMajorMatrix;
use p3_merkle_tree::MerkleTreeMmcs;
use p3_symmetric::PaddingFreeSponge;
use p3_symmetric::TruncatedPermutation;
use p3_uni_stark::prove;
use p3_uni_stark::verify;
use p3_uni_stark::Proof;
use p3_uni_stark::StarkConfig;
use rand::rngs::SmallRng;
use rand::SeedableRng;

use proof_serve::service::VerifyDispatch;

/// The recurrence circuit, declared for the black-box prover exactly as the
/// library's `fib_constraints_hold` states it.
struct FibAir {}

impl<F> BaseAir<F> for FibAir {
    fn width(&self) -> usize {
        2
    }

    fn num_public_values(&self) -> usize {
        3
    }

    fn max_constraint_degree(&self) -> Option<usize> {
        Some(2)
    }
}

impl<AB: AirBuilder> Air<AB> for FibAir {
    fn eval(&self, builder: &mut AB) {
        let main = builder.main();
        let pis = builder.public_values();
        let a = pis[0];
        let b = pis[1];
        let x = pis[2];
        let local = main.current_slice();
        let (l0, l1) = (local[0], local[1]);
        let next = main.next_slice();
        let (n0, n1) = (next[0], next[1]);

        let mut when_first_row = builder.when_first_row();
        when_first_row.assert_eq(l0, a);
        when_first_row.assert_eq(l1, b);

        let mut when_transition = builder.when_transition();
        when_transition.assert_eq(l1, n0);
        when_transition.assert_eq(l0 + l1, n1);

        builder.when_last_row().assert_eq(l1, x);
    }
}

type Val = BabyBear;
type Perm = Poseidon2BabyBear<16>;
type MyHash = PaddingFreeSponge<Perm, 16, 8, 8>;
type MyCompress = TruncatedPermutation<Perm, 2, 8, 16>;
type ValMmcs =
    MerkleTreeMmcs<<Val as Field>::Packing, <Val as Field>::Packing, MyHash, MyCompress, 2, 8>;
type Challenge = BinomialExtensionField<Val, 4>;
type ChallengeMmcs = ExtensionMmcs<Val, Challenge, ValMmcs>;
type Challenger = DuplexChallenger<Val, Perm, 16, 8>;
type Dft = Radix2DitParallel<Val>;
type Pcs = TwoAdicFriPcs<Val, Dft, ValMmcs, ChallengeMmcs>;
type MyConfig = StarkConfig<Pcs, Challenge, Challenger>;

fn make_config() -> MyConfig {
    let mut rng = SmallRng::seed_from_u64(1);
    let perm = Perm::new_from_rng_128(&mut rng);
    let hash = MyHash::new(perm.clone());
    let compress = MyCompress::new(perm.clone());
    let val_mmcs = ValMmcs::new(hash, compress, 0);
    let challenge_mmcs = ChallengeMmcs::new(val_mmcs.clone());
    let dft = Dft::default();
    let fri_params = FriParameters {
        log_blowup: 2,
        log_final_poly_len: 2,
        max_log_arity: 1,
        num_queries: 28,
        batch_proof_of_work_bits: 0,
        commit_proof_of_work_bits: 1,
        query_proof_of_work_bits: 1,
        mmcs: challenge_mmcs,
    };
    let pcs = Pcs::new(dft, val_mmcs, fri_params);
    let challenger = Challenger::new(perm);
    MyConfig::new(pcs, challenger)
}

fn to_row_major(m: &proof_serve::matrix::Matrix) -> RowMajorMatrix<Val> {
    let values: Vec<Val> = m.values.iter().map(|&x| Val::from_u64(x)).collect();
    RowMajorMatrix::new(values, m.width)
}

fn to_field(pis: &[u64]) -> Vec<Val> {
    pis.iter().map(|&x| Val::from_u64(x)).collect()
}

#[test]
fn proof_from_the_service_flow_verifies_and_mutations_fail() {
    let config = make_config();
    let air = FibAir {};

    // The client side: a witness built and encoded through the library.
    let trace = proof_serve::fib::generate_trace_rows(0, 1, 8);
    let w = proof_serve::fib::MyWitness { trace, pis: vec![0, 1, 21] };
    let body = proof_serve::fib::encode_witness(&w);

    // The service's prove route: dispatch, black-box prove, reply.
    let witness = proof_serve::service::dispatch_prove(body.as_slice()).ok().unwrap();
    let proof = prove(&config, &air, to_row_major(&witness.trace), &to_field(&witness.pis))
        .unwrap();
    let proof_bytes = postcard::to_allocvec(&proof).unwrap();
    let reply = proof_serve::service::prove_reply(proof_bytes);
    assert_eq!(reply.status, 200);
    assert!(!reply.body.is_empty());

    // The harness's verify call: frame, split, decode, black-box verify.
    let pis_bytes = proof_serve::codec::encode_felts(&w.pis);
    let vbody = proof_serve::harness::build_verify_request(
        pis_bytes.as_slice(),
        reply.body.as_slice(),
    );
    match proof_serve::service::dispatch_verify(vbody.as_slice()) {
        VerifyDispatch::Run { pis, proof } => {
            let decoded: Proof<MyConfig> = postcard::from_bytes(proof.as_slice()).unwrap();
            let ok = verify(&config, &air, &decoded, &to_field(&pis)).is_ok();
            assert_eq!(proof_serve::service::verify_reply(ok), "success");
        },
        VerifyDispatch::Malformed => panic!("a harness-built request must split"),
    }

    // Mutating any single public input makes verification fail.
    for (i, bad_value) in [(0usize, 1u64), (1, 2), (2, 20)] {
        let mut bad_pis = w.pis.clone();
        bad_pis[i] = bad_value;
        assert!(verify(&config, &air, &proof, &to_field(&bad_pis)).is_err());
    }

    // Flipping a single proof byte makes verification fail, whether the blob
    // still decodes or not.
    let mut flipped = reply.body.clone();
    let mid = flipped.len() / 2;
    flipped[mid] ^= 1;
    let still_ok = match postcard::from_bytes::<Proof<MyConfig>>(flipped.as_slice()) {
        Ok(p) => verify(&config, &air, &p, &to_field(&w.pis)).is_ok(),
        Err(_) => false,
    };
    assert!(!still_ok);
}
