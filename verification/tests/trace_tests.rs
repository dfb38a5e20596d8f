use proof_serve::fib::encode_witness;
use proof_serve::fib::decode_witness;
use proof_serve::fib::generate_trace_rows;
use proof_serve::fib::FibonacciAir;
use proof_serve::fib::FibonacciRow;
use proof_serve::fib::MyWitness;
use proof_serve::matrix::check_pow2;
use proof_serve::matrix::decode_matrix_at;
use proof_serve::matrix::encode_matrix;
use proof_serve::matrix::Matrix;

const P: u64 = 2013265921;

#[test]
fn check_pow2_on_small_values() {
    assert!(!check_pow2(0));
    assert!(check_pow2(1));
    assert!(check_pow2(2));
    assert!(!check_pow2(3));
    assert!(check_pow2(4));
    assert!(!check_pow2(6));
    assert!(check_pow2(1 << 40));
}

#[test]
fn fibonacci_row_new_keeps_fields() {
    let r = FibonacciRow::new(3, 4);
    assert_eq!(r.left, 3);
    assert_eq!(r.right, 4);
}

#[test]
fn trace_of_eight_rows_ends_at_twenty_one() {
    let m = generate_trace_rows(0, 1, 8);
    assert_eq!(m.width, 2);
    assert_eq!(
        m.values,
        vec![0, 1, 1, 1, 1, 2, 2, 3, 3, 5, 5, 8, 8, 13, 13, 21]
    );
}

#[test]
fn trace_recurrence_holds_for_every_row() {
    let m = generate_trace_rows(2, 5, 16);
    assert_eq!(m.values.len(), 32);
    assert_eq!(m.values[0], 2);
    assert_eq!(m.values[1], 5);
    for i in 1..16 {
        assert_eq!(m.values[2 * i], m.values[2 * i - 1]);
        assert_eq!(
            m.values[2 * i + 1],
            (m.values[2 * i - 2] + m.values[2 * i - 1]) % P
        );
    }
}

#[test]
fn trace_addition_wraps_at_the_modulus() {
    let m = generate_trace_rows(P - 1, 1, 2);
    assert_eq!(m.values, vec![P - 1, 1, 1, 0]);
}

#[test]
fn air_width_is_two() {
    let air = FibonacciAir {};
    assert_eq!(air.width(), 2);
}

#[test]
fn eval_accepts_matching_public_inputs() {
    let air = FibonacciAir {};
    let m = generate_trace_rows(0, 1, 8);
    assert!(air.eval(&m, &[0, 1, 21]));
}

#[test]
fn eval_rejects_each_mutated_public_input() {
    let air = FibonacciAir {};
    let m = generate_trace_rows(0, 1, 8);
    assert!(!air.eval(&m, &[1, 1, 21]));
    assert!(!air.eval(&m, &[0, 2, 21]));
    assert!(!air.eval(&m, &[0, 1, 20]));
}

#[test]
fn eval_rejects_broken_transition() {
    let air = FibonacciAir {};
    let mut m = generate_trace_rows(0, 1, 8);
    m.values[6] = 9;
    assert!(!air.eval(&m, &[0, 1, 21]));
}

#[test]
fn matrix_round_trip() {
    let m = Matrix { width: 3, values: vec![1, 2, 3, 4, 5, 6] };
    let enc = encode_matrix(&m);
    let (dec, end) = decode_matrix_at(enc.as_slice(), 0).unwrap();
    assert_eq!(end, enc.len());
    assert_eq!(dec.width, 3);
    assert_eq!(dec.values, m.values);
}

#[test]
fn matrix_every_truncated_prefix_fails() {
    let m = Matrix { width: 2, values: vec![7, 8, 9, 10] };
    let enc = encode_matrix(&m);
    for k in 0..enc.len() {
        assert!(decode_matrix_at(&enc[..k], 0).is_err());
    }
}

#[test]
fn matrix_rejects_zero_width() {
    let mut enc: Vec<u8> = Vec::new();
    proof_serve::codec::write_u64(&mut enc, 0);
    proof_serve::codec::write_u64(&mut enc, 1);
    proof_serve::codec::write_u64(&mut enc, 5);
    assert!(decode_matrix_at(enc.as_slice(), 0).is_err());
}

#[test]
fn matrix_rejects_height_that_is_no_power_of_two() {
    let mut enc: Vec<u8> = Vec::new();
    proof_serve::codec::write_u64(&mut enc, 1);
    proof_serve::codec::write_u64(&mut enc, 3);
    for v in [1u64, 2, 3] {
        proof_serve::codec::write_u64(&mut enc, v);
    }
    assert!(decode_matrix_at(enc.as_slice(), 0).is_err());
}

#[test]
fn matrix_rejects_noncanonical_cell() {
    let mut enc: Vec<u8> = Vec::new();
    proof_serve::codec::write_u64(&mut enc, 1);
    proof_serve::codec::write_u64(&mut enc, 1);
    proof_serve::codec::write_u64(&mut enc, P);
    assert!(decode_matrix_at(enc.as_slice(), 0).is_err());
}

#[test]
fn witness_round_trip() {
    let w = MyWitness { trace: generate_trace_rows(0, 1, 8), pis: vec![0, 1, 21] };
    let enc = encode_witness(&w);
    let dec = decode_witness(enc.as_slice()).unwrap();
    assert_eq!(dec.trace.width, 2);
    assert_eq!(dec.trace.values, w.trace.values);
    assert_eq!(dec.pis, vec![0, 1, 21]);
}

#[test]
fn witness_with_empty_public_inputs_round_trips() {
    let w = MyWitness { trace: generate_trace_rows(1, 1, 2), pis: vec![] };
    let enc = encode_witness(&w);
    let dec = decode_witness(enc.as_slice()).unwrap();
    assert_eq!(dec.trace.values, w.trace.values);
    assert!(dec.pis.is_empty());
}

#[test]
fn witness_every_truncated_prefix_fails() {
    let w = MyWitness { trace: generate_trace_rows(0, 1, 4), pis: vec![0, 1, 3] };
    let enc = encode_witness(&w);
    for k in 0..enc.len() {
        assert!(decode_witness(&enc[..k]).is_err());
    }
}

#[test]
fn witness_rejects_trailing_byte() {
    let w = MyWitness { trace: generate_trace_rows(0, 1, 4), pis: vec![0, 1, 3] };
    let mut enc = encode_witness(&w);
    enc.push(0);
    assert!(decode_witness(enc.as_slice()).is_err());
}
