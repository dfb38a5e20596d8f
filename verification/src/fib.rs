//! The linear-recurrence circuit: its execution trace, its constraint
//! declaration, and the witness — trace plus public inputs — that its prover
//! consumes.

use vstd::prelude::*;
use vstd::slice::slice_subrange;
use crate::codec::decode_felts;
use crate::codec::encode_felts;
use crate::codec::lemma_felts_len;
use crate::codec::lemma_felts_prefix;
use crate::codec::spec_encode_felts;
use crate::codec::valid_felts;
use crate::codec::DecodeError;
use crate::field::field_add;
use crate::field::is_field_element;
use crate::field::FIELD_MODULUS;
use crate::matrix::decode_matrix_at;
use crate::matrix::encode_matrix;
use crate::matrix::encodes_matrix_at;
use crate::matrix::is_pow2;
use crate::matrix::lemma_matrix_enc_len;
use crate::matrix::lemma_matrix_prefix;
use crate::matrix::spec_encode_matrix;
use crate::matrix::Matrix;

verus! {

/// The recurrence circuit declaration: two columns, the next row is
/// `(right, left + right)`, and the public inputs pin the first row and the
/// last row's second column.
pub struct FibonacciAir {}

/// One trace row of the recurrence circuit.
pub struct FibonacciRow {
    pub left: u64,
    pub right: u64,
}

impl FibonacciRow {
    pub fn new(left: u64, right: u64) -> (r: FibonacciRow)
        ensures
            r.left == left,
            r.right == right,
    {
        FibonacciRow { left, right }
    }
}

/// The transition constraint between row `i` and row `i + 1`: the left cell
/// copies the previous right cell, the right cell holds their field sum.
pub open spec fn fib_step(m: Matrix, i: int) -> bool {
    &&& m.at(i + 1, 0) == m.at(i, 1)
    &&& m.at(i + 1, 1) == (m.at(i, 0) + m.at(i, 1)) % (FIELD_MODULUS as int)
}

/// All constraints the recurrence circuit declares of a trace and its three
/// public inputs `[a, b, x]`: row 0 is `(a, b)`, every transition applies the
/// recurrence, and the last row's second column is `x`.
pub open spec fn fib_constraints_hold(m: Matrix, pis: Seq<u64>) -> bool {
    &&& m.width == 2
    &&& m.spec_height() >= 1
    &&& pis.len() == 3
    &&& m.at(0, 0) == pis[0]
    &&& m.at(0, 1) == pis[1]
    &&& m.at(m.spec_height() - 1, 1) == pis[2]
    &&& forall|i: int| 0 <= i < m.spec_height() - 1 ==> #[trigger] fib_step(m, i)
}

/// Builds the recurrence trace: `n` rows of width 2, row 0 is `(a, b)`, and
/// every following row is `(previous right, previous left + previous right)`
/// in the field. `n` must be a power of two, as the commitment scheme
/// requires.
pub fn generate_trace_rows(a: u64, b: u64, n: usize) -> (m: Matrix)
    requires
        is_field_element(a),
        is_field_element(b),
        is_pow2(n as nat),
        n <= usize::MAX / 2,
    ensures
        m.wf(),
        m.width == 2,
        m.spec_height() == n,
        m.at(0, 0) == a,
        m.at(0, 1) == b,
        forall|i: int| 0 <= i < n - 1 ==> #[trigger] fib_step(m, i),
{
    proof {
        assert(!is_pow2(0));
    }
    let mut rows: Vec<FibonacciRow> = Vec::new();
    rows.push(FibonacciRow::new(a, b));
    let mut i: usize = 1;
    while i < n
        invariant
            1 <= i <= n,
            rows@.len() == i,
            rows@[0].left == a,
            rows@[0].right == b,
            forall|j: int|
                0 <= j < i ==> is_field_element(#[trigger] rows@[j].left) && is_field_element(
                    rows@[j].right,
                ),
            forall|j: int|
                0 <= j < i - 1 ==> #[trigger] rows@[j + 1].left == rows@[j].right && rows@[j
                    + 1].right == (rows@[j].left + rows@[j].right) % (FIELD_MODULUS as int),
        decreases n - i,
    {
        let prev_left = rows[i - 1].left;
        let prev_right = rows[i - 1].right;
        rows.push(FibonacciRow::new(prev_right, field_add(prev_left, prev_right)));
        i += 1;
    }
    let mut values: Vec<u64> = Vec::new();
    let mut j: usize = 0;
    while j < rows.len()
        invariant
            j <= rows@.len(),
            values@.len() == 2 * j,
            forall|k: int|
                0 <= k < j ==> values@[2 * k] == #[trigger] rows@[k].left && values@[2 * k + 1]
                    == rows@[k].right,
        decreases rows@.len() - j,
    {
        let ghost pre: Seq<u64> = values@;
        values.push(rows[j].left);
        values.push(rows[j].right);
        proof {
            assert(values@ == pre.push(rows@[j as int].left).push(rows@[j as int].right));
            assert forall|k: int| 0 <= k < j + 1 implies values@[2 * k] == #[trigger] rows@[k].left
                && values@[2 * k + 1] == rows@[k].right by {
                if k < j {
                    assert(values@[2 * k] == pre[2 * k]);
                    assert(values@[2 * k + 1] == pre[2 * k + 1]);
                }
            }
        }
        j += 1;
    }
    let m = Matrix { width: 2, values };
    proof {
        assert(m.spec_height() == n);
        assert(m.values@.len() as int % 2 == 0);
        assert forall|k: int| 0 <= k < m.values@.len() implies is_field_element(
            #[trigger] m.values@[k],
        ) by {
            let r = k / 2;
            if k % 2 == 0 {
                assert(k == 2 * r);
                assert(values@[2 * r] == rows@[r].left);
            } else {
                assert(k == 2 * r + 1);
                assert(values@[2 * r] == rows@[r].left);
                assert(values@[2 * r + 1] == rows@[r].right);
            }
        }
        assert forall|i2: int| 0 <= i2 < n - 1 implies #[trigger] fib_step(m, i2) by {
            assert(m.at(i2, 0) == rows@[i2].left);
            assert(m.at(i2, 1) == rows@[i2].right);
            assert(m.at(i2 + 1, 0) == rows@[i2 + 1].left);
            assert(m.at(i2 + 1, 1) == rows@[i2 + 1].right);
        }
    }
    m
}

impl FibonacciAir {
    /// The trace width of the recurrence circuit.
    pub fn width(&self) -> (w: usize)
        ensures
            w == 2,
    {
        2
    }

    /// Decides whether a trace and public inputs satisfy every constraint the
    /// circuit declares — the boundary rows and each transition.
    pub fn eval(&self, main: &Matrix, pis: &[u64]) -> (r: bool)
        requires
            main.wf(),
        ensures
            r == fib_constraints_hold(*main, pis@),
    {
        proof {
            crate::matrix::lemma_matrix_cell_count(*main);
            assert(!is_pow2(0));
        }
        if main.width != 2 {
            return false;
        }
        let vl: usize = main.values.len();
        let h = main.height();
        proof {
            assert(h >= 1);
            assert(vl == 2 * h);
        }
        if pis.len() != 3 {
            return false;
        }
        if main.values[0] != pis[0] || main.values[1] != pis[1] {
            return false;
        }
        if main.values[2 * h - 1] != pis[2] {
            return false;
        }
        let mut i: usize = 0;
        while i + 1 < h
            invariant
                main.wf(),
                main.width == 2,
                h == main.spec_height(),
                1 <= h,
                h <= vl,
                vl == main.values@.len(),
                main.values@.len() == 2 * h,
                i < h,
                forall|j: int| 0 <= j < i ==> #[trigger] fib_step(*main, j),
            decreases h - i,
        {
            let left = main.values[2 * i];
            let right = main.values[2 * i + 1];
            if main.values[2 * i + 2] != right {
                proof {
                    assert(!fib_step(*main, i as int));
                }
                return false;
            }
            if main.values[2 * i + 3] != field_add(left, right) {
                proof {
                    assert(!fib_step(*main, i as int));
                }
                return false;
            }
            i += 1;
        }
        true
    }
}

/// Law: a trace with the recurrence shape satisfies the circuit's constraints
/// for the public inputs `[first left, first right, last right]`.
pub proof fn lemma_recurrence_trace_satisfies_constraints(m: Matrix, pis: Seq<u64>)
    requires
        m.width == 2,
        m.spec_height() >= 1,
        forall|i: int| 0 <= i < m.spec_height() - 1 ==> #[trigger] fib_step(m, i),
        pis =~= seq![m.at(0, 0), m.at(0, 1), m.at(m.spec_height() - 1, 1)],
    ensures
        fib_constraints_hold(m, pis),
{
}

/// The witness the recurrence prover consumes: the execution trace and the
/// three public inputs.
pub struct MyWitness {
    pub trace: Matrix,
    pub pis: Vec<u64>,
}

impl MyWitness {
    pub open spec fn wf(&self) -> bool {
        &&& self.trace.wf()
        &&& valid_felts(self.pis@)
    }
}

/// The encoding of a recurrence witness: the trace, then the public inputs.
pub open spec fn spec_encode_fib_witness(w: MyWitness) -> Seq<u8> {
    spec_encode_matrix(w.trace) + spec_encode_felts(w.pis@)
}

/// Encodes a recurrence witness.
pub fn encode_witness(w: &MyWitness) -> (r: Vec<u8>)
    requires
        w.wf(),
    ensures
        r@ == spec_encode_fib_witness(*w),
{
    let mut out = encode_matrix(&w.trace);
    let mut rest = encode_felts(w.pis.as_slice());
    out.append(&mut rest);
    out
}

/// Decodes a recurrence witness, consuming the whole buffer. Succeeds exactly
/// on the encodings of well-formed witnesses.
pub fn decode_witness(buf: &[u8]) -> (r: Result<MyWitness, DecodeError>)
    ensures
        match r {
            Ok(w) => w.wf() && buf@ == spec_encode_fib_witness(w),
            Err(_) => forall|w: MyWitness| w.wf() ==> buf@ != spec_encode_fib_witness(w),
        },
{
    let m_res = decode_matrix_at(buf, 0);
    match m_res {
        Err(e) => {
            proof {
                assert forall|w: MyWitness| w.wf() implies buf@ != spec_encode_fib_witness(w) by {
                    if buf@ == spec_encode_fib_witness(w) {
                        lemma_matrix_enc_len(w.trace);
                        lemma_felts_len(w.pis@);
                        let ml = spec_encode_matrix(w.trace).len() as int;
                        assert(buf@.subrange(0, ml) =~= spec_encode_matrix(w.trace));
                        assert(encodes_matrix_at(buf@, 0, w.trace));
                        assert(false);
                    }
                }
            }
            Err(e)
        },
        Ok((m, end)) => {
            let buf_len: usize = buf.len();
            let tail = slice_subrange(buf, end, buf_len);
            let pis_res = decode_felts(tail);
            match pis_res {
                Err(e) => {
                    proof {
                        assert forall|w: MyWitness| w.wf() implies buf@
                            != spec_encode_fib_witness(w) by {
                            if buf@ == spec_encode_fib_witness(w) {
                                lemma_matrix_enc_len(w.trace);
                                lemma_felts_len(w.pis@);
                                let ml = spec_encode_matrix(w.trace).len() as int;
                                assert(buf@.subrange(0, ml) =~= spec_encode_matrix(w.trace));
                                if ml <= end {
                                    assert(buf@.subrange(0, end as int).subrange(0, ml)
                                        =~= spec_encode_matrix(w.trace));
                                    lemma_matrix_prefix(w.trace, m);
                                } else {
                                    assert(buf@.subrange(0, ml).subrange(0, end as int)
                                        =~= spec_encode_matrix(m));
                                    lemma_matrix_prefix(m, w.trace);
                                }
                                assert(ml == end as int);
                                assert(tail@ =~= spec_encode_felts(w.pis@));
                                assert(false);
                            }
                        }
                    }
                    Err(e)
                },
                Ok(pis) => {
                    let w = MyWitness { trace: m, pis };
                    proof {
                        assert(buf@ =~= spec_encode_fib_witness(w));
                    }
                    Ok(w)
                },
            }
        },
    }
}

/// An encoding that starts another encoding is that whole encoding: no
/// recurrence-witness encoding is a proper prefix of another.
pub proof fn lemma_fib_witness_prefix(w1: MyWitness, w2: MyWitness)
    requires
        w1.wf(),
        w2.wf(),
        spec_encode_fib_witness(w1).len() <= spec_encode_fib_witness(w2).len(),
        spec_encode_fib_witness(w2).subrange(0, spec_encode_fib_witness(w1).len() as int)
            == spec_encode_fib_witness(w1),
    ensures
        w1.trace.width == w2.trace.width,
        w1.trace.values@ == w2.trace.values@,
        w1.pis@ == w2.pis@,
        spec_encode_fib_witness(w1) == spec_encode_fib_witness(w2),
{
    lemma_matrix_enc_len(w1.trace);
    lemma_matrix_enc_len(w2.trace);
    lemma_felts_len(w1.pis@);
    lemma_felts_len(w2.pis@);
    let e1 = spec_encode_fib_witness(w1);
    let e2 = spec_encode_fib_witness(w2);
    let m1 = spec_encode_matrix(w1.trace);
    let m2 = spec_encode_matrix(w2.trace);
    assert(e1.subrange(0, m1.len() as int) =~= m1);
    assert(e2.subrange(0, m2.len() as int) =~= m2);
    if m1.len() <= m2.len() {
        assert(m2.subrange(0, m1.len() as int) =~= m1);
        lemma_matrix_prefix(w1.trace, w2.trace);
    } else {
        assert(m1.subrange(0, m2.len() as int) =~= m2);
        lemma_matrix_prefix(w2.trace, w1.trace);
    }
    assert(m1.len() == m2.len());
    let f1 = spec_encode_felts(w1.pis@);
    let f2 = spec_encode_felts(w2.pis@);
    assert(f1 =~= e1.subrange(m1.len() as int, e1.len() as int));
    assert(f2 =~= e2.subrange(m1.len() as int, e2.len() as int));
    assert(f2.subrange(0, f1.len() as int) =~= f1);
    lemma_felts_prefix(w1.pis@, w2.pis@);
    assert(e1 =~= e2);
}

/// Law: the recurrence-witness encoding is injective. Together with
/// `decode_witness`'s contract, encode-then-decode is the identity.
pub proof fn lemma_fib_witness_encoding_injective(w1: MyWitness, w2: MyWitness)
    requires
        w1.wf(),
        w2.wf(),
        spec_encode_fib_witness(w1) == spec_encode_fib_witness(w2),
    ensures
        w1.trace.width == w2.trace.width,
        w1.trace.values@ == w2.trace.values@,
        w1.pis@ == w2.pis@,
{
    assert(spec_encode_fib_witness(w2).subrange(0, spec_encode_fib_witness(w1).len() as int)
        =~= spec_encode_fib_witness(w1));
    lemma_fib_witness_prefix(w1, w2);
}

/// Law: no proper prefix of a recurrence-witness encoding is itself such an
/// encoding. Together with `decode_witness`'s contract, decoding any
/// truncated prefix of a valid encoding fails.
pub proof fn lemma_fib_witness_truncation(w1: MyWitness, k: int, w2: MyWitness)
    requires
        w1.wf(),
        w2.wf(),
        0 <= k < spec_encode_fib_witness(w1).len(),
    ensures
        spec_encode_fib_witness(w1).subrange(0, k) != spec_encode_fib_witness(w2),
{
    if spec_encode_fib_witness(w1).subrange(0, k) == spec_encode_fib_witness(w2) {
        assert(spec_encode_fib_witness(w1).subrange(0, spec_encode_fib_witness(w2).len() as int)
            =~= spec_encode_fib_witness(w2));
        lemma_fib_witness_prefix(w2, w1);
        assert(false);
    }
}

} // verus!
