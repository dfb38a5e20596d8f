//! Row-major execution-trace matrices of field elements, and their wire
//! encoding: a width and height header, then the cells row by row.

use vstd::prelude::*;
use vstd::bytes::lemma_auto_spec_u64_to_from_le_bytes;
use vstd::bytes::spec_u64_from_le_bytes;
use vstd::bytes::spec_u64_to_le_bytes;
use vstd::bytes::u64_from_le_bytes;
use vstd::slice::slice_subrange;
use crate::codec::lemma_words_injective;
use crate::codec::lemma_words_len;
use crate::codec::read_words;
use crate::codec::spec_encode_words;
use crate::codec::write_u64;
use crate::codec::write_words;
use crate::codec::DecodeError;
use crate::field::is_field_element;
use crate::field::FIELD_MODULUS;

verus! {

/// Whether `n` is a power of two.
pub open spec fn is_pow2(n: nat) -> bool
    decreases n,
{
    if n == 0 {
        false
    } else if n == 1 {
        true
    } else {
        n % 2 == 0 && is_pow2(n / 2)
    }
}

/// Decides whether `n` is a power of two.
pub fn check_pow2(n: u64) -> (r: bool)
    ensures
        r == is_pow2(n as nat),
{
    if n == 0 {
        return false;
    }
    let mut m = n;
    while m > 1
        invariant
            m >= 1,
            is_pow2(n as nat) == is_pow2(m as nat),
        decreases m,
    {
        if m % 2 == 1 {
            return false;
        }
        m = m / 2;
    }
    true
}

/// A row-major matrix of field elements: a fixed width, and a power-of-two
/// number of rows, as the polynomial commitment underneath the prover
/// requires.
pub struct Matrix {
    pub width: usize,
    pub values: Vec<u64>,
}

impl Matrix {
    /// The number of rows.
    pub open spec fn spec_height(&self) -> int {
        self.values@.len() as int / self.width as int
    }

    /// Well-formed: positive width, whole rows only, a power-of-two height,
    /// and every cell a canonical field element.
    pub open spec fn wf(&self) -> bool {
        &&& self.width > 0
        &&& self.values@.len() <= u64::MAX
        &&& self.values@.len() as int % (self.width as int) == 0
        &&& is_pow2(self.spec_height() as nat)
        &&& forall|i: int| 0 <= i < self.values@.len() ==> is_field_element(self.values@[i])
    }

    /// The cell at row `r`, column `c`.
    pub open spec fn at(&self, r: int, c: int) -> u64 {
        self.values@[r * self.width as int + c]
    }

    /// The number of rows.
    pub fn height(&self) -> (h: usize)
        requires
            self.width > 0,
        ensures
            h == self.spec_height(),
    {
        self.values.len() / self.width
    }
}

/// The encoding of a matrix: width, height, then the cells row-major, all as
/// eight-byte little-endian words.
pub open spec fn spec_encode_matrix(m: Matrix) -> Seq<u8> {
    spec_u64_to_le_bytes(m.width as u64) + spec_u64_to_le_bytes(m.spec_height() as u64)
        + spec_encode_words(m.values@)
}

pub proof fn lemma_matrix_enc_len(m: Matrix)
    ensures
        spec_encode_matrix(m).len() == 16 + 8 * m.values@.len(),
{
    lemma_auto_spec_u64_to_from_le_bytes();
    lemma_words_len(m.values@);
}

/// A well-formed matrix has exactly `width * height` cells.
pub proof fn lemma_matrix_cell_count(m: Matrix)
    requires
        m.width > 0,
        m.values@.len() as int % (m.width as int) == 0,
    ensures
        m.values@.len() == m.width as int * m.spec_height(),
        0 <= m.spec_height() <= m.values@.len(),
{
    let len = m.values@.len() as int;
    let w = m.width as int;
    assert(len == w * (len / w) + len % w && len / w <= len && len / w >= 0) by (nonlinear_arith)
        requires
            w >= 1,
            len >= 0,
    ;
}

/// Encodes a matrix.
pub fn encode_matrix(m: &Matrix) -> (r: Vec<u8>)
    requires
        m.wf(),
    ensures
        r@ == spec_encode_matrix(*m),
{
    proof {
        lemma_matrix_cell_count(*m);
    }
    let mut out: Vec<u8> = Vec::new();
    write_u64(&mut out, m.width as u64);
    write_u64(&mut out, m.height() as u64);
    write_words(&mut out, m.values.as_slice());
    proof {
        assert(out@ =~= spec_encode_matrix(*m));
    }
    out
}

/// Whether the encoding of `m` sits at `pos` in `b`, in full.
pub open spec fn encodes_matrix_at(b: Seq<u8>, pos: int, m: Matrix) -> bool {
    &&& pos + spec_encode_matrix(m).len() <= b.len()
    &&& b.subrange(pos, pos + spec_encode_matrix(m).len() as int) == spec_encode_matrix(m)
}

/// When a well-formed matrix is encoded at `pos`, the two header words there
/// pin its width and height, and with them its cell count, its encoded
/// length, and where its cells lie.
proof fn lemma_matrix_header_pins(b: Seq<u8>, pos: int, m: Matrix)
    requires
        m.wf(),
        encodes_matrix_at(b, pos, m),
        0 <= pos,
        pos + 16 <= b.len(),
    ensures
        spec_u64_from_le_bytes(b.subrange(pos, pos + 8)) == m.width as u64,
        spec_u64_from_le_bytes(b.subrange(pos + 8, pos + 16)) == m.spec_height() as u64,
        m.values@.len() == m.width as int * m.spec_height(),
        spec_encode_matrix(m).len() == 16 + 8 * m.values@.len(),
        spec_encode_words(m.values@) == b.subrange(pos + 16, pos + 16 + 8 * m.values@.len()),
{
    lemma_auto_spec_u64_to_from_le_bytes();
    lemma_matrix_enc_len(m);
    lemma_matrix_cell_count(m);
    lemma_words_len(m.values@);
    let e = spec_encode_matrix(m);
    let elen = e.len() as int;
    assert forall|k: int| 0 <= k < elen implies b[pos + k] == e[k] by {
        assert(b.subrange(pos, pos + elen)[k] == e[k]);
    }
    assert(b.subrange(pos, pos + 8) =~= e.subrange(0, 8));
    assert(e.subrange(0, 8) =~= spec_u64_to_le_bytes(m.width as u64));
    assert(b.subrange(pos + 8, pos + 16) =~= e.subrange(8, 16));
    assert(e.subrange(8, 16) =~= spec_u64_to_le_bytes(m.spec_height() as u64));
    assert(spec_encode_words(m.values@) =~= e.subrange(16, e.len() as int));
    assert(e.subrange(16, e.len() as int) =~= b.subrange(
        pos + 16,
        pos + 16 + 8 * m.values@.len(),
    ));
}

/// Decodes one matrix starting at `pos`; returns it and the position just
/// past its encoding. Fails exactly when no well-formed matrix is encoded
/// there.
pub fn decode_matrix_at(buf: &[u8], pos: usize) -> (r: Result<(Matrix, usize), DecodeError>)
    requires
        pos <= buf@.len(),
    ensures
        match r {
            Ok(v) => {
                &&& v.0.wf()
                &&& pos <= v.1 <= buf@.len()
                &&& buf@.subrange(pos as int, v.1 as int) == spec_encode_matrix(v.0)
                &&& v.1 - pos == spec_encode_matrix(v.0).len()
            },
            Err(_) => forall|m: Matrix| m.wf() ==> !encodes_matrix_at(buf@, pos as int, m),
        },
{
    let buf_len: usize = buf.len();
    if buf_len - pos < 16 {
        proof {
            assert forall|m: Matrix| m.wf() implies !encodes_matrix_at(buf@, pos as int, m) by {
                lemma_matrix_enc_len(m);
            }
        }
        return Err(DecodeError::Truncated);
    }
    let w = u64_from_le_bytes(slice_subrange(buf, pos, pos + 8));
    let h = u64_from_le_bytes(slice_subrange(buf, pos + 8, pos + 16));
    proof {
        lemma_auto_spec_u64_to_from_le_bytes();
    }
    if w == 0 || !check_pow2(h) {
        proof {
            assert forall|m: Matrix| m.wf() implies !encodes_matrix_at(buf@, pos as int, m) by {
                if encodes_matrix_at(buf@, pos as int, m) {
                    lemma_matrix_header_pins(buf@, pos as int, m);
                    assert(false);
                }
            }
        }
        return Err(DecodeError::InvalidValue);
    }
    let avail: usize = (buf_len - pos - 16) / 8;
    proof {
        assert(w as int * h as int <= u128::MAX) by (nonlinear_arith)
            requires
                w <= u64::MAX,
                h <= u64::MAX,
        ;
    }
    let need: u128 = (w as u128) * (h as u128);
    if need > avail as u128 {
        proof {
            assert forall|m: Matrix| m.wf() implies !encodes_matrix_at(buf@, pos as int, m) by {
                if encodes_matrix_at(buf@, pos as int, m) {
                    lemma_matrix_header_pins(buf@, pos as int, m);
                    assert(m.values@.len() == w as int * h as int);
                    assert(8 * m.values@.len() <= buf_len - pos - 16);
                    assert(w as int * h as int <= avail as int);
                    assert(false);
                }
            }
        }
        return Err(DecodeError::Truncated);
    }
    proof {
        assert(w as int * h as int <= avail as int);
        assert(h >= 1);
        assert(w as int <= w as int * h as int && h as int <= w as int * h as int)
            by (nonlinear_arith)
            requires
                w as int >= 1,
                h as int >= 1,
        ;
    }
    let cnt: usize = (w as usize) * (h as usize);
    let v = read_words(buf, pos + 16, cnt);
    proof {
        lemma_auto_spec_u64_to_from_le_bytes();
        assert(buf@.subrange(pos as int, pos + 8) == spec_u64_to_le_bytes(w));
        assert(buf@.subrange(pos + 8, pos + 16) == spec_u64_to_le_bytes(h));
    }
    let mut i: usize = 0;
    while i < cnt
        invariant
            i <= cnt,
            pos + 16 + 8 * cnt <= buf_len,
            buf_len == buf@.len(),
            cnt == w as int * h as int,
            w >= 1,
            is_pow2(h as nat),
            v@.len() == cnt,
            spec_encode_words(v@) == buf@.subrange(pos + 16, pos + 16 + 8 * cnt),
            buf@.subrange(pos as int, pos + 8) == spec_u64_to_le_bytes(w),
            buf@.subrange(pos + 8, pos + 16) == spec_u64_to_le_bytes(h),
            forall|j: int| 0 <= j < i ==> is_field_element(v@[j]),
        decreases cnt - i,
    {
        if v[i] >= FIELD_MODULUS {
            proof {
                lemma_auto_spec_u64_to_from_le_bytes();
                assert forall|m: Matrix| m.wf() implies !encodes_matrix_at(buf@, pos as int, m) by {
                    if encodes_matrix_at(buf@, pos as int, m) {
                        lemma_matrix_header_pins(buf@, pos as int, m);
                        assert(m.values@.len() == w as int * h as int);
                        lemma_words_injective(m.values@, v@);
                        assert(!is_field_element(m.values@[i as int]));
                        assert(false);
                    }
                }
            }
            return Err(DecodeError::InvalidValue);
        }
        i += 1;
    }
    let m = Matrix { width: w as usize, values: v };
    proof {
        assert(m.values@.len() as int % (m.width as int) == 0 && m.spec_height() == h as int)
            by (nonlinear_arith)
            requires
                m.width as int == w as int,
                w as int >= 1,
                m.values@.len() as int == w as int * h as int,
        ;
        lemma_matrix_enc_len(m);
        assert(buf@.subrange(pos as int, pos + 16 + 8 * cnt) =~= spec_encode_matrix(m));
    }
    Ok((m, pos + 16 + 8 * cnt))
}

/// An encoding that starts another encoding is that whole encoding: the two
/// header words pin the cell count, so no matrix encoding is a proper prefix
/// of another.
pub proof fn lemma_matrix_prefix(m1: Matrix, m2: Matrix)
    requires
        m1.wf(),
        m2.wf(),
        spec_encode_matrix(m1).len() <= spec_encode_matrix(m2).len(),
        spec_encode_matrix(m2).subrange(0, spec_encode_matrix(m1).len() as int)
            == spec_encode_matrix(m1),
    ensures
        m1.width == m2.width,
        m1.values@ == m2.values@,
        spec_encode_matrix(m1) == spec_encode_matrix(m2),
{
    lemma_auto_spec_u64_to_from_le_bytes();
    lemma_matrix_enc_len(m1);
    lemma_matrix_enc_len(m2);
    lemma_matrix_cell_count(m1);
    lemma_matrix_cell_count(m2);
    let e1 = spec_encode_matrix(m1);
    let e2 = spec_encode_matrix(m2);
    assert(e1.subrange(0, 8) =~= spec_u64_to_le_bytes(m1.width as u64));
    assert(e2.subrange(0, 8) =~= spec_u64_to_le_bytes(m2.width as u64));
    assert(e2.subrange(0, e1.len() as int).subrange(0, 8) =~= e2.subrange(0, 8));
    assert(m1.width == m2.width);
    assert(e1.subrange(8, 16) =~= spec_u64_to_le_bytes(m1.spec_height() as u64));
    assert(e2.subrange(8, 16) =~= spec_u64_to_le_bytes(m2.spec_height() as u64));
    assert(e2.subrange(0, e1.len() as int).subrange(8, 16) =~= e2.subrange(8, 16));
    assert(m1.spec_height() == m2.spec_height());
    assert(m1.values@.len() == m2.values@.len());
    assert(e2.subrange(0, e1.len() as int) =~= e2);
    lemma_words_len(m1.values@);
    lemma_words_len(m2.values@);
    assert(spec_encode_words(m1.values@) =~= e1.subrange(16, e1.len() as int));
    assert(spec_encode_words(m2.values@) =~= e2.subrange(16, e2.len() as int));
    lemma_words_injective(m1.values@, m2.values@);
}

/// Law: the matrix encoding is injective. Together with `decode_matrix_at`'s
/// contract, encode-then-decode is the identity.
pub proof fn lemma_matrix_encoding_injective(m1: Matrix, m2: Matrix)
    requires
        m1.wf(),
        m2.wf(),
        spec_encode_matrix(m1) == spec_encode_matrix(m2),
    ensures
        m1.width == m2.width,
        m1.values@ == m2.values@,
{
    assert(spec_encode_matrix(m2).subrange(0, spec_encode_matrix(m1).len() as int)
        =~= spec_encode_matrix(m1));
    lemma_matrix_prefix(m1, m2);
}

/// Law: no proper prefix of a matrix encoding is itself a matrix encoding.
/// Together with `decode_matrix_at`'s contract, decoding any truncated prefix
/// of a valid encoding fails.
pub proof fn lemma_matrix_truncation(m1: Matrix, k: int, m2: Matrix)
    requires
        m1.wf(),
        m2.wf(),
        0 <= k < spec_encode_matrix(m1).len(),
    ensures
        spec_encode_matrix(m1).subrange(0, k) != spec_encode_matrix(m2),
{
    if spec_encode_matrix(m1).subrange(0, k) == spec_encode_matrix(m2) {
        assert(spec_encode_matrix(m1).subrange(0, spec_encode_matrix(m2).len() as int)
            =~= spec_encode_matrix(m2));
        lemma_matrix_prefix(m2, m1);
        assert(false);
    }
}

} // verus!
