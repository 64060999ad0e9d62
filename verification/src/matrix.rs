use num::complex::Complex;
use vstd::prelude::*;
use vstd::slice::slice_subrange;

use crate::bits::sign_extend;
use crate::error::CsiError;
use crate::stream::{field, lemma_field_of_equal_prefixes, BitReader};

verus! {

/// The most receive antennas, and the most transmit antennas, that a matrix holds.
pub const MAX_ANTENNAS: usize = 3;

/// The most tones (subcarriers) that a matrix holds for one antenna pair.
pub const MAX_TONES: usize = 114;

/// The width in bits of one packed component of a sample.
pub const SAMPLE_BITS: u8 = 10;

/// The cell of a matrix for receive antenna `i`, transmit antenna `j` and tone `t`.
pub open spec fn cell(m: Vec<Vec<Vec<Complex<isize>>>>, i: int, j: int, t: int) -> Complex<isize> {
    m[i][j][t]
}

/// A matrix has its full capacity: 3 receive antennas by 3 transmit antennas by 114 tones.
pub open spec fn matrix_wf(m: Vec<Vec<Vec<Complex<isize>>>>) -> bool {
    &&& m.len() == MAX_ANTENNAS
    &&& forall|i: int| 0 <= i < MAX_ANTENNAS ==> (#[trigger] m[i]).len() == MAX_ANTENNAS
    &&& forall|i: int, j: int|
        0 <= i < MAX_ANTENNAS && 0 <= j < MAX_ANTENNAS ==> (#[trigger] m[i][j]).len() == MAX_TONES
}

/// The dimensions that a frame may declare.
pub open spec fn dimensions_ok(nr: int, nc: int, num_tones: int) -> bool {
    &&& 1 <= nr <= MAX_ANTENNAS
    &&& 1 <= nc <= MAX_ANTENNAS
    &&& 0 <= num_tones <= MAX_TONES
}

/// The 16-bit words that reading `values` packed components loads: the stream always
/// opens with one word, and a further word is loaded only when the next component
/// needs it.
pub open spec fn words_needed(values: int) -> int {
    if values <= 0 {
        1
    } else {
        (SAMPLE_BITS * values + 15) / 16
    }
}

/// The bytes of the stream that unpacking a matrix of the given dimensions reads.
pub open spec fn bytes_needed(nr: int, nc: int, num_tones: int) -> int {
    2 * words_needed(2 * (nr * nc * num_tones))
}

/// The place of a sample in the stream: tones come first, then transmit antennas,
/// then receive antennas.
pub open spec fn sample_index(nr: int, nc: int, i: int, j: int, t: int) -> int {
    (t * nc + j) * nr + i
}

/// The packed component number `v` of the stream, sign-extended.
pub open spec fn component(s: Seq<u8>, v: int) -> int {
    sign_extend(field(s, (SAMPLE_BITS * v) as nat, SAMPLE_BITS as nat) as int, SAMPLE_BITS as int)
}

/// The imaginary part of sample `n`, which is packed before the real part.
pub open spec fn sample_im(s: Seq<u8>, n: int) -> int {
    component(s, 2 * n)
}

/// The real part of sample `n`.
pub open spec fn sample_re(s: Seq<u8>, n: int) -> int {
    component(s, 2 * n + 1)
}

/// What unpacking stream `s` makes of matrix `before` once every sample that comes
/// before tone `t`, transmit antenna `j`, receive antenna `i` is written: those cells
/// hold their samples, every other cell is as it was.
pub open spec fn filled_to(
    before: Vec<Vec<Vec<Complex<isize>>>>,
    after: Vec<Vec<Vec<Complex<isize>>>>,
    s: Seq<u8>,
    nr: int,
    nc: int,
    num_tones: int,
    t: int,
    j: int,
    i: int,
) -> bool {
    &&& matrix_wf(after)
    &&& forall|a: int, b: int, c: int|
        0 <= a < MAX_ANTENNAS && 0 <= b < MAX_ANTENNAS && 0 <= c < MAX_TONES ==> {
            let x = #[trigger] cell(after, a, b, c);
            if a < nr && b < nc && c < num_tones && (c < t || (c == t && (b < j || (b == j && a
                < i)))) {
                &&& x.re == sample_re(s, sample_index(nr, nc, a, b, c))
                &&& x.im == sample_im(s, sample_index(nr, nc, a, b, c))
            } else {
                x == cell(before, a, b, c)
            }
        }
}

/// What unpacking stream `s` with the given dimensions makes of matrix `before`:
/// the cells within the dimensions hold the samples of the stream, the others are
/// as they were.
pub open spec fn unpacked(
    before: Vec<Vec<Vec<Complex<isize>>>>,
    after: Vec<Vec<Vec<Complex<isize>>>>,
    s: Seq<u8>,
    nr: int,
    nc: int,
    num_tones: int,
) -> bool {
    filled_to(before, after, s, nr, nc, num_tones, num_tones, 0, 0)
}

/// A matrix of full capacity with every cell zero.
pub fn new_matrix() -> (m: Vec<Vec<Vec<Complex<isize>>>>)
    ensures
        matrix_wf(m),
        forall|a: int, b: int, c: int|
            0 <= a < MAX_ANTENNAS && 0 <= b < MAX_ANTENNAS && 0 <= c < MAX_TONES ==> {
                let x = #[trigger] cell(m, a, b, c);
                x.re == 0 && x.im == 0
            },
{
    let mut m: Vec<Vec<Vec<Complex<isize>>>> = Vec::new();
    let mut i: usize = 0;
    while i < MAX_ANTENNAS
        invariant
            i <= MAX_ANTENNAS,
            m.len() == i,
            forall|a: int| 0 <= a < i ==> (#[trigger] m[a]).len() == MAX_ANTENNAS,
            forall|a: int, b: int|
                0 <= a < i && 0 <= b < MAX_ANTENNAS ==> (#[trigger] m[a][b]).len() == MAX_TONES,
            forall|a: int, b: int, c: int|
                0 <= a < i && 0 <= b < MAX_ANTENNAS && 0 <= c < MAX_TONES ==> {
                    let x = #[trigger] m[a][b][c];
                    x.re == 0 && x.im == 0
                },
        decreases MAX_ANTENNAS - i,
    {
        let mut row: Vec<Vec<Complex<isize>>> = Vec::new();
        let mut j: usize = 0;
        while j < MAX_ANTENNAS
            invariant
                j <= MAX_ANTENNAS,
                row.len() == j,
                forall|b: int| 0 <= b < j ==> (#[trigger] row[b]).len() == MAX_TONES,
                forall|b: int, c: int|
                    0 <= b < j && 0 <= c < MAX_TONES ==> {
                        let x = #[trigger] row[b][c];
                        x.re == 0 && x.im == 0
                    },
            decreases MAX_ANTENNAS - j,
        {
            let mut tones: Vec<Complex<isize>> = Vec::new();
            let mut t: usize = 0;
            while t < MAX_TONES
                invariant
                    t <= MAX_TONES,
                    tones.len() == t,
                    forall|c: int|
                        0 <= c < t ==> {
                            let x = #[trigger] tones[c];
                            x.re == 0 && x.im == 0
                        },
                decreases MAX_TONES - t,
            {
                tones.push(Complex::new(0, 0));
                t += 1;
            }
            row.push(tones);
            j += 1;
        }
        m.push(row);
        i += 1;
    }
    m
}

/// Writes one cell and leaves the others alone.
fn set_cell(m: &mut Vec<Vec<Vec<Complex<isize>>>>, i: usize, j: usize, t: usize, re: isize, im: isize)
    requires
        matrix_wf(*old(m)),
        i < MAX_ANTENNAS,
        j < MAX_ANTENNAS,
        t < MAX_TONES,
    ensures
        matrix_wf(*final(m)),
        cell(*final(m), i as int, j as int, t as int).re == re,
        cell(*final(m), i as int, j as int, t as int).im == im,
        forall|a: int, b: int, c: int|
            0 <= a < MAX_ANTENNAS && 0 <= b < MAX_ANTENNAS && 0 <= c < MAX_TONES && !(a == i && b
                == j && c == t) ==> #[trigger] cell(*final(m), a, b, c) == cell(*old(m), a, b, c),
{
    m[i][j][t].im = im;
    m[i][j][t].re = re;
}

proof fn lemma_sample_index_bound(nr: int, nc: int, num_tones: int, i: int, j: int, t: int)
    requires
        0 <= i < nr,
        0 <= j < nc,
        0 <= t < num_tones,
    ensures
        0 <= sample_index(nr, nc, i, j, t) < nr * nc * num_tones,
        sample_index(nr, nc, i, j, t) + 1 == sample_index(nr, nc, i + 1, j, t),
        sample_index(nr, nc, nr, j, t) == sample_index(nr, nc, 0, j + 1, t),
        sample_index(nr, nc, 0, nc, t) == sample_index(nr, nc, 0, 0, t + 1),
{
    assert((t * nc + j) * nr + nr == (t * nc + (j + 1)) * nr) by (nonlinear_arith);
    assert((t * nc + nc) * nr == ((t + 1) * nc + 0) * nr) by (nonlinear_arith);
    assert(0 <= (t * nc + j) * nr) by (nonlinear_arith)
        requires
            0 <= t,
            0 <= j,
            0 < nc,
            0 < nr,
    ;
    assert((t * nc + j) * nr + i < nr * nc * num_tones) by (nonlinear_arith)
        requires
            0 <= i < nr,
            0 <= j < nc,
            0 <= t < num_tones,
    ;
}

/// Unpacks the samples of `stream` into `matrix`.
///
/// The stream holds, for each tone, for each transmit antenna, for each receive
/// antenna, the imaginary and then the real part of one sample, each a 10-bit
/// two's-complement number, packed without gaps into little-endian 16-bit words.
/// On success every cell within the dimensions holds its sample, the other cells
/// are as they were, and the result is the number of bytes read. A stream that is
/// too short for the dimensions is refused before anything is written.
pub fn unpack_into(
    matrix: &mut Vec<Vec<Vec<Complex<isize>>>>,
    stream: &[u8],
    nr: usize,
    nc: usize,
    num_tones: usize,
) -> (r: Result<usize, CsiError>)
    requires
        matrix_wf(*old(matrix)),
    ensures
        matrix_wf(*final(matrix)),
        match r {
            Ok(n) => {
                &&& dimensions_ok(nr as int, nc as int, num_tones as int)
                &&& n == bytes_needed(nr as int, nc as int, num_tones as int)
                &&& n <= stream@.len()
                &&& unpacked(
                    *old(matrix),
                    *final(matrix),
                    stream@,
                    nr as int,
                    nc as int,
                    num_tones as int,
                )
            },
            Err(e) => {
                &&& *final(matrix) == *old(matrix)
                &&& e == CsiError::InvalidDimensions <==> !dimensions_ok(
                    nr as int,
                    nc as int,
                    num_tones as int,
                )
                &&& e == CsiError::TruncatedFrame <==> dimensions_ok(
                    nr as int,
                    nc as int,
                    num_tones as int,
                ) && stream@.len() < bytes_needed(nr as int, nc as int, num_tones as int)
                &&& e != CsiError::MisalignedStream
            },
        },
{
    if nr < 1 || nr > MAX_ANTENNAS || nc < 1 || nc > MAX_ANTENNAS || num_tones > MAX_TONES {
        return Err(CsiError::InvalidDimensions);
    }
    assert(nr * nc <= 9 && nr * nc * num_tones <= 1026) by (nonlinear_arith)
        requires
            1 <= nr <= 3,
            1 <= nc <= 3,
            num_tones <= 114,
    ;
    let total: usize = nr * nc * num_tones;
    let values: usize = 2 * total;
    let words: usize = if values == 0 {
        1
    } else {
        (10 * values + 15) / 16
    };
    let need: usize = 2 * words;
    if stream.len() < need {
        return Err(CsiError::TruncatedFrame);
    }
    let mut reader = match BitReader::new(stream) {
        Ok(b) => b,
        Err(e) => {
            return Err(e);
        },
    };
    let ghost before = *matrix;
    let mut t: usize = 0;
    assert(sample_index(nr as int, nc as int, 0, 0, 0) == 0) by (nonlinear_arith);
    while t < num_tones
        invariant
            1 <= nr <= MAX_ANTENNAS,
            1 <= nc <= MAX_ANTENNAS,
            t <= num_tones <= MAX_TONES,
            total == nr * nc * num_tones,
            need == bytes_needed(nr as int, nc as int, num_tones as int),
            need <= stream@.len(),
            reader.wf(),
            reader.stream() == stream@,
            reader.loaded() % 2 == 0,
            reader.position() == 20 * sample_index(nr as int, nc as int, 0, 0, t as int),
            t == 0 ==> reader.held() == 16,
            t > 0 ==> reader.held() <= 15,
            filled_to(
                before,
                *matrix,
                stream@,
                nr as int,
                nc as int,
                num_tones as int,
                t as int,
                0,
                0,
            ),
        decreases num_tones - t,
    {
        let mut j: usize = 0;
        while j < nc
            invariant
                1 <= nr <= MAX_ANTENNAS,
                1 <= nc <= MAX_ANTENNAS,
                j <= nc,
                t < num_tones <= MAX_TONES,
                total == nr * nc * num_tones,
                need == bytes_needed(nr as int, nc as int, num_tones as int),
                need <= stream@.len(),
                reader.wf(),
                reader.stream() == stream@,
                reader.loaded() % 2 == 0,
                reader.position() == 20 * sample_index(nr as int, nc as int, 0, j as int, t as int),
                t == 0 && j == 0 ==> reader.held() == 16,
                t > 0 || j > 0 ==> reader.held() <= 15,
                filled_to(
                    before,
                    *matrix,
                    stream@,
                    nr as int,
                    nc as int,
                    num_tones as int,
                    t as int,
                    j as int,
                    0,
                ),
            decreases nc - j,
        {
            let mut i: usize = 0;
            while i < nr
                invariant
                    1 <= nr <= MAX_ANTENNAS,
                    1 <= nc <= MAX_ANTENNAS,
                    i <= nr,
                    j < nc,
                    t < num_tones <= MAX_TONES,
                    total == nr * nc * num_tones,
                    need == bytes_needed(nr as int, nc as int, num_tones as int),
                    need <= stream@.len(),
                    reader.wf(),
                    reader.stream() == stream@,
                    reader.loaded() % 2 == 0,
                    reader.position() == 20 * sample_index(
                        nr as int,
                        nc as int,
                        i as int,
                        j as int,
                        t as int,
                    ),
                    t == 0 && j == 0 && i == 0 ==> reader.held() == 16,
                    t > 0 || j > 0 || i > 0 ==> reader.held() <= 15,
                    filled_to(
                        before,
                        *matrix,
                        stream@,
                        nr as int,
                        nc as int,
                        num_tones as int,
                        t as int,
                        j as int,
                        i as int,
                    ),
                decreases nr - i,
            {
                let ghost n = sample_index(nr as int, nc as int, i as int, j as int, t as int);
                proof {
                    lemma_sample_index_bound(
                        nr as int,
                        nc as int,
                        num_tones as int,
                        i as int,
                        j as int,
                        t as int,
                    );
                    reader.lemma_wf_bounds();
                }
                let im = match reader.read_signed(SAMPLE_BITS) {
                    Ok(v) => v,
                    Err(e) => {
                        return Err(e);
                    },
                };
                let re = match reader.read_signed(SAMPLE_BITS) {
                    Ok(v) => v,
                    Err(e) => {
                        return Err(e);
                    },
                };
                assert(im == sample_im(stream@, n));
                assert(re == sample_re(stream@, n));
                set_cell(matrix, i, j, t, re, im);
                i += 1;
            }
            proof {
                lemma_sample_index_bound(
                    nr as int,
                    nc as int,
                    num_tones as int,
                    0,
                    j as int,
                    t as int,
                );
            }
            j += 1;
        }
        proof {
            lemma_sample_index_bound(nr as int, nc as int, num_tones as int, 0, 0, t as int);
        }
        t += 1;
    }
    proof {
        assert(sample_index(nr as int, nc as int, 0, 0, num_tones as int) == total)
            by (nonlinear_arith)
            requires
                total == nr * nc * num_tones,
        ;
        assert(num_tones == 0 <==> total == 0) by (nonlinear_arith)
            requires
                total == nr * nc * num_tones,
                1 <= nr,
                1 <= nc,
        ;
        reader.lemma_wf_bounds();
    }
    Ok(reader.bytes_read())
}

/// Unpacks the samples that start at byte `offset` of `frame` into a fresh matrix,
/// whose cells outside the dimensions are zero.
///
/// Nothing is returned for a frame that ends before the last byte that the
/// dimensions call for.
pub fn unpack_matrix(frame: &[u8], offset: usize, nr: usize, nc: usize, num_tones: usize) -> (r:
    Result<Vec<Vec<Vec<Complex<isize>>>>, CsiError>)
    ensures
        match r {
            Ok(m) => {
                &&& dimensions_ok(nr as int, nc as int, num_tones as int)
                &&& offset + bytes_needed(nr as int, nc as int, num_tones as int) <= frame@.len()
                &&& matrix_wf(m)
                &&& forall|a: int, b: int, c: int|
                    0 <= a < MAX_ANTENNAS && 0 <= b < MAX_ANTENNAS && 0 <= c < MAX_TONES ==> {
                        let x = #[trigger] cell(m, a, b, c);
                        let n = sample_index(nr as int, nc as int, a, b, c);
                        if a < nr && b < nc && c < num_tones {
                            &&& x.re == sample_re(frame@.skip(offset as int), n)
                            &&& x.im == sample_im(frame@.skip(offset as int), n)
                        } else {
                            x.re == 0 && x.im == 0
                        }
                    }
            },
            Err(e) => {
                &&& e == CsiError::InvalidDimensions <==> !dimensions_ok(
                    nr as int,
                    nc as int,
                    num_tones as int,
                )
                &&& e == CsiError::TruncatedFrame <==> dimensions_ok(
                    nr as int,
                    nc as int,
                    num_tones as int,
                ) && frame@.len() < offset + bytes_needed(nr as int, nc as int, num_tones as int)
                &&& e != CsiError::MisalignedStream
            },
        },
{
    let mut m = new_matrix();
    let start = if offset <= frame.len() {
        offset
    } else {
        frame.len()
    };
    let stream = slice_subrange(frame, start, frame.len());
    match unpack_into(&mut m, stream, nr, nc, num_tones) {
        Ok(_) => Ok(m),
        Err(e) => Err(e),
    }
}

/// Unpacking reads no byte beyond those that the dimensions call for: two streams
/// that share them give every sample within the dimensions the same value.
pub proof fn lemma_samples_within_bytes_needed(
    s1: Seq<u8>,
    s2: Seq<u8>,
    nr: int,
    nc: int,
    num_tones: int,
    i: int,
    j: int,
    t: int,
)
    requires
        dimensions_ok(nr, nc, num_tones),
        0 <= i < nr,
        0 <= j < nc,
        0 <= t < num_tones,
        bytes_needed(nr, nc, num_tones) <= s1.len(),
        bytes_needed(nr, nc, num_tones) <= s2.len(),
        s1.take(bytes_needed(nr, nc, num_tones)) == s2.take(bytes_needed(nr, nc, num_tones)),
    ensures
        sample_re(s1, sample_index(nr, nc, i, j, t)) == sample_re(
            s2,
            sample_index(nr, nc, i, j, t),
        ),
        sample_im(s1, sample_index(nr, nc, i, j, t)) == sample_im(
            s2,
            sample_index(nr, nc, i, j, t),
        ),
{
    let n = sample_index(nr, nc, i, j, t);
    let need = bytes_needed(nr, nc, num_tones);
    lemma_sample_index_bound(nr, nc, num_tones, i, j, t);
    lemma_field_of_equal_prefixes(s1, s2, need as nat, (20 * n) as nat, 10);
    lemma_field_of_equal_prefixes(s1, s2, need as nat, (20 * n + 10) as nat, 10);
}

/// Unpacking is a function of the stream, the dimensions and the matrix before: any
/// two matrices that it may leave hold the same cells.
pub proof fn lemma_unpacked_is_unique(
    before: Vec<Vec<Vec<Complex<isize>>>>,
    first: Vec<Vec<Vec<Complex<isize>>>>,
    second: Vec<Vec<Vec<Complex<isize>>>>,
    s: Seq<u8>,
    nr: int,
    nc: int,
    num_tones: int,
)
    requires
        unpacked(before, first, s, nr, nc, num_tones),
        unpacked(before, second, s, nr, nc, num_tones),
    ensures
        forall|a: int, b: int, c: int|
            0 <= a < MAX_ANTENNAS && 0 <= b < MAX_ANTENNAS && 0 <= c < MAX_TONES ==> #[trigger] cell(
                first,
                a,
                b,
                c,
            ) == cell(second, a, b, c),
{
}

} // verus!
