//! The calibrated 2x2 direction matrix, its safety rule, the 28-byte `RLC1`
//! record in which the browser profiler stores it, and the decisions of the
//! watcher that keeps the live matrix in step with that record.

use vstd::prelude::*;

verus! {

/// Size of the calibration record kept at the end of the macro buffer.
pub const CALIBRATION_BLOB_SIZE: usize = 28;

pub const FORMAT_VERSION: u8 = 1;

pub const MAX_ABS_COEFFICIENT: i32 = 16_000;

pub const MIN_ABS_DETERMINANT: i64 = 10_000;

/// Direction matrix in thousandths (`1000` is a factor of one).
#[derive(Clone, Copy, Debug, PartialEq, Eq, Structural)]
pub struct MatrixCoefficients {
    pub m00: i32,
    pub m01: i32,
    pub m10: i32,
    pub m11: i32,
}

/// The factory direction matrix.
pub open spec fn default_matrix() -> MatrixCoefficients {
    MatrixCoefficients { m00: -265i32, m01: 1142i32, m10: -831i32, m11: 562i32 }
}

pub open spec fn abs(v: int) -> int {
    if v < 0 {
        -v
    } else {
        v
    }
}

pub open spec fn determinant(m: MatrixCoefficients) -> int {
    m.m00 * m.m11 - m.m01 * m.m10
}

/// A matrix may be applied when no coefficient exceeds 16.000 in magnitude and
/// it is not near-singular (|determinant| of at least 0.01 in thousandths squared).
pub open spec fn matrix_is_safe(m: MatrixCoefficients) -> bool {
    &&& abs(m.m00 as int) <= MAX_ABS_COEFFICIENT
    &&& abs(m.m01 as int) <= MAX_ABS_COEFFICIENT
    &&& abs(m.m10 as int) <= MAX_ABS_COEFFICIENT
    &&& abs(m.m11 as int) <= MAX_ABS_COEFFICIENT
    &&& abs(determinant(m)) >= MIN_ABS_DETERMINANT
}

impl Default for MatrixCoefficients {
    fn default() -> (m: Self)
        ensures
            m == default_matrix(),
    {
        MatrixCoefficients { m00: -265, m01: 1142, m10: -831, m11: 562 }
    }
}

fn magnitude_i32(v: i32) -> (r: u32)
    ensures
        r == abs(v as int),
{
    if v < 0 {
        (-(v as i64)) as u32
    } else {
        v as u32
    }
}

impl MatrixCoefficients {
    /// Whether the matrix may be applied to live motion.
    pub fn is_safe(self) -> (r: bool)
        ensures
            r == matrix_is_safe(self),
    {
        if magnitude_i32(self.m00) > MAX_ABS_COEFFICIENT as u32
            || magnitude_i32(self.m01) > MAX_ABS_COEFFICIENT as u32
            || magnitude_i32(self.m10) > MAX_ABS_COEFFICIENT as u32
            || magnitude_i32(self.m11) > MAX_ABS_COEFFICIENT as u32
        {
            return false;
        }
        let a = self.m00 as i64;
        let b = self.m01 as i64;
        let c = self.m10 as i64;
        let d = self.m11 as i64;
        proof {
            assert(-256_000_000 <= a * d <= 256_000_000) by (nonlinear_arith)
                requires
                    -16000 <= a <= 16000,
                    -16000 <= d <= 16000,
            ;
            assert(-256_000_000 <= b * c <= 256_000_000) by (nonlinear_arith)
                requires
                    -16000 <= b <= 16000,
                    -16000 <= c <= 16000,
            ;
        }
        let determinant = a * d - b * c;
        let magnitude: i64 = if determinant < 0 {
            -determinant
        } else {
            determinant
        };
        magnitude >= MIN_ABS_DETERMINANT
    }
}

/// The factory matrix passes the safety rule.
pub proof fn lemma_default_matrix_is_safe()
    ensures
        matrix_is_safe(default_matrix()),
{
    assert(determinant(default_matrix()) == -265 * 562 - 1142 * -831);
}

// ---------------------------------------------------------------------------
// The RLC1 record
// ---------------------------------------------------------------------------

/// FNV-1a (32-bit) of a byte sequence.
pub open spec fn fnv1a(bytes: Seq<u8>) -> u32
    decreases bytes.len(),
{
    if bytes.len() == 0 {
        0x811c_9dc5
    } else {
        vstd::wrapping::u32_specs::wrapping_mul(
            fnv1a(bytes.drop_last()) ^ (bytes.last() as u32),
            0x0100_0193,
        )
    }
}

/// The four little-endian bytes of a `u32`.
pub open spec fn le_bytes(v: u32) -> Seq<u8> {
    seq![(v & 0xff) as u8, ((v >> 8u32) & 0xff) as u8, ((v >> 16u32) & 0xff) as u8, (v >> 24u32) as u8]
}

/// The `u32` whose little-endian bytes are `b[at..at + 4]`.
pub open spec fn read_le(b: Seq<u8>, at: int) -> u32 {
    (b[at] as u32) | ((b[at + 1] as u32) << 8u32) | ((b[at + 2] as u32) << 16u32) | ((b[at + 3] as u32) << 24u32)
}

/// The first 24 bytes of the record of `m`: magic `RLC1`, format version 1,
/// a zero byte, the scale 1000 as little-endian `u16`, then the four
/// coefficients as little-endian `i32`.
pub open spec fn record_body(m: MatrixCoefficients) -> Seq<u8> {
    seq![0x52u8, 0x4cu8, 0x43u8, 0x31u8, FORMAT_VERSION, 0u8, 0xe8u8, 0x03u8]
        + le_bytes(m.m00 as u32) + le_bytes(m.m01 as u32)
        + le_bytes(m.m10 as u32) + le_bytes(m.m11 as u32)
}

/// The whole record of `m`: the body followed by its FNV-1a checksum.
pub open spec fn encoded_record(m: MatrixCoefficients) -> Seq<u8> {
    record_body(m) + le_bytes(fnv1a(record_body(m)))
}

/// Magic, version, reserved byte and scale of a record are as written.
pub open spec fn header_is_valid(b: Seq<u8>) -> bool {
    &&& b[0] == 0x52u8
    &&& b[1] == 0x4cu8
    &&& b[2] == 0x43u8
    &&& b[3] == 0x31u8
    &&& b[4] == FORMAT_VERSION
    &&& b[5] == 0u8
    &&& b[6] as int + 256 * (b[7] as int) == 1000
}

/// The matrix held in the coefficient bytes of a record.
pub open spec fn record_matrix(b: Seq<u8>) -> MatrixCoefficients {
    MatrixCoefficients {
        m00: read_le(b, 8) as i32,
        m01: read_le(b, 12) as i32,
        m10: read_le(b, 16) as i32,
        m11: read_le(b, 20) as i32,
    }
}

/// What a 28-byte record decodes to: its matrix when the header is valid,
/// the checksum matches the first 24 bytes and the matrix is safe.
pub open spec fn decoded_record(b: Seq<u8>) -> Option<MatrixCoefficients> {
    if header_is_valid(b) && read_le(b, 24) == fnv1a(b.take(24)) && matrix_is_safe(record_matrix(b)) {
        Some(record_matrix(b))
    } else {
        None
    }
}

/// FNV-1a checksum of `bytes`.
pub fn checksum(bytes: &[u8]) -> (r: u32)
    ensures
        r == fnv1a(bytes@),
{
    let mut hash: u32 = 0x811c_9dc5;
    let mut i: usize = 0;
    while i < bytes.len()
        invariant
            i <= bytes@.len(),
            hash == fnv1a(bytes@.take(i as int)),
        decreases bytes@.len() - i,
    {
        proof {
            assert(bytes@.take(i as int + 1).drop_last() =~= bytes@.take(i as int));
        }
        hash = (hash ^ bytes[i] as u32).wrapping_mul(0x0100_0193);
        i = i + 1;
    }
    proof {
        assert(bytes@.take(i as int) =~= bytes@);
    }
    hash
}

fn store_le(blob: &mut [u8; CALIBRATION_BLOB_SIZE], at: usize, v: u32)
    requires
        at + 4 <= CALIBRATION_BLOB_SIZE,
    ensures
        final(blob)@ == old(blob)@.take(at as int) + le_bytes(v) + old(blob)@.skip(at + 4),
{
    blob[at] = (v & 0xff) as u8;
    blob[at + 1] = ((v >> 8u32) & 0xff) as u8;
    blob[at + 2] = ((v >> 16u32) & 0xff) as u8;
    blob[at + 3] = (v >> 24u32) as u8;
    assert(blob@ =~= old(blob)@.take(at as int) + le_bytes(v) + old(blob)@.skip(at + 4));
}

fn load_le(blob: &[u8; CALIBRATION_BLOB_SIZE], at: usize) -> (r: u32)
    requires
        at + 4 <= CALIBRATION_BLOB_SIZE,
    ensures
        r == read_le(blob@, at as int),
{
    (blob[at] as u32) | ((blob[at + 1] as u32) << 8u32) | ((blob[at + 2] as u32) << 16u32)
        | ((blob[at + 3] as u32) << 24u32)
}

/// Serializes `matrix` as an `RLC1` record.
pub fn encode_blob(matrix: MatrixCoefficients) -> (blob: [u8; CALIBRATION_BLOB_SIZE])
    ensures
        blob@ == encoded_record(matrix),
{
    let mut blob = [0u8; CALIBRATION_BLOB_SIZE];
    blob[0] = 0x52;
    blob[1] = 0x4c;
    blob[2] = 0x43;
    blob[3] = 0x31;
    blob[4] = FORMAT_VERSION;
    blob[6] = 0xe8;
    blob[7] = 0x03;
    store_le(&mut blob, 8, matrix.m00 as u32);
    store_le(&mut blob, 12, matrix.m01 as u32);
    store_le(&mut blob, 16, matrix.m10 as u32);
    store_le(&mut blob, 20, matrix.m11 as u32);
    let body = &blob[0..24];
    proof {
        assert(body@ =~= record_body(matrix));
    }
    let sum = checksum(body);
    store_le(&mut blob, 24, sum);
    proof {
        assert(blob@ =~= encoded_record(matrix));
    }
    blob
}

/// Parses an `RLC1` record; `None` for a corrupt, foreign or unsafe record.
pub fn decode_blob(blob: &[u8; CALIBRATION_BLOB_SIZE]) -> (r: Option<MatrixCoefficients>)
    ensures
        r == decoded_record(blob@),
{
    if blob[0] != 0x52 || blob[1] != 0x4c || blob[2] != 0x43 || blob[3] != 0x31
        || blob[4] != FORMAT_VERSION || blob[5] != 0
    {
        return None;
    }
    if blob[6] as u16 + (blob[7] as u16) * 256 != 1000 {
        return None;
    }
    let body = &blob[0..24];
    if load_le(blob, 24) != checksum(body) {
        return None;
    }
    proof {
        assert(body@ =~= blob@.take(24));
    }
    let matrix = MatrixCoefficients {
        m00: load_le(blob, 8) as i32,
        m01: load_le(blob, 12) as i32,
        m10: load_le(blob, 16) as i32,
        m11: load_le(blob, 20) as i32,
    };
    if matrix.is_safe() {
        Some(matrix)
    } else {
        None
    }
}

// ---------------------------------------------------------------------------
// Laws of the record
// ---------------------------------------------------------------------------

proof fn lemma_read_le_bytes(v: u32)
    ensures
        read_le(le_bytes(v), 0) == v,
{
    let b = le_bytes(v);
    assert(b[0] == (v & 0xff) as u8 && b[1] == ((v >> 8u32) & 0xff) as u8);
    assert(b[2] == ((v >> 16u32) & 0xff) as u8 && b[3] == (v >> 24u32) as u8);
    assert(((v & 0xff) as u8 as u32) | ((((v >> 8u32) & 0xff) as u8 as u32) << 8u32)
        | ((((v >> 16u32) & 0xff) as u8 as u32) << 16u32) | (((v >> 24u32) as u8 as u32) << 24u32)
        == v) by (bit_vector);
}

proof fn lemma_le_bytes_read(b: Seq<u8>, at: int)
    requires
        0 <= at,
        at + 4 <= b.len(),
    ensures
        le_bytes(read_le(b, at)) =~= b.subrange(at, at + 4),
{
    let b0 = b[at];
    let b1 = b[at + 1];
    let b2 = b[at + 2];
    let b3 = b[at + 3];
    let v = read_le(b, at);
    assert(v == (b0 as u32) | ((b1 as u32) << 8u32) | ((b2 as u32) << 16u32) | ((b3 as u32) << 24u32));
    assert((v & 0xff) as u8 == b0 && ((v >> 8u32) & 0xff) as u8 == b1
        && ((v >> 16u32) & 0xff) as u8 == b2 && (v >> 24u32) as u8 == b3) by (bit_vector)
        requires
            v == (b0 as u32) | ((b1 as u32) << 8u32) | ((b2 as u32) << 16u32) | ((b3 as u32) << 24u32),
    ;
}

proof fn lemma_i32_u32_round_trip(x: i32, u: u32)
    ensures
        (x as u32) as i32 == x,
        (u as i32) as u32 == u,
{
    assert((x as u32) as i32 == x) by (bit_vector);
    assert((u as i32) as u32 == u) by (bit_vector);
}

/// Decoding the record of a matrix gives that matrix back exactly when the
/// matrix is safe; an unsafe matrix is refused even in a well-formed record.
pub proof fn lemma_record_round_trip(m: MatrixCoefficients)
    ensures
        decoded_record(encoded_record(m)) == (if matrix_is_safe(m) {
            Some(m)
        } else {
            None::<MatrixCoefficients>
        }),
{
    let b = encoded_record(m);
    let body = record_body(m);
    assert(b.take(24) =~= body);
    assert(b.subrange(24, 28) =~= le_bytes(fnv1a(body)));
    lemma_read_le_bytes(fnv1a(body));
    assert(read_le(b, 24) == read_le(le_bytes(fnv1a(body)), 0));
    lemma_read_le_bytes(m.m00 as u32);
    lemma_read_le_bytes(m.m01 as u32);
    lemma_read_le_bytes(m.m10 as u32);
    lemma_read_le_bytes(m.m11 as u32);
    assert(read_le(b, 8) == read_le(le_bytes(m.m00 as u32), 0));
    assert(read_le(b, 12) == read_le(le_bytes(m.m01 as u32), 0));
    assert(read_le(b, 16) == read_le(le_bytes(m.m10 as u32), 0));
    assert(read_le(b, 20) == read_le(le_bytes(m.m11 as u32), 0));
    lemma_i32_u32_round_trip(m.m00, 0);
    lemma_i32_u32_round_trip(m.m01, 0);
    lemma_i32_u32_round_trip(m.m10, 0);
    lemma_i32_u32_round_trip(m.m11, 0);
    assert(record_matrix(b) == m);
    assert(header_is_valid(b));
}

/// A record that decodes is exactly the record that encoding its matrix
/// writes: there is one accepted byte image per matrix.
pub proof fn lemma_accepted_record_is_canonical(b: Seq<u8>)
    requires
        b.len() == CALIBRATION_BLOB_SIZE,
        decoded_record(b) is Some,
    ensures
        encoded_record(decoded_record(b)->Some_0) == b,
{
    let m = record_matrix(b);
    lemma_le_bytes_read(b, 8);
    lemma_le_bytes_read(b, 12);
    lemma_le_bytes_read(b, 16);
    lemma_le_bytes_read(b, 20);
    lemma_le_bytes_read(b, 24);
    lemma_i32_u32_round_trip(0, read_le(b, 8));
    lemma_i32_u32_round_trip(0, read_le(b, 12));
    lemma_i32_u32_round_trip(0, read_le(b, 16));
    lemma_i32_u32_round_trip(0, read_le(b, 20));
    assert(b[6] == 0xe8u8 && b[7] == 0x03u8);
    assert(record_body(m) =~= b.take(24));
    assert(encoded_record(m) =~= b);
}

proof fn lemma_fnv_step_injective(h1: u32, x1: u8, h2: u32, x2: u8)
    requires
        vstd::wrapping::u32_specs::wrapping_mul(h1 ^ (x1 as u32), 0x0100_0193)
            == vstd::wrapping::u32_specs::wrapping_mul(h2 ^ (x2 as u32), 0x0100_0193),
    ensures
        h1 == h2 ==> x1 == x2,
        x1 == x2 ==> h1 == h2,
{
    let a = h1 ^ (x1 as u32);
    let c = h2 ^ (x2 as u32);
    assert(vstd::wrapping::u32_specs::wrapping_mul(
        vstd::wrapping::u32_specs::wrapping_mul(a, 0x0100_0193), 0x359c_449b) == a) by (bit_vector);
    assert(vstd::wrapping::u32_specs::wrapping_mul(
        vstd::wrapping::u32_specs::wrapping_mul(c, 0x0100_0193), 0x359c_449b) == c) by (bit_vector);
    assert(a == c);
    assert(h1 == h2 ==> x1 == x2) by (bit_vector)
        requires
            (h1 ^ (x1 as u32)) == (h2 ^ (x2 as u32)),
    ;
    assert(x1 == x2 ==> h1 == h2) by (bit_vector)
        requires
            (h1 ^ (x1 as u32)) == (h2 ^ (x2 as u32)),
    ;
}

/// Two byte strings of equal length that differ in exactly one position have
/// different FNV-1a checksums.
pub proof fn lemma_fnv1a_detects_single_change(s: Seq<u8>, t: Seq<u8>, i: int)
    requires
        s.len() == t.len(),
        0 <= i < s.len(),
        s[i] != t[i],
        forall|j: int| 0 <= j < s.len() && j != i ==> s[j] == t[j],
    ensures
        fnv1a(s) != fnv1a(t),
    decreases s.len(),
{
    if fnv1a(s) == fnv1a(t) {
        if i == s.len() - 1 {
            assert(s.drop_last() =~= t.drop_last());
            lemma_fnv_step_injective(fnv1a(s.drop_last()), s.last(), fnv1a(t.drop_last()), t.last());
        } else {
            lemma_fnv1a_detects_single_change(s.drop_last(), t.drop_last(), i);
            lemma_fnv_step_injective(fnv1a(s.drop_last()), s.last(), fnv1a(t.drop_last()), t.last());
        }
    }
}

/// Changing any single byte of an accepted record makes it rejected.
pub proof fn lemma_single_byte_corruption_rejected(b: Seq<u8>, i: int, v: u8)
    requires
        b.len() == CALIBRATION_BLOB_SIZE,
        decoded_record(b) is Some,
        0 <= i < CALIBRATION_BLOB_SIZE,
        v != b[i],
    ensures
        decoded_record(b.update(i, v)) is None,
{
    let c = b.update(i, v);
    if i < 8 {
        assert(!header_is_valid(c));
    } else if i < 24 {
        assert(c.take(24)[i] != b.take(24)[i]);
        lemma_fnv1a_detects_single_change(b.take(24), c.take(24), i);
        assert(c.take(24) != b.take(24));
        assert(read_le(c, 24) == read_le(b, 24));
    } else {
        assert(c.take(24) =~= b.take(24));
        lemma_le_bytes_read(b, 24);
        lemma_le_bytes_read(c, 24);
        assert(c.subrange(24, 28)[i - 24] != b.subrange(24, 28)[i - 24]);
        assert(read_le(c, 24) != read_le(b, 24));
    }
}

// ---------------------------------------------------------------------------
// The live matrix and the watcher that keeps it in step with the record
// ---------------------------------------------------------------------------

/// The direction matrix that the pointing pipeline reads for every report.
/// It only ever holds a safe matrix.
pub struct MatrixStore {
    matrix: MatrixCoefficients,
}

impl MatrixStore {
    #[verifier::type_invariant]
    spec fn holds_safe_matrix(self) -> bool {
        matrix_is_safe(self.matrix)
    }

    /// The matrix a reader gets now.
    pub closed spec fn live(self) -> MatrixCoefficients {
        self.matrix
    }

    /// A store holding the factory matrix.
    pub fn new() -> (store: Self)
        ensures
            store.live() == default_matrix(),
    {
        proof {
            lemma_default_matrix_is_safe();
        }
        MatrixStore { matrix: MatrixCoefficients::default() }
    }
}

/// Reads the live matrix, which is always safe.
pub fn current_matrix(store: &MatrixStore) -> (m: MatrixCoefficients)
    ensures
        m == store.live(),
        matrix_is_safe(m),
{
    proof {
        use_type_invariant(store);
    }
    store.matrix
}

/// Replaces the live matrix; the next read returns `matrix`.
pub fn apply_matrix(store: &mut MatrixStore, matrix: MatrixCoefficients)
    requires
        matrix_is_safe(matrix),
    ensures
        final(store).live() == matrix,
{
    store.matrix = matrix;
}

/// Decides what the calibration record means for the live matrix.  The
/// caller reads the record from the macro buffer and writes back what
/// [`CalibrationConfigWatcher::initialize`] returns.
pub struct CalibrationConfigWatcher {
    last_applied: MatrixCoefficients,
}

impl CalibrationConfigWatcher {
    /// The matrix this watcher applied last.
    pub closed spec fn last_applied(self) -> MatrixCoefficients {
        self.last_applied
    }

    pub fn new() -> (w: Self)
        ensures
            w.last_applied() == default_matrix(),
    {
        CalibrationConfigWatcher { last_applied: MatrixCoefficients::default() }
    }

    /// Applies the stored record when it is valid; otherwise applies the
    /// factory matrix and returns the record to store in its place.
    pub fn initialize(&mut self, store: &mut MatrixStore, stored: &[u8; CALIBRATION_BLOB_SIZE]) -> (write_back: Option<[u8; CALIBRATION_BLOB_SIZE]>)
        ensures
            match decoded_record(stored@) {
                Some(m) => {
                    &&& write_back is None
                    &&& final(store).live() == m
                    &&& final(self).last_applied() == m
                },
                None => {
                    &&& write_back is Some
                    &&& write_back->Some_0@ == encoded_record(default_matrix())
                    &&& final(store).live() == default_matrix()
                    &&& final(self).last_applied() == default_matrix()
                },
            },
            final(store).live() == final(self).last_applied(),
    {
        proof {
            lemma_default_matrix_is_safe();
        }
        let (matrix, write_back) = match decode_blob(stored) {
            Some(matrix) => (matrix, None),
            None => {
                let matrix = MatrixCoefficients::default();
                (matrix, Some(encode_blob(matrix)))
            },
        };
        apply_matrix(store, matrix);
        self.last_applied = matrix;
        write_back
    }

    /// Applies the stored record when it is valid and differs from the
    /// matrix applied last; a corrupt or unsafe record leaves everything as it was.
    pub fn refresh(&mut self, store: &mut MatrixStore, stored: &[u8; CALIBRATION_BLOB_SIZE])
        ensures
            match decoded_record(stored@) {
                Some(m) => if m != old(self).last_applied() {
                    &&& final(store).live() == m
                    &&& final(self).last_applied() == m
                } else {
                    &&& final(store).live() == old(store).live()
                    &&& final(self).last_applied() == old(self).last_applied()
                },
                None => {
                    &&& final(store).live() == old(store).live()
                    &&& final(self).last_applied() == old(self).last_applied()
                },
            },
            old(store).live() == old(self).last_applied() ==> final(store).live()
                == final(self).last_applied(),
    {
        if let Some(matrix) = decode_blob(stored) {
            if matrix != self.last_applied {
                apply_matrix(store, matrix);
                self.last_applied = matrix;
            }
        }
    }
}

} // verus!
