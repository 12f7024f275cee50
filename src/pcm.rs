//! Raw PCM: interleaved signed 32-bit samples, two channels per frame, no
//! header. A trailing partial frame is not part of the stream.
use vstd::prelude::*;

use byteorder::{BigEndian, ByteOrder, LittleEndian};

verus! {

/// Number of channels in a frame.
pub const NUM_CHANNELS: usize = 2;

/// Bytes taken by one sample.
pub const SAMPLE_BYTES: usize = 4;

/// Bytes taken by one frame.
pub const FRAME_BYTES: usize = 8;

/// One stereo frame of integer samples, in channel order.
pub type Frame = [i32; 2];

/// The byte order of the samples in a raw stream.
#[derive(Clone, Copy, Debug, PartialEq, Eq, Structural)]
pub enum Endian {
    Little,
    Big,
}

/// The 32-bit word whose bytes, from least to most significant, are
/// `b0`, `b1`, `b2`, `b3`.
pub open spec fn word_of(b0: u8, b1: u8, b2: u8, b3: u8) -> u32 {
    (b0 as u32) | ((b1 as u32) << 8u32) | ((b2 as u32) << 16u32) | ((b3 as u32) << 24u32)
}

/// Byte `k` (0 = least significant) of the two's-complement form of `n`.
pub open spec fn byte_of(n: i32, k: u32) -> u8 {
    (((n as u32) >> (8 * k)) & 0xffu32) as u8
}

/// The sample stored in `b[pos..pos + 4]` in byte order `e`.
pub open spec fn sample_at(b: Seq<u8>, pos: int, e: Endian) -> i32 {
    match e {
        Endian::Little => word_of(b[pos], b[pos + 1], b[pos + 2], b[pos + 3]) as i32,
        Endian::Big => word_of(b[pos + 3], b[pos + 2], b[pos + 1], b[pos]) as i32,
    }
}

/// The four bytes that store `n` in byte order `e`.
pub open spec fn sample_bytes(n: i32, e: Endian) -> Seq<u8> {
    match e {
        Endian::Little => seq![byte_of(n, 0), byte_of(n, 1), byte_of(n, 2), byte_of(n, 3)],
        Endian::Big => seq![byte_of(n, 3), byte_of(n, 2), byte_of(n, 1), byte_of(n, 0)],
    }
}

/// The frames that a byte stream holds: one per whole group of eight bytes.
pub open spec fn frames_of(b: Seq<u8>, e: Endian) -> Seq<Frame> {
    Seq::new(
        b.len() / 8,
        |i: int| [sample_at(b, 8 * i, e), sample_at(b, 8 * i + 4, e)],
    )
}

/// The bytes that store a sequence of frames, sample after sample.
pub open spec fn bytes_of(f: Seq<Frame>, e: Endian) -> Seq<u8> {
    Seq::new(
        8 * f.len(),
        |j: int| sample_bytes(f[j / 8][(j % 8) / 4], e)[j % 4],
    )
}

/// Relies on `byteorder::LittleEndian::read_i32`: the first four bytes of
/// the slice, least significant first.
#[verifier::external_body]
fn read_i32_le(b: &[u8]) -> (r: i32)
    requires
        b@.len() >= 4,
    ensures
        r == sample_at(b@, 0, Endian::Little),
{
    LittleEndian::read_i32(b)
}

/// Relies on `byteorder::BigEndian::read_i32`: the first four bytes of the
/// slice, most significant first.
#[verifier::external_body]
fn read_i32_be(b: &[u8]) -> (r: i32)
    requires
        b@.len() >= 4,
    ensures
        r == sample_at(b@, 0, Endian::Big),
{
    BigEndian::read_i32(b)
}

/// Relies on `byteorder::LittleEndian::write_i32`: `n` as four bytes, least
/// significant first.
#[verifier::external_body]
fn write_i32_le(n: i32) -> (r: [u8; 4])
    ensures
        r@ == sample_bytes(n, Endian::Little),
{
    let mut b = [0u8; 4];
    LittleEndian::write_i32(&mut b, n);
    b
}

/// Relies on `byteorder::BigEndian::write_i32`: `n` as four bytes, most
/// significant first.
#[verifier::external_body]
fn write_i32_be(n: i32) -> (r: [u8; 4])
    ensures
        r@ == sample_bytes(n, Endian::Big),
{
    let mut b = [0u8; 4];
    BigEndian::write_i32(&mut b, n);
    b
}


/// The sample stored at `b[pos..pos + 4]` in byte order `e`.
fn read_sample(b: &[u8], pos: usize, e: Endian) -> (r: i32)
    requires
        pos + 4 <= b@.len(),
    ensures
        r == sample_at(b@, pos as int, e),
{
    let len = b.len();
    assert(pos + 4 <= len);
    let s = vstd::slice::slice_subrange(b, pos, pos + 4);
    let r = match e {
        Endian::Little => read_i32_le(s),
        Endian::Big => read_i32_be(s),
    };
    r
}

/// Splits a raw byte stream into frames. Bytes after the last whole frame
/// are not part of the stream and are left out.
pub fn decode_frames(bytes: &[u8], e: Endian) -> (r: Vec<Frame>)
    ensures
        r@ == frames_of(bytes@, e),
{
    let blen = bytes.len();
    let n = blen / FRAME_BYTES;
    let mut r: Vec<Frame> = Vec::with_capacity(n);
    let mut i: usize = 0;
    while i < n
        invariant
            blen == bytes@.len(),
            n == bytes@.len() / 8,
            0 <= i <= n,
            r@ =~= frames_of(bytes@, e).take(i as int),
        decreases n - i,
    {
        assert(i * 8 + 8 <= bytes@.len()) by (nonlinear_arith)
            requires
                i < n,
                n == bytes@.len() / 8,
        ;
        assert(i * 8 + 8 <= blen);
        let pos = i * FRAME_BYTES;
        let left = read_sample(bytes, pos, e);
        let right = read_sample(bytes, pos + SAMPLE_BYTES, e);
        r.push([left, right]);
        i = i + 1;
        proof {
            let f = frames_of(bytes@, e);
            assert(f[i - 1]@ =~= [left, right]@);
            assert(r@ =~= f.take(i as int));
        }
    }
    r
}

/// Lays frames out as a raw byte stream, sample after sample in channel
/// order.
pub fn encode_frames(frames: &[Frame], e: Endian) -> (r: Vec<u8>)
    requires
        frames@.len() * 8 <= usize::MAX,
    ensures
        r@ == bytes_of(frames@, e),
{
    let mut r: Vec<u8> = Vec::with_capacity(frames.len() * FRAME_BYTES);
    let mut i: usize = 0;
    while i < frames.len()
        invariant
            0 <= i <= frames@.len(),
            r@ =~= bytes_of(frames@, e).take(8 * i),
        decreases frames@.len() - i,
    {
        let frame = frames[i];
        let mut c: usize = 0;
        while c < NUM_CHANNELS
            invariant
                0 <= i < frames@.len(),
                frame == frames@[i as int],
                0 <= c <= 2,
                r@ =~= bytes_of(frames@, e).take(8 * i + 4 * c),
            decreases 2 - c,
        {
            let bs = match e {
                Endian::Little => write_i32_le(frame[c]),
                Endian::Big => write_i32_be(frame[c]),
            };
            let ghost before = r@;
            let mut k: usize = 0;
            while k < SAMPLE_BYTES
                invariant
                    0 <= i < frames@.len(),
                    0 <= c < 2,
                    0 <= k <= 4,
                    bs@ == sample_bytes(frame[c as int], e),
                    frame == frames@[i as int],
                    before =~= bytes_of(frames@, e).take(8 * i + 4 * c),
                    r@ =~= before + bs@.take(k as int),
                decreases 4 - k,
            {
                r.push(bs[k]);
                k = k + 1;
                assert(r@ =~= before + bs@.take(k as int));
            }
            proof {
                let all = bytes_of(frames@, e);
                assert forall|j: int| 8 * i + 4 * c <= j < 8 * i + 4 * c + 4 implies
                    all[j] == bs@[j - (8 * i + 4 * c)] by {
                    assert(j / 8 == i);
                    assert((j % 8) / 4 == c);
                    assert(j % 4 == j - (8 * i + 4 * c));
                }
                assert(r@ =~= all.take(8 * i + 4 * c + 4));
            }
            c = c + 1;
        }
        i = i + 1;
    }
    assert(r@ =~= bytes_of(frames@, e));
    r
}

/// A sample written in one byte order reads back as itself in that order.
pub proof fn lemma_sample_round_trip(n: i32, e: Endian)
    ensures
        sample_at(sample_bytes(n, e), 0, e) == n,
{
    let x = n as u32;
    assert(word_of(
        ((x >> 0u32) & 0xffu32) as u8,
        ((x >> 8u32) & 0xffu32) as u8,
        ((x >> 16u32) & 0xffu32) as u8,
        ((x >> 24u32) & 0xffu32) as u8,
    ) == x) by (bit_vector);
    assert((n as u32) as i32 == n) by (bit_vector);
}

/// Byte `k` of frame `i` in the stream of `f`.
proof fn lemma_bytes_of_index(f: Seq<Frame>, e: Endian, i: int, k: int)
    requires
        0 <= i < f.len(),
        0 <= k < 8,
    ensures
        0 <= 8 * i + k < bytes_of(f, e).len(),
        bytes_of(f, e)[8 * i + k] == sample_bytes(f[i][k / 4], e)[k % 4],
{
    let j = 8 * i + k;
    assert(j / 8 == i && j % 8 == k) by (nonlinear_arith)
        requires
            j == 8 * i + k,
            0 <= k < 8,
    ;
    assert(j < 8 * f.len()) by (nonlinear_arith)
        requires
            j == 8 * i + k,
            0 <= k < 8,
            i < f.len(),
    ;
}

/// Encoding frames and decoding the bytes gives back the same frames.
pub proof fn lemma_frames_round_trip(f: Seq<Frame>, e: Endian)
    ensures
        frames_of(bytes_of(f, e), e) == f,
{
    let b = bytes_of(f, e);
    let g = frames_of(b, e);
    assert(b.len() / 8 == f.len()) by (nonlinear_arith)
        requires
            b.len() == 8 * f.len(),
    ;
    assert forall|i: int| 0 <= i < f.len() implies #[trigger] g[i] == f[i] by {
        lemma_bytes_of_index(f, e, i, 0);
        lemma_bytes_of_index(f, e, i, 1);
        lemma_bytes_of_index(f, e, i, 2);
        lemma_bytes_of_index(f, e, i, 3);
        lemma_bytes_of_index(f, e, i, 4);
        lemma_bytes_of_index(f, e, i, 5);
        lemma_bytes_of_index(f, e, i, 6);
        lemma_bytes_of_index(f, e, i, 7);
        lemma_sample_round_trip(f[i][0], e);
        lemma_sample_round_trip(f[i][1], e);
        assert(sample_at(b, 8 * i, e) == sample_at(sample_bytes(f[i][0], e), 0, e));
        assert(sample_at(b, 8 * i + 4, e) == sample_at(sample_bytes(f[i][1], e), 0, e));
        assert(g[i]@ =~= f[i]@);
    }
    assert(g =~= f);
}

} // verus!
