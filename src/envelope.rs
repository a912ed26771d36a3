use vstd::prelude::*;
use crate::bytes::copy_bytes;
use crate::collab::SyncError;

verus! {

/// The largest metadata frame of a batch.
pub const MAX_METADATA_FRAME: u32 = 4 * 1024 * 1024;

/// The largest data frame of a batch.
pub const MAX_DATA_FRAME: u32 = 32 * 1024 * 1024;

/// The largest whole request body.
pub const MAX_BODY: usize = 50 * 1024 * 1024;

/// The compression that a payload is wrapped in.
#[derive(Debug, Clone, Copy, PartialEq, Eq, Structural)]
pub enum Compression {
    Uncompressed,
    Zstd,
    Brotli { buffer_size: u32 },
}

/// The integer that four bytes spell, most significant first.
pub open spec fn be_u32(b: Seq<u8>, off: int) -> nat {
    (b[off] as nat) * 0x1000000 + (b[off + 1] as nat) * 0x10000 + (b[off + 2] as nat) * 0x100
        + (b[off + 3] as nat)
}

/// The four bytes that spell `n`, most significant first.
pub open spec fn be_bytes_u32(n: u32) -> Seq<u8> {
    seq![(n / 0x1000000) as u8, ((n / 0x10000) % 0x100) as u8, ((n / 0x100) % 0x100) as u8, (n % 0x100) as u8]
}

/// A payload with its length in front.
pub open spec fn framed(payload: Seq<u8>) -> Seq<u8> {
    be_bytes_u32(payload.len() as u32) + payload
}

/// The complete frames at the front of `buf` from `off` on, as (start, length)
/// of each payload; an incomplete frame at the end is left for later.
pub open spec fn frames_from(buf: Seq<u8>, off: nat) -> Seq<(nat, nat)>
    decreases buf.len() - off,
{
    if off + 4 > buf.len() {
        Seq::empty()
    } else {
        let n = be_u32(buf, off as int);
        if off + 4 + n > buf.len() {
            Seq::empty()
        } else {
            seq![(off + 4, n)] + frames_from(buf, off + 4 + n)
        }
    }
}

/// The bytes that the complete frames from `off` on take up.
pub open spec fn frames_end(buf: Seq<u8>, off: nat) -> nat
    decreases buf.len() - off,
{
    if off + 4 > buf.len() {
        off
    } else {
        let n = be_u32(buf, off as int);
        if off + 4 + n > buf.len() {
            off
        } else {
            frames_end(buf, off + 4 + n)
        }
    }
}

/// Reads four bytes at `off` as a big-endian integer.
pub fn read_be_u32(b: &[u8], off: usize) -> (r: u32)
    requires
        off + 4 <= b@.len(),
    ensures
        r as nat == be_u32(b@, off as int),
{
    let r = (b[off] as u32) * 0x1000000 + (b[off + 1] as u32) * 0x10000 + (b[off + 2] as u32) * 0x100
        + (b[off + 3] as u32);
    r
}

/// Appends the four bytes that spell `n`, most significant first.
pub fn push_be_u32(out: &mut Vec<u8>, n: u32)
    ensures
        final(out)@ == old(out)@ + be_bytes_u32(n),
{
    out.push((n / 0x1000000) as u8);
    out.push(((n / 0x10000) % 0x100) as u8);
    out.push(((n / 0x100) % 0x100) as u8);
    out.push((n % 0x100) as u8);
    assert(final(out)@ =~= old(out)@ + be_bytes_u32(n));
}

pub proof fn lemma_be_round_trip(n: u32)
    ensures
        be_u32(be_bytes_u32(n), 0) == n as nat,
{
    let b = be_bytes_u32(n);
    assert(b[0] as nat == n as nat / 0x1000000);
    assert(b[1] as nat == (n as nat / 0x10000) % 0x100);
    assert(b[2] as nat == (n as nat / 0x100) % 0x100);
    assert(b[3] as nat == n as nat % 0x100);
    assert(be_u32(b, 0) == n as nat) by (nonlinear_arith)
        requires
            b[0] as nat == n as nat / 0x1000000,
            b[1] as nat == (n as nat / 0x10000) % 0x100,
            b[2] as nat == (n as nat / 0x100) % 0x100,
            b[3] as nat == n as nat % 0x100,
            n as nat <= 0xffff_ffff,
            be_u32(b, 0) == (b[0] as nat) * 0x1000000 + (b[1] as nat) * 0x10000 + (b[2] as nat) * 0x100 + (b[3] as nat),
    ;
}

/// Puts a payload's length in front of it.
pub fn encode_frame(payload: &[u8]) -> (r: Vec<u8>)
    requires
        payload@.len() <= u32::MAX,
    ensures
        r@ == framed(payload@),
{
    let mut out: Vec<u8> = Vec::new();
    push_be_u32(&mut out, payload.len() as u32);
    let mut i: usize = 0;
    while i < payload.len()
        invariant
            i <= payload@.len(),
            out@ == be_bytes_u32(payload@.len() as u32) + payload@.subrange(0, i as int),
        decreases payload@.len() - i,
    {
        out.push(payload[i]);
        assert(payload@.subrange(0, i + 1) == payload@.subrange(0, i as int).push(payload@[i as int]));
        assert(out@ =~= be_bytes_u32(payload@.len() as u32) + payload@.subrange(0, i + 1));
        i = i + 1;
    }
    assert(payload@.subrange(0, payload@.len() as int) == payload@);
    out
}

/// Splits the front of a buffer into frames: the (start, length) of each
/// complete frame's payload, and where the first incomplete frame begins.
pub fn split_frames(buf: &[u8]) -> (r: (Vec<(usize, usize)>, usize))
    ensures
        r.0@.len() == frames_from(buf@, 0).len(),
        forall|i: int| 0 <= i < r.0@.len() ==> (#[trigger] r.0@[i]).0 as nat == frames_from(buf@, 0)[i].0
            && r.0@[i].1 as nat == frames_from(buf@, 0)[i].1,
        r.1 as nat == frames_end(buf@, 0),
{
    let mut out: Vec<(usize, usize)> = Vec::new();
    let mut cur: usize = 0;
    let ghost done: Seq<(nat, nat)> = Seq::empty();
    while buf.len() - cur >= 4
        invariant
            cur <= buf@.len(),
            done.len() == out@.len(),
            forall|i: int| 0 <= i < out@.len() ==> (#[trigger] out@[i]).0 as nat == done[i].0
                && out@[i].1 as nat == done[i].1,
            frames_from(buf@, 0) == done + frames_from(buf@, cur as nat),
            frames_end(buf@, 0) == frames_end(buf@, cur as nat),
        ensures
            frames_from(buf@, cur as nat) == Seq::<(nat, nat)>::empty(),
            frames_end(buf@, cur as nat) == cur as nat,
        decreases buf@.len() - cur,
    {
        let n = read_be_u32(buf, cur) as usize;
        if n > buf.len() - cur - 4 {
            break;
        }
        out.push((cur + 4, n));
        proof {
            let ghost old_done = done;
            done = done.push((cur as nat + 4, n as nat));
            assert(frames_from(buf@, cur as nat) == seq![(cur as nat + 4, n as nat)] + frames_from(buf@, (cur + 4 + n) as nat));
            assert(done + frames_from(buf@, (cur + 4 + n) as nat) =~= old_done + frames_from(buf@, cur as nat));
        }
        cur = cur + 4 + n;
    }
    proof {
        assert(done + frames_from(buf@, cur as nat) =~= done);
    }
    (out, cur)
}

/// What Zstandard decoding makes of a byte string, or `None` where it is
/// not a valid stream.
pub uninterp spec fn zstd_decoded(b: Seq<u8>) -> Option<Seq<u8>>;

/// What Zstandard encoding at a level makes of a byte string.
pub uninterp spec fn zstd_encoded(b: Seq<u8>, level: i32) -> Option<Seq<u8>>;

/// What Brotli decoding makes of a byte string, or `None` where it is not a
/// valid stream.
pub uninterp spec fn brotli_decoded(b: Seq<u8>) -> Option<Seq<u8>>;

/// Relies on `zstd::decode_all`: the whole input decoded as Zstandard frames.
#[verifier::external_body]
fn zstd_decode(b: &[u8]) -> (r: Option<Vec<u8>>)
    ensures
        match r {
            Some(v) => zstd_decoded(b@) == Some(v@),
            None => zstd_decoded(b@) is None,
        },
{
    zstd::decode_all(b).ok()
}

/// Relies on `zstd::encode_all`: the whole input encoded at `level`.
#[verifier::external_body]
fn zstd_encode(b: &[u8], level: i32) -> (r: Option<Vec<u8>>)
    ensures
        match r {
            Some(v) => zstd_encoded(b@, level) == Some(v@),
            None => zstd_encoded(b@, level) is None,
        },
{
    zstd::encode_all(b, level).ok()
}

/// Relies on `brotli::BrotliDecompress`: the whole input decoded as a Brotli
/// stream.
#[verifier::external_body]
fn brotli_decode(b: &[u8]) -> (r: Option<Vec<u8>>)
    ensures
        match r {
            Some(v) => brotli_decoded(b@) == Some(v@),
            None => brotli_decoded(b@) is None,
        },
{
    let mut input = b;
    let mut out: Vec<u8> = Vec::new();
    match brotli::BrotliDecompress(&mut input, &mut out) {
        Ok(()) => Some(out),
        Err(_) => None,
    }
}

/// What a payload wrapped in `c` unwraps to.
pub open spec fn unwrapped(b: Seq<u8>, c: Compression) -> Option<Seq<u8>> {
    match c {
        Compression::Uncompressed => Some(b),
        Compression::Zstd => zstd_decoded(b),
        Compression::Brotli { .. } => brotli_decoded(b),
    }
}

/// Unwraps a payload from its compression envelope.
pub fn decompress(b: &[u8], c: Compression) -> (r: Result<Vec<u8>, SyncError>)
    ensures
        match r {
            Ok(v) => unwrapped(b@, c) == Some(v@),
            Err(e) => e == SyncError::Decode && unwrapped(b@, c) is None,
        },
{
    let out = match c {
        Compression::Uncompressed => Some(copy_bytes(b)),
        Compression::Zstd => zstd_decode(b),
        Compression::Brotli { .. } => brotli_decode(b),
    };
    match out {
        Some(v) => Ok(v),
        None => Err(SyncError::Decode),
    }
}

/// The level that outgoing diffs are compressed at.
pub const DIFF_ZSTD_LEVEL: i32 = 3;

/// Compresses an outgoing payload with Zstandard at the diff level.
pub fn compress_diff(b: &[u8]) -> (r: Result<Vec<u8>, SyncError>)
    ensures
        match r {
            Ok(v) => zstd_encoded(b@, DIFF_ZSTD_LEVEL) == Some(v@),
            Err(e) => e == SyncError::Internal && zstd_encoded(b@, DIFF_ZSTD_LEVEL) is None,
        },
{
    match zstd_encode(b, DIFF_ZSTD_LEVEL) {
        Some(v) => Ok(v),
        None => Err(SyncError::Internal),
    }
}

} // verus!
