//! Frames: a 4-byte big-endian header, then the payload.
//!
//! The header's highest bit says whether the payload is gzip-compressed;
//! the other 31 bits hold the payload's length, so a frame holds at most
//! 2 GiB. Payloads longer than `COMPRESSION_LIMIT` bytes are compressed.
use vstd::prelude::*;

verus! {

/// Bytes of the header.
pub const LEN_LEN: usize = 4;
/// The largest frame: the length has 31 bits.
pub const MAX_FRAME: usize = 0x8000_0000;
/// Payloads longer than this are compressed.
pub const COMPRESSION_LIMIT: usize = 1436;
/// The bit of the header that marks a compressed payload.
pub const COMPRESSION_BIT: usize = 0x8000_0000;

/// Why a frame could not be made or read.
#[derive(Debug, PartialEq, Eq, Structural)]
pub enum FrameError {
    /// The gzip stream could not be written or read.
    Compression,
}

/// The four big-endian bytes of `x`.
pub open spec fn be_bytes(x: u32) -> Seq<u8> {
    seq![(x / 0x100_0000) as u8, ((x / 0x1_0000) % 0x100) as u8, ((x / 0x100) % 0x100) as u8, (x % 0x100) as u8]
}

/// The number that four big-endian bytes spell.
pub open spec fn be_value(b: Seq<u8>) -> int {
    b[0] * 0x100_0000 + b[1] * 0x1_0000 + b[2] * 0x100 + b[3]
}

/// Reading back the bytes of a number gives the number.
pub proof fn lemma_be_roundtrip(x: u32)
    ensures
        be_value(be_bytes(x)) == x,
{
    let b = be_bytes(x);
    assert(b[0] * 0x100_0000 + b[1] * 0x1_0000 + b[2] * 0x100 + b[3] == x) by (nonlinear_arith)
        requires
            b[0] == x / 0x100_0000,
            b[1] == (x / 0x1_0000) % 0x100,
            b[2] == (x / 0x100) % 0x100,
            b[3] == x % 0x100,
            0 <= x < 0x1_0000_0000,
    ;
}

/// Appends the big-endian bytes of `x`.
pub fn put_u32(buf: &mut Vec<u8>, x: u32)
    ensures
        final(buf)@ == old(buf)@ + be_bytes(x),
{
    buf.push((x / 0x100_0000) as u8);
    buf.push(((x / 0x1_0000) % 0x100) as u8);
    buf.push(((x / 0x100) % 0x100) as u8);
    buf.push((x % 0x100) as u8);
    assert(final(buf)@ =~= old(buf)@ + be_bytes(x));
}

/// The number that the first four bytes of `buf` spell, big-endian.
pub fn get_u32(buf: &[u8]) -> (x: u32)
    requires
        buf@.len() >= 4,
    ensures
        x == be_value(buf@),
{
    let x = (buf[0] as u32) * 0x100_0000 + (buf[1] as u32) * 0x1_0000 + (buf[2] as u32) * 0x100 + (buf[3] as u32);
    x
}

/// Whether a header marks a compressed payload.
pub open spec fn header_compressed(header: int) -> bool {
    (header / 0x8000_0000) % 2 == 1
}

/// The payload length a header announces.
pub open spec fn header_len(header: int) -> int {
    if header_compressed(header) { header - 0x8000_0000 } else { header }
}

/// The payload length and the compression flag of a header.
pub fn decode_header(header: usize) -> (r: (usize, bool))
    ensures
        r.1 == header_compressed(header as int),
        r.0 == header_len(header as int),
{
    let compressed = (header & COMPRESSION_BIT) == COMPRESSION_BIT;
    let len = header & !COMPRESSION_BIT;
    assert(((header & 0x8000_0000usize) == 0x8000_0000usize) == ((header / 0x8000_0000usize) % 2 == 1)) by (bit_vector);
    assert((header & 0x8000_0000usize) == 0x8000_0000usize ==> (header & !0x8000_0000usize) == header - 0x8000_0000usize) by (bit_vector);
    assert((header & 0x8000_0000usize) != 0x8000_0000usize ==> (header & !0x8000_0000usize) == header) by (bit_vector);
    (len, compressed)
}

/// What gzip with the default level makes of `data` (`flate2`'s
/// `GzEncoder` with its default header), or nothing where the encoder
/// reports an error.
pub uninterp spec fn gzip(data: Seq<u8>) -> Option<Seq<u8>>;

/// What `flate2`'s `GzDecoder` makes of `data`: the decompressed bytes, or
/// nothing where `data` is no valid gzip stream.
pub uninterp spec fn gunzip(data: Seq<u8>) -> Option<Seq<u8>>;

/// Calls `flate2::write::GzEncoder` on a vector with the default level:
/// the compressed bytes, or nothing where writing or finishing the stream
/// reports an error. What it makes, `GzDecoder` turns back into `data` (gzip
/// is lossless; the crate's documentation shows that round trip).
#[verifier::external_body]
fn compress(data: &[u8]) -> (r: Option<Vec<u8>>)
    ensures
        match r {
            Some(c) => gzip(data@) == Some(c@) && gunzip(c@) == Some(data@),
            None => gzip(data@) is None,
        },
{
    let mut e = flate2::write::GzEncoder::new(Vec::with_capacity(data.len()), flate2::Compression::default());
    std::io::Write::write_all(&mut e, data).ok()?;
    e.finish().ok()
}

/// Calls `flate2::write::GzDecoder` on a vector: the decompressed bytes, or
/// nothing where `data` is no valid gzip stream.
#[verifier::external_body]
fn decompress(data: &[u8]) -> (r: Option<Vec<u8>>)
    ensures
        match r {
            Some(d) => gunzip(data@) == Some(d@),
            None => gunzip(data@) is None,
        },
{
    let mut decoder = flate2::write::GzDecoder::new(Vec::with_capacity(data.len() * 2));
    std::io::Write::write_all(&mut decoder, data).ok()?;
    decoder.finish().ok()
}

/// The frame of an uncompressed payload.
pub open spec fn plain_frame(payload: Seq<u8>) -> Seq<u8> {
    be_bytes(payload.len() as u32) + payload
}

/// The frame of a payload compressed to `c`: the header holds the length
/// with the compression bit set, as 32 bits.
pub open spec fn compressed_frame(c: Seq<u8>) -> Seq<u8> {
    be_bytes(((c.len() as usize) | 0x8000_0000usize) as u32) + c
}

/// Appends the frame of `payload` to `buf`: the payload itself where it
/// is at most `COMPRESSION_LIMIT` bytes long, else its gzip form. Fails,
/// leaving `buf` as it was, only where gzip reports an error. Reading the
/// appended frame gives the payload back, unless its compressed form is
/// too long for the 31 bits of the header.
pub fn encode_frame(payload: &[u8], buf: &mut Vec<u8>) -> (r: Result<(), FrameError>)
    ensures
        payload@.len() <= COMPRESSION_LIMIT ==> r is Ok && final(buf)@ == old(buf)@ + plain_frame(payload@),
        payload@.len() > COMPRESSION_LIMIT ==> match gzip(payload@) {
            Some(c) => r is Ok && final(buf)@ == old(buf)@ + compressed_frame(c) && gunzip(c) == Some(payload@),
            None => r == Err::<(), FrameError>(FrameError::Compression) && final(buf)@ == old(buf)@,
        },
        r is Ok && (payload@.len() <= COMPRESSION_LIMIT || gzip(payload@)->Some_0.len() < MAX_FRAME)
            ==> frame_payload(final(buf)@.skip(old(buf)@.len() as int)) == Some(payload@),
{
    let len = payload.len();
    if len <= COMPRESSION_LIMIT {
        put_u32(buf, len as u32);
        let mut i: usize = 0;
        let ghost start = buf@;
        while i < len
            invariant
                i <= len,
                len == payload@.len(),
                buf@ == start + payload@.take(i as int),
            decreases len - i,
        {
            buf.push(payload[i]);
            i = i + 1;
            assert(buf@ =~= start + payload@.take(i as int));
        }
        assert(payload@.take(len as int) =~= payload@);
        assert(buf@ =~= old(buf)@ + plain_frame(payload@));
        proof {
            lemma_frame_roundtrip(payload@);
            assert(buf@.skip(old(buf)@.len() as int) =~= plain_frame(payload@));
        }
        Ok(())
    } else {
        match compress(payload) {
            Some(mut compressed) => {
                let header = (compressed.len() | COMPRESSION_BIT) as u32;
                let ghost c = compressed@;
                put_u32(buf, header);
                buf.append(&mut compressed);
                assert(buf@ =~= old(buf)@ + compressed_frame(c));
                proof {
                    lemma_compressed_roundtrip(c, payload@);
                    assert(buf@.skip(old(buf)@.len() as int) =~= compressed_frame(c));
                }
                Ok(())
            },
            None => Err(FrameError::Compression),
        }
    }
}

/// The payload of a frame: its bytes after the header, as many as the
/// header announces, decompressed where the header says so.
pub open spec fn frame_payload(frame: Seq<u8>) -> Option<Seq<u8>> {
    let header = be_value(frame);
    let body = frame.subrange(4, 4 + header_len(header));
    if header_compressed(header) { gunzip(body) } else { Some(body) }
}

/// The payload of the frame at the start of `buf`.
pub fn decode_frame(buf: &[u8]) -> (r: Result<Vec<u8>, FrameError>)
    requires
        buf@.len() >= 4,
        4 + header_len(be_value(buf@)) <= buf@.len(),
    ensures
        match r {
            Ok(p) => frame_payload(buf@) == Some(p@),
            Err(_) => frame_payload(buf@) is None,
        },
        !header_compressed(be_value(buf@)) ==> (r matches Ok(p)
            && p@ == buf@.subrange(LEN_LEN as int, LEN_LEN + header_len(be_value(buf@)))),
{
    let header = get_u32(buf);
    let (len, compressed) = decode_header(header as usize);
    let mut body: Vec<u8> = Vec::new();
    let mut i: usize = 0;
    let total = buf.len();
    while i < len
        invariant
            total == buf@.len(),
            i <= len,
            4 + len <= buf@.len(),
            body@ == buf@.subrange(4, 4 + i),
        decreases len - i,
    {
        body.push(buf[4 + i]);
        i = i + 1;
        assert(body@ =~= buf@.subrange(4, 4 + i));
    }
    if compressed {
        match decompress(body.as_slice()) {
            Some(d) => Ok(d),
            None => Err(FrameError::Compression),
        }
    } else {
        Ok(body)
    }
}

/// An uncompressed frame gives back its payload.
pub proof fn lemma_frame_roundtrip(payload: Seq<u8>)
    requires
        payload.len() <= COMPRESSION_LIMIT,
    ensures
        frame_payload(plain_frame(payload)) == Some(payload),
{
    let n = payload.len() as u32;
    lemma_be_roundtrip(n);
    assert(n < 0x8000_0000);
    assert((n as int / 0x8000_0000) == 0);
    assert(plain_frame(payload).subrange(4, 4 + n) =~= payload);
}

/// A compressed frame gives back what gzip's inverse makes of its bytes,
/// where they fit the 31-bit length.
pub proof fn lemma_compressed_roundtrip(c: Seq<u8>, payload: Seq<u8>)
    requires
        gunzip(c) == Some(payload),
    ensures
        c.len() < MAX_FRAME ==> frame_payload(compressed_frame(c)) == Some(payload),
{
    if c.len() < MAX_FRAME {
        let l = c.len() as usize;
        let h = (l | 0x8000_0000usize) as u32;
        assert(l < 0x8000_0000usize ==> (l | 0x8000_0000usize) as u32 == l + 0x8000_0000usize) by (bit_vector);
        lemma_be_roundtrip(h);
        assert(h as int / 0x8000_0000 == 1);
        assert(compressed_frame(c).subrange(4, 4 + c.len() as int) =~= c);
    }
}

/// A frame is read by its header alone: the payload of a frame followed by
/// any other bytes (the next frame, say) is the payload of the frame by
/// itself. An uncompressed frame gives its payload; a compressed one what
/// gzip's inverse makes of its compressed bytes.
pub proof fn lemma_frame_ignores_what_follows(p: Seq<u8>, c: Seq<u8>, tail: Seq<u8>)
    ensures
        p.len() < MAX_FRAME ==> frame_payload(plain_frame(p) + tail) == Some(p),
        c.len() < MAX_FRAME ==> frame_payload(compressed_frame(c) + tail) == gunzip(c),
{
    if p.len() < MAX_FRAME {
        let n = p.len() as u32;
        lemma_be_roundtrip(n);
        let f = plain_frame(p) + tail;
        assert(f.subrange(0, 4) =~= be_bytes(n));
        assert(be_value(f) == be_value(be_bytes(n)));
        assert((n as int / 0x8000_0000) == 0);
        assert(f.subrange(4, 4 + n) =~= p);
    }
    if c.len() < MAX_FRAME {
        let l = c.len() as usize;
        let h = (l | 0x8000_0000usize) as u32;
        assert(l < 0x8000_0000usize ==> (l | 0x8000_0000usize) as u32 == l + 0x8000_0000usize) by (bit_vector);
        lemma_be_roundtrip(h);
        let f = compressed_frame(c) + tail;
        assert(be_value(f) == be_value(be_bytes(h)));
        assert(h as int / 0x8000_0000 == 1);
        assert(f.subrange(4, 4 + c.len() as int) =~= c);
    }
}

/// Two frames written one after the other are read back one at a time:
/// the first payload comes from the buffer as a whole.
pub proof fn lemma_first_of_two_frames(p: Seq<u8>, q: Seq<u8>)
    requires
        p.len() <= COMPRESSION_LIMIT,
    ensures
        frame_payload(plain_frame(p) + plain_frame(q)) == Some(p),
{
    lemma_frame_ignores_what_follows(p, Seq::empty(), plain_frame(q));
}

} // verus!
