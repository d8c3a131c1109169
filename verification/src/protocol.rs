use vstd::prelude::*;
use vstd::arithmetic::div_mod::{lemma_div_denominator, lemma_multiply_divide_lt};
use crate::chunk::Chunk;
use crate::codec::{
    decode_blocks, encode_blocks, rle_decode_spec, rle_encode_spec, DecodeError,
};
use crate::coords::IVec3;

verus! {

// The wire protocol is a self-describing binary envelope. Every message
// travels as a frame: a four-byte little-endian length prefix followed by
// that many body bytes. A request body is a tag byte followed by the two
// corner coordinates of a chunk range, end-inclusive on every axis. A
// response body is a tag byte followed by a chunk coordinate and the
// run-length-encoded block array. Coordinates are written offset-binary:
// the signed axis value plus `2^31`, as four little-endian bytes.

pub const REQUEST_TAG: u8 = 0;

pub const RESPONSE_CHUNK_TAG: u8 = 1;

pub const RESPONSE_TEST_TAG: u8 = 2;

/// A message from client to server.
#[derive(Clone, Copy, PartialEq, Eq, Structural, Debug)]
pub enum Request {
    /// Ask for every chunk whose coordinate lies in `[start, end]`,
    /// inclusive on each axis.
    ChunkRange { start: IVec3, end: IVec3 },
}

/// A message from server to client.
pub enum Response {
    /// One generated chunk.
    ChunkData(Chunk),
    /// A diagnostic message carrying no data.
    Test,
}

/// The four little-endian bytes of a value in `[0, 2^32)`.
pub open spec fn enc_u32_spec(n: int) -> Seq<u8> {
    seq![
        (n % 256) as u8,
        ((n / 256) % 256) as u8,
        ((n / 65536) % 256) as u8,
        ((n / 16777216) % 256) as u8,
    ]
}

/// The value of four little-endian bytes.
pub open spec fn dec_u32_spec(b: Seq<u8>) -> int {
    b[0] as int + 256 * (b[1] as int + 256 * (b[2] as int + 256 * (b[3] as int)))
}

/// Offset-binary encoding of one signed coordinate axis.
pub open spec fn enc_i32_spec(w: int) -> Seq<u8> {
    enc_u32_spec(w + 0x8000_0000)
}

/// Decodes one offset-binary coordinate axis.
pub open spec fn dec_i32_spec(b: Seq<u8>) -> int {
    dec_u32_spec(b) - 0x8000_0000
}

/// Four little-endian bytes decode back to the value they encode.
pub proof fn lemma_u32_round_trip(n: int)
    requires
        0 <= n < 0x1_0000_0000,
    ensures
        dec_u32_spec(enc_u32_spec(n)) == n,
{
    let q1 = n / 256;
    let q2 = q1 / 256;
    let q3 = q2 / 256;
    lemma_div_denominator(n, 256, 256);
    assert(q2 == n / 65536);
    lemma_div_denominator(n, 65536, 256);
    assert(q3 == n / 16777216);
    lemma_multiply_divide_lt(n, 16777216, 256);
    assert(q3 < 256);
    assert(n == n % 256 + 256 * q1);
    assert(q1 == q1 % 256 + 256 * q2);
    assert(q2 == q2 % 256 + 256 * q3);
    assert(q3 % 256 == q3);
}

/// An i32 axis survives the offset-binary round trip.
pub proof fn lemma_i32_round_trip(w: int)
    requires
        -0x8000_0000 <= w < 0x8000_0000,
    ensures
        dec_i32_spec(enc_i32_spec(w)) == w,
{
    lemma_u32_round_trip(w + 0x8000_0000);
}

/// Appends the four little-endian bytes of `n`.
fn push_u32(out: &mut Vec<u8>, n: u32)
    ensures
        final(out)@ == old(out)@ + enc_u32_spec(n as int),
{
    out.push((n % 256) as u8);
    out.push(((n / 256) % 256) as u8);
    out.push(((n / 65536) % 256) as u8);
    out.push(((n / 16777216) % 256) as u8);
    proof {
        assert(final(out)@ =~= old(out)@ + enc_u32_spec(n as int));
    }
}

/// Appends one coordinate axis, offset-binary.
fn push_i32(out: &mut Vec<u8>, w: i32)
    ensures
        final(out)@ == old(out)@ + enc_i32_spec(w as int),
{
    let n: u32 = ((w as i64) + 0x8000_0000i64) as u32;
    push_u32(out, n);
}

/// Reads the four little-endian bytes at `at`.
fn read_u32(b: &Vec<u8>, at: usize) -> (r: u32)
    requires
        at + 4 <= b@.len(),
    ensures
        r as int == dec_u32_spec(b@.subrange(at as int, at as int + 4)),
{
    proof {
        vstd::std_specs::vec::axiom_spec_len(b);
    }
    let r: u32 = b[at] as u32 + 256 * (b[at + 1] as u32) + 65536 * (b[at + 2] as u32) + 16777216
        * (b[at + 3] as u32);
    proof {
        let s = b@.subrange(at as int, at as int + 4);
        assert(s[0] == b@[at as int]);
        assert(s[1] == b@[at as int + 1]);
        assert(s[2] == b@[at as int + 2]);
        assert(s[3] == b@[at as int + 3]);
    }
    r
}

/// Reads one offset-binary coordinate axis at `at`.
fn read_i32(b: &Vec<u8>, at: usize) -> (r: i32)
    requires
        at + 4 <= b@.len(),
    ensures
        r as int == dec_i32_spec(b@.subrange(at as int, at as int + 4)),
{
    let n = read_u32(b, at);
    ((n as i64) - 0x8000_0000i64) as i32
}

/// The body bytes of a chunk-range request.
pub open spec fn encode_request_spec(start: IVec3, end: IVec3) -> Seq<u8> {
    seq![REQUEST_TAG] + enc_i32_spec(start.x as int) + enc_i32_spec(start.y as int)
        + enc_i32_spec(start.z as int) + enc_i32_spec(end.x as int) + enc_i32_spec(end.y as int)
        + enc_i32_spec(end.z as int)
}

/// A request body is valid exactly when it is 25 bytes under the request tag.
pub open spec fn request_body_valid(b: Seq<u8>) -> bool {
    b.len() == 25 && b[0] == REQUEST_TAG
}

/// The request a valid body describes.
pub open spec fn decode_request_spec(b: Seq<u8>) -> (IVec3, IVec3) {
    (
        IVec3 {
            x: dec_i32_spec(b.subrange(1, 5)) as i32,
            y: dec_i32_spec(b.subrange(5, 9)) as i32,
            z: dec_i32_spec(b.subrange(9, 13)) as i32,
        },
        IVec3 {
            x: dec_i32_spec(b.subrange(13, 17)) as i32,
            y: dec_i32_spec(b.subrange(17, 21)) as i32,
            z: dec_i32_spec(b.subrange(21, 25)) as i32,
        },
    )
}

/// Serializes a request into a message body.
pub fn encode_request(req: &Request) -> (r: Vec<u8>)
    ensures
        req matches Request::ChunkRange { start, end } ==> r@ == encode_request_spec(*start, *end),
{
    let Request::ChunkRange { start, end } = *req;
    let mut out: Vec<u8> = Vec::new();
    out.push(REQUEST_TAG);
    push_i32(&mut out, start.x);
    push_i32(&mut out, start.y);
    push_i32(&mut out, start.z);
    push_i32(&mut out, end.x);
    push_i32(&mut out, end.y);
    push_i32(&mut out, end.z);
    proof {
        assert(out@ =~= encode_request_spec(start, end));
    }
    out
}

/// Parses a request body; any other shape is malformed.
pub fn decode_request(bytes: &Vec<u8>) -> (r: Result<Request, DecodeError>)
    ensures
        match r {
            Ok(req) => {
                &&& request_body_valid(bytes@)
                &&& req matches Request::ChunkRange { start, end } && (start, end)
                    == decode_request_spec(bytes@)
            },
            Err(e) => e == DecodeError::Malformed && !request_body_valid(bytes@),
        },
{
    if bytes.len() != 25 {
        return Err(DecodeError::Malformed);
    }
    if bytes[0] != REQUEST_TAG {
        return Err(DecodeError::Malformed);
    }
    let start = IVec3 { x: read_i32(bytes, 1), y: read_i32(bytes, 5), z: read_i32(bytes, 9) };
    let end = IVec3 { x: read_i32(bytes, 13), y: read_i32(bytes, 17), z: read_i32(bytes, 21) };
    Ok(Request::ChunkRange { start, end })
}

/// A request body decodes back to the coordinates it was built from.
pub proof fn lemma_request_round_trip(start: IVec3, end: IVec3)
    ensures
        request_body_valid(encode_request_spec(start, end)),
        decode_request_spec(encode_request_spec(start, end)) == (start, end),
{
    let b = encode_request_spec(start, end);
    assert(b.subrange(1, 5) =~= enc_i32_spec(start.x as int));
    assert(b.subrange(5, 9) =~= enc_i32_spec(start.y as int));
    assert(b.subrange(9, 13) =~= enc_i32_spec(start.z as int));
    assert(b.subrange(13, 17) =~= enc_i32_spec(end.x as int));
    assert(b.subrange(17, 21) =~= enc_i32_spec(end.y as int));
    assert(b.subrange(21, 25) =~= enc_i32_spec(end.z as int));
    lemma_i32_round_trip(start.x as int);
    lemma_i32_round_trip(start.y as int);
    lemma_i32_round_trip(start.z as int);
    lemma_i32_round_trip(end.x as int);
    lemma_i32_round_trip(end.y as int);
    lemma_i32_round_trip(end.z as int);
}

/// The body bytes of a chunk-data response.
pub open spec fn encode_chunk_response_spec(pos: IVec3, blocks: Seq<u8>) -> Seq<u8> {
    seq![RESPONSE_CHUNK_TAG] + enc_i32_spec(pos.x as int) + enc_i32_spec(pos.y as int)
        + enc_i32_spec(pos.z as int) + rle_encode_spec(blocks)
}

/// A chunk-data body is valid exactly when its runs expand to one full chunk.
pub open spec fn chunk_body_valid(b: Seq<u8>) -> bool {
    &&& b.len() >= 13
    &&& b[0] == RESPONSE_CHUNK_TAG
    &&& rle_decode_spec(b.skip(13)) matches Some(s) && s.len() == 32768
}

/// The chunk coordinate a chunk-data body carries.
pub open spec fn decode_response_pos_spec(b: Seq<u8>) -> IVec3 {
    IVec3 {
        x: dec_i32_spec(b.subrange(1, 5)) as i32,
        y: dec_i32_spec(b.subrange(5, 9)) as i32,
        z: dec_i32_spec(b.subrange(9, 13)) as i32,
    }
}

/// Serializes a response into a message body.
pub fn encode_response(resp: &Response) -> (r: Vec<u8>)
    requires
        resp matches Response::ChunkData(c) ==> c.wf(),
    ensures
        match resp {
            Response::ChunkData(c) => r@ == encode_chunk_response_spec(c.pos, c.blocks@),
            Response::Test => r@ == seq![RESPONSE_TEST_TAG],
        },
{
    match resp {
        Response::Test => {
            let mut out: Vec<u8> = Vec::new();
            out.push(RESPONSE_TEST_TAG);
            proof {
                assert(out@ =~= seq![RESPONSE_TEST_TAG]);
            }
            out
        },
        Response::ChunkData(c) => {
            let mut out: Vec<u8> = Vec::new();
            out.push(RESPONSE_CHUNK_TAG);
            push_i32(&mut out, c.pos.x);
            push_i32(&mut out, c.pos.y);
            push_i32(&mut out, c.pos.z);
            let payload = encode_blocks(&c.blocks);
            let mut k: usize = 0;
            let ghost head = out@;
            while k < payload.len()
                invariant
                    k <= payload@.len(),
                    out@ == head + payload@.take(k as int),
                decreases payload@.len() - k,
            {
                proof {
                    assert(head + payload@.take(k + 1) =~= (head + payload@.take(k as int)).push(
                        payload@[k as int],
                    ));
                }
                out.push(payload[k]);
                k = k + 1;
            }
            proof {
                assert(payload@.take(payload@.len() as int) =~= payload@);
                assert(out@ =~= encode_chunk_response_spec(c.pos, c.blocks@));
            }
            out
        },
    }
}

/// Parses a response body; the chunk payload must expand to exactly one
/// chunk volume.
pub fn decode_response(bytes: &Vec<u8>) -> (r: Result<Response, DecodeError>)
    ensures
        match r {
            Ok(resp) => match resp {
                Response::Test => bytes@ == seq![RESPONSE_TEST_TAG],
                Response::ChunkData(c) => {
                    &&& chunk_body_valid(bytes@)
                    &&& c.wf()
                    &&& c.pos == decode_response_pos_spec(bytes@)
                    &&& rle_decode_spec(bytes@.skip(13)) == Some(c.blocks@)
                },
            },
            Err(e) => {
                &&& bytes@ != seq![RESPONSE_TEST_TAG]
                &&& !chunk_body_valid(bytes@)
                &&& (e == DecodeError::LengthMismatch ==> bytes@.len() >= 13 && bytes@[0]
                    == RESPONSE_CHUNK_TAG)
                &&& (bytes@.len() >= 13 && bytes@[0] == RESPONSE_CHUNK_TAG ==> (e
                    == DecodeError::Malformed <==> rle_decode_spec(bytes@.skip(13)) is None))
            },
        },
{
    if bytes.len() == 1 && bytes[0] == RESPONSE_TEST_TAG {
        proof {
            assert(bytes@ =~= seq![RESPONSE_TEST_TAG]);
        }
        return Ok(Response::Test);
    }
    proof {
        assert(bytes@ != seq![RESPONSE_TEST_TAG]) by {
            if bytes@ == seq![RESPONSE_TEST_TAG] {
                assert(bytes@.len() == 1);
                assert(bytes@[0] == RESPONSE_TEST_TAG);
            }
        };
    }
    if bytes.len() < 13 || bytes[0] != RESPONSE_CHUNK_TAG {
        return Err(DecodeError::Malformed);
    }
    let pos = IVec3 { x: read_i32(bytes, 1), y: read_i32(bytes, 5), z: read_i32(bytes, 9) };
    let mut payload: Vec<u8> = Vec::new();
    let mut k: usize = 13;
    while k < bytes.len()
        invariant
            13 <= k <= bytes@.len(),
            bytes@.len() >= 13,
            payload@ == bytes@.subrange(13, k as int),
        decreases bytes@.len() - k,
    {
        proof {
            assert(bytes@.subrange(13, k + 1) =~= bytes@.subrange(13, k as int).push(
                bytes@[k as int],
            ));
        }
        payload.push(bytes[k]);
        k = k + 1;
    }
    proof {
        assert(payload@ =~= bytes@.skip(13));
    }
    match decode_blocks(&payload) {
        Ok(blocks) => Ok(Response::ChunkData(Chunk { blocks, pos })),
        Err(e) => Err(e),
    }
}

/// A chunk-data body decodes back to the coordinate and blocks it encodes.
pub proof fn lemma_response_round_trip(pos: IVec3, blocks: Seq<u8>)
    requires
        blocks.len() == 32768,
    ensures
        chunk_body_valid(encode_chunk_response_spec(pos, blocks)),
        decode_response_pos_spec(encode_chunk_response_spec(pos, blocks)) == pos,
        rle_decode_spec(encode_chunk_response_spec(pos, blocks).skip(13)) == Some(blocks),
{
    let b = encode_chunk_response_spec(pos, blocks);
    assert(b.subrange(1, 5) =~= enc_i32_spec(pos.x as int));
    assert(b.subrange(5, 9) =~= enc_i32_spec(pos.y as int));
    assert(b.subrange(9, 13) =~= enc_i32_spec(pos.z as int));
    assert(b.skip(13) =~= rle_encode_spec(blocks));
    lemma_i32_round_trip(pos.x as int);
    lemma_i32_round_trip(pos.y as int);
    lemma_i32_round_trip(pos.z as int);
    crate::codec::lemma_rle_round_trip(blocks);
}

/// A framed message: the body's length as four little-endian bytes, then
/// the body itself.
pub open spec fn frame_spec(body: Seq<u8>) -> Seq<u8> {
    enc_u32_spec(body.len() as int) + body
}

/// Wraps a message body in its length-prefixed frame.
pub fn frame_message(body: &Vec<u8>) -> (r: Vec<u8>)
    requires
        body@.len() < 0x1_0000_0000,
    ensures
        r@ == frame_spec(body@),
{
    let mut out: Vec<u8> = Vec::new();
    push_u32(&mut out, body.len() as u32);
    let mut k: usize = 0;
    let ghost head = out@;
    while k < body.len()
        invariant
            k <= body@.len(),
            out@ == head + body@.take(k as int),
        decreases body@.len() - k,
    {
        proof {
            assert(head + body@.take(k + 1) =~= (head + body@.take(k as int)).push(
                body@[k as int],
            ));
        }
        out.push(body[k]);
        k = k + 1;
    }
    proof {
        assert(body@.take(body@.len() as int) =~= body@);
        assert(out@ =~= frame_spec(body@));
    }
    out
}

/// Whether the buffer starts with one complete frame.
pub open spec fn frame_complete(buf: Seq<u8>) -> bool {
    buf.len() >= 4 && buf.len() - 4 >= dec_u32_spec(buf.subrange(0, 4))
}

/// Body length the buffer's prefix declares.
pub open spec fn frame_body_len(buf: Seq<u8>) -> int {
    dec_u32_spec(buf.subrange(0, 4))
}

/// Pops one complete frame off the front of a receive buffer, or leaves the
/// buffer alone when no complete frame has arrived yet.
pub fn take_frame(buf: &mut Vec<u8>) -> (r: Option<Vec<u8>>)
    ensures
        match r {
            Some(body) => {
                &&& frame_complete(old(buf)@)
                &&& body@ == old(buf)@.subrange(4, 4 + frame_body_len(old(buf)@))
                &&& final(buf)@ == old(buf)@.skip(4 + frame_body_len(old(buf)@))
            },
            None => !frame_complete(old(buf)@) && final(buf)@ == old(buf)@,
        },
{
    if buf.len() < 4 {
        return None;
    }
    let n32 = read_u32(buf, 0);
    let n: usize = n32 as usize;
    if buf.len() - 4 < n {
        return None;
    }
    let mut body: Vec<u8> = Vec::new();
    let mut k: usize = 0;
    proof {
        vstd::std_specs::vec::axiom_spec_len(buf);
    }
    while k < n
        invariant
            k <= n,
            4 + n <= buf@.len(),
            buf@.len() <= usize::MAX,
            n == frame_body_len(buf@),
            body@ == buf@.subrange(4, 4 + k as int),
        decreases n - k,
    {
        proof {
            assert(buf@.subrange(4, 4 + (k + 1)) =~= buf@.subrange(4, 4 + k as int).push(
                buf@[4 + k as int],
            ));
        }
        body.push(buf[4 + k]);
        k = k + 1;
    }
    let mut rest: Vec<u8> = Vec::new();
    let mut j: usize = 4 + n;
    while j < buf.len()
        invariant
            4 + n <= j <= buf@.len(),
            n == frame_body_len(buf@),
            rest@ == buf@.subrange(4 + n as int, j as int),
        decreases buf@.len() - j,
    {
        proof {
            assert(buf@.subrange(4 + n as int, j + 1) =~= buf@.subrange(
                4 + n as int,
                j as int,
            ).push(buf@[j as int]));
        }
        rest.push(buf[j]);
        j = j + 1;
    }
    proof {
        assert(rest@ =~= buf@.skip(4 + n as int));
    }
    *buf = rest;
    Some(body)
}

} // verus!
