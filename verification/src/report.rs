//! The load-report wire format. Each backend periodically sends one frame of
//! twelve bytes: protocol version, player count and capacity, each a 32-bit
//! little-endian word. A frame whose player count exceeds its capacity is
//! malformed and decodes to nothing, so every decoded report respects the
//! registry invariant.

use vstd::prelude::*;

verus! {

/// The size in bytes of one load-report frame.
pub const REPORT_FRAME_LEN: usize = 12;

/// One load report from a backend game server.
#[derive(Clone, Copy, PartialEq, Eq, Structural, Debug)]
pub struct LoadReport {
    pub protocol_version: u32,
    pub player_count: u32,
    pub capacity: u32,
}

/// The 32-bit word held little-endian in four bytes.
pub open spec fn word_of_bytes(b0: u8, b1: u8, b2: u8, b3: u8) -> u32 {
    (b0 as u32) | ((b1 as u32) << 8) | ((b2 as u32) << 16) | ((b3 as u32) << 24)
}

/// The `k`-th little-endian byte of a 32-bit word, `k < 4`.
pub open spec fn byte_of_word(v: u32, k: int) -> u8 {
    ((v >> (8 * k)) & 0xff) as u8
}

/// The twelve bytes that encode a report.
pub open spec fn report_bytes(r: LoadReport) -> Seq<u8> {
    seq![
        byte_of_word(r.protocol_version, 0),
        byte_of_word(r.protocol_version, 1),
        byte_of_word(r.protocol_version, 2),
        byte_of_word(r.protocol_version, 3),
        byte_of_word(r.player_count, 0),
        byte_of_word(r.player_count, 1),
        byte_of_word(r.player_count, 2),
        byte_of_word(r.player_count, 3),
        byte_of_word(r.capacity, 0),
        byte_of_word(r.capacity, 1),
        byte_of_word(r.capacity, 2),
        byte_of_word(r.capacity, 3),
    ]
}

/// What a byte string decodes to: a report exactly when it is one
/// well-formed frame.
pub open spec fn decode_spec(s: Seq<u8>) -> Option<LoadReport> {
    if s.len() != 12 {
        None
    } else {
        let r = LoadReport {
            protocol_version: word_of_bytes(s[0], s[1], s[2], s[3]),
            player_count: word_of_bytes(s[4], s[5], s[6], s[7]),
            capacity: word_of_bytes(s[8], s[9], s[10], s[11]),
        };
        if r.player_count <= r.capacity {
            Some(r)
        } else {
            None
        }
    }
}

/// Splitting a 32-bit word into its four little-endian bytes and reassembling
/// them gives the word back.
proof fn lemma_word_round_trip(v: u32)
    ensures
        word_of_bytes(
            byte_of_word(v, 0),
            byte_of_word(v, 1),
            byte_of_word(v, 2),
            byte_of_word(v, 3),
        ) == v,
{
    assert((((v >> 0) & 0xff) as u8 as u32) | ((((v >> 8) & 0xff) as u8 as u32) << 8) | ((((v
        >> 16) & 0xff) as u8 as u32) << 16) | ((((v >> 24) & 0xff) as u8 as u32) << 24) == v)
        by (bit_vector);
    assert(byte_of_word(v, 0) == ((v >> 0) & 0xff) as u8);
}

/// Round trip: every well-formed report survives encoding and decoding
/// unchanged.
pub proof fn lemma_report_round_trip(r: LoadReport)
    requires
        r.player_count <= r.capacity,
    ensures
        decode_spec(report_bytes(r)) == Some(r),
{
    lemma_word_round_trip(r.protocol_version);
    lemma_word_round_trip(r.player_count);
    lemma_word_round_trip(r.capacity);
}

/// Encode a report as one frame.
pub fn encode_report(r: &LoadReport) -> (out: Vec<u8>)
    ensures
        out@ == report_bytes(*r),
{
    let mut out: Vec<u8> = Vec::new();
    push_word_le(&mut out, r.protocol_version);
    push_word_le(&mut out, r.player_count);
    push_word_le(&mut out, r.capacity);
    proof {
        assert(out@ =~= report_bytes(*r));
    }
    out
}

/// Append the four little-endian bytes of one word.
fn push_word_le(out: &mut Vec<u8>, v: u32)
    ensures
        final(out)@ == old(out)@ + seq![
            byte_of_word(v, 0),
            byte_of_word(v, 1),
            byte_of_word(v, 2),
            byte_of_word(v, 3),
        ],
{
    out.push((v & 0xff) as u8);
    out.push(((v >> 8) & 0xff) as u8);
    out.push(((v >> 16) & 0xff) as u8);
    out.push(((v >> 24) & 0xff) as u8);
    proof {
        assert(v & 0xff == (v >> 0) & 0xff) by (bit_vector);
        assert(final(out)@ =~= old(out)@ + seq![
            byte_of_word(v, 0),
            byte_of_word(v, 1),
            byte_of_word(v, 2),
            byte_of_word(v, 3),
        ]);
    }
}

/// Decode one frame; `None` on any malformed input.
pub fn decode_report(s: &[u8]) -> (r: Option<LoadReport>)
    ensures
        r == decode_spec(s@),
{
    if s.len() != 12 {
        return None;
    }
    let rep = LoadReport {
        protocol_version: word_le(s[0], s[1], s[2], s[3]),
        player_count: word_le(s[4], s[5], s[6], s[7]),
        capacity: word_le(s[8], s[9], s[10], s[11]),
    };
    if rep.player_count <= rep.capacity {
        Some(rep)
    } else {
        None
    }
}

/// Assemble one little-endian word.
fn word_le(b0: u8, b1: u8, b2: u8, b3: u8) -> (v: u32)
    ensures
        v == word_of_bytes(b0, b1, b2, b3),
{
    (b0 as u32) | ((b1 as u32) << 8) | ((b2 as u32) << 16) | ((b3 as u32) << 24)
}

} // verus!
