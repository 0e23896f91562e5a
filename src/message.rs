//! The wire message, the events handed to the simulation, and the binary
//! encoding between them.

use vstd::prelude::*;

verus! {

/// Three coordinates, each held as the IEEE-754 bit pattern of an `f32`.
#[derive(Clone, Copy, Debug, PartialEq, Eq, Structural)]
pub struct Vector {
    pub x: u32,
    pub y: u32,
    pub z: u32,
}

/// The message that one peer publishes to all others.
#[derive(Clone, Copy, Debug, PartialEq, Eq, Structural)]
pub enum P2PDto {
    /// A player's position and velocity.
    PlayerUpdate(Vector, Vector),
}

/// Why a payload could not be read as a `P2PDto`.
#[derive(Clone, Copy, Debug, PartialEq, Eq, Structural)]
pub enum DecodeError {
    /// Fewer bytes than one message needs.
    Truncated,
    /// The leading variant index names no variant of the message.
    UnknownVariant(u32),
}

/// Number of bytes of an encoded `P2PDto`.
pub const ENCODED_LEN: usize = 28;

/// The variant index of `P2PDto::PlayerUpdate` on the wire.
pub const PLAYER_UPDATE_TAG: u32 = 0;

/// The four little-endian bytes of `w`.
pub open spec fn le_word(w: u32) -> Seq<u8> {
    seq![(w & 0xff) as u8, ((w >> 8u32) & 0xff) as u8, ((w >> 16u32) & 0xff) as u8, ((w >> 24u32) & 0xff) as u8]
}

/// The little-endian bytes of each word, one word after the other.
pub open spec fn le_words(ws: Seq<u32>) -> Seq<u8> {
    Seq::new(4 * ws.len(), |i: int| le_word(ws[i / 4])[i % 4])
}

/// The word whose little-endian bytes are the first four of `s`.
pub open spec fn word_of(s: Seq<u8>) -> u32 {
    (s[0] as u32) | ((s[1] as u32) << 8u32) | ((s[2] as u32) << 16u32) | ((s[3] as u32) << 24u32)
}

/// The `k`-th little-endian word of `b`.
pub open spec fn word_at(b: Seq<u8>, k: int) -> u32 {
    word_of(b.subrange(4 * k, 4 * k + 4))
}

/// The words that a message is written as: its variant index, then the
/// position and the velocity.
pub open spec fn words_of(m: P2PDto) -> Seq<u32> {
    match m {
        P2PDto::PlayerUpdate(p, v) => seq![PLAYER_UPDATE_TAG, p.x, p.y, p.z, v.x, v.y, v.z],
    }
}

/// The bytes that `m` is sent as.
pub open spec fn encoding(m: P2PDto) -> Seq<u8> {
    le_words(words_of(m))
}

/// What a received payload reads as; bytes after the first message are
/// not looked at.
pub open spec fn decoding(b: Seq<u8>) -> Result<P2PDto, DecodeError> {
    if b.len() < ENCODED_LEN {
        Err(DecodeError::Truncated)
    } else if word_at(b, 0) != PLAYER_UPDATE_TAG {
        Err(DecodeError::UnknownVariant(word_at(b, 0)))
    } else {
        Ok(
            P2PDto::PlayerUpdate(
                Vector { x: word_at(b, 1), y: word_at(b, 2), z: word_at(b, 3) },
                Vector { x: word_at(b, 4), y: word_at(b, 5), z: word_at(b, 6) },
            ),
        )
    }
}

proof fn lemma_word_of_le_word(w: u32)
    ensures
        word_of(le_word(w)) == w,
{
    let b0 = (w & 0xff) as u8;
    let b1 = ((w >> 8u32) & 0xff) as u8;
    let b2 = ((w >> 16u32) & 0xff) as u8;
    let b3 = ((w >> 24u32) & 0xff) as u8;
    assert((b0 as u32) | ((b1 as u32) << 8u32) | ((b2 as u32) << 16u32) | ((b3 as u32) << 24u32) == w)
        by (bit_vector)
        requires
            b0 == (w & 0xff) as u8,
            b1 == ((w >> 8u32) & 0xff) as u8,
            b2 == ((w >> 16u32) & 0xff) as u8,
            b3 == ((w >> 24u32) & 0xff) as u8,
    ;
}

/// Where the bytes of the words `ws` are `b`'s, each word of `b` is the
/// matching word of `ws`.
proof fn lemma_word_at(ws: Seq<u32>, b: Seq<u8>, k: int)
    requires
        0 <= k < ws.len(),
        4 * ws.len() <= b.len(),
        le_words(ws) == b.subrange(0, 4 * ws.len() as int),
    ensures
        word_at(b, k) == ws[k],
{
    let lw = le_words(ws);
    assert forall|j: int| 0 <= j < 4 implies #[trigger] b.subrange(4 * k, 4 * k + 4)[j] == le_word(ws[k])[j] by {
        assert(b[4 * k + j] == lw[4 * k + j]);
        assert((4 * k + j) / 4 == k);
        assert((4 * k + j) % 4 == j);
    }
    assert(b.subrange(4 * k, 4 * k + 4) =~= le_word(ws[k]));
    lemma_word_of_le_word(ws[k]);
}

/// Decoding an encoded message gives the message back.
pub proof fn lemma_round_trip(m: P2PDto)
    ensures
        decoding(encoding(m)) == Ok::<P2PDto, DecodeError>(m),
{
    let ws = words_of(m);
    let b = encoding(m);
    assert(b.subrange(0, 4 * ws.len() as int) =~= b);
    assert forall|k: int| 0 <= k < 7 implies #[trigger] word_at(b, k) == ws[k] by {
        lemma_word_at(ws, b, k);
    }
    assert(word_at(b, 0) == ws[0]);
    assert(word_at(b, 1) == ws[1]);
    assert(word_at(b, 2) == ws[2]);
    assert(word_at(b, 3) == ws[3]);
    assert(word_at(b, 4) == ws[4]);
    assert(word_at(b, 5) == ws[5]);
    assert(word_at(b, 6) == ws[6]);
}

/// Relies on bincode::serialize: its default options write each `u32` as
/// four little-endian bytes (fixed-width integers, no size limit) and an
/// array element after element with no length, so into a `Vec` it cannot fail.
#[verifier::external_body]
fn serialize_words(w: &[u32; 7]) -> (r: Option<Vec<u8>>)
    ensures
        r is Some,
        r.unwrap()@ == le_words(w@),
{
    bincode::serialize(w).ok()
}

/// Relies on bincode::deserialize: its default options read seven `u32`s
/// as four little-endian bytes each from the front of the slice, fail only
/// when fewer than 28 bytes are there, and ignore bytes that follow.
#[verifier::external_body]
fn deserialize_words(b: &[u8]) -> (r: Option<[u32; 7]>)
    ensures
        r is Some <==> b@.len() >= 28,
        r is Some ==> le_words(r.unwrap()@) == b@.subrange(0, 28),
{
    bincode::deserialize::<[u32; 7]>(b).ok()
}

/// The bytes that `m` is published as.
pub fn encode(m: &P2PDto) -> (r: Vec<u8>)
    ensures
        r@ == encoding(*m),
        r@.len() == ENCODED_LEN,
{
    let words: [u32; 7] = match m {
        P2PDto::PlayerUpdate(p, v) => [PLAYER_UPDATE_TAG, p.x, p.y, p.z, v.x, v.y, v.z],
    };
    assert(words@ =~= words_of(*m));
    serialize_words(&words).unwrap()
}

/// Reads a received payload as a message.
pub fn decode(b: &[u8]) -> (r: Result<P2PDto, DecodeError>)
    ensures
        r == decoding(b@),
{
    match deserialize_words(b) {
        None => Err(DecodeError::Truncated),
        Some(w) => {
            proof {
                assert forall|k: int| 0 <= k < 7 implies #[trigger] word_at(b@, k) == w@[k] by {
                    lemma_word_at(w@, b@, k);
                }
                assert(word_at(b@, 0) == w@[0]);
                assert(word_at(b@, 1) == w@[1]);
                assert(word_at(b@, 2) == w@[2]);
                assert(word_at(b@, 3) == w@[3]);
                assert(word_at(b@, 4) == w@[4]);
                assert(word_at(b@, 5) == w@[5]);
                assert(word_at(b@, 6) == w@[6]);
            }
            if w[0] != PLAYER_UPDATE_TAG {
                Err(DecodeError::UnknownVariant(w[0]))
            } else {
                Ok(
                    P2PDto::PlayerUpdate(
                        Vector { x: w[1], y: w[2], z: w[3] },
                        Vector { x: w[4], y: w[5], z: w[6] },
                    ),
                )
            }
        },
    }
}

} // verus!
