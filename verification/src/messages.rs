//! Peer wire message codec: `<length: 4-byte big-endian><id: 1 byte><payload>`.
//!
//! Encodes the `unchoke`, `interested` and `request` frames this client sends,
//! and decodes one received frame to a choke signal and an optional `piece`
//! payload.

use vstd::prelude::*;

verus! {

/// Message ids of the peer wire protocol used by this client.
pub const ID_CHOKE: u8 = 0;

pub const ID_UNCHOKE: u8 = 1;

pub const ID_INTERESTED: u8 = 2;

pub const ID_HAVE: u8 = 4;

pub const ID_REQUEST: u8 = 6;

pub const ID_PIECE: u8 = 7;

pub const ID_CANCEL: u8 = 8;

/// The four big-endian bytes of `x`, most significant first.
pub open spec fn spec_be32(x: u32) -> Seq<u8> {
    seq![(x >> 24) as u8, (x >> 16) as u8, (x >> 8) as u8, x as u8]
}

/// The five bytes of a bare control message with id `id`.
pub open spec fn spec_control_msg(id: u8) -> Seq<u8> {
    seq![0u8, 0u8, 0u8, 1u8, id]
}

/// The 17 bytes of a `request` frame: length 13, id 6, then index, begin and
/// length, each big-endian.
pub open spec fn spec_request_msg(index: u32, begin: u32, length: u32) -> Seq<u8> {
    seq![0u8, 0u8, 0u8, 13u8, ID_REQUEST] + spec_be32(index) + spec_be32(begin) + spec_be32(
        length,
    )
}

/// Why a received frame was rejected.
#[derive(Clone, Copy, Debug, PartialEq, Eq, Structural)]
pub enum MessageError {
    /// The frame is shorter than its shape requires.
    Truncated,
    /// The id byte is none this client accepts.
    UnknownId,
}

/// A keep-alive: a zero length prefix and nothing after it.
pub open spec fn spec_keep_alive(m: Seq<u8>) -> bool {
    m.len() == 4 && m[0] == 0 && m[1] == 0 && m[2] == 0 && m[3] == 0
}

/// The frame decodes without error.
pub open spec fn spec_msg_ok(m: Seq<u8>) -> bool {
    ||| spec_keep_alive(m)
    ||| (m.len() >= 5 && (m[4] == ID_CHOKE || m[4] == ID_UNCHOKE || m[4] == ID_INTERESTED || m[4]
        == ID_HAVE || m[4] == ID_CANCEL))
    ||| (m.len() >= 13 && m[4] == ID_PIECE)
}

/// The frame is a `choke`.
pub open spec fn spec_msg_choked(m: Seq<u8>) -> bool {
    m.len() >= 5 && m[4] == ID_CHOKE
}

/// The frame is a `piece` and carries block data.
pub open spec fn spec_msg_has_payload(m: Seq<u8>) -> bool {
    m.len() >= 13 && m[4] == ID_PIECE
}

/// The block data of a `piece` frame: everything after the 4-byte length, the
/// id, and the 4-byte index and begin fields.
pub open spec fn spec_msg_payload(m: Seq<u8>) -> Seq<u8> {
    m.skip(13)
}

/// The error a rejected frame is reported with.
pub open spec fn spec_msg_err(m: Seq<u8>) -> MessageError {
    if m.len() >= 5 && !(m[4] == ID_CHOKE || m[4] == ID_UNCHOKE || m[4] == ID_INTERESTED || m[4]
        == ID_HAVE || m[4] == ID_CANCEL || m[4] == ID_PIECE) {
        MessageError::UnknownId
    } else {
        MessageError::Truncated
    }
}

/// The `unchoke` frame this client sends after the handshake.
pub fn create_unchoke_msg() -> (r: Vec<u8>)
    ensures
        r@ == spec_control_msg(ID_UNCHOKE),
{
    let mut v: Vec<u8> = Vec::new();
    v.push(0);
    v.push(0);
    v.push(0);
    v.push(1);
    v.push(ID_UNCHOKE);
    proof {
        assert(v@ =~= spec_control_msg(ID_UNCHOKE));
    }
    v
}

/// The `interested` frame this client sends after the handshake.
pub fn create_interested_msg() -> (r: Vec<u8>)
    ensures
        r@ == spec_control_msg(ID_INTERESTED),
{
    let mut v: Vec<u8> = Vec::new();
    v.push(0);
    v.push(0);
    v.push(0);
    v.push(1);
    v.push(ID_INTERESTED);
    proof {
        assert(v@ =~= spec_control_msg(ID_INTERESTED));
    }
    v
}

/// Appends the four big-endian bytes of `x` to `v`.
fn push_be32(v: &mut Vec<u8>, x: u32)
    ensures
        final(v)@ == old(v)@ + spec_be32(x),
{
    v.push((x >> 24) as u8);
    v.push((x >> 16) as u8);
    v.push((x >> 8) as u8);
    v.push(x as u8);
    proof {
        assert(final(v)@ =~= old(v)@ + spec_be32(x));
    }
}

/// The `request` frame for block `[begin, begin+length)` of piece `index`.
pub fn create_request_msg(index: u32, begin: u32, length: u32) -> (r: Vec<u8>)
    ensures
        r@ == spec_request_msg(index, begin, length),
        r@.len() == 17,
{
    let mut v: Vec<u8> = Vec::new();
    v.push(0);
    v.push(0);
    v.push(0);
    v.push(13);
    v.push(ID_REQUEST);
    push_be32(&mut v, index);
    push_be32(&mut v, begin);
    push_be32(&mut v, length);
    proof {
        assert(v@ =~= spec_request_msg(index, begin, length));
    }
    v
}

/// Decodes the accumulated bytes of exactly one frame.
///
/// Returns `choked == true` iff the frame is a `choke`, and block bytes iff
/// the frame is a `piece`. Keep-alive, `unchoke`, `interested`, `have` and
/// `cancel` decode to `(false, None)`; any other id is an error.
pub fn read_message(message: &Vec<u8>) -> (r: Result<(bool, Option<Vec<u8>>), MessageError>)
    ensures
        r is Ok <==> spec_msg_ok(message@),
        r matches Ok((choked, payload)) ==> {
            &&& choked == spec_msg_choked(message@)
            &&& (payload is Some <==> spec_msg_has_payload(message@))
            &&& (payload matches Some(p) ==> p@ == spec_msg_payload(message@))
        },
        r matches Err(e) ==> e == spec_msg_err(message@),
{
    if message.len() < 4 {
        return Err(MessageError::Truncated);
    }
    if message.len() == 4 {
        if message[0] == 0 && message[1] == 0 && message[2] == 0 && message[3] == 0 {
            return Ok((false, None));
        }
        return Err(MessageError::Truncated);
    }
    let id = message[4];
    if id == ID_CHOKE {
        Ok((true, None))
    } else if id == ID_UNCHOKE || id == ID_INTERESTED || id == ID_HAVE || id == ID_CANCEL {
        Ok((false, None))
    } else if id == ID_PIECE {
        if message.len() < 13 {
            return Err(MessageError::Truncated);
        }
        let mut payload: Vec<u8> = Vec::new();
        let mut i: usize = 13;
        while i < message.len()
            invariant
                13 <= i <= message@.len(),
                message@.len() >= 13,
                payload@ == message@.subrange(13, i as int),
            decreases message@.len() - i,
        {
            payload.push(message[i]);
            proof {
                assert(payload@ =~= message@.subrange(13, i + 1));
            }
            i += 1;
        }
        proof {
            assert(payload@ =~= spec_msg_payload(message@));
        }
        Ok((false, Some(payload)))
    } else {
        Err(MessageError::UnknownId)
    }
}

} // verus!
