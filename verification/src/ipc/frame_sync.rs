//! Frame assembly for blocking transports: the bytes of a frame around an
//! already-serialized payload, and decoding of a received header.
use vstd::prelude::*;
use crate::ipc::{IpcHeader, FrameType, IPC_MAGIC, header_bytes, header_of_bytes, has_magic, type_ver_byte, frame_of_code, next_seq_id};

verus! {


/// Why a frame could not be built or read.
#[derive(Debug, Clone, Copy, PartialEq, Eq, Structural)]
pub enum FrameError {
    /// The payload is longer than `IpcHeader::MAX_LENGTH` bytes.
    PayloadTooLarge,
    /// The header does not carry the IPC magic.
    InvalidMagic,
}

/// Header bytes followed by the payload bytes.
fn frame_bytes(header: &IpcHeader, payload: &[u8]) -> (r: Vec<u8>)
    ensures
        r@ == header_bytes(*header) + payload@,
{
    let hb = header.to_bytes();
    let mut out: Vec<u8> = Vec::new();
    let mut i: usize = 0;
    while i < 8
        invariant
            0 <= i <= 8,
            hb@ == header_bytes(*header),
            out@ == hb@.take(i as int),
        decreases 8 - i,
    {
        out.push(hb[i]);
        proof { assert(hb@.take(i + 1) =~= hb@.take(i as int).push(hb@[i as int])); }
        i = i + 1;
    }
    let mut j: usize = 0;
    while j < payload.len()
        invariant
            0 <= j <= payload@.len(),
            out@ == hb@ + payload@.take(j as int),
        decreases payload@.len() - j,
    {
        out.push(payload[j]);
        proof { assert(payload@.take(j + 1) =~= payload@.take(j as int).push(payload@[j as int])); }
        j = j + 1;
    }
    proof {
        assert(hb@.take(8) =~= hb@);
        assert(payload@.take(payload@.len() as int) =~= payload@);
    }
    out
}

/// Build a request frame around an already-serialized payload, taking the
/// next sequence id from `counter`. Returns the frame bytes and the id,
/// or `PayloadTooLarge` (without consuming an id) for oversized payloads.
pub fn send_request(payload: &[u8], counter: &mut u16) -> (r: Result<(Vec<u8>, u16), FrameError>)
    ensures
        payload@.len() > IpcHeader::MAX_LENGTH ==> r == Err::<(Vec<u8>, u16), FrameError>(FrameError::PayloadTooLarge)
            && *final(counter) == *old(counter),
        payload@.len() <= IpcHeader::MAX_LENGTH ==> {
            &&& r is Ok
            &&& r.unwrap().1 == *old(counter)
            &&& *final(counter) == old(counter).wrapping_add(1)
            &&& r.unwrap().0@ == header_bytes(IpcHeader {
                    magic: IPC_MAGIC,
                    type_ver: type_ver_byte(FrameType::Request),
                    flags: 0,
                    length: payload@.len() as u16,
                    seq_id: *old(counter),
                }) + payload@
        },
{
    if payload.len() > IpcHeader::MAX_LENGTH {
        return Err(FrameError::PayloadTooLarge);
    }
    let seq_id = next_seq_id(counter);
    let header = IpcHeader::new_request(payload.len() as u16, seq_id);
    Ok((frame_bytes(&header, payload), seq_id))
}

/// Build a response frame around an already-serialized payload for the
/// request `seq_id`, or `PayloadTooLarge` for oversized payloads.
pub fn send_response(payload: &[u8], seq_id: u16) -> (r: Result<Vec<u8>, FrameError>)
    ensures
        payload@.len() > IpcHeader::MAX_LENGTH ==> r == Err::<Vec<u8>, FrameError>(FrameError::PayloadTooLarge),
        payload@.len() <= IpcHeader::MAX_LENGTH ==> {
            &&& r is Ok
            &&& r.unwrap()@ == header_bytes(IpcHeader {
                    magic: IPC_MAGIC,
                    type_ver: type_ver_byte(FrameType::Response),
                    flags: 0,
                    length: payload@.len() as u16,
                    seq_id: seq_id,
                }) + payload@
        },
{
    if payload.len() > IpcHeader::MAX_LENGTH {
        return Err(FrameError::PayloadTooLarge);
    }
    let header = IpcHeader::new_response(payload.len() as u16, seq_id);
    Ok(frame_bytes(&header, payload))
}

/// Decode the eight header bytes read from the transport; rejects a
/// header without the IPC magic.
pub fn read_header(buf: &[u8; 8]) -> (r: Result<IpcHeader, FrameError>)
    ensures
        has_magic(header_of_bytes(buf@)) ==> r == Ok::<IpcHeader, FrameError>(header_of_bytes(buf@)),
        !has_magic(header_of_bytes(buf@)) ==> r == Err::<IpcHeader, FrameError>(FrameError::InvalidMagic),
{
    let header = IpcHeader::from_bytes(buf);
    if !header.is_valid() {
        return Err(FrameError::InvalidMagic);
    }
    Ok(header)
}

/// Heartbeat frame bytes with the next sequence id from `counter`.
pub fn send_heartbeat(counter: &mut u16) -> (r: ([u8; 8], u16))
    ensures
        r.1 == *old(counter),
        *final(counter) == old(counter).wrapping_add(1),
        r.0@ == header_bytes(IpcHeader {
            magic: IPC_MAGIC,
            type_ver: type_ver_byte(FrameType::Heartbeat),
            flags: 0,
            length: 0,
            seq_id: *old(counter),
        }),
{
    let seq_id = next_seq_id(counter);
    let header = IpcHeader::new(FrameType::Heartbeat, 0, seq_id);
    (header.to_bytes(), seq_id)
}

/// Whether a received header is a heartbeat.
pub fn is_heartbeat(header: &IpcHeader) -> (r: bool)
    ensures
        r == (frame_of_code(header.type_ver / 16) == Some(FrameType::Heartbeat)),
{
    match header.frame_type() {
        Some(FrameType::Heartbeat) => true,
        _ => false,
    }
}

} // verus!
