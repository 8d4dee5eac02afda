//! IPC wire format: the 8-byte frame header, protocol version checks,
//! frame assembly around an already-serialized payload, and the
//! structured error type carried in responses.
use vstd::prelude::*;
use vstd::string::StringSliceAdditionalSpecFns;

pub mod frame_sync;
pub mod frame_async;

verus! {

/// IPC protocol version of this build.
pub const PROTOCOL_VERSION: u32 = 3;

/// Oldest protocol version still accepted.
pub const MIN_PROTOCOL_VERSION: u32 = 1;

/// Magic number of IPC frames: "VR".
pub const IPC_MAGIC: [u8; 2] = [0x56u8, 0x52u8];

/// Kind of frame, stored in the high 4 bits of the type/version byte.
#[derive(Debug, Clone, Copy, PartialEq, Eq, Structural)]
pub enum FrameType {
    /// Request from client to server (code 0).
    Request,
    /// Response from server to client (code 1).
    Response,
    /// Heartbeat / keepalive (code 2).
    Heartbeat,
}

/// Wire code of a frame type.
pub open spec fn frame_code(t: FrameType) -> u8 {
    match t {
        FrameType::Request => 0,
        FrameType::Response => 1,
        FrameType::Heartbeat => 2,
    }
}

/// Frame type of a wire code, if any.
pub open spec fn frame_of_code(v: u8) -> Option<FrameType> {
    if v == 0 {
        Some(FrameType::Request)
    } else if v == 1 {
        Some(FrameType::Response)
    } else if v == 2 {
        Some(FrameType::Heartbeat)
    } else {
        None
    }
}

impl FrameType {
    /// Wire code of this frame type.
    pub fn code(&self) -> (c: u8)
        ensures
            c == frame_code(*self),
    {
        match self {
            FrameType::Request => 0,
            FrameType::Response => 1,
            FrameType::Heartbeat => 2,
        }
    }

    /// Frame type for a wire code; `Err(())` for unknown codes.
    pub fn try_from_u8(value: u8) -> (r: Result<FrameType, ()>)
        ensures
            match frame_of_code(value) {
                Some(t) => r == Ok::<FrameType, ()>(t),
                None => r == Err::<FrameType, ()>(()),
            },
    {
        if value == 0 {
            Ok(FrameType::Request)
        } else if value == 1 {
            Ok(FrameType::Response)
        } else if value == 2 {
            Ok(FrameType::Heartbeat)
        } else {
            Err(())
        }
    }
}

/// Compact 8-byte IPC frame header:
/// magic (2 bytes), type+version (1), flags (1), length (LE u16), sequence id (LE u16).
#[derive(Debug, Clone, Copy)]
pub struct IpcHeader {
    /// Magic number: "VR".
    pub magic: [u8; 2],
    /// Frame type (high 4 bits) and protocol version (low 4 bits).
    pub type_ver: u8,
    /// Reserved flags.
    pub flags: u8,
    /// Payload length in bytes.
    pub length: u16,
    /// Sequence id for request/response matching.
    pub seq_id: u16,
}

/// The header carries the IPC magic "VR".
pub open spec fn has_magic(h: IpcHeader) -> bool {
    h.magic[0] == 0x56u8 && h.magic[1] == 0x52u8
}

/// The eight wire bytes of a header.
pub open spec fn header_bytes(h: IpcHeader) -> Seq<u8> {
    seq![
        h.magic[0],
        h.magic[1],
        h.type_ver,
        h.flags,
        (h.length % 256) as u8,
        (h.length / 256) as u8,
        (h.seq_id % 256) as u8,
        (h.seq_id / 256) as u8,
    ]
}

/// The header decoded from eight wire bytes.
pub open spec fn header_of_bytes(b: Seq<u8>) -> IpcHeader {
    IpcHeader {
        magic: [b[0], b[1]],
        type_ver: b[2],
        flags: b[3],
        length: (b[4] + 256 * b[5]) as u16,
        seq_id: (b[6] + 256 * b[7]) as u16,
    }
}

/// The type/version byte of a header of frame type `t` in this protocol version.
pub open spec fn type_ver_byte(t: FrameType) -> u8 {
    (16 * frame_code(t) + 3) as u8
}

proof fn lemma_le_split(x: u16)
    ensures
        (x & 0xff) as u8 == x % 256,
        (x >> 8) as u8 == x / 256,
{
    assert((x & 0xff) == x % 256) by (bit_vector);
    assert((x >> 8) == x / 256) by (bit_vector);
}

impl IpcHeader {
    /// Size of the header in bytes.
    pub const SIZE: usize = 8;

    /// Maximum payload length (64KB - 1).
    pub const MAX_LENGTH: usize = 65535;

    /// A header for `frame_type` with this build's protocol version and no flags.
    pub fn new(frame_type: FrameType, length: u16, seq_id: u16) -> (h: Self)
        ensures
            h.magic == IPC_MAGIC,
            h.type_ver == type_ver_byte(frame_type),
            h.flags == 0,
            h.length == length,
            h.seq_id == seq_id,
    {
        let code = frame_type.code();
        let type_ver: u8 = (code << 4) | ((PROTOCOL_VERSION as u8) & 0x0F);
        proof {
            assert(code <= 2);
            assert(code <= 2 ==> (code << 4) | (3u8 & 0x0Fu8) == 16 * code + 3) by (bit_vector);
        }
        IpcHeader { magic: IPC_MAGIC, type_ver, flags: 0, length, seq_id }
    }

    /// A request header.
    pub fn new_request(length: u16, seq_id: u16) -> (h: Self)
        ensures
            h.magic == IPC_MAGIC,
            h.type_ver == type_ver_byte(FrameType::Request),
            h.flags == 0,
            h.length == length,
            h.seq_id == seq_id,
    {
        Self::new(FrameType::Request, length, seq_id)
    }

    /// A response header.
    pub fn new_response(length: u16, seq_id: u16) -> (h: Self)
        ensures
            h.magic == IPC_MAGIC,
            h.type_ver == type_ver_byte(FrameType::Response),
            h.flags == 0,
            h.length == length,
            h.seq_id == seq_id,
    {
        Self::new(FrameType::Response, length, seq_id)
    }

    /// A heartbeat header (empty payload).
    pub fn new_heartbeat(seq_id: u16) -> (h: Self)
        ensures
            h.magic == IPC_MAGIC,
            h.type_ver == type_ver_byte(FrameType::Heartbeat),
            h.flags == 0,
            h.length == 0,
            h.seq_id == seq_id,
    {
        Self::new(FrameType::Heartbeat, 0, seq_id)
    }

    /// Whether the header carries the IPC magic.
    pub fn is_valid(&self) -> (r: bool)
        ensures
            r == has_magic(*self),
    {
        self.magic[0] == 0x56u8 && self.magic[1] == 0x52u8
    }

    /// Frame type from the high 4 bits, if it is a known code.
    pub fn frame_type(&self) -> (r: Option<FrameType>)
        ensures
            r == frame_of_code(self.type_ver / 16),
    {
        let tv = self.type_ver;
        let hi = tv >> 4;
        assert(tv >> 4 == tv / 16) by (bit_vector);
        match FrameType::try_from_u8(hi) {
            Ok(t) => Some(t),
            Err(_) => None,
        }
    }

    /// Protocol version from the low 4 bits.
    pub fn version(&self) -> (v: u8)
        ensures
            v == self.type_ver % 16,
    {
        let tv = self.type_ver;
        let v = tv & 0x0F;
        assert(tv & 0x0F == tv % 16) by (bit_vector);
        v
    }

    /// Serialize the header to its eight wire bytes.
    pub fn to_bytes(&self) -> (b: [u8; 8])
        ensures
            b@ == header_bytes(*self),
    {
        proof {
            lemma_le_split(self.length);
            lemma_le_split(self.seq_id);
        }
        let b = [
            self.magic[0],
            self.magic[1],
            self.type_ver,
            self.flags,
            (self.length & 0xff) as u8,
            (self.length >> 8) as u8,
            (self.seq_id & 0xff) as u8,
            (self.seq_id >> 8) as u8,
        ];
        assert(b@ =~= header_bytes(*self));
        b
    }

    /// Deserialize a header from eight wire bytes.
    pub fn from_bytes(bytes: &[u8; 8]) -> (h: Self)
        ensures
            h == header_of_bytes(bytes@),
    {
        let b4 = bytes[4];
        let b5 = bytes[5];
        let b6 = bytes[6];
        let b7 = bytes[7];
        let length: u16 = (b4 as u16) | ((b5 as u16) << 8);
        let seq_id: u16 = (b6 as u16) | ((b7 as u16) << 8);
        assert((b4 as u16) | ((b5 as u16) << 8) == b4 + 256 * b5) by (bit_vector);
        assert((b6 as u16) | ((b7 as u16) << 8) == b6 + 256 * b7) by (bit_vector);
        IpcHeader { magic: [bytes[0], bytes[1]], type_ver: bytes[2], flags: bytes[3], length, seq_id }
    }
}

/// Law: decoding the bytes of a header gives back the header.
pub proof fn law_header_bytes_roundtrip(h: IpcHeader)
    ensures
        header_of_bytes(header_bytes(h)) == h,
{
    let b = header_bytes(h);
    broadcast use vstd::array::axiom_array_ext_equal;
    assert(header_of_bytes(b).magic =~= h.magic);
}

/// Law: encoding a decoded header gives back the eight bytes.
pub proof fn law_bytes_header_roundtrip(b: Seq<u8>)
    requires
        b.len() == 8,
    ensures
        header_bytes(header_of_bytes(b)) == b,
{
    assert(header_bytes(header_of_bytes(b)) =~= b);
}

/// Law: a freshly built header is valid, reports its frame type, and
/// carries this build's protocol version.
pub proof fn law_new_header_fields(t: FrameType)
    ensures
        has_magic(IpcHeader { magic: IPC_MAGIC, type_ver: type_ver_byte(t), flags: 0, length: 0, seq_id: 0 }),
        frame_of_code(type_ver_byte(t) / 16) == Some(t),
        type_ver_byte(t) % 16 == PROTOCOL_VERSION,
{
}

/// Advance a sequence-id counter: returns the current id, then the
/// counter moves on by one, wrapping at 65535.
pub fn next_seq_id(counter: &mut u16) -> (id: u16)
    ensures
        id == *old(counter),
        *final(counter) == old(counter).wrapping_add(1),
{
    let id = *counter;
    *counter = counter.wrapping_add(1);
    id
}

/// Whether a client protocol version is accepted by this build.
pub fn is_version_compatible(client_version: u32) -> (r: bool)
    ensures
        r == (MIN_PROTOCOL_VERSION <= client_version <= PROTOCOL_VERSION),
{
    MIN_PROTOCOL_VERSION <= client_version && client_version <= PROTOCOL_VERSION
}

/// Default daemon socket path.
pub const DEFAULT_SOCKET_PATH: &'static str = "/tmp/vrift.sock";

/// Default socket path (internal fallback for clients).
pub fn default_socket_path() -> (p: &'static str)
    ensures
        p@ == DEFAULT_SOCKET_PATH@,
{
    DEFAULT_SOCKET_PATH
}

/// Entry of a directory listing.
pub struct DirEntry {
    pub name: String,
    pub is_dir: bool,
}

} // verus!
