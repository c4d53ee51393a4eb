//! The packets of the protocol: the common header, the opcodes, and the
//! payload of each opcode, with their byte images.
//!
//! Every packet is a sequence of little-endian fields without padding.  For
//! each kind of packet, `bytes` is its image on the wire, `encode` writes it,
//! and `decode` reads it back from a datagram that is long enough.

pub use crate::address::IpAddress;
use crate::wire::{
    field, get_octets, get_u128, get_u16, get_u32, get_u64, get_u8, le_bytes, lemma_field,
    lemma_le_bytes_len_auto, lemma_pow256_values, put_le, put_octets,
};
use vstd::prelude::*;

verus! {

broadcast use lemma_le_bytes_len_auto;

/// The identifier of a capability.
pub type CapID = u128;

/// Length of the common header.
pub const COMMON_HEADER_SIZE: usize = 32;

/// Length of a request-invocation packet.
pub const REQUEST_INVOKE_SIZE: usize = 98;

/// Length of a capability-invalid packet.
pub const CAP_INVALID_SIZE: usize = 54;

/// Length of a request-response packet.
pub const REQUEST_RESPONSE_SIZE: usize = 40;

/// Length of an insert-capability packet.
pub const INSERT_CAP_SIZE: usize = 61;

/// Length of a revoke-capability packet.
pub const REVOKE_CAP_SIZE: usize = 58;

/// Length of what precedes the buffer in a memory-copy response.
pub const MEMORY_COPY_RESPONSE_PREFIX: usize = 52;

/// Largest number of buffer bytes in one memory-copy response.
pub const MEMORY_COPY_CHUNK: usize = 1024;

/// Length of a memory-copy response packet.
pub const MEMORY_COPY_RESPONSE_SIZE: usize = 1076;

/// Length of a no-operation request packet.
pub const NOP_REQUEST_SIZE: usize = 40;

/// The opcodes of the protocol.
#[derive(Clone, Copy, Debug, PartialEq, Eq, Structural)]
pub enum CmdType {
    Nop,
    CapGetInfo,
    CapIsSame,
    CapDiminish,
    CapClose,
    CapRevoke,
    CapInvalid,
    MemoryCopy,
    MemoryCopyResponse,
    RequestCreate,
    RequestInvoke,
    RequestReceive,
    RequestResponse,
    /// Stands for every number that is no opcode.
    Unknown,
    InsertCap,
    ControllerResetSwitch,
    ControllerStop,
    ControllerStartTimer,
    ControllerStopTimer,
}

impl CmdType {
    /// The number that stands for this opcode on the wire.
    pub open spec fn code(self) -> u32 {
        match self {
            CmdType::Nop => 0,
            CmdType::CapGetInfo => 1,
            CmdType::CapIsSame => 2,
            CmdType::CapDiminish => 3,
            CmdType::CapClose => 5,
            CmdType::CapRevoke => 6,
            CmdType::CapInvalid => 7,
            CmdType::MemoryCopy => 10,
            CmdType::MemoryCopyResponse => 11,
            CmdType::RequestCreate => 13,
            CmdType::RequestInvoke => 14,
            CmdType::RequestReceive => 16,
            CmdType::RequestResponse => 17,
            CmdType::Unknown => 32,
            CmdType::InsertCap => 64,
            CmdType::ControllerResetSwitch => 128,
            CmdType::ControllerStop => 129,
            CmdType::ControllerStartTimer => 130,
            CmdType::ControllerStopTimer => 131,
        }
    }

    /// The opcode that a number stands for; `Unknown` for a number that is none.
    pub open spec fn of_code(value: u32) -> CmdType {
        if value == 0 {
            CmdType::Nop
        } else if value == 1 {
            CmdType::CapGetInfo
        } else if value == 2 {
            CmdType::CapIsSame
        } else if value == 3 {
            CmdType::CapDiminish
        } else if value == 5 {
            CmdType::CapClose
        } else if value == 6 {
            CmdType::CapRevoke
        } else if value == 7 {
            CmdType::CapInvalid
        } else if value == 10 {
            CmdType::MemoryCopy
        } else if value == 11 {
            CmdType::MemoryCopyResponse
        } else if value == 13 {
            CmdType::RequestCreate
        } else if value == 14 {
            CmdType::RequestInvoke
        } else if value == 16 {
            CmdType::RequestReceive
        } else if value == 17 {
            CmdType::RequestResponse
        } else if value == 64 {
            CmdType::InsertCap
        } else if value == 128 {
            CmdType::ControllerResetSwitch
        } else if value == 129 {
            CmdType::ControllerStop
        } else if value == 130 {
            CmdType::ControllerStartTimer
        } else if value == 131 {
            CmdType::ControllerStopTimer
        } else {
            CmdType::Unknown
        }
    }

    /// The number of this opcode.
    pub fn to_u32(self) -> (r: u32)
        ensures
            r == self.code(),
    {
        match self {
            CmdType::Nop => 0,
            CmdType::CapGetInfo => 1,
            CmdType::CapIsSame => 2,
            CmdType::CapDiminish => 3,
            CmdType::CapClose => 5,
            CmdType::CapRevoke => 6,
            CmdType::CapInvalid => 7,
            CmdType::MemoryCopy => 10,
            CmdType::MemoryCopyResponse => 11,
            CmdType::RequestCreate => 13,
            CmdType::RequestInvoke => 14,
            CmdType::RequestReceive => 16,
            CmdType::RequestResponse => 17,
            CmdType::Unknown => 32,
            CmdType::InsertCap => 64,
            CmdType::ControllerResetSwitch => 128,
            CmdType::ControllerStop => 129,
            CmdType::ControllerStartTimer => 130,
            CmdType::ControllerStopTimer => 131,
        }
    }

    /// The opcode of a number.  A number that is no opcode gives `Unknown`.
    pub fn from(value: u32) -> (r: CmdType)
        ensures
            r == CmdType::of_code(value),
    {
        if value == 0 {
            CmdType::Nop
        } else if value == 1 {
            CmdType::CapGetInfo
        } else if value == 2 {
            CmdType::CapIsSame
        } else if value == 3 {
            CmdType::CapDiminish
        } else if value == 5 {
            CmdType::CapClose
        } else if value == 6 {
            CmdType::CapRevoke
        } else if value == 7 {
            CmdType::CapInvalid
        } else if value == 10 {
            CmdType::MemoryCopy
        } else if value == 11 {
            CmdType::MemoryCopyResponse
        } else if value == 13 {
            CmdType::RequestCreate
        } else if value == 14 {
            CmdType::RequestInvoke
        } else if value == 16 {
            CmdType::RequestReceive
        } else if value == 17 {
            CmdType::RequestResponse
        } else if value == 64 {
            CmdType::InsertCap
        } else if value == 128 {
            CmdType::ControllerResetSwitch
        } else if value == 129 {
            CmdType::ControllerStop
        } else if value == 130 {
            CmdType::ControllerStartTimer
        } else if value == 131 {
            CmdType::ControllerStopTimer
        } else {
            CmdType::Unknown
        }
    }
}

/// Every opcode is found again from its number.
pub proof fn lemma_cmd_code_round_trip(c: CmdType)
    ensures
        CmdType::of_code(c.code()) == c,
{
}

/// The flag bits of a request invocation.
#[derive(Clone, Copy, Debug, PartialEq, Eq, Structural)]
pub struct Flags {
    pub bits: u8,
}

impl Flags {
    /// The caller waits for a response.
    pub const REQUIRE_RESPONSE: u8 = 1;

    /// The byte of these flags.
    pub open spec fn view(&self) -> u8 {
        self.bits
    }

    /// Whether the bit that asks for a response is set.
    pub open spec fn requires_response(&self) -> bool {
        self@ % 2 == 1
    }

    /// No flag set.
    pub fn empty() -> (r: Flags)
        ensures
            r@ == 0,
    {
        Flags { bits: 0 }
    }

    /// The flags of a request that does, or does not, wait for a response.
    pub fn response(wait: bool) -> (r: Flags)
        ensures
            r@ == if wait {
                1u8
            } else {
                0u8
            },
            r.requires_response() == wait,
    {
        Flags {
            bits: if wait {
                1
            } else {
                0
            },
        }
    }

    /// The flags of a byte; `None` where a bit is set that is no flag.
    pub fn from_bits(bits: u8) -> (r: Option<Flags>)
        ensures
            r == if bits <= 1 {
                Some(Flags { bits })
            } else {
                None
            },
            r matches Some(f) ==> f@ == bits,
    {
        if bits <= 1 {
            Some(Flags { bits })
        } else {
            None
        }
    }

    /// The byte of these flags.
    pub fn bits(&self) -> (r: u8)
        ensures
            r == self@,
    {
        self.bits
    }

    /// Whether the response bit is set.
    pub fn contains_require_response(&self) -> (r: bool)
        ensures
            r == self.requires_response(),
    {
        self.bits % 2 == 1
    }
}

/// A fresh stream identifier from `rand::random::<u32>()`.  Nothing is
/// claimed of the number.
#[verifier::external_body]
pub(crate) fn random_stream_id() -> (r: u32) {
    rand::random::<u32>()
}

/// What every packet starts with.
#[derive(Clone, Copy, Debug, PartialEq, Eq, Structural)]
pub struct CommonHeader {
    pub size: u64,
    pub stream_id: u32,
    pub cmd: u32,
    pub cap_id: CapID,
}

impl CommonHeader {
    /// The 32 bytes of the header: `size`, `stream_id`, `cmd`, `cap_id`.
    pub open spec fn bytes(&self) -> Seq<u8> {
        le_bytes(self.size as nat, 8) + le_bytes(self.stream_id as nat, 4) + le_bytes(
            self.cmd as nat,
            4,
        ) + le_bytes(self.cap_id as nat, 16)
    }

    /// The header that the first 32 bytes of `b` spell.
    pub open spec fn read(b: Seq<u8>) -> CommonHeader {
        CommonHeader {
            size: field(b, 0, 8) as u64,
            stream_id: field(b, 8, 4) as u32,
            cmd: field(b, 12, 4) as u32,
            cap_id: field(b, 16, 16) as u128,
        }
    }

    /// The header of a packet of opcode `cmd` with `size` 0.
    pub open spec fn plain(cmd: CmdType, stream_id: u32, cap_id: CapID) -> CommonHeader {
        CommonHeader { size: 0, stream_id, cmd: cmd.code(), cap_id }
    }

    /// Appends the header to `out`.
    pub fn put(&self, out: &mut Vec<u8>)
        ensures
            final(out)@ == old(out)@ + self.bytes(),
    {
        put_le(out, self.size as u128, 8);
        put_le(out, self.stream_id as u128, 4);
        put_le(out, self.cmd as u128, 4);
        put_le(out, self.cap_id, 16);
        assert(out@ =~= old(out)@ + self.bytes());
    }

    /// The header alone, as a packet.
    pub fn encode(&self) -> (r: Vec<u8>)
        ensures
            r@ == self.bytes(),
            r@.len() == COMMON_HEADER_SIZE,
    {
        let mut out: Vec<u8> = Vec::new();
        self.put(&mut out);
        assert(out@ =~= self.bytes());
        out
    }

    /// Reads the header of a datagram; `None` where it is shorter than one.
    pub fn decode(buf: &[u8]) -> (r: Option<CommonHeader>)
        ensures
            r == if buf@.len() >= COMMON_HEADER_SIZE {
                Some(CommonHeader::read(buf@))
            } else {
                None
            },
    {
        if buf.len() < COMMON_HEADER_SIZE {
            return None;
        }
        Some(
            CommonHeader {
                size: get_u64(buf, 0),
                stream_id: get_u32(buf, 8),
                cmd: get_u32(buf, 12),
                cap_id: get_u128(buf, 16),
            },
        )
    }
}

/// A buffer that starts with the image of a header reads as that header.
pub proof fn lemma_common_read(h: CommonHeader, rest: Seq<u8>)
    ensures
        h.bytes().len() == COMMON_HEADER_SIZE,
        CommonHeader::read(h.bytes() + rest) == h,
{
    let b = h.bytes() + rest;
    lemma_pow256_values();
    assert(b.subrange(0, 8) =~= le_bytes(h.size as nat, 8));
    assert(b.subrange(8, 12) =~= le_bytes(h.stream_id as nat, 4));
    assert(b.subrange(12, 16) =~= le_bytes(h.cmd as nat, 4));
    assert(b.subrange(16, 32) =~= le_bytes(h.cap_id as nat, 16));
    lemma_field(b, 0, h.size as nat, 8);
    lemma_field(b, 8, h.stream_id as nat, 4);
    lemma_field(b, 12, h.cmd as nat, 4);
    lemma_field(b, 16, h.cap_id as nat, 16);
}

/// The answer to a request invocation.
#[derive(Clone, Copy, Debug, PartialEq, Eq, Structural)]
pub struct RequestResponseHeader {
    pub common: CommonHeader,
    pub response_code: u64,
}

impl RequestResponseHeader {
    /// The image: the common header, then `response_code`.
    pub open spec fn bytes(&self) -> Seq<u8> {
        self.common.bytes() + le_bytes(self.response_code as nat, 8)
    }

    /// The packet that the first 40 bytes of `b` spell.
    pub open spec fn read(b: Seq<u8>) -> RequestResponseHeader {
        RequestResponseHeader {
            common: CommonHeader::read(b),
            response_code: field(b, 32, 8) as u64,
        }
    }

    /// The response to the request on `stream_id`.
    pub fn construct(cap_id: CapID, stream_id: u32, response_code: u64) -> (r:
        RequestResponseHeader)
        ensures
            r == (RequestResponseHeader {
                common: CommonHeader::plain(CmdType::RequestResponse, stream_id, cap_id),
                response_code,
            }),
    {
        RequestResponseHeader {
            common: CommonHeader {
                size: 0,
                stream_id,
                cmd: CmdType::RequestResponse.to_u32(),
                cap_id,
            },
            response_code,
        }
    }

    /// The packet as bytes.
    pub fn encode(&self) -> (r: Vec<u8>)
        ensures
            r@ == self.bytes(),
            r@.len() == REQUEST_RESPONSE_SIZE,
    {
        let mut out: Vec<u8> = Vec::new();
        self.common.put(&mut out);
        put_le(&mut out, self.response_code as u128, 8);
        assert(out@ =~= self.bytes());
        out
    }

    /// Reads the packet; `None` where the datagram is shorter than one.
    pub fn decode(buf: &[u8]) -> (r: Option<RequestResponseHeader>)
        ensures
            r == if buf@.len() >= REQUEST_RESPONSE_SIZE {
                Some(RequestResponseHeader::read(buf@))
            } else {
                None
            },
    {
        if buf.len() < REQUEST_RESPONSE_SIZE {
            return None;
        }
        match CommonHeader::decode(buf) {
            Some(common) => Some(
                RequestResponseHeader { common, response_code: get_u64(buf, 32) },
            ),
            None => None,
        }
    }
}

/// Reading the image of a response gives the response.
pub proof fn lemma_request_response_round_trip(h: RequestResponseHeader)
    ensures
        h.bytes().len() == REQUEST_RESPONSE_SIZE,
        RequestResponseHeader::read(h.bytes()) == h,
{
    let b = h.bytes();
    lemma_common_read(h.common, le_bytes(h.response_code as nat, 8));
    lemma_pow256_values();
    assert(b.subrange(32, 40) =~= le_bytes(h.response_code as nat, 8));
    lemma_field(b, 32, h.response_code as nat, 8);
}

/// The ten bytes of an address in a packet: octets, netmask, port.
pub open spec fn address_bytes(a: IpAddress) -> Seq<u8> {
    a.address@ + a.netmask@ + le_bytes(a.port as nat, 2)
}

/// Whether `a` is the address that stands at `off` in `b`.
pub open spec fn address_at(a: IpAddress, b: Seq<u8>, off: int) -> bool {
    &&& a.address@ == b.subrange(off, off + 4)
    &&& a.netmask@ == b.subrange(off + 4, off + 8)
    &&& a.port as nat == field(b, off + 8, 2)
}

/// The request to run the handler of a request capability.
#[derive(Clone, Copy, Debug)]
pub struct RequestInvokeHeader {
    pub common: CommonHeader,
    pub number_of_conts: u8,
    pub continutaion_cap_ids: [CapID; 4],
    pub flags: u8,
}

impl RequestInvokeHeader {
    /// The image: the common header, the number of continuations, four
    /// capability identifiers, the flags.
    pub open spec fn bytes(&self) -> Seq<u8> {
        self.common.bytes() + le_bytes(self.number_of_conts as nat, 1) + le_bytes(
            self.continutaion_cap_ids@[0] as nat,
            16,
        ) + le_bytes(self.continutaion_cap_ids@[1] as nat, 16) + le_bytes(
            self.continutaion_cap_ids@[2] as nat,
            16,
        ) + le_bytes(self.continutaion_cap_ids@[3] as nat, 16) + le_bytes(self.flags as nat, 1)
    }

    /// Whether this packet is what the first 98 bytes of `b` spell.
    pub open spec fn reads(&self, b: Seq<u8>) -> bool {
        &&& self.common == CommonHeader::read(b)
        &&& self.number_of_conts as nat == field(b, 32, 1)
        &&& forall|i: int|
            0 <= i < 4 ==> (#[trigger] self.continutaion_cap_ids@[i]) as nat == field(
                b,
                33 + 16 * i,
                16,
            )
        &&& self.flags as nat == field(b, 97, 1)
    }

    /// Whether this is the invocation of `cap_id` on `stream_id` with these
    /// continuations and flags.
    pub open spec fn is_invocation(
        &self,
        cap_id: CapID,
        stream_id: u32,
        number_of_conts: u8,
        conts: Seq<CapID>,
        flags: Flags,
    ) -> bool {
        &&& self.common == (CommonHeader {
            size: REQUEST_INVOKE_SIZE as u64,
            stream_id,
            cmd: CmdType::RequestInvoke.code(),
            cap_id,
        })
        &&& self.number_of_conts == number_of_conts
        &&& self.continutaion_cap_ids@ == conts
        &&& self.flags == flags@
    }

    /// The invocation of `cap_id` on the stream `stream_id`.
    pub fn with_stream(
        cap_id: CapID,
        number_of_conts: u8,
        continutaion_cap_ids: [CapID; 4],
        flags: Flags,
        stream_id: u32,
    ) -> (r: RequestInvokeHeader)
        ensures
            r.is_invocation(cap_id, stream_id, number_of_conts, continutaion_cap_ids@, flags),
    {
        RequestInvokeHeader {
            common: CommonHeader {
                size: REQUEST_INVOKE_SIZE as u64,
                stream_id,
                cmd: CmdType::RequestInvoke.to_u32(),
                cap_id,
            },
            number_of_conts,
            continutaion_cap_ids,
            flags: flags.bits(),
        }
    }

    /// The invocation of `cap_id` on a fresh stream.
    pub fn construct(
        cap_id: CapID,
        number_of_conts: u8,
        continutaion_cap_ids: [CapID; 4],
        flags: Flags,
    ) -> (r: RequestInvokeHeader)
        ensures
            r.is_invocation(
                cap_id,
                r.common.stream_id,
                number_of_conts,
                continutaion_cap_ids@,
                flags,
            ),
    {
        let stream_id = random_stream_id();
        Self::with_stream(cap_id, number_of_conts, continutaion_cap_ids, flags, stream_id)
    }

    /// The packet as bytes.
    pub fn encode(&self) -> (r: Vec<u8>)
        ensures
            r@ == self.bytes(),
            r@.len() == REQUEST_INVOKE_SIZE,
    {
        let mut out: Vec<u8> = Vec::new();
        self.common.put(&mut out);
        put_le(&mut out, self.number_of_conts as u128, 1);
        put_le(&mut out, self.continutaion_cap_ids[0], 16);
        put_le(&mut out, self.continutaion_cap_ids[1], 16);
        put_le(&mut out, self.continutaion_cap_ids[2], 16);
        put_le(&mut out, self.continutaion_cap_ids[3], 16);
        put_le(&mut out, self.flags as u128, 1);
        assert(out@ =~= self.bytes());
        out
    }

    /// Reads the packet; `None` where the datagram is shorter than one.
    pub fn decode(buf: &[u8]) -> (r: Option<RequestInvokeHeader>)
        ensures
            match r {
                Some(h) => buf@.len() >= REQUEST_INVOKE_SIZE && h.reads(buf@),
                None => buf@.len() < REQUEST_INVOKE_SIZE,
            },
    {
        if buf.len() < REQUEST_INVOKE_SIZE {
            return None;
        }
        match CommonHeader::decode(buf) {
            Some(common) => {
                let conts: [CapID; 4] = [
                    get_u128(buf, 33),
                    get_u128(buf, 49),
                    get_u128(buf, 65),
                    get_u128(buf, 81),
                ];
                Some(
                    RequestInvokeHeader {
                        common,
                        number_of_conts: get_u8(buf, 32),
                        continutaion_cap_ids: conts,
                        flags: get_u8(buf, 97),
                    },
                )
            },
            None => None,
        }
    }
}

/// Reading the image of an invocation gives the invocation.
pub proof fn lemma_request_invoke_round_trip(h: RequestInvokeHeader)
    ensures
        h.bytes().len() == REQUEST_INVOKE_SIZE,
        h.reads(h.bytes()),
{
    let b = h.bytes();
    let c = h.continutaion_cap_ids@;
    let rest = le_bytes(h.number_of_conts as nat, 1) + le_bytes(c[0] as nat, 16) + le_bytes(
        c[1] as nat,
        16,
    ) + le_bytes(c[2] as nat, 16) + le_bytes(c[3] as nat, 16) + le_bytes(h.flags as nat, 1);
    assert(b =~= h.common.bytes() + rest);
    lemma_common_read(h.common, rest);
    lemma_pow256_values();
    assert(b.subrange(32, 33) =~= le_bytes(h.number_of_conts as nat, 1));
    assert(b.subrange(33, 49) =~= le_bytes(c[0] as nat, 16));
    assert(b.subrange(49, 65) =~= le_bytes(c[1] as nat, 16));
    assert(b.subrange(65, 81) =~= le_bytes(c[2] as nat, 16));
    assert(b.subrange(81, 97) =~= le_bytes(c[3] as nat, 16));
    assert(b.subrange(97, 98) =~= le_bytes(h.flags as nat, 1));
    lemma_field(b, 32, h.number_of_conts as nat, 1);
    lemma_field(b, 33, c[0] as nat, 16);
    lemma_field(b, 49, c[1] as nat, 16);
    lemma_field(b, 65, c[2] as nat, 16);
    lemma_field(b, 81, c[3] as nat, 16);
    lemma_field(b, 97, h.flags as nat, 1);
}

/// The answer to a request on a capability that the node does not hold.
#[derive(Clone, Copy, Debug)]
pub struct CapInvalidHeader {
    pub common: CommonHeader,
    pub address: [u8; 4],
    pub port: u16,
    pub cap_id: CapID,
}

impl CapInvalidHeader {
    /// The image: the common header, four octets, the port, the capability.
    pub open spec fn bytes(&self) -> Seq<u8> {
        self.common.bytes() + self.address@ + le_bytes(self.port as nat, 2) + le_bytes(
            self.cap_id as nat,
            16,
        )
    }

    /// Whether this packet is what the first 54 bytes of `b` spell.
    pub open spec fn reads(&self, b: Seq<u8>) -> bool {
        &&& self.common == CommonHeader::read(b)
        &&& self.address@ == b.subrange(32, 36)
        &&& self.port as nat == field(b, 36, 2)
        &&& self.cap_id as nat == field(b, 38, 16)
    }

    /// The refusal of `cap_id`, for the node at `address`, on `stream_id`.
    pub fn construct(cap_id: CapID, address: IpAddress, stream_id: u32) -> (r: CapInvalidHeader)
        ensures
            r.common == CommonHeader::plain(CmdType::CapInvalid, stream_id, cap_id),
            r.address@ == address.address@,
            r.port == address.port,
            r.cap_id == cap_id,
    {
        CapInvalidHeader {
            common: CommonHeader {
                size: 0,
                stream_id,
                cmd: CmdType::CapInvalid.to_u32(),
                cap_id,
            },
            address: address.address,
            port: address.port,
            cap_id,
        }
    }

    /// The packet as bytes.
    pub fn encode(&self) -> (r: Vec<u8>)
        ensures
            r@ == self.bytes(),
            r@.len() == CAP_INVALID_SIZE,
    {
        let mut out: Vec<u8> = Vec::new();
        self.common.put(&mut out);
        put_octets(&mut out, &self.address);
        put_le(&mut out, self.port as u128, 2);
        put_le(&mut out, self.cap_id, 16);
        assert(out@ =~= self.bytes());
        out
    }

    /// Reads the packet; `None` where the datagram is shorter than one.
    pub fn decode(buf: &[u8]) -> (r: Option<CapInvalidHeader>)
        ensures
            match r {
                Some(h) => buf@.len() >= CAP_INVALID_SIZE && h.reads(buf@),
                None => buf@.len() < CAP_INVALID_SIZE,
            },
    {
        if buf.len() < CAP_INVALID_SIZE {
            return None;
        }
        match CommonHeader::decode(buf) {
            Some(common) => Some(
                CapInvalidHeader {
                    common,
                    address: get_octets(buf, 32),
                    port: get_u16(buf, 36),
                    cap_id: get_u128(buf, 38),
                },
            ),
            None => None,
        }
    }
}

/// Reading the image of a refusal gives the refusal.
pub proof fn lemma_cap_invalid_round_trip(h: CapInvalidHeader)
    ensures
        h.bytes().len() == CAP_INVALID_SIZE,
        h.reads(h.bytes()),
{
    let b = h.bytes();
    let rest = h.address@ + le_bytes(h.port as nat, 2) + le_bytes(h.cap_id as nat, 16);
    assert(b =~= h.common.bytes() + rest);
    lemma_common_read(h.common, rest);
    lemma_pow256_values();
    assert(b.subrange(32, 36) =~= h.address@);
    assert(b.subrange(36, 38) =~= le_bytes(h.port as nat, 2));
    assert(b.subrange(38, 54) =~= le_bytes(h.cap_id as nat, 16));
    lemma_field(b, 36, h.port as nat, 2);
    lemma_field(b, 38, h.cap_id as nat, 16);
}

/// The delegation of a capability to a node.
#[derive(Clone, Copy, Debug)]
pub struct InsertCapHeader {
    pub common: CommonHeader,
    pub cap_owner_ip: [u8; 4],
    pub cap_owner_port: u16,
    pub cap_id: CapID,
    pub cap_type: u8,
    pub object_owner_ip_address: [u8; 4],
    pub object_owner_port: u16,
}

impl InsertCapHeader {
    /// The image: the common header, the delegatee's octets and port, the
    /// capability and its type, the owner's octets and port.
    pub open spec fn bytes(&self) -> Seq<u8> {
        self.common.bytes() + self.cap_owner_ip@ + le_bytes(self.cap_owner_port as nat, 2)
            + le_bytes(self.cap_id as nat, 16) + le_bytes(self.cap_type as nat, 1)
            + self.object_owner_ip_address@ + le_bytes(self.object_owner_port as nat, 2)
    }

    /// Whether this packet is what the first 61 bytes of `b` spell.
    pub open spec fn reads(&self, b: Seq<u8>) -> bool {
        &&& self.common == CommonHeader::read(b)
        &&& self.cap_owner_ip@ == b.subrange(32, 36)
        &&& self.cap_owner_port as nat == field(b, 36, 2)
        &&& self.cap_id as nat == field(b, 38, 16)
        &&& self.cap_type as nat == field(b, 54, 1)
        &&& self.object_owner_ip_address@ == b.subrange(55, 59)
        &&& self.object_owner_port as nat == field(b, 59, 2)
    }

    /// Whether this is the delegation of `cap_id`, of type `cap_type`, to
    /// `delegatee` by the node `owner`, on `stream_id`.
    pub open spec fn is_delegation(
        &self,
        cap_id: CapID,
        cap_type: u8,
        delegatee: IpAddress,
        owner: IpAddress,
        stream_id: u32,
    ) -> bool {
        &&& self.common == CommonHeader::plain(CmdType::InsertCap, stream_id, cap_id)
        &&& self.cap_owner_ip@ == delegatee.address@
        &&& self.cap_owner_port == delegatee.port
        &&& self.cap_id == cap_id
        &&& self.cap_type == cap_type
        &&& self.object_owner_ip_address@ == owner.address@
        &&& self.object_owner_port == owner.port
    }

    /// The delegation on the stream `stream_id`.
    pub fn with_stream(
        cap_id: CapID,
        cap_type: u8,
        delegatee: IpAddress,
        owner: IpAddress,
        stream_id: u32,
    ) -> (r: InsertCapHeader)
        ensures
            r.is_delegation(cap_id, cap_type, delegatee, owner, stream_id),
    {
        InsertCapHeader {
            common: CommonHeader {
                size: 0,
                stream_id,
                cmd: CmdType::InsertCap.to_u32(),
                cap_id,
            },
            cap_owner_ip: delegatee.address,
            cap_owner_port: delegatee.port,
            cap_id,
            cap_type,
            object_owner_ip_address: owner.address,
            object_owner_port: owner.port,
        }
    }

    /// The delegation on a fresh stream.
    pub fn construct(cap_id: CapID, cap_type: u8, delegatee: IpAddress, owner: IpAddress) -> (r:
        InsertCapHeader)
        ensures
            r.is_delegation(cap_id, cap_type, delegatee, owner, r.common.stream_id),
    {
        let stream_id = random_stream_id();
        Self::with_stream(cap_id, cap_type, delegatee, owner, stream_id)
    }

    /// The packet as bytes.
    pub fn encode(&self) -> (r: Vec<u8>)
        ensures
            r@ == self.bytes(),
            r@.len() == INSERT_CAP_SIZE,
    {
        let mut out: Vec<u8> = Vec::new();
        self.common.put(&mut out);
        put_octets(&mut out, &self.cap_owner_ip);
        put_le(&mut out, self.cap_owner_port as u128, 2);
        put_le(&mut out, self.cap_id, 16);
        put_le(&mut out, self.cap_type as u128, 1);
        put_octets(&mut out, &self.object_owner_ip_address);
        put_le(&mut out, self.object_owner_port as u128, 2);
        assert(out@ =~= self.bytes());
        out
    }

    /// Reads the packet; `None` where the datagram is shorter than one.
    pub fn decode(buf: &[u8]) -> (r: Option<InsertCapHeader>)
        ensures
            match r {
                Some(h) => buf@.len() >= INSERT_CAP_SIZE && h.reads(buf@),
                None => buf@.len() < INSERT_CAP_SIZE,
            },
    {
        if buf.len() < INSERT_CAP_SIZE {
            return None;
        }
        match CommonHeader::decode(buf) {
            Some(common) => Some(
                InsertCapHeader {
                    common,
                    cap_owner_ip: get_octets(buf, 32),
                    cap_owner_port: get_u16(buf, 36),
                    cap_id: get_u128(buf, 38),
                    cap_type: get_u8(buf, 54),
                    object_owner_ip_address: get_octets(buf, 55),
                    object_owner_port: get_u16(buf, 59),
                },
            ),
            None => None,
        }
    }
}

/// Reading the image of a delegation gives the delegation.
pub proof fn lemma_insert_cap_round_trip(h: InsertCapHeader)
    ensures
        h.bytes().len() == INSERT_CAP_SIZE,
        h.reads(h.bytes()),
{
    let b = h.bytes();
    let rest = h.cap_owner_ip@ + le_bytes(h.cap_owner_port as nat, 2) + le_bytes(
        h.cap_id as nat,
        16,
    ) + le_bytes(h.cap_type as nat, 1) + h.object_owner_ip_address@ + le_bytes(
        h.object_owner_port as nat,
        2,
    );
    assert(b =~= h.common.bytes() + rest);
    lemma_common_read(h.common, rest);
    lemma_pow256_values();
    assert(b.subrange(32, 36) =~= h.cap_owner_ip@);
    assert(b.subrange(36, 38) =~= le_bytes(h.cap_owner_port as nat, 2));
    assert(b.subrange(38, 54) =~= le_bytes(h.cap_id as nat, 16));
    assert(b.subrange(54, 55) =~= le_bytes(h.cap_type as nat, 1));
    assert(b.subrange(55, 59) =~= h.object_owner_ip_address@);
    assert(b.subrange(59, 61) =~= le_bytes(h.object_owner_port as nat, 2));
    lemma_field(b, 36, h.cap_owner_port as nat, 2);
    lemma_field(b, 38, h.cap_id as nat, 16);
    lemma_field(b, 54, h.cap_type as nat, 1);
    lemma_field(b, 59, h.object_owner_port as nat, 2);
}

/// The revocation of a capability.
#[derive(Clone, Copy, Debug)]
pub struct RevokeCapHeader {
    pub common: CommonHeader,
    pub cap_owner_ip: IpAddress,
    pub cap_id: CapID,
}

impl RevokeCapHeader {
    /// The image: the common header, the revoking node's address, the
    /// capability.
    pub open spec fn bytes(&self) -> Seq<u8> {
        self.common.bytes() + address_bytes(self.cap_owner_ip) + le_bytes(self.cap_id as nat, 16)
    }

    /// Whether this packet is what the first 58 bytes of `b` spell.
    pub open spec fn reads(&self, b: Seq<u8>) -> bool {
        &&& self.common == CommonHeader::read(b)
        &&& address_at(self.cap_owner_ip, b, 32)
        &&& self.cap_id as nat == field(b, 42, 16)
    }

    /// Whether this is the revocation of `cap_id` by `owner` on `stream_id`.
    pub open spec fn is_revocation(&self, cap_id: CapID, owner: IpAddress, stream_id: u32) -> bool {
        &&& self.common == CommonHeader::plain(CmdType::CapRevoke, stream_id, cap_id)
        &&& self.cap_owner_ip == owner
        &&& self.cap_id == cap_id
    }

    /// The revocation on the stream `stream_id`.
    pub fn with_stream(cap_id: CapID, owner: IpAddress, stream_id: u32) -> (r: RevokeCapHeader)
        ensures
            r.is_revocation(cap_id, owner, stream_id),
    {
        RevokeCapHeader {
            common: CommonHeader {
                size: 0,
                stream_id,
                cmd: CmdType::CapRevoke.to_u32(),
                cap_id,
            },
            cap_owner_ip: owner,
            cap_id,
        }
    }

    /// The revocation on a fresh stream.
    pub fn construct(cap_id: CapID, owner: IpAddress) -> (r: RevokeCapHeader)
        ensures
            r.is_revocation(cap_id, owner, r.common.stream_id),
    {
        let stream_id = random_stream_id();
        Self::with_stream(cap_id, owner, stream_id)
    }

    /// The packet as bytes.
    pub fn encode(&self) -> (r: Vec<u8>)
        ensures
            r@ == self.bytes(),
            r@.len() == REVOKE_CAP_SIZE,
    {
        let mut out: Vec<u8> = Vec::new();
        self.common.put(&mut out);
        put_octets(&mut out, &self.cap_owner_ip.address);
        put_octets(&mut out, &self.cap_owner_ip.netmask);
        put_le(&mut out, self.cap_owner_ip.port as u128, 2);
        put_le(&mut out, self.cap_id, 16);
        assert(out@ =~= self.bytes());
        out
    }

    /// Reads the packet; `None` where the datagram is shorter than one.
    pub fn decode(buf: &[u8]) -> (r: Option<RevokeCapHeader>)
        ensures
            match r {
                Some(h) => buf@.len() >= REVOKE_CAP_SIZE && h.reads(buf@),
                None => buf@.len() < REVOKE_CAP_SIZE,
            },
    {
        if buf.len() < REVOKE_CAP_SIZE {
            return None;
        }
        match CommonHeader::decode(buf) {
            Some(common) => Some(
                RevokeCapHeader {
                    common,
                    cap_owner_ip: IpAddress {
                        address: get_octets(buf, 32),
                        netmask: get_octets(buf, 36),
                        port: get_u16(buf, 40),
                    },
                    cap_id: get_u128(buf, 42),
                },
            ),
            None => None,
        }
    }
}

/// Reading the image of a revocation gives the revocation.
pub proof fn lemma_revoke_cap_round_trip(h: RevokeCapHeader)
    ensures
        h.bytes().len() == REVOKE_CAP_SIZE,
        h.reads(h.bytes()),
{
    let b = h.bytes();
    let a = h.cap_owner_ip;
    let rest = address_bytes(a) + le_bytes(h.cap_id as nat, 16);
    assert(b =~= h.common.bytes() + rest);
    lemma_common_read(h.common, rest);
    lemma_pow256_values();
    assert(b.subrange(32, 36) =~= a.address@);
    assert(b.subrange(36, 40) =~= a.netmask@);
    assert(b.subrange(40, 42) =~= le_bytes(a.port as nat, 2));
    assert(b.subrange(42, 58) =~= le_bytes(h.cap_id as nat, 16));
    lemma_field(b, 40, a.port as nat, 2);
    lemma_field(b, 42, h.cap_id as nat, 16);
}

/// The request for the bytes of a memory capability.
#[derive(Clone, Copy, Debug, PartialEq, Eq, Structural)]
pub struct MemoryCopyRequestHeader {
    pub common: CommonHeader,
}

impl MemoryCopyRequestHeader {
    /// The image: the common header.
    pub open spec fn bytes(&self) -> Seq<u8> {
        self.common.bytes()
    }

    /// The request for `cap_id` on the stream `stream_id`.
    pub fn with_stream(cap_id: CapID, stream_id: u32) -> (r: MemoryCopyRequestHeader)
        ensures
            r.common == CommonHeader::plain(CmdType::MemoryCopy, stream_id, cap_id),
    {
        MemoryCopyRequestHeader {
            common: CommonHeader {
                size: 0,
                stream_id,
                cmd: CmdType::MemoryCopy.to_u32(),
                cap_id,
            },
        }
    }

    /// The request for `cap_id` on a fresh stream.
    pub fn construct(cap_id: CapID) -> (r: MemoryCopyRequestHeader)
        ensures
            r.common == CommonHeader::plain(CmdType::MemoryCopy, r.common.stream_id, cap_id),
    {
        let stream_id = random_stream_id();
        Self::with_stream(cap_id, stream_id)
    }

    /// The packet as bytes.
    pub fn encode(&self) -> (r: Vec<u8>)
        ensures
            r@ == self.bytes(),
            r@.len() == COMMON_HEADER_SIZE,
    {
        self.common.encode()
    }

    /// Reads the packet; `None` where the datagram is shorter than one.
    pub fn decode(buf: &[u8]) -> (r: Option<MemoryCopyRequestHeader>)
        ensures
            r == if buf@.len() >= COMMON_HEADER_SIZE {
                Some(MemoryCopyRequestHeader { common: CommonHeader::read(buf@) })
            } else {
                None
            },
    {
        match CommonHeader::decode(buf) {
            Some(common) => Some(MemoryCopyRequestHeader { common }),
            None => None,
        }
    }
}

/// Tells the switch to start its timer.
#[derive(Clone, Copy, Debug, PartialEq, Eq, Structural)]
pub struct ControllerStartTimerHeader {
    pub common: CommonHeader,
}

impl ControllerStartTimerHeader {
    /// The image: the common header.
    pub open spec fn bytes(&self) -> Seq<u8> {
        self.common.bytes()
    }

    /// The packet on a fresh stream.
    pub fn construct() -> (r: ControllerStartTimerHeader)
        ensures
            r.common == CommonHeader::plain(
                CmdType::ControllerStartTimer,
                r.common.stream_id,
                0,
            ),
    {
        ControllerStartTimerHeader {
            common: CommonHeader {
                size: 0,
                stream_id: random_stream_id(),
                cmd: CmdType::ControllerStartTimer.to_u32(),
                cap_id: 0,
            },
        }
    }

    /// The packet as bytes.
    pub fn encode(&self) -> (r: Vec<u8>)
        ensures
            r@ == self.bytes(),
            r@.len() == COMMON_HEADER_SIZE,
    {
        self.common.encode()
    }
}

/// Tells the switch to stop its timer.
#[derive(Clone, Copy, Debug, PartialEq, Eq, Structural)]
pub struct ControllerStopTimerHeader {
    pub common: CommonHeader,
}

impl ControllerStopTimerHeader {
    /// The image: the common header.
    pub open spec fn bytes(&self) -> Seq<u8> {
        self.common.bytes()
    }

    /// The packet on a fresh stream.
    pub fn construct() -> (r: ControllerStopTimerHeader)
        ensures
            r.common == CommonHeader::plain(CmdType::ControllerStopTimer, r.common.stream_id, 0),
    {
        ControllerStopTimerHeader {
            common: CommonHeader {
                size: 0,
                stream_id: random_stream_id(),
                cmd: CmdType::ControllerStopTimer.to_u32(),
                cap_id: 0,
            },
        }
    }

    /// The packet as bytes.
    pub fn encode(&self) -> (r: Vec<u8>)
        ensures
            r@ == self.bytes(),
            r@.len() == COMMON_HEADER_SIZE,
    {
        self.common.encode()
    }
}

/// Tells the switch to forget what it holds.
#[derive(Clone, Copy, Debug, PartialEq, Eq, Structural)]
pub struct ControllerResetSwitchHeader {
    pub common: CommonHeader,
}

impl ControllerResetSwitchHeader {
    /// The image: the common header.
    pub open spec fn bytes(&self) -> Seq<u8> {
        self.common.bytes()
    }

    /// The packet on a fresh stream.
    pub fn construct() -> (r: ControllerResetSwitchHeader)
        ensures
            r.common == CommonHeader::plain(
                CmdType::ControllerResetSwitch,
                r.common.stream_id,
                0,
            ),
    {
        ControllerResetSwitchHeader {
            common: CommonHeader {
                size: 0,
                stream_id: random_stream_id(),
                cmd: CmdType::ControllerResetSwitch.to_u32(),
                cap_id: 0,
            },
        }
    }

    /// The packet as bytes.
    pub fn encode(&self) -> (r: Vec<u8>)
        ensures
            r@ == self.bytes(),
            r@.len() == COMMON_HEADER_SIZE,
    {
        self.common.encode()
    }
}

/// Tells the switch to stop.
#[derive(Clone, Copy, Debug, PartialEq, Eq, Structural)]
pub struct ControllerStopHeader {
    pub common: CommonHeader,
}

impl ControllerStopHeader {
    /// The image: the common header.
    pub open spec fn bytes(&self) -> Seq<u8> {
        self.common.bytes()
    }

    /// The packet on a fresh stream.
    pub fn construct() -> (r: ControllerStopHeader)
        ensures
            r.common == CommonHeader::plain(CmdType::ControllerStop, r.common.stream_id, 0),
    {
        ControllerStopHeader {
            common: CommonHeader {
                size: 0,
                stream_id: random_stream_id(),
                cmd: CmdType::ControllerStop.to_u32(),
                cap_id: 0,
            },
        }
    }

    /// The packet as bytes.
    pub fn encode(&self) -> (r: Vec<u8>)
        ensures
            r@ == self.bytes(),
            r@.len() == COMMON_HEADER_SIZE,
    {
        self.common.encode()
    }

    /// Reads the packet; `None` where the datagram is shorter than one.
    pub fn decode(buf: &[u8]) -> (r: Option<ControllerStopHeader>)
        ensures
            r == if buf@.len() >= COMMON_HEADER_SIZE {
                Some(ControllerStopHeader { common: CommonHeader::read(buf@) })
            } else {
                None
            },
    {
        match CommonHeader::decode(buf) {
            Some(common) => Some(ControllerStopHeader { common }),
            None => None,
        }
    }
}

/// A request that asks for nothing.
#[derive(Clone, Copy, Debug, PartialEq, Eq, Structural)]
pub struct NOPRequestHeader {
    pub common: CommonHeader,
    pub info: u64,
}

impl NOPRequestHeader {
    /// The image: the common header, then `info`.
    pub open spec fn bytes(&self) -> Seq<u8> {
        self.common.bytes() + le_bytes(self.info as nat, 8)
    }

    /// The request on a fresh stream.
    pub fn _construct(cap_id: CapID, info: u64) -> (r: NOPRequestHeader)
        ensures
            r.common == CommonHeader::plain(CmdType::Nop, r.common.stream_id, cap_id),
            r.info == info,
    {
        NOPRequestHeader {
            common: CommonHeader {
                size: 0,
                stream_id: random_stream_id(),
                cmd: CmdType::Nop.to_u32(),
                cap_id,
            },
            info,
        }
    }

    /// The packet as bytes.
    pub fn encode(&self) -> (r: Vec<u8>)
        ensures
            r@ == self.bytes(),
            r@.len() == NOP_REQUEST_SIZE,
    {
        let mut out: Vec<u8> = Vec::new();
        self.common.put(&mut out);
        put_le(&mut out, self.info as u128, 8);
        assert(out@ =~= self.bytes());
        out
    }
}

/// The request to create a request object.  No node answers it.
#[derive(Clone, Copy, Debug, PartialEq, Eq, Structural)]
pub struct RequestCreateHeader {
    pub common: CommonHeader,
}

/// What chunk `sequence` of a buffer holds: the bytes from
/// `(sequence - 1) * 1024` on, at most 1024 of them.  Chunks are counted
/// from 1.
pub open spec fn chunk_of(data: Seq<u8>, sequence: int) -> Seq<u8> {
    let start = (sequence - 1) * MEMORY_COPY_CHUNK as int;
    let end = if start + MEMORY_COPY_CHUNK as int <= data.len() {
        start + MEMORY_COPY_CHUNK as int
    } else {
        data.len() as int
    };
    if 0 <= start <= end {
        data.subrange(start, end)
    } else {
        Seq::empty()
    }
}

/// In how many chunks a buffer of `len` bytes is sent: as many as hold it,
/// and one for an empty buffer, so that the receiver learns its size.
pub open spec fn chunk_count(len: nat) -> nat {
    if len == 0 {
        1
    } else {
        ((len + 1023) / 1024) as nat
    }
}

/// One chunk of the bytes of a memory capability.
#[derive(Debug)]
pub struct MemoryCopyResponseHeader {
    pub common: CommonHeader,
    /// Number of bytes in `buffer`.
    pub size: u64,
    /// Number of bytes of the whole object.
    pub buffer_size: u64,
    /// Which chunk this is, counted from 1.
    pub sequence: u32,
    pub buffer: Vec<u8>,
}

impl MemoryCopyResponseHeader {
    /// `size` is the length of `buffer`, at most 1024.
    pub open spec fn wf(&self) -> bool {
        &&& self.size as nat == self.buffer@.len()
        &&& self.size <= MEMORY_COPY_CHUNK
    }

    /// The image: the common header, `size`, `buffer_size`, `sequence`, and
    /// the buffer filled up with zeros to 1024 bytes.
    pub open spec fn bytes(&self) -> Seq<u8> {
        self.common.bytes() + le_bytes(self.size as nat, 8) + le_bytes(self.buffer_size as nat, 8)
            + le_bytes(self.sequence as nat, 4) + self.buffer@ + Seq::new(
            (MEMORY_COPY_CHUNK - self.buffer@.len()) as nat,
            |i: int| 0u8,
        )
    }

    /// Whether a datagram holds a memory-copy response: the fields before
    /// the buffer, a size of at most 1024, and that many buffer bytes.
    pub open spec fn well_framed(b: Seq<u8>) -> bool {
        &&& b.len() >= MEMORY_COPY_RESPONSE_PREFIX
        &&& field(b, 32, 8) <= MEMORY_COPY_CHUNK
        &&& b.len() >= MEMORY_COPY_RESPONSE_PREFIX + field(b, 32, 8)
    }

    /// Whether this packet is what `b` spells.
    pub open spec fn reads(&self, b: Seq<u8>) -> bool {
        &&& self.common == CommonHeader::read(b)
        &&& self.size as nat == field(b, 32, 8)
        &&& self.buffer_size as nat == field(b, 40, 8)
        &&& self.sequence as nat == field(b, 48, 4)
        &&& self.buffer@ == b.subrange(
            MEMORY_COPY_RESPONSE_PREFIX as int,
            MEMORY_COPY_RESPONSE_PREFIX + field(b, 32, 8),
        )
    }

    /// Whether this is chunk `sequence` of `data`, sent for the capability
    /// `cap_id` on the stream `stream_id`.
    pub open spec fn is_chunk(&self, data: Seq<u8>, cap_id: CapID, stream_id: u32, sequence: int)
        -> bool {
        &&& self.common == CommonHeader::plain(CmdType::MemoryCopyResponse, stream_id, cap_id)
        &&& self.size as nat == chunk_of(data, sequence).len()
        &&& self.buffer_size as nat == data.len()
        &&& self.sequence as int == sequence
        &&& self.buffer@ == chunk_of(data, sequence)
    }

    /// The chunks of `data`, in the order of their sequence numbers, for the
    /// request that came on `stream_id`.
    pub fn construct(data: &Vec<u8>, cap_id: CapID, stream_id: u32) -> (r: Vec<
        MemoryCopyResponseHeader,
    >)
        requires
            data@.len() <= 0x3ff_ffff_fc00,
        ensures
            r@.len() == chunk_count(data@.len()),
            forall|i: int|
                0 <= i < r@.len() ==> (#[trigger] r@[i]).is_chunk(data@, cap_id, stream_id, i + 1)
                    && r@[i].wf(),
    {
        let total: usize = data.len();
        let mut out: Vec<MemoryCopyResponseHeader> = Vec::new();
        let whole: usize = total / MEMORY_COPY_CHUNK;
        let count: u32 = if total == 0 {
            1
        } else if total % MEMORY_COPY_CHUNK == 0 {
            whole as u32
        } else {
            (whole + 1) as u32
        };
        assert(count as nat == chunk_count(total as nat));
        let mut sent: u32 = 0;
        while sent < count
            invariant
                total == data@.len(),
                count as nat == chunk_count(total as nat),
                sent <= count,
                out@.len() == sent,
                forall|i: int|
                    0 <= i < out@.len() ==> (#[trigger] out@[i]).is_chunk(
                        data@,
                        cap_id,
                        stream_id,
                        i + 1,
                    ) && out@[i].wf(),
            decreases count - sent,
        {
            let start: usize = (sent as usize) * MEMORY_COPY_CHUNK;
            let end: usize = if total - start >= MEMORY_COPY_CHUNK {
                start + MEMORY_COPY_CHUNK
            } else {
                total
            };
            let mut buffer: Vec<u8> = Vec::new();
            let mut j: usize = start;
            while j < end
                invariant
                    start <= j <= end <= total == data@.len(),
                    buffer@ == data@.subrange(start as int, j as int),
                decreases end - j,
            {
                buffer.push(data[j]);
                assert(buffer@ =~= data@.subrange(start as int, j + 1));
                j = j + 1;
            }
            assert(buffer@ =~= chunk_of(data@, sent + 1));
            let chunk = MemoryCopyResponseHeader {
                common: CommonHeader {
                    size: 0,
                    stream_id,
                    cmd: CmdType::MemoryCopyResponse.to_u32(),
                    cap_id,
                },
                size: (end - start) as u64,
                buffer_size: total as u64,
                sequence: sent + 1,
                buffer,
            };
            out.push(chunk);
            sent = sent + 1;
        }
        out
    }

    /// The packet as bytes.
    pub fn encode(&self) -> (r: Vec<u8>)
        requires
            self.wf(),
        ensures
            r@ == self.bytes(),
            r@.len() == MEMORY_COPY_RESPONSE_SIZE,
    {
        let mut out: Vec<u8> = Vec::new();
        self.common.put(&mut out);
        put_le(&mut out, self.size as u128, 8);
        put_le(&mut out, self.buffer_size as u128, 8);
        put_le(&mut out, self.sequence as u128, 4);
        let ghost head = out@;
        let n: usize = self.buffer.len();
        let mut i: usize = 0;
        while i < n
            invariant
                i <= n == self.buffer@.len(),
                out@ == head + self.buffer@.subrange(0, i as int),
            decreases n - i,
        {
            out.push(self.buffer[i]);
            assert(out@ =~= head + self.buffer@.subrange(0, i + 1));
            i = i + 1;
        }
        assert(self.buffer@.subrange(0, n as int) =~= self.buffer@);
        let ghost full = out@;
        while i < MEMORY_COPY_CHUNK
            invariant
                n <= i <= MEMORY_COPY_CHUNK,
                n == self.buffer@.len(),
                out@ == full + Seq::new((i - n) as nat, |k: int| 0u8),
            decreases MEMORY_COPY_CHUNK - i,
        {
            out.push(0u8);
            assert(out@ =~= full + Seq::new((i + 1 - n) as nat, |k: int| 0u8));
            i = i + 1;
        }
        assert(out@ =~= self.bytes());
        out
    }

    /// Reads the packet; `None` where the datagram does not hold one.
    pub fn decode(buf: &[u8]) -> (r: Option<MemoryCopyResponseHeader>)
        ensures
            match r {
                Some(h) => Self::well_framed(buf@) && h.reads(buf@) && h.wf(),
                None => !Self::well_framed(buf@),
            },
    {
        let total: usize = buf.len();
        if total < MEMORY_COPY_RESPONSE_PREFIX {
            return None;
        }
        let size: u64 = get_u64(buf, 32);
        if size > MEMORY_COPY_CHUNK as u64 {
            return None;
        }
        let len: usize = size as usize;
        if total - MEMORY_COPY_RESPONSE_PREFIX < len {
            return None;
        }
        let common = CommonHeader {
            size: get_u64(buf, 0),
            stream_id: get_u32(buf, 8),
            cmd: get_u32(buf, 12),
            cap_id: get_u128(buf, 16),
        };
        let mut buffer: Vec<u8> = Vec::new();
        let mut i: usize = 0;
        while i < len
            invariant
                i <= len,
                MEMORY_COPY_RESPONSE_PREFIX + len <= total == buf@.len(),
                buffer@ == buf@.subrange(
                    MEMORY_COPY_RESPONSE_PREFIX as int,
                    MEMORY_COPY_RESPONSE_PREFIX + i,
                ),
            decreases len - i,
        {
            buffer.push(buf[MEMORY_COPY_RESPONSE_PREFIX + i]);
            assert(buffer@ =~= buf@.subrange(
                MEMORY_COPY_RESPONSE_PREFIX as int,
                MEMORY_COPY_RESPONSE_PREFIX + i + 1,
            ));
            i = i + 1;
        }
        Some(
            MemoryCopyResponseHeader {
                common,
                size,
                buffer_size: get_u64(buf, 40),
                sequence: get_u32(buf, 48),
                buffer,
            },
        )
    }
}

/// Reading the image of a chunk gives the chunk.
pub proof fn lemma_memory_copy_response_round_trip(h: MemoryCopyResponseHeader)
    requires
        h.wf(),
    ensures
        h.bytes().len() == MEMORY_COPY_RESPONSE_SIZE,
        MemoryCopyResponseHeader::well_framed(h.bytes()),
        h.reads(h.bytes()),
{
    let b = h.bytes();
    let pad = Seq::new((MEMORY_COPY_CHUNK - h.buffer@.len()) as nat, |i: int| 0u8);
    let rest = le_bytes(h.size as nat, 8) + le_bytes(h.buffer_size as nat, 8) + le_bytes(
        h.sequence as nat,
        4,
    ) + h.buffer@ + pad;
    assert(b =~= h.common.bytes() + rest);
    lemma_common_read(h.common, rest);
    lemma_pow256_values();
    assert(b.subrange(32, 40) =~= le_bytes(h.size as nat, 8));
    assert(b.subrange(40, 48) =~= le_bytes(h.buffer_size as nat, 8));
    assert(b.subrange(48, 52) =~= le_bytes(h.sequence as nat, 4));
    lemma_field(b, 32, h.size as nat, 8);
    lemma_field(b, 40, h.buffer_size as nat, 8);
    lemma_field(b, 48, h.sequence as nat, 4);
    assert(b.subrange(52, 52 + h.size) =~= h.buffer@);
}

} // verus!
