//! The node as the laws of the runtime see it: a value, and the steps that
//! take one value to the next.
//!
//! Every operation of a `Service` is a step of this model.  What a step
//! needs from outside, a fresh stream identifier or the result of a
//! handler, it takes as an argument.

use crate::address::AddressView;
use crate::cap_table::without;
use crate::capabilities::{CapType, CapView};
use crate::packet_types::{
    chunk_count, chunk_of, CapID, CmdType, CommonHeader, MemoryCopyResponseHeader,
    RequestResponseHeader, COMMON_HEADER_SIZE, INSERT_CAP_SIZE, REQUEST_INVOKE_SIZE,
    REVOKE_CAP_SIZE,
};
use crate::wire::{field, le_bytes};
use vstd::prelude::*;

verus! {

/// A packet on its way out.
pub struct Outgoing {
    pub dest: Seq<char>,
    pub data: Seq<u8>,
    pub stream_id: u32,
}

/// A datagram kept for the caller that waits on its stream.
pub struct ResponseView {
    pub sender: Seq<char>,
    pub data: Seq<u8>,
}

/// How an invocation went.
#[derive(Clone, Copy, Debug, PartialEq, Eq, Structural)]
pub enum Invocation {
    /// The node does not hold the capability.
    Unknown,
    /// Nothing is left to wait for.  For a caller that waits on a capability
    /// of this node, this says whether what is bound to it succeeded.  For a
    /// caller that does not wait it says `true`, whatever the capability and
    /// whatever became of the invocation.
    Done(bool),
    /// The packet is on its way, and the response comes on this stream.
    Pending(u32),
}

/// How the fetch of a buffer went.
#[derive(Debug)]
pub enum BufferFetch {
    /// The node does not hold the capability.
    Unknown,
    /// The capability is not of memory type.
    NotMemory,
    /// The bytes of the bound memory object.
    Local(Vec<u8>),
    /// The request is on its way, and the chunks come on this stream.
    Pending(u32),
}

/// What became of a datagram.
#[derive(Clone, Copy, Debug, PartialEq, Eq, Structural)]
pub enum Outcome {
    /// Ignored: from this node itself, too short, or of an opcode that no
    /// node answers.
    Dropped,
    /// Kept as the response on a stream.
    Stored,
    /// Acted upon.
    Handled,
    /// A request was invoked; this says whether what ran in its name
    /// succeeded.
    Invoked(bool),
    /// A memory copy was asked of a capability that is not of memory type.
    Fatal,
}

/// The result that an outcome reports: success for an invocation that
/// succeeded, failure otherwise.
pub open spec fn result_of(outcome: Outcome) -> Result<(), ()> {
    if outcome == Outcome::Invoked(true) {
        Ok(())
    } else {
        Err(())
    }
}

/// The response code that reports the result of a handler.
pub open spec fn response_code(outcome: Result<(), ()>) -> u64 {
    if outcome is Ok {
        0
    } else {
        100
    }
}

/// One more permit, as far as the counter goes.
pub open spec fn bump(permits: u64) -> u64 {
    if permits < u64::MAX {
        (permits + 1) as u64
    } else {
        permits
    }
}

/// One more, as far as the counter goes.
pub open spec fn count_up(n: u128) -> u128 {
    if n < u128::MAX {
        (n + 1) as u128
    } else {
        n
    }
}

/// The key under which chunk `sequence` of the stream `stream_id` is kept.
pub open spec fn chunk_key(stream_id: u32, sequence: int) -> u32 {
    ((stream_id as int + sequence) % 0x1_0000_0000) as u32
}

/// The bytes of chunk `sequence` of the stream `stream_id` among the
/// responses: those of the datagram kept under the key of that chunk, where
/// it holds a memory-copy response.
pub open spec fn chunk_at(responses: Map<u32, ResponseView>, stream_id: u32, sequence: int)
    -> Option<Seq<u8>> {
    let key = chunk_key(stream_id, sequence);
    if responses.contains_key(key) && MemoryCopyResponseHeader::well_framed(
        responses[key].data,
    ) {
        let data = responses[key].data;
        Some(data.subrange(52, 52 + field(data, 32, 8) as int))
    } else {
        None
    }
}

/// The bytes of the chunks 1 to `count` of a stream, one after the other;
/// `None` where one of them is missing.
pub open spec fn gathered(responses: Map<u32, ResponseView>, stream_id: u32, count: nat)
    -> Option<Seq<u8>>
    decreases count,
{
    if count == 0 {
        Some(Seq::empty())
    } else {
        match (
            gathered(responses, stream_id, (count - 1) as nat),
            chunk_at(responses, stream_id, count as int),
        ) {
            (Some(head), Some(last)) => Some(head + last),
            _ => None,
        }
    }
}

/// The size of the whole buffer, as the first chunk of a stream announces
/// it; `None` where that chunk is missing.
pub open spec fn announced(responses: Map<u32, ResponseView>, stream_id: u32) -> Option<nat> {
    if chunk_at(responses, stream_id, 1) is Some {
        Some(field(responses[chunk_key(stream_id, 1)].data, 40, 8))
    } else {
        None
    }
}

/// The buffer that the responses of a stream hold: the bytes of as many
/// chunks as the announced size asks for, where they are all there and
/// make up that size.
pub open spec fn assembled(responses: Map<u32, ResponseView>, stream_id: u32) -> Option<Seq<u8>> {
    match announced(responses, stream_id) {
        Some(size) => if size <= 0x3ff_ffff_fc00 {
            match gathered(responses, stream_id, chunk_count(size)) {
                Some(data) => if data.len() == size {
                    Some(data)
                } else {
                    None
                },
                None => None,
            }
        } else {
            None
        },
        None => None,
    }
}

/// The keys of the chunks 1 to `count` of a stream.
pub open spec fn chunk_keys(stream_id: u32, count: nat) -> Set<u32> {
    Set::new(|key: u32| exists|k: int| 1 <= k <= count && key == #[trigger] chunk_key(stream_id, k))
}

/// The table with `data` bound to the capability `cap_id` as its memory
/// object, where the table holds that capability, it is of memory type, and
/// nothing is bound to it.
pub open spec fn attached(table: Map<CapID, CapView>, cap_id: CapID, data: Seq<u8>) -> Map<
    CapID,
    CapView,
> {
    if table.contains_key(cap_id) && table[cap_id].cap_type == CapType::Memory
        && table[cap_id].memory is None && !table[cap_id].has_handler {
        table.insert(cap_id, CapView { memory: Some(data), ..table[cap_id] })
    } else {
        table
    }
}

/// One more chunk has one more key.
pub proof fn lemma_chunk_keys_step(stream_id: u32, count: nat)
    ensures
        chunk_keys(stream_id, count + 1) == chunk_keys(stream_id, count).insert(
            chunk_key(stream_id, count as int + 1),
        ),
        chunk_keys(stream_id, 0) == Set::<u32>::empty(),
{
    let more = chunk_keys(stream_id, count + 1);
    let less = chunk_keys(stream_id, count).insert(chunk_key(stream_id, count as int + 1));
    assert forall|key: u32| #[trigger] more.contains(key) <==> less.contains(key) by {
        if more.contains(key) {
            let k = choose|k: int| 1 <= k <= count + 1 && key == #[trigger] chunk_key(stream_id, k);
            if k <= count {
                assert(chunk_keys(stream_id, count).contains(key));
            }
        }
        if chunk_keys(stream_id, count).contains(key) {
            let k = choose|k: int| 1 <= k <= count && key == #[trigger] chunk_key(stream_id, k);
            assert(1 <= k <= count + 1 && key == chunk_key(stream_id, k));
        }
        if key == chunk_key(stream_id, count as int + 1) {
            assert(1 <= count + 1 <= count + 1 && key == chunk_key(stream_id, count as int + 1));
        }
    }
    assert(more =~= less);
    assert(chunk_keys(stream_id, 0) =~= Set::<u32>::empty());
}

/// Where one chunk is missing, nothing is gathered from there on.
pub proof fn lemma_gathered_needs(
    responses: Map<u32, ResponseView>,
    stream_id: u32,
    count: nat,
    missing: int,
)
    requires
        1 <= missing <= count,
        chunk_at(responses, stream_id, missing) is None,
    ensures
        gathered(responses, stream_id, count) is None,
    decreases count,
{
    if missing < count {
        lemma_gathered_needs(responses, stream_id, (count - 1) as nat, missing);
    }
}

/// The image of the packet that hands the capability `cap_id` over.
pub open spec fn insert_cap_image(
    cap_id: CapID,
    cap_type: u8,
    delegatee: AddressView,
    owner: AddressView,
    stream_id: u32,
) -> Seq<u8> {
    CommonHeader::plain(CmdType::InsertCap, stream_id, cap_id).bytes() + delegatee.address
        + le_bytes(delegatee.port as nat, 2) + le_bytes(cap_id as nat, 16) + le_bytes(
        cap_type as nat,
        1,
    ) + owner.address + le_bytes(owner.port as nat, 2)
}

/// The image of the packet that revokes the capability `cap_id`.
pub open spec fn revoke_image(cap_id: CapID, owner: AddressView, stream_id: u32) -> Seq<u8> {
    CommonHeader::plain(CmdType::CapRevoke, stream_id, cap_id).bytes() + owner.address + owner.netmask
        + le_bytes(owner.port as nat, 2) + le_bytes(cap_id as nat, 16)
}

/// The image of the packet that refuses a request on `cap_id`.
pub open spec fn cap_invalid_image(cap_id: CapID, address: AddressView, stream_id: u32) -> Seq<u8> {
    CommonHeader::plain(CmdType::CapInvalid, stream_id, cap_id).bytes() + address.address
        + le_bytes(address.port as nat, 2) + le_bytes(cap_id as nat, 16)
}

/// The image of the packet that answers an invocation.
pub open spec fn response_image(cap_id: CapID, stream_id: u32, code: u64) -> Seq<u8> {
    (RequestResponseHeader {
        common: CommonHeader::plain(CmdType::RequestResponse, stream_id, cap_id),
        response_code: code,
    }).bytes()
}

/// The image of chunk `sequence` of `data`.
pub open spec fn chunk_image(data: Seq<u8>, cap_id: CapID, stream_id: u32, sequence: int) -> Seq<
    u8,
> {
    let chunk = chunk_of(data, sequence);
    CommonHeader::plain(CmdType::MemoryCopyResponse, stream_id, cap_id).bytes() + le_bytes(
        chunk.len(),
        8,
    ) + le_bytes(data.len(), 8) + le_bytes(sequence as nat, 4) + chunk + Seq::new(
        (1024 - chunk.len()) as nat,
        |i: int| 0u8,
    )
}

/// The image of a packet that is a common header of opcode `cmd` alone.
pub open spec fn bare_image(cmd: CmdType, stream_id: u32, cap_id: CapID) -> Seq<u8> {
    CommonHeader::plain(cmd, stream_id, cap_id).bytes()
}

/// The image of the invocation of `cap_id`.
pub open spec fn invoke_image(
    cap_id: CapID,
    stream_id: u32,
    count: u8,
    slots: Seq<CapID>,
    wait: bool,
) -> Seq<u8> {
    (CommonHeader {
        size: REQUEST_INVOKE_SIZE as u64,
        stream_id,
        cmd: CmdType::RequestInvoke.code(),
        cap_id,
    }).bytes() + le_bytes(count as nat, 1) + le_bytes(slots[0] as nat, 16) + le_bytes(
        slots[1] as nat,
        16,
    ) + le_bytes(slots[2] as nat, 16) + le_bytes(slots[3] as nat, 16) + le_bytes(
        if wait {
            1nat
        } else {
            0nat
        },
        1,
    )
}

/// The capability that a delegation packet hands over: owned by the node
/// that the packet names as the host of the object, with an empty netmask.
pub open spec fn delegated_cap(packet: Seq<u8>) -> CapView {
    CapView {
        cap_id: field(packet, 38, 16) as u128,
        cap_type: CapType::of_code(field(packet, 54, 1) as u8),
        owner: AddressView {
            address: packet.subrange(55, 59),
            netmask: seq![0u8, 0u8, 0u8, 0u8],
            port: field(packet, 59, 2) as u16,
        },
        delegatees: Seq::empty(),
        memory: None,
        has_handler: false,
    }
}

/// A node.
pub struct ServiceView {
    pub address: AddressView,
    /// Where the switch listens.
    pub switch: Seq<char>,
    /// Whether the switch gets a copy of control packets.
    pub copies: bool,
    pub table: Map<CapID, CapView>,
    /// The identifiers of the table, oldest first.
    pub order: Seq<CapID>,
    /// The packets that wait to be sent, oldest first.
    pub outbox: Seq<Outgoing>,
    pub responses: Map<u32, ResponseView>,
    /// The permits of each stream that is waited on.
    pub permits: Map<u32, u64>,
    pub terminated: bool,
    pub sent: u128,
    pub received: u128,
}

impl ServiceView {
    /// With one more packet to send.
    pub open spec fn send(self, dest: Seq<char>, data: Seq<u8>) -> ServiceView {
        ServiceView {
            outbox: self.outbox.push(
                Outgoing { dest, data, stream_id: CommonHeader::read(data).stream_id },
            ),
            ..self
        }
    }

    /// With one more control packet to send: to the switch first, where the
    /// switch gets copies, then to `dest`.
    pub open spec fn send_observed(self, dest: Seq<char>, data: Seq<u8>) -> ServiceView {
        self.copy_to_switch(data).send(dest, data)
    }

    /// With the copy for the switch, where the switch gets copies.
    pub open spec fn copy_to_switch(self, data: Seq<u8>) -> ServiceView {
        if self.copies {
            self.send(self.switch, data)
        } else {
            self
        }
    }

    /// With the same packet to each of `dests`, in their order.
    pub open spec fn send_each(self, dests: Seq<AddressView>, data: Seq<u8>) -> ServiceView
        decreases dests.len(),
    {
        if dests.len() == 0 {
            self
        } else {
            self.send_each(dests.drop_last(), data).send(dests.last().text(), data)
        }
    }

    /// With the chunks `from..=to` of `data` to send to `dest`, in their
    /// order.
    pub open spec fn send_chunks(
        self,
        dest: Seq<char>,
        data: Seq<u8>,
        cap_id: CapID,
        stream_id: u32,
        count: nat,
    ) -> ServiceView
        decreases count,
    {
        if count == 0 {
            self
        } else {
            self.send_chunks(dest, data, cap_id, stream_id, (count - 1) as nat).send(
                dest,
                chunk_image(data, cap_id, stream_id, count as int),
            )
        }
    }

    /// The permits of `stream_id`, 0 where the stream is not waited on.
    pub open spec fn permits_of(self, stream_id: u32) -> u64 {
        if self.permits.contains_key(stream_id) {
            self.permits[stream_id]
        } else {
            0
        }
    }

    /// With `data` kept under `key`, and one more permit for `stream_id`.
    pub open spec fn store(self, key: u32, stream_id: u32, sender: Seq<char>, data: Seq<u8>)
        -> ServiceView {
        ServiceView {
            responses: self.responses.insert(key, ResponseView { sender, data }),
            permits: self.permits.insert(stream_id, bump(self.permits_of(stream_id))),
            ..self
        }
    }

    /// With the capability `cap` in the table, in place of one of the same
    /// identifier.
    pub open spec fn insert(self, cap: CapView) -> ServiceView {
        ServiceView {
            table: self.table.insert(cap.cap_id, cap),
            order: if self.table.contains_key(cap.cap_id) {
                self.order
            } else {
                self.order.push(cap.cap_id)
            },
            ..self
        }
    }

    /// Without the capability `cap_id`.
    pub open spec fn remove(self, cap_id: CapID) -> ServiceView {
        ServiceView {
            table: self.table.remove(cap_id),
            order: without(self.order, cap_id),
            ..self
        }
    }

    /// After delegating `cap_id` to `delegatee` on the stream `nonce`: the
    /// delegatee is recorded, and the packet goes out.  Nothing happens
    /// where the node does not hold the capability.
    pub open spec fn delegate(self, cap_id: CapID, delegatee: AddressView, nonce: u32)
        -> ServiceView {
        if self.table.contains_key(cap_id) {
            let cap = self.table[cap_id];
            let grown = CapView { delegatees: cap.delegatees.push(delegatee), ..cap };
            (ServiceView { table: self.table.insert(cap_id, grown), ..self }).send_observed(
                delegatee.text(),
                insert_cap_image(cap_id, cap.cap_type.code(), delegatee, self.address, nonce),
            )
        } else {
            self
        }
    }

    /// After revoking `cap_id` on the stream `nonce`: the packet goes to
    /// every delegatee, and the capability leaves the table.  Nothing
    /// happens where the node does not hold the capability.
    pub open spec fn revoke(self, cap_id: CapID, nonce: u32) -> ServiceView {
        if self.table.contains_key(cap_id) {
            let image = revoke_image(cap_id, self.address, nonce);
            self.copy_to_switch(image).send_each(self.table[cap_id].delegatees, image).remove(
                cap_id,
            )
        } else {
            self
        }
    }

    /// After revoking the capabilities `ids`, one after the other, each on
    /// its own stream.
    pub open spec fn revoke_all(self, ids: Seq<CapID>, nonces: Seq<u32>) -> ServiceView
        decreases ids.len(),
    {
        if ids.len() == 0 || nonces.len() != ids.len() {
            self
        } else {
            self.revoke_all(ids.drop_last(), nonces.drop_last()).revoke(ids.last(), nonces.last())
        }
    }

    /// With the refusal of `cap_id` on its way to `source`.
    pub open spec fn refuse(self, source: AddressView, cap_id: CapID, stream_id: u32)
        -> ServiceView {
        self.send_observed(source.text(), cap_invalid_image(cap_id, source, stream_id))
    }

    /// After an invocation packet from `source`, where `outcome` is what the
    /// handler returns, or a failure where no request object is bound.
    pub open spec fn invoked(self, source: AddressView, packet: Seq<u8>, outcome: Result<(), ()>)
        -> ServiceView {
        let common = CommonHeader::read(packet);
        if !self.table.contains_key(common.cap_id) {
            self.refuse(source, common.cap_id, common.stream_id)
        } else if field(packet, 97, 1) % 2 == 1 {
            self.send(
                source.text(),
                response_image(common.cap_id, common.stream_id, response_code(outcome)),
            )
        } else {
            self
        }
    }

    /// After a request for the bytes of a capability from `source`.
    pub open spec fn copy_requested(self, source: AddressView, packet: Seq<u8>) -> ServiceView {
        let common = CommonHeader::read(packet);
        if !self.table.contains_key(common.cap_id) {
            self.refuse(source, common.cap_id, common.stream_id)
        } else if self.table[common.cap_id].cap_type != CapType::Memory {
            self
        } else {
            match self.table[common.cap_id].memory {
                Some(data) => self.send_chunks(
                    source.text(),
                    data,
                    common.cap_id,
                    common.stream_id,
                    chunk_count(data.len()),
                ),
                None => self.refuse(source, common.cap_id, common.stream_id),
            }
        }
    }

    /// After a packet that no caller waits for.
    pub open spec fn dispatch(
        self,
        source: AddressView,
        packet: Seq<u8>,
        nonce: u32,
        outcome: Result<(), ()>,
    ) -> ServiceView {
        let common = CommonHeader::read(packet);
        let cmd = CmdType::of_code(common.cmd);
        if packet.len() < COMMON_HEADER_SIZE {
            self
        } else if cmd == CmdType::CapRevoke {
            if packet.len() >= REVOKE_CAP_SIZE {
                self.revoke(field(packet, 42, 16) as u128, nonce)
            } else {
                self
            }
        } else if cmd == CmdType::RequestInvoke {
            if packet.len() >= REQUEST_INVOKE_SIZE {
                self.invoked(source, packet, outcome)
            } else {
                self
            }
        } else if cmd == CmdType::InsertCap {
            if packet.len() >= INSERT_CAP_SIZE {
                self.insert(delegated_cap(packet))
            } else {
                self
            }
        } else if cmd == CmdType::RequestResponse {
            self.store(common.stream_id, common.stream_id, source.text(), packet)
        } else if cmd == CmdType::MemoryCopy {
            self.copy_requested(source, packet)
        } else if cmd == CmdType::MemoryCopyResponse {
            if MemoryCopyResponseHeader::well_framed(packet) {
                self.store(
                    chunk_key(common.stream_id, field(packet, 48, 4) as int),
                    common.stream_id,
                    source.text(),
                    packet,
                )
            } else {
                self
            }
        } else {
            self
        }
    }

    /// What is reported of a packet that no caller waits for.
    pub open spec fn verdict(self, packet: Seq<u8>, outcome: Result<(), ()>) -> Outcome {
        let common = CommonHeader::read(packet);
        let cmd = CmdType::of_code(common.cmd);
        if packet.len() < COMMON_HEADER_SIZE {
            Outcome::Dropped
        } else if cmd == CmdType::CapRevoke {
            if packet.len() >= REVOKE_CAP_SIZE && self.table.contains_key(
                field(packet, 42, 16) as u128,
            ) {
                Outcome::Handled
            } else {
                Outcome::Dropped
            }
        } else if cmd == CmdType::RequestInvoke {
            if packet.len() < REQUEST_INVOKE_SIZE {
                Outcome::Dropped
            } else if !self.table.contains_key(common.cap_id) {
                Outcome::Handled
            } else {
                Outcome::Invoked(outcome is Ok)
            }
        } else if cmd == CmdType::InsertCap {
            if packet.len() >= INSERT_CAP_SIZE {
                Outcome::Handled
            } else {
                Outcome::Dropped
            }
        } else if cmd == CmdType::RequestResponse {
            Outcome::Stored
        } else if cmd == CmdType::MemoryCopy {
            if self.table.contains_key(common.cap_id) && self.table[common.cap_id].cap_type
                != CapType::Memory {
                Outcome::Fatal
            } else {
                Outcome::Handled
            }
        } else if cmd == CmdType::MemoryCopyResponse {
            if MemoryCopyResponseHeader::well_framed(packet) {
                Outcome::Stored
            } else {
                Outcome::Dropped
            }
        } else {
            Outcome::Dropped
        }
    }

    /// What is reported of a datagram from `sender`.
    pub open spec fn receipt(self, sender: AddressView, packet: Seq<u8>, outcome: Result<(), ()>)
        -> Outcome {
        let common = CommonHeader::read(packet);
        if sender.same_node(self.address) || packet.len() < COMMON_HEADER_SIZE {
            Outcome::Dropped
        } else if self.permits.contains_key(common.stream_id) {
            if CmdType::of_code(common.cmd) == CmdType::MemoryCopyResponse
                && !MemoryCopyResponseHeader::well_framed(packet) {
                Outcome::Dropped
            } else {
                Outcome::Stored
            }
        } else {
            self.verdict(packet, outcome)
        }
    }

    /// After a datagram from `sender`.
    pub open spec fn receive(
        self,
        sender: AddressView,
        packet: Seq<u8>,
        nonce: u32,
        outcome: Result<(), ()>,
    ) -> ServiceView {
        let counted = ServiceView { received: count_up(self.received), ..self };
        let common = CommonHeader::read(packet);
        if sender.same_node(self.address) || packet.len() < COMMON_HEADER_SIZE {
            counted
        } else if self.permits.contains_key(common.stream_id) {
            if CmdType::of_code(common.cmd) == CmdType::MemoryCopyResponse {
                if MemoryCopyResponseHeader::well_framed(packet) {
                    counted.store(
                        chunk_key(common.stream_id, field(packet, 48, 4) as int),
                        common.stream_id,
                        sender.text(),
                        packet,
                    )
                } else {
                    counted
                }
            } else {
                counted.store(common.stream_id, common.stream_id, sender.text(), packet)
            }
        } else {
            counted.dispatch(sender, packet, nonce, outcome)
        }
    }
}

/// Sending the same packet to several nodes adds one packet for each, in
/// their order, behind what waits already, and changes nothing else.
pub proof fn lemma_send_each(pre: ServiceView, dests: Seq<AddressView>, data: Seq<u8>)
    ensures
        pre.send_each(dests, data) == (ServiceView {
            outbox: pre.send_each(dests, data).outbox,
            ..pre
        }),
        pre.send_each(dests, data).outbox.len() == pre.outbox.len() + dests.len(),
        forall|i: int|
            0 <= i < pre.outbox.len() ==> pre.send_each(dests, data).outbox[i] == pre.outbox[i],
        forall|i: int|
            0 <= i < dests.len() ==> #[trigger] pre.send_each(dests, data).outbox[pre.outbox.len()
                + i] == (Outgoing {
                dest: dests[i].text(),
                data,
                stream_id: CommonHeader::read(data).stream_id,
            }),
    decreases dests.len(),
{
    if dests.len() > 0 {
        lemma_send_each(pre, dests.drop_last(), data);
        let mid = pre.send_each(dests.drop_last(), data);
        let end = pre.send_each(dests, data);
        assert forall|i: int| 0 <= i < dests.len() implies #[trigger] end.outbox[pre.outbox.len()
            + i] == (Outgoing {
            dest: dests[i].text(),
            data,
            stream_id: CommonHeader::read(data).stream_id,
        }) by {
            if i < dests.len() - 1 {
                assert(end.outbox[pre.outbox.len() + i] == mid.outbox[pre.outbox.len() + i]);
                assert(dests.drop_last()[i] == dests[i]);
            }
        }
    }
}

} // verus!
