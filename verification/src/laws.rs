//! What holds of the runtime, whatever the nodes hold and whatever arrives.
//!
//! The laws speak of the model of a node.  Every operation of a `Service`
//! is a step of that model, so each law holds of the running node too.

use crate::address::AddressView;
use crate::cap_table::lemma_without;
use crate::capabilities::{response_succeeds, CapView};
use crate::model::{
    announced, assembled, cap_invalid_image, chunk_at, chunk_image, chunk_key, gathered,
    insert_cap_image,
    invoke_image, lemma_send_each, response_code, response_image, revoke_image, Outgoing,
    ResponseView, ServiceView,
};
use crate::packet_types::{
    chunk_count, chunk_of, lemma_common_read, CapID, CmdType, CommonHeader,
    MemoryCopyResponseHeader, INSERT_CAP_SIZE, REQUEST_INVOKE_SIZE, REVOKE_CAP_SIZE,
};
use crate::wire::{field, le_bytes, lemma_field, lemma_le_bytes_len_auto, lemma_pow256_values};
use vstd::prelude::*;

verus! {

broadcast use lemma_le_bytes_len_auto;

/// What a delegation packet says, read back from its image.
pub proof fn lemma_insert_cap_fields(
    cap_id: CapID,
    cap_type: u8,
    delegatee: AddressView,
    owner: AddressView,
    stream_id: u32,
)
    requires
        delegatee.wf(),
        owner.wf(),
    ensures
        ({
            let image = insert_cap_image(cap_id, cap_type, delegatee, owner, stream_id);
            &&& image.len() == INSERT_CAP_SIZE
            &&& CommonHeader::read(image) == CommonHeader::plain(
                CmdType::InsertCap,
                stream_id,
                cap_id,
            )
            &&& field(image, 38, 16) == cap_id
            &&& field(image, 54, 1) == cap_type
            &&& image.subrange(55, 59) == owner.address
            &&& field(image, 59, 2) == owner.port
        }),
{
    let image = insert_cap_image(cap_id, cap_type, delegatee, owner, stream_id);
    let common = CommonHeader::plain(CmdType::InsertCap, stream_id, cap_id);
    let rest = delegatee.address + le_bytes(delegatee.port as nat, 2) + le_bytes(cap_id as nat, 16)
        + le_bytes(cap_type as nat, 1) + owner.address + le_bytes(owner.port as nat, 2);
    assert(image =~= common.bytes() + rest);
    lemma_common_read(common, rest);
    lemma_pow256_values();
    assert(image.subrange(38, 54) =~= le_bytes(cap_id as nat, 16));
    assert(image.subrange(54, 55) =~= le_bytes(cap_type as nat, 1));
    assert(image.subrange(55, 59) =~= owner.address);
    assert(image.subrange(59, 61) =~= le_bytes(owner.port as nat, 2));
    lemma_field(image, 38, cap_id as nat, 16);
    lemma_field(image, 54, cap_type as nat, 1);
    lemma_field(image, 59, owner.port as nat, 2);
}

/// What a revocation packet says, read back from its image.
pub proof fn lemma_revoke_fields(cap_id: CapID, owner: AddressView, stream_id: u32)
    requires
        owner.wf(),
    ensures
        ({
            let image = revoke_image(cap_id, owner, stream_id);
            &&& image.len() == REVOKE_CAP_SIZE
            &&& CommonHeader::read(image) == CommonHeader::plain(
                CmdType::CapRevoke,
                stream_id,
                cap_id,
            )
            &&& field(image, 42, 16) == cap_id
        }),
{
    let image = revoke_image(cap_id, owner, stream_id);
    let common = CommonHeader::plain(CmdType::CapRevoke, stream_id, cap_id);
    let rest = owner.address + owner.netmask + le_bytes(owner.port as nat, 2) + le_bytes(
        cap_id as nat,
        16,
    );
    assert(image =~= common.bytes() + rest);
    lemma_common_read(common, rest);
    lemma_pow256_values();
    assert(image.subrange(42, 58) =~= le_bytes(cap_id as nat, 16));
    lemma_field(image, 42, cap_id as nat, 16);
}

/// What an invocation packet says, read back from its image.
pub proof fn lemma_invoke_fields(
    cap_id: CapID,
    stream_id: u32,
    count: u8,
    slots: Seq<CapID>,
    wait: bool,
)
    requires
        slots.len() == 4,
    ensures
        ({
            let image = invoke_image(cap_id, stream_id, count, slots, wait);
            &&& image.len() == REQUEST_INVOKE_SIZE
            &&& CommonHeader::read(image).cmd == CmdType::RequestInvoke.code()
            &&& CommonHeader::read(image).cap_id == cap_id
            &&& CommonHeader::read(image).stream_id == stream_id
            &&& field(image, 32, 1) == count
            &&& forall|i: int| 0 <= i < 4 ==> field(image, 33 + 16 * i, 16) == #[trigger] slots[i]
            &&& field(image, 97, 1) == if wait {
                1nat
            } else {
                0nat
            }
        }),
{
    let image = invoke_image(cap_id, stream_id, count, slots, wait);
    let common = CommonHeader {
        size: REQUEST_INVOKE_SIZE as u64,
        stream_id,
        cmd: CmdType::RequestInvoke.code(),
        cap_id,
    };
    let flag: nat = if wait {
        1
    } else {
        0
    };
    let rest = le_bytes(count as nat, 1) + le_bytes(slots[0] as nat, 16) + le_bytes(
        slots[1] as nat,
        16,
    ) + le_bytes(slots[2] as nat, 16) + le_bytes(slots[3] as nat, 16) + le_bytes(flag, 1);
    assert(image =~= common.bytes() + rest);
    lemma_common_read(common, rest);
    lemma_pow256_values();
    assert(image.subrange(32, 33) =~= le_bytes(count as nat, 1));
    assert(image.subrange(33, 49) =~= le_bytes(slots[0] as nat, 16));
    assert(image.subrange(49, 65) =~= le_bytes(slots[1] as nat, 16));
    assert(image.subrange(65, 81) =~= le_bytes(slots[2] as nat, 16));
    assert(image.subrange(81, 97) =~= le_bytes(slots[3] as nat, 16));
    assert(image.subrange(97, 98) =~= le_bytes(flag, 1));
    lemma_field(image, 32, count as nat, 1);
    lemma_field(image, 33, slots[0] as nat, 16);
    lemma_field(image, 49, slots[1] as nat, 16);
    lemma_field(image, 65, slots[2] as nat, 16);
    lemma_field(image, 81, slots[3] as nat, 16);
    lemma_field(image, 97, flag, 1);
}

/// What a chunk packet says, read back from its image.
pub proof fn lemma_chunk_fields(data: Seq<u8>, cap_id: CapID, stream_id: u32, sequence: int)
    requires
        data.len() <= 0x3ff_ffff_fc00,
        1 <= sequence <= chunk_count(data.len()),
    ensures
        ({
            let image = chunk_image(data, cap_id, stream_id, sequence);
            &&& MemoryCopyResponseHeader::well_framed(image)
            &&& CommonHeader::read(image) == CommonHeader::plain(
                CmdType::MemoryCopyResponse,
                stream_id,
                cap_id,
            )
            &&& field(image, 32, 8) == chunk_of(data, sequence).len()
            &&& field(image, 40, 8) == data.len()
            &&& field(image, 48, 4) == sequence
            &&& image.subrange(52, 52 + chunk_of(data, sequence).len() as int) == chunk_of(
                data,
                sequence,
            )
        }),
{
    let image = chunk_image(data, cap_id, stream_id, sequence);
    let chunk = chunk_of(data, sequence);
    let common = CommonHeader::plain(CmdType::MemoryCopyResponse, stream_id, cap_id);
    let pad = Seq::new((1024 - chunk.len()) as nat, |i: int| 0u8);
    let rest = le_bytes(chunk.len(), 8) + le_bytes(data.len(), 8) + le_bytes(sequence as nat, 4)
        + chunk + pad;
    assert(chunk.len() <= 1024);
    assert(image =~= common.bytes() + rest);
    lemma_common_read(common, rest);
    lemma_pow256_values();
    assert(image.subrange(32, 40) =~= le_bytes(chunk.len(), 8));
    assert(image.subrange(40, 48) =~= le_bytes(data.len(), 8));
    assert(image.subrange(48, 52) =~= le_bytes(sequence as nat, 4));
    assert(image.subrange(52, 52 + chunk.len() as int) =~= chunk);
    lemma_field(image, 32, chunk.len(), 8);
    lemma_field(image, 40, data.len(), 8);
    lemma_field(image, 48, sequence as nat, 4);
}

/// The table of a node answers for what was put into it.
///
/// A capability is found under its identifier once it is inserted, and is
/// not found once it is removed; neither step touches what stands under
/// another identifier.
pub proof fn law_lookup(pre: ServiceView, cap: CapView, other: CapID)
    ensures
        pre.insert(cap).table.contains_key(cap.cap_id),
        pre.insert(cap).table[cap.cap_id] == cap,
        !pre.remove(cap.cap_id).table.contains_key(cap.cap_id),
        other != cap.cap_id ==> pre.insert(cap).table.contains_key(other)
            == pre.table.contains_key(other),
        other != cap.cap_id && pre.table.contains_key(other) ==> pre.insert(cap).table[other]
            == pre.table[other],
        other != cap.cap_id ==> pre.remove(cap.cap_id).table.contains_key(other)
            == pre.table.contains_key(other),
        other != cap.cap_id && pre.table.contains_key(other) ==> pre.remove(
            cap.cap_id,
        ).table[other] == pre.table[other],
{
}

/// Whether every capability of the table stands under its own identifier,
/// and the order lists the identifiers of the table, each once.
pub open spec fn tidy(s: ServiceView) -> bool {
    &&& s.order.no_duplicates()
    &&& forall|id: CapID| s.order.contains(id) <==> s.table.contains_key(id)
    &&& forall|id: CapID| #[trigger] s.table.contains_key(id) ==> s.table[id].cap_id == id
}

/// The identifier of a capability never changes: in a tidy node, a
/// capability stands under its own identifier, and inserting, removing and
/// delegating leave the node tidy.
pub proof fn law_identifier_is_constant(
    pre: ServiceView,
    cap: CapView,
    cap_id: CapID,
    delegatee: AddressView,
    nonce: u32,
)
    requires
        tidy(pre),
    ensures
        tidy(pre.insert(cap)),
        tidy(pre.remove(cap_id)),
        tidy(pre.delegate(cap_id, delegatee, nonce)),
        tidy(pre.revoke(cap_id, nonce)),
        pre.table.contains_key(cap_id) ==> pre.delegate(cap_id, delegatee, nonce).table[cap_id].cap_id
            == cap_id,
{
    let a = pre.insert(cap);
    assert forall|id: CapID| a.order.contains(id) <==> a.table.contains_key(id) by {
        if a.order.contains(id) {
            let i = choose|i: int| 0 <= i < a.order.len() && a.order[i] == id;
            if i < pre.order.len() {
                assert(pre.order[i] == id);
                assert(pre.order.contains(id));
            }
        }
        if a.table.contains_key(id) {
            if pre.table.contains_key(id) {
                assert(pre.order.contains(id));
                let i = choose|i: int| 0 <= i < pre.order.len() && pre.order[i] == id;
                assert(a.order[i] == id);
            } else {
                assert(a.order[a.order.len() - 1] == id);
            }
        }
    }
    assert(a.order.no_duplicates()) by {
        if !pre.table.contains_key(cap.cap_id) {
            assert forall|i: int, j: int|
                0 <= i < a.order.len() && 0 <= j < a.order.len() && i != j implies a.order[i]
                != a.order[j] by {
                if i == pre.order.len() {
                    assert(pre.order.contains(pre.order[j]));
                } else if j == pre.order.len() {
                    assert(pre.order.contains(pre.order[i]));
                }
            }
        }
    }
    lemma_without(pre.order, cap_id);
    let r = pre.remove(cap_id);
    assert forall|id: CapID| r.order.contains(id) <==> r.table.contains_key(id) by {
        assert(pre.order.contains(id) <==> pre.table.contains_key(id));
    }
    assert(tidy(r));
    let image = revoke_image(cap_id, pre.address, nonce);
    if pre.table.contains_key(cap_id) {
        lemma_send_each(pre.copy_to_switch(image), pre.table[cap_id].delegatees, image);
        let v = pre.revoke(cap_id, nonce);
        assert(v.table == r.table && v.order == r.order);
    }
}

/// Delegation reaches the delegatee.
///
/// When a node `a` delegates a capability to a node `b`, the packet that
/// hands it over waits to be sent to `b`, and `a` has recorded `b`.  Once
/// that packet arrives at `b`, on a stream that `b` does not wait on, the
/// table of `b` holds the capability, with its type, owned by `a`.
pub proof fn law_delegation_reaches(
    a: ServiceView,
    b: ServiceView,
    cap_id: CapID,
    nonce: u32,
    fresh: u32,
    outcome: Result<(), ()>,
)
    requires
        a.address.wf(),
        b.address.wf(),
        a.table.contains_key(cap_id),
        !a.address.same_node(b.address),
        !b.permits.contains_key(nonce),
    ensures
        ({
            let image = insert_cap_image(
                cap_id,
                a.table[cap_id].cap_type.code(),
                b.address,
                a.address,
                nonce,
            );
            let a2 = a.delegate(cap_id, b.address, nonce);
            let b2 = b.receive(a.address, image, fresh, outcome);
            &&& a2.outbox.len() > 0
            &&& a2.outbox.last() == (Outgoing {
                dest: b.address.text(),
                data: image,
                stream_id: nonce,
            })
            &&& a2.table[cap_id].delegatees == a.table[cap_id].delegatees.push(b.address)
            &&& b2.table.contains_key(cap_id)
            &&& b2.table[cap_id].cap_id == cap_id
            &&& b2.table[cap_id].owner.same_node(a.address)
            &&& b2.table[cap_id].cap_type == a.table[cap_id].cap_type
        }),
{
    let t = a.table[cap_id].cap_type;
    lemma_insert_cap_fields(cap_id, t.code(), b.address, a.address, nonce);
    lemma_pow256_values();
}

/// Delegating twice leaves one entry.
///
/// When the packet that hands a capability over arrives a second time, the
/// table of the receiver still holds the capability once.
pub proof fn law_delegation_twice(
    b: ServiceView,
    sender: AddressView,
    cap_id: CapID,
    cap_type: u8,
    owner: AddressView,
    first: u32,
    second: u32,
    fresh: u32,
    outcome: Result<(), ()>,
)
    requires
        tidy(b),
        b.address.wf(),
        owner.wf(),
        !sender.same_node(b.address),
        !b.permits.contains_key(first),
        !b.permits.contains_key(second),
    ensures
        ({
            let once = b.receive(
                sender,
                insert_cap_image(cap_id, cap_type, b.address, owner, first),
                fresh,
                outcome,
            );
            let twice = once.receive(
                sender,
                insert_cap_image(cap_id, cap_type, b.address, owner, second),
                fresh,
                outcome,
            );
            &&& twice.table == once.table
            &&& twice.order == once.order
            &&& tidy(twice)
        }),
{
    lemma_insert_cap_fields(cap_id, cap_type, b.address, owner, first);
    lemma_insert_cap_fields(cap_id, cap_type, b.address, owner, second);
    lemma_pow256_values();
    let image1 = insert_cap_image(cap_id, cap_type, b.address, owner, first);
    let image2 = insert_cap_image(cap_id, cap_type, b.address, owner, second);
    let once = b.receive(sender, image1, fresh, outcome);
    let twice = once.receive(sender, image2, fresh, outcome);
    assert(crate::model::delegated_cap(image1) == crate::model::delegated_cap(image2));
    assert(twice.table =~= once.table);
    let counted = ServiceView { received: crate::model::count_up(b.received), ..b };
    law_identifier_is_constant(counted, crate::model::delegated_cap(image1), cap_id, owner, first);
}

/// Revocation reaches every delegatee.
///
/// When a node revokes a capability that it holds, the capability leaves
/// its table, and the revocation waits to be sent to each recorded
/// delegatee.  Once that packet arrives at a node, on a stream that the
/// node does not wait on, the table of that node does not hold the
/// capability.
pub proof fn law_revocation_reaches(
    a: ServiceView,
    d: ServiceView,
    cap_id: CapID,
    nonce: u32,
    fresh: u32,
    outcome: Result<(), ()>,
    i: int,
)
    requires
        a.address.wf(),
        a.table.contains_key(cap_id),
        0 <= i < a.table[cap_id].delegatees.len(),
        !a.address.same_node(d.address),
        !d.permits.contains_key(nonce),
    ensures
        ({
            let image = revoke_image(cap_id, a.address, nonce);
            let a2 = a.revoke(cap_id, nonce);
            let d2 = d.receive(a.address, image, fresh, outcome);
            &&& !a2.table.contains_key(cap_id)
            &&& a2.outbox.contains(
                (Outgoing {
                    dest: a.table[cap_id].delegatees[i].text(),
                    data: image,
                    stream_id: nonce,
                }),
            )
            &&& !d2.table.contains_key(cap_id)
        }),
{
    let image = revoke_image(cap_id, a.address, nonce);
    lemma_revoke_fields(cap_id, a.address, nonce);
    lemma_pow256_values();
    let mid = a.copy_to_switch(image);
    let dests = a.table[cap_id].delegatees;
    lemma_send_each(mid, dests, image);
    let sent = mid.send_each(dests, image);
    let a2 = a.revoke(cap_id, nonce);
    assert(a2.outbox == sent.outbox);
    assert(sent.outbox[mid.outbox.len() + i] == (Outgoing {
        dest: dests[i].text(),
        data: image,
        stream_id: nonce,
    }));
    let d2 = d.receive(a.address, image, fresh, outcome);
    let counted = ServiceView { received: crate::model::count_up(d.received), ..d };
    if counted.table.contains_key(cap_id) {
        let img2 = revoke_image(cap_id, counted.address, fresh);
        lemma_send_each(counted.copy_to_switch(img2), counted.table[cap_id].delegatees, img2);
    }
}

/// Revoking what is gone does nothing.
pub proof fn law_revocation_twice(pre: ServiceView, cap_id: CapID, first: u32, second: u32)
    ensures
        pre.revoke(cap_id, first).revoke(cap_id, second) == pre.revoke(cap_id, first),
        !pre.table.contains_key(cap_id) ==> pre.revoke(cap_id, first) == pre,
{
    if pre.table.contains_key(cap_id) {
        let image = revoke_image(cap_id, pre.address, first);
        lemma_send_each(pre.copy_to_switch(image), pre.table[cap_id].delegatees, image);
    }
}

/// An invocation that asks for a response gets one, and it carries the
/// result of the handler.
///
/// When the invocation of a capability that the node holds arrives, on a
/// stream that the node does not wait on, exactly one packet is queued
/// where the caller waits: the response for the caller, with code 0 where
/// what ran succeeded and 100 where it failed.  Where the caller does not
/// wait, nothing is queued.
pub proof fn law_invocation_answered(
    node: ServiceView,
    caller: AddressView,
    cap_id: CapID,
    stream_id: u32,
    count: u8,
    slots: Seq<CapID>,
    wait: bool,
    fresh: u32,
    outcome: Result<(), ()>,
)
    requires
        slots.len() == 4,
        node.table.contains_key(cap_id),
        !caller.same_node(node.address),
        !node.permits.contains_key(stream_id),
    ensures
        ({
            let after = node.receive(
                caller,
                invoke_image(cap_id, stream_id, count, slots, wait),
                fresh,
                outcome,
            );
            &&& after.table == node.table
            &&& wait ==> after.outbox == node.outbox.push(
                (Outgoing {
                    dest: caller.text(),
                    data: response_image(cap_id, stream_id, response_code(outcome)),
                    stream_id,
                }),
            )
            &&& !wait ==> after.outbox == node.outbox
        }),
{
    lemma_invoke_fields(cap_id, stream_id, count, slots, wait);
    lemma_pow256_values();
    let h = crate::packet_types::RequestResponseHeader {
        common: CommonHeader::plain(CmdType::RequestResponse, stream_id, cap_id),
        response_code: response_code(outcome),
    };
    crate::packet_types::lemma_request_response_round_trip(h);
}

/// The bytes of the first `count` chunks of a buffer.
pub open spec fn chunked_prefix(data: Seq<u8>, count: nat) -> Seq<u8> {
    if count * 1024 <= data.len() {
        data.subrange(0, (count * 1024) as int)
    } else {
        data
    }
}

/// A chunk that arrives on a stream that is waited on is kept under the key
/// of its sequence number.
pub proof fn law_chunk_is_kept(
    node: ServiceView,
    owner: AddressView,
    data: Seq<u8>,
    cap_id: CapID,
    stream_id: u32,
    sequence: int,
    fresh: u32,
    outcome: Result<(), ()>,
)
    requires
        data.len() <= 0x3ff_ffff_fc00,
        1 <= sequence <= chunk_count(data.len()),
        !owner.same_node(node.address),
        node.permits.contains_key(stream_id),
    ensures
        ({
            let image = chunk_image(data, cap_id, stream_id, sequence);
            let after = node.receive(owner, image, fresh, outcome);
            &&& after.responses == node.responses.insert(
                chunk_key(stream_id, sequence),
                (ResponseView { sender: owner.text(), data: image }),
            )
            &&& after.permits.contains_key(stream_id)
            &&& after.table == node.table
            &&& after.address == node.address
        }),
{
    lemma_chunk_fields(data, cap_id, stream_id, sequence);
    lemma_pow256_values();
}

/// The chunks of a buffer have keys of their own.
pub proof fn lemma_chunk_keys_differ(stream_id: u32, j: int, k: int)
    requires
        1 <= j <= 0xffff_ffff,
        1 <= k <= 0xffff_ffff,
        j != k,
    ensures
        chunk_key(stream_id, j) != chunk_key(stream_id, k),
{
}

/// A buffer arrives whole, whatever the order of its chunks.
///
/// Where the responses of a node hold, under the key of each sequence
/// number, the chunk of `data` with that number, the buffer put together
/// from them is `data`.  The responses are a map: they hold the same
/// whatever the order in which the chunks were kept.
pub proof fn law_buffer_arrives_whole(
    responses: Map<u32, ResponseView>,
    data: Seq<u8>,
    cap_id: CapID,
    stream_id: u32,
)
    requires
        data.len() <= 0x3ff_ffff_fc00,
        forall|k: int|
            1 <= k <= chunk_count(data.len()) ==> responses.contains_key(
                #[trigger] chunk_key(stream_id, k),
            ) && responses[chunk_key(stream_id, k)].data == chunk_image(
                data,
                cap_id,
                stream_id,
                k,
            ),
    ensures
        assembled(responses, stream_id) == Some(data),
{
    let n = chunk_count(data.len());
    lemma_chunk_fields(data, cap_id, stream_id, 1);
    assert(responses.contains_key(chunk_key(stream_id, 1)));
    assert(announced(responses, stream_id) == Some(data.len()));
    lemma_gathered(responses, data, cap_id, stream_id, n);
    assert(chunked_prefix(data, n) =~= data);
}

/// The first `count` chunks, gathered, are the bytes that they cut out of
/// the buffer.
pub proof fn lemma_gathered(
    responses: Map<u32, ResponseView>,
    data: Seq<u8>,
    cap_id: CapID,
    stream_id: u32,
    count: nat,
)
    requires
        data.len() <= 0x3ff_ffff_fc00,
        count <= chunk_count(data.len()),
        forall|k: int|
            1 <= k <= chunk_count(data.len()) ==> responses.contains_key(
                #[trigger] chunk_key(stream_id, k),
            ) && responses[chunk_key(stream_id, k)].data == chunk_image(
                data,
                cap_id,
                stream_id,
                k,
            ),
    ensures
        gathered(responses, stream_id, count) == Some(chunked_prefix(data, count)),
    decreases count,
{
    if count == 0 {
        assert(chunked_prefix(data, 0) =~= Seq::<u8>::empty());
    } else {
        lemma_gathered(responses, data, cap_id, stream_id, (count - 1) as nat);
        lemma_chunk_fields(data, cap_id, stream_id, count as int);
        assert(responses.contains_key(chunk_key(stream_id, count as int)));
        let chunk = chunk_of(data, count as int);
        assert(chunk_at(responses, stream_id, count as int) == Some(chunk));
        assert(chunked_prefix(data, (count - 1) as nat) + chunk =~= chunked_prefix(data, count));
    }
}

/// Keeping two chunks in either order gives the same responses.
pub proof fn law_chunk_order(
    responses: Map<u32, ResponseView>,
    stream_id: u32,
    j: int,
    k: int,
    first: ResponseView,
    second: ResponseView,
)
    requires
        1 <= j <= 0xffff_ffff,
        1 <= k <= 0xffff_ffff,
        j != k,
    ensures
        responses.insert(chunk_key(stream_id, j), first).insert(chunk_key(stream_id, k), second)
            == responses.insert(chunk_key(stream_id, k), second).insert(
            chunk_key(stream_id, j),
            first,
        ),
{
    lemma_chunk_keys_differ(stream_id, j, k);
    assert(responses.insert(chunk_key(stream_id, j), first).insert(
        chunk_key(stream_id, k),
        second,
    ) =~= responses.insert(chunk_key(stream_id, k), second).insert(
        chunk_key(stream_id, j),
        first,
    ));
}

/// What the owner sends is what the caller needs: when the request for the
/// bytes of a bound memory capability arrives, one packet is queued for
/// each chunk of the buffer, in the order of the sequence numbers, each
/// with the image of its chunk on the stream of the request.
pub proof fn law_chunks_are_sent(pre: ServiceView, dest: Seq<char>, data: Seq<u8>, cap_id: CapID, stream_id: u32, count: nat)
    requires
        data.len() <= 0x3ff_ffff_fc00,
        count <= chunk_count(data.len()),
    ensures
        pre.send_chunks(dest, data, cap_id, stream_id, count).outbox.len() == pre.outbox.len()
            + count,
        pre.send_chunks(dest, data, cap_id, stream_id, count).table == pre.table,
        forall|k: int|
            1 <= k <= count ==> #[trigger] pre.send_chunks(
                dest,
                data,
                cap_id,
                stream_id,
                count,
            ).outbox[pre.outbox.len() + k - 1] == (Outgoing {
                dest,
                data: chunk_image(data, cap_id, stream_id, k),
                stream_id,
            }),
    decreases count,
{
    if count > 0 {
        law_chunks_are_sent(pre, dest, data, cap_id, stream_id, (count - 1) as nat);
        lemma_chunk_fields(data, cap_id, stream_id, count as int);
        let mid = pre.send_chunks(dest, data, cap_id, stream_id, (count - 1) as nat);
        let end = pre.send_chunks(dest, data, cap_id, stream_id, count);
        assert forall|k: int| 1 <= k <= count implies #[trigger] end.outbox[pre.outbox.len() + k
            - 1] == (Outgoing { dest, data: chunk_image(data, cap_id, stream_id, k), stream_id }) by {
            if k < count {
                assert(end.outbox[pre.outbox.len() + k - 1] == mid.outbox[pre.outbox.len() + k
                    - 1]);
            }
        }
    }
}

/// The node after the chunks with the sequence numbers `arrivals` have
/// arrived from `owner`, one after the other.
pub open spec fn after_arrivals(
    node: ServiceView,
    owner: AddressView,
    data: Seq<u8>,
    cap_id: CapID,
    stream_id: u32,
    arrivals: Seq<int>,
    fresh: u32,
    outcome: Result<(), ()>,
) -> ServiceView
    decreases arrivals.len(),
{
    if arrivals.len() == 0 {
        node
    } else {
        after_arrivals(
            node,
            owner,
            data,
            cap_id,
            stream_id,
            arrivals.drop_last(),
            fresh,
            outcome,
        ).receive(owner, chunk_image(data, cap_id, stream_id, arrivals.last()), fresh, outcome)
    }
}

/// Each chunk that has arrived is kept under its key, whatever arrived
/// before or after it.
pub proof fn lemma_arrivals_are_kept(
    node: ServiceView,
    owner: AddressView,
    data: Seq<u8>,
    cap_id: CapID,
    stream_id: u32,
    arrivals: Seq<int>,
    fresh: u32,
    outcome: Result<(), ()>,
)
    requires
        data.len() <= 0x3ff_ffff_fc00,
        !owner.same_node(node.address),
        node.permits.contains_key(stream_id),
        forall|i: int|
            0 <= i < arrivals.len() ==> 1 <= #[trigger] arrivals[i] <= chunk_count(data.len()),
    ensures
        ({
            let after = after_arrivals(
                node,
                owner,
                data,
                cap_id,
                stream_id,
                arrivals,
                fresh,
                outcome,
            );
            &&& after.address == node.address
            &&& after.permits.contains_key(stream_id)
            &&& forall|i: int|
                0 <= i < arrivals.len() ==> after.responses.contains_key(
                    chunk_key(stream_id, #[trigger] arrivals[i]),
                ) && after.responses[chunk_key(stream_id, arrivals[i])].data == chunk_image(
                    data,
                    cap_id,
                    stream_id,
                    arrivals[i],
                )
        }),
    decreases arrivals.len(),
{
    if arrivals.len() > 0 {
        let head = arrivals.drop_last();
        let last = arrivals.last();
        lemma_arrivals_are_kept(node, owner, data, cap_id, stream_id, head, fresh, outcome);
        let mid = after_arrivals(node, owner, data, cap_id, stream_id, head, fresh, outcome);
        law_chunk_is_kept(mid, owner, data, cap_id, stream_id, last, fresh, outcome);
        let after = after_arrivals(node, owner, data, cap_id, stream_id, arrivals, fresh, outcome);
        assert forall|i: int| 0 <= i < arrivals.len() implies after.responses.contains_key(
            chunk_key(stream_id, #[trigger] arrivals[i]),
        ) && after.responses[chunk_key(stream_id, arrivals[i])].data == chunk_image(
            data,
            cap_id,
            stream_id,
            arrivals[i],
        ) by {
            if i < head.len() {
                assert(head[i] == arrivals[i]);
                if arrivals[i] != last {
                    lemma_chunk_keys_differ(stream_id, arrivals[i], last);
                }
            }
        }
    }
}

/// A remote buffer arrives whole, in whatever order its chunks arrive.
///
/// Let the chunks of `data` arrive at a node that waits on their stream, in
/// any order and any number of times, each of them at least once.  Then the
/// buffer that the node puts together from what it kept is `data`, byte for
/// byte.
pub proof fn law_buffer_in_any_order(
    node: ServiceView,
    owner: AddressView,
    data: Seq<u8>,
    cap_id: CapID,
    stream_id: u32,
    arrivals: Seq<int>,
    fresh: u32,
    outcome: Result<(), ()>,
)
    requires
        data.len() <= 0x3ff_ffff_fc00,
        !owner.same_node(node.address),
        node.permits.contains_key(stream_id),
        forall|i: int|
            0 <= i < arrivals.len() ==> 1 <= #[trigger] arrivals[i] <= chunk_count(data.len()),
        forall|k: int| 1 <= k <= chunk_count(data.len()) ==> arrivals.contains(k),
    ensures
        assembled(
            after_arrivals(
                node,
                owner,
                data,
                cap_id,
                stream_id,
                arrivals,
                fresh,
                outcome,
            ).responses,
            stream_id,
        ) == Some(data),
{
    lemma_arrivals_are_kept(node, owner, data, cap_id, stream_id, arrivals, fresh, outcome);
    let after = after_arrivals(node, owner, data, cap_id, stream_id, arrivals, fresh, outcome);
    assert forall|k: int| 1 <= k <= chunk_count(data.len()) implies after.responses.contains_key(
        #[trigger] chunk_key(stream_id, k),
    ) && after.responses[chunk_key(stream_id, k)].data == chunk_image(
        data,
        cap_id,
        stream_id,
        k,
    ) by {
        assert(arrivals.contains(k));
        let i = choose|i: int| 0 <= i < arrivals.len() && arrivals[i] == k;
        assert(arrivals[i] == k);
    }
    law_buffer_arrives_whole(after.responses, data, cap_id, stream_id);
}

/// Revoking the capabilities `ids` leaves the table without them, and with
/// all the others.
pub proof fn lemma_revoke_all(pre: ServiceView, ids: Seq<CapID>, nonces: Seq<u32>)
    requires
        nonces.len() == ids.len(),
    ensures
        forall|id: CapID| #[trigger]
            pre.revoke_all(ids, nonces).table.contains_key(id) <==> (pre.table.contains_key(id)
                && !ids.contains(id)),
    decreases ids.len(),
{
    let end = pre.revoke_all(ids, nonces);
    if ids.len() > 0 {
        let head = ids.drop_last();
        let last = ids.last();
        lemma_revoke_all(pre, head, nonces.drop_last());
        let mid = pre.revoke_all(head, nonces.drop_last());
        assert(end == mid.revoke(last, nonces.last()));
        if mid.table.contains_key(last) {
            let image = revoke_image(last, mid.address, nonces.last());
            lemma_send_each(mid.copy_to_switch(image), mid.table[last].delegatees, image);
            assert(end.table == mid.table.remove(last));
        } else {
            assert(end.table == mid.table);
        }
        assert forall|id: CapID| #[trigger]
            end.table.contains_key(id) <==> (pre.table.contains_key(id) && !ids.contains(
                id,
            )) by {
            assert(mid.table.contains_key(id) <==> (pre.table.contains_key(id) && !head.contains(
                id,
            )));
            if ids.contains(id) {
                let i = choose|i: int| 0 <= i < ids.len() && ids[i] == id;
                if i < head.len() {
                    assert(head[i] == id);
                    assert(head.contains(id));
                } else {
                    assert(id == last);
                }
            }
            if head.contains(id) {
                let i = choose|i: int| 0 <= i < head.len() && head[i] == id;
                assert(ids[i] == id);
                assert(ids.contains(id));
            }
            if id == last {
                assert(ids[ids.len() - 1] == id);
                assert(ids.contains(id));
            }
        }
    } else {
        assert(end == pre);
        assert forall|id: CapID| #[trigger]
            end.table.contains_key(id) <==> (pre.table.contains_key(id) && !ids.contains(
                id,
            )) by {
            if ids.contains(id) {
                let i = choose|i: int| 0 <= i < ids.len() && ids[i] == id;
                assert(false);
            }
        }
    }
}

/// A node that terminates holds no capability.
///
/// Revoking every capability of the table, in the order of the table,
/// leaves the table empty.
pub proof fn law_termination_empties(pre: ServiceView, nonces: Seq<u32>)
    requires
        tidy(pre),
        nonces.len() == pre.order.len(),
    ensures
        pre.revoke_all(pre.order, nonces).table == Map::<CapID, CapView>::empty(),
{
    lemma_revoke_all(pre, pre.order, nonces);
    let end = pre.revoke_all(pre.order, nonces);
    assert forall|id: CapID| !end.table.contains_key(id) by {
        if end.table.contains_key(id) {
            assert(pre.table.contains_key(id) && !pre.order.contains(id));
        }
    }
    assert(end.table =~= Map::<CapID, CapView>::empty());
}

/// The caller of a remote invocation learns the result of the handler.
///
/// The response that the owner sends for a result means success to the
/// caller where the result was a success, and failure where it was not.
pub proof fn law_response_means_result(cap_id: CapID, stream_id: u32, outcome: Result<(), ()>)
    ensures
        response_succeeds(response_image(cap_id, stream_id, response_code(outcome)))
            <==> outcome is Ok,
{
    let h = crate::packet_types::RequestResponseHeader {
        common: CommonHeader::plain(CmdType::RequestResponse, stream_id, cap_id),
        response_code: response_code(outcome),
    };
    crate::packet_types::lemma_request_response_round_trip(h);
    lemma_common_read(h.common, le_bytes(h.response_code as nat, 8));
}

/// The refusal of an unknown capability means failure to the caller.
pub proof fn law_refusal_means_failure(cap_id: CapID, address: AddressView, stream_id: u32)
    requires
        address.wf(),
    ensures
        !response_succeeds(cap_invalid_image(cap_id, address, stream_id)),
{
    let image = cap_invalid_image(cap_id, address, stream_id);
    let common = CommonHeader::plain(CmdType::CapInvalid, stream_id, cap_id);
    let rest = address.address + le_bytes(address.port as nat, 2) + le_bytes(cap_id as nat, 16);
    assert(image =~= common.bytes() + rest);
    lemma_common_read(common, rest);
}

/// Queuing chunks changes nothing but the queue.
pub proof fn lemma_send_chunks_keeps(
    pre: ServiceView,
    dest: Seq<char>,
    data: Seq<u8>,
    cap_id: CapID,
    stream_id: u32,
    count: nat,
)
    ensures
        pre.send_chunks(dest, data, cap_id, stream_id, count) == (ServiceView {
            outbox: pre.send_chunks(dest, data, cap_id, stream_id, count).outbox,
            ..pre
        }),
    decreases count,
{
    if count > 0 {
        lemma_send_chunks_keeps(pre, dest, data, cap_id, stream_id, (count - 1) as nat);
    }
}

/// A capability stays as it is until a packet names it.
///
/// A datagram changes the table of a node under two identifiers at most:
/// the one that it hands over, where it is a delegation, and the one that it
/// revokes, where it is a revocation.  Every other capability is found
/// after the datagram as it was found before.
pub proof fn law_other_capabilities_stay(
    node: ServiceView,
    sender: AddressView,
    packet: Seq<u8>,
    fresh: u32,
    outcome: Result<(), ()>,
    id: CapID,
)
    requires
        id != field(packet, 38, 16),
        id != field(packet, 42, 16),
    ensures
        node.receive(sender, packet, fresh, outcome).table.contains_key(id)
            == node.table.contains_key(id),
        node.table.contains_key(id) ==> node.receive(sender, packet, fresh, outcome).table[id]
            == node.table[id],
{
    let counted = ServiceView { received: crate::model::count_up(node.received), ..node };
    let common = CommonHeader::read(packet);
    let revoked = field(packet, 42, 16) as u128;
    lemma_pow256_values();
    if packet.len() >= REVOKE_CAP_SIZE {
        crate::wire::lemma_field_bytes(packet, 42, 16);
    }
    if packet.len() >= INSERT_CAP_SIZE {
        crate::wire::lemma_field_bytes(packet, 38, 16);
    }
    if counted.table.contains_key(revoked) {
        let image = revoke_image(revoked, counted.address, fresh);
        lemma_send_each(counted.copy_to_switch(image), counted.table[revoked].delegatees, image);
    }
    if counted.table.contains_key(common.cap_id) {
        match counted.table[common.cap_id].memory {
            Some(data) => {
                lemma_send_chunks_keeps(
                    counted,
                    sender.text(),
                    data,
                    common.cap_id,
                    common.stream_id,
                    chunk_count(data.len()),
                );
            },
            None => {},
        }
    }
}

} // verus!
