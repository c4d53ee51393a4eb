//! The node: its capability table, the packets that wait to be sent, the
//! responses that wait to be fetched, and what it does with each datagram.
//!
//! A `Service` does no I/O.  Whoever drives it hands it the datagrams that
//! arrive, and sends the packets that it queues.

use crate::address::{
    address_text, be_octets, prefix_mask, prefix_or_host, AddressView, IpAddress,
};
use crate::cap_table::CapTable;
use crate::capabilities::{
    continuation_count, continuation_slots, response_succeeds, CapRef, CapType, CapView,
    Capability,
};
use crate::config::Config;
use crate::model::{
    announced, assembled, attached, bare_image, cap_invalid_image, chunk_at, chunk_image,
    chunk_key, chunk_keys, count_up, delegated_cap, gathered, insert_cap_image, invoke_image,
    lemma_chunk_keys_step, lemma_gathered_needs, result_of, revoke_image, BufferFetch,
    Invocation, Outcome, Outgoing, ResponseView, ServiceView,
};
use crate::object::{MemoryObject, RequestObject, MAX_BUFFER_SIZE};
use crate::packet_types::{
    chunk_count, lemma_common_read, random_stream_id, CapID, CapInvalidHeader, CmdType,
    CommonHeader, ControllerResetSwitchHeader, ControllerStartTimerHeader, ControllerStopHeader,
    ControllerStopTimerHeader, InsertCapHeader, MemoryCopyResponseHeader, RequestInvokeHeader,
    RequestResponseHeader, RevokeCapHeader, COMMON_HEADER_SIZE,
};
use crate::wire::{field, lemma_le_bytes_len_auto};
use std::collections::HashMap;
use vstd::prelude::*;

verus! {

broadcast use {vstd::std_specs::hash::group_hash_axioms, lemma_le_bytes_len_auto};

/// A packet that waits to be sent.
#[derive(Debug)]
pub struct SendRequest {
    pub dest: String,
    pub data: Vec<u8>,
    pub stream_id: u32,
}

impl SendRequest {
    /// As the model sees it.
    pub open spec fn view(&self) -> Outgoing {
        Outgoing { dest: self.dest@, data: self.data@, stream_id: self.stream_id }
    }

    /// The request to send `data`, a whole packet, to `dest`.  Its stream is
    /// the one that the packet names.
    pub fn new(dest: String, data: Vec<u8>) -> (r: SendRequest)
        requires
            data@.len() >= COMMON_HEADER_SIZE,
        ensures
            r.dest == dest,
            r.data == data,
            r.stream_id == CommonHeader::read(data@).stream_id,
    {
        let stream_id = match CommonHeader::decode(data.as_slice()) {
            Some(common) => common.stream_id,
            None => 0,
        };
        SendRequest { dest, data, stream_id }
    }
}

/// A datagram kept for the caller that waits on its stream.
#[derive(Debug)]
pub struct Response {
    pub sender: String,
    pub data: Vec<u8>,
}

impl Response {
    /// As the model sees it.
    pub open spec fn view(&self) -> ResponseView {
        ResponseView { sender: self.sender@, data: self.data@ }
    }

    /// A copy of the response.
    pub fn clone(&self) -> (r: Response)
        ensures
            r@ == self@,
    {
        Response { sender: self.sender.clone(), data: self.data.clone() }
    }
}

/// A node.  `F` is the type of the handlers of its request objects.
pub struct Service<F> {
    pub config: Config,
    /// The address of this node, as `config.address` gives it.
    pub address: IpAddress,
    /// Whether the switch gets a copy of each control packet.
    pub control_plane_copies: bool,
    /// The packets that wait to be sent, oldest first.
    pub send_queue: Vec<SendRequest>,
    pub responses: HashMap<u32, Response>,
    /// The permits of each stream that is waited on.
    pub response_notifiers: HashMap<u32, u64>,
    pub cap_table: CapTable<F>,
    pub terminated: bool,
    pub send_counter: u128,
    pub recv_counter: u128,
}

impl<F: Fn(Vec<Option<CapRef>>) -> Result<(), ()>> Service<F> {
    /// As the model sees it.
    pub open spec fn view(&self) -> ServiceView {
        ServiceView {
            address: self.address@,
            switch: self.config.switch_addr@,
            copies: self.control_plane_copies,
            table: self.cap_table@,
            order: self.cap_table.ids(),
            outbox: self.send_queue@.map_values(|r: SendRequest| r@),
            responses: self.responses@.map_values(|r: Response| r@),
            permits: self.response_notifiers@,
            terminated: self.terminated,
            sent: self.send_counter,
            received: self.recv_counter,
        }
    }

    /// The table is well formed.
    pub open spec fn wf(&self) -> bool {
        self.cap_table.wf()
    }

    /// Whether every request object of this node was bound, to the same
    /// capability, in the node `before`.
    pub open spec fn keeps_handlers(&self, before: &Service<F>) -> bool {
        forall|id: CapID| #[trigger]
            self.cap_table.caps@.contains_key(id) && self.cap_table.caps@[id].request_object
                is Some ==> before.cap_table.caps@.contains_key(id)
                && before.cap_table.caps@[id].request_object
                == self.cap_table.caps@[id].request_object
    }

    /// Whether every request object of this node but that of the capability
    /// `cap_id` was bound, to the same capability, in the node `before`.
    pub open spec fn keeps_handlers_but(&self, before: &Service<F>, cap_id: CapID) -> bool {
        forall|id: CapID| #[trigger]
            self.cap_table.caps@.contains_key(id) && id != cap_id
                && self.cap_table.caps@[id].request_object is Some
                ==> before.cap_table.caps@.contains_key(id)
                && before.cap_table.caps@[id].request_object
                == self.cap_table.caps@[id].request_object
    }

    /// Whether every memory object that was bound in the node `before` and
    /// is bound in this node, to the same capability, is the same object.
    pub open spec fn keeps_buffers(&self, before: &Service<F>) -> bool {
        forall|id: CapID| #[trigger]
            self.cap_table.caps@.contains_key(id) && self.cap_table.caps@[id].memory_object
                is Some && before.cap_table.caps@.contains_key(id)
                && before.cap_table.caps@[id].memory_object is Some
                ==> before.cap_table.caps@[id].memory_object
                == self.cap_table.caps@[id].memory_object
    }

    /// Whether the two nodes differ in their queue of packets at most.
    pub open spec fn same_but_queue(&self, other: &Service<F>) -> bool {
        &&& self.config == other.config
        &&& self.address == other.address
        &&& self.control_plane_copies == other.control_plane_copies
        &&& self.responses == other.responses
        &&& self.response_notifiers == other.response_notifiers
        &&& self.cap_table == other.cap_table
        &&& self.terminated == other.terminated
        &&& self.send_counter == other.send_counter
        &&& self.recv_counter == other.recv_counter
    }

    /// A node with empty tables and the address that `config.address`
    /// names; `None` where that text names no address.  A canonical text
    /// `a.b.c.d[/len][:port]` names the address written there.
    pub fn new(config: Config) -> (r: Option<Service<F>>)
        ensures
            match r {
                Some(s) => {
                    &&& crate::address::address_of_text(config.address@) matches Some(parts)
                    &&& s.address.denotes(parts)
                    &&& s.config == config
                    &&& s.wf()
                    &&& !s.control_plane_copies
                    &&& s@.table == Map::<CapID, CapView>::empty()
                    &&& s@.order == Seq::<CapID>::empty()
                    &&& s@.outbox == Seq::<Outgoing>::empty()
                    &&& s@.responses == Map::<u32, ResponseView>::empty()
                    &&& s@.permits == Map::<u32, u64>::empty()
                    &&& !s@.terminated
                    &&& s@.sent == 0
                    &&& s@.received == 0
                },
                None => crate::address::address_of_text(config.address@) is None,
            },
            forall|a: Seq<u8>, len: Option<nat>, port: Option<u16>|
                a.len() == 4 && prefix_or_host(len) <= 32 && config.address@
                    == #[trigger] address_text(a, len, port) ==> {
                    &&& r matches Some(s)
                    &&& s.address.address@ == a
                    &&& s.address.netmask@ == be_octets(prefix_mask(prefix_or_host(len)))
                    &&& s.address.port == match (len, port) {
                        (None, Some(p)) => p,
                        _ => 0u16,
                    }
                },
    {
        let address = match IpAddress::parse(config.address.as_str()) {
            Some(a) => a,
            None => {
                return None;
            },
        };
        let s = Service {
            config,
            address,
            control_plane_copies: false,
            send_queue: Vec::new(),
            responses: HashMap::new(),
            response_notifiers: HashMap::new(),
            cap_table: CapTable::new(),
            terminated: false,
            send_counter: 0,
            recv_counter: 0,
        };
        assert(s@.outbox =~= Seq::<Outgoing>::empty());
        assert(s@.responses =~= Map::<u32, ResponseView>::empty());
        Some(s)
    }

    /// Forgets every capability, response and permit, and sets the counters
    /// to 0.  What waits to be sent still waits.
    pub fn reset(&mut self)
        ensures
            final(self).wf(),
            final(self).keeps_handlers(old(self)),
            final(self).keeps_buffers(old(self)),
            final(self)@ == (ServiceView {
                table: Map::empty(),
                order: Seq::empty(),
                responses: Map::empty(),
                permits: Map::empty(),
                sent: 0,
                received: 0,
                ..old(self)@
            }),
    {
        self.cap_table.reset();
        self.response_notifiers = HashMap::new();
        self.responses = HashMap::new();
        self.send_counter = 0;
        self.recv_counter = 0;
        assert(self@.responses =~= Map::<u32, ResponseView>::empty());
    }

    /// Queues the packet `data` for `dest`.
    fn enqueue(&mut self, dest: String, data: Vec<u8>)
        requires
            data@.len() >= COMMON_HEADER_SIZE,
        ensures
            final(self)@ == old(self)@.send(dest@, data@),
            final(self).same_but_queue(old(self)),
    {
        let r = SendRequest::new(dest, data);
        self.send_queue.push(r);
        assert(self@.outbox =~= old(self)@.outbox.push(r@));
    }

    /// Queues the control packet `data`: for the switch first, where the
    /// switch gets copies, then for `dest`.
    fn enqueue_observed(&mut self, dest: String, data: Vec<u8>)
        requires
            data@.len() >= COMMON_HEADER_SIZE,
        ensures
            final(self)@ == old(self)@.send_observed(dest@, data@),
            final(self).same_but_queue(old(self)),
    {
        if self.control_plane_copies {
            let copy = data.clone();
            let switch = self.config.switch_addr.clone();
            self.enqueue(switch, copy);
        }
        self.enqueue(dest, data);
    }

    /// Queues the request `r`.  Gives the stream to wait on where the caller
    /// waits for a response.
    pub fn send(&mut self, r: SendRequest, wait_for_response: bool) -> (stream: Option<u32>)
        ensures
            final(self)@ == (ServiceView { outbox: old(self)@.outbox.push(r@), ..old(self)@ }),
            final(self).same_but_queue(old(self)),
            stream == if wait_for_response {
                Some(r.stream_id)
            } else {
                None
            },
    {
        let stream_id = r.stream_id;
        self.send_queue.push(r);
        assert(self@.outbox =~= old(self)@.outbox.push(r@));
        if wait_for_response {
            Some(stream_id)
        } else {
            None
        }
    }

    /// Takes the oldest packet that waits to be sent.  From then on its
    /// stream is waited on, and the packet counts as sent.
    pub fn next_to_send(&mut self) -> (r: Option<SendRequest>)
        ensures
            final(self).cap_table == old(self).cap_table,
            match r {
                Some(p) => {
                    &&& old(self)@.outbox.len() > 0
                    &&& p@ == old(self)@.outbox[0]
                    &&& final(self)@ == (ServiceView {
                        outbox: old(self)@.outbox.drop_first(),
                        permits: old(self)@.permits.insert(
                            p.stream_id,
                            old(self)@.permits_of(p.stream_id),
                        ),
                        sent: count_up(old(self)@.sent),
                        ..old(self)@
                    })
                },
                None => old(self)@.outbox.len() == 0 && final(self)@ == old(self)@,
            },
    {
        if self.send_queue.len() == 0 {
            return None;
        }
        let p = self.send_queue.remove(0);
        if !self.response_notifiers.contains_key(&p.stream_id) {
            self.response_notifiers.insert(p.stream_id, 0);
        }
        if self.send_counter < u128::MAX {
            self.send_counter = self.send_counter + 1;
        }
        proof {
            assert(self@.outbox =~= old(self)@.outbox.drop_first());
            assert(self@.permits =~= old(self)@.permits.insert(
                p.stream_id,
                old(self)@.permits_of(p.stream_id),
            ));
        }
        Some(p)
    }

    /// Takes `n` permits of the stream `stream_id`, where it has as many.
    pub fn acquire(&mut self, stream_id: u32, n: u64) -> (r: bool)
        ensures
            final(self).cap_table == old(self).cap_table,
            r == (old(self)@.permits.contains_key(stream_id) && old(self)@.permits[stream_id]
                >= n),
            final(self)@ == if r {
                ServiceView {
                    permits: old(self)@.permits.insert(
                        stream_id,
                        (old(self)@.permits[stream_id] - n) as u64,
                    ),
                    ..old(self)@
                }
            } else {
                old(self)@
            },
    {
        let have: u64 = match self.response_notifiers.get(&stream_id) {
            Some(p) => *p,
            None => {
                return false;
            },
        };
        if have < n {
            return false;
        }
        self.response_notifiers.insert(stream_id, have - n);
        true
    }

    /// Takes the response kept under `stream_id`.
    pub fn get_response(&mut self, stream_id: u32) -> (r: Option<Response>)
        ensures
            final(self).cap_table == old(self).cap_table,
            final(self)@ == (ServiceView {
                responses: old(self)@.responses.remove(stream_id),
                ..old(self)@
            }),
            match r {
                Some(resp) => old(self)@.responses.contains_key(stream_id) && resp@ == old(
                    self,
                )@.responses[stream_id],
                None => !old(self)@.responses.contains_key(stream_id),
            },
    {
        let r = self.responses.remove(&stream_id);
        assert(self@.responses =~= old(self)@.responses.remove(stream_id));
        r
    }

    /// A copy of the response kept under `stream_id`.
    pub fn get_response_no_delete(&self, stream_id: u32) -> (r: Option<Response>)
        ensures
            match r {
                Some(resp) => self@.responses.contains_key(stream_id) && resp@
                    == self@.responses[stream_id],
                None => !self@.responses.contains_key(stream_id),
            },
    {
        match self.responses.get(&stream_id) {
            Some(resp) => Some(resp.clone()),
            None => None,
        }
    }

    /// Whether the node holds the capability `cap_id`.
    pub fn cap_exists(&self, cap_id: CapID) -> (r: bool)
        ensures
            r == self@.table.contains_key(cap_id),
    {
        self.cap_table.contains(cap_id)
    }

    /// Makes a capability of this node with a fresh identifier, and gives
    /// the identifier.  A capability that stood under it is replaced.
    pub fn create_capability(&mut self) -> (cap_id: CapID)
        requires
            old(self).wf(),
        ensures
            final(self).wf(),
            final(self).keeps_handlers(old(self)),
            final(self).keeps_buffers(old(self)),
            final(self)@ == old(self)@.insert(
                (CapView {
                    cap_id,
                    cap_type: CapType::Untyped,
                    owner: old(self)@.address,
                    delegatees: Seq::empty(),
                    memory: None,
                    has_handler: false,
                }),
            ),
    {
        let cap: Capability<F> = Capability::create(self.address);
        let cap_id = cap.cap_id;
        assert(cap@.delegatees =~= Seq::empty());
        self.cap_table.insert(cap);
        cap_id
    }

    /// Makes a capability of this node with the identifier `cap_id`.  A
    /// capability that stood under it is replaced.
    pub fn create_capability_with_id(&mut self, cap_id: CapID)
        requires
            old(self).wf(),
        ensures
            final(self).wf(),
            final(self).keeps_handlers(old(self)),
            final(self).keeps_buffers(old(self)),
            final(self)@ == old(self)@.insert(
                (CapView {
                    cap_id,
                    cap_type: CapType::Untyped,
                    owner: old(self)@.address,
                    delegatees: Seq::empty(),
                    memory: None,
                    has_handler: false,
                }),
            ),
    {
        let cap: Capability<F> = Capability::create_with_id(self.address, cap_id);
        assert(cap@.delegatees =~= Seq::empty());
        self.cap_table.insert(cap);
    }

    /// Makes a capability with the identifier `cap_id` on an object that the
    /// node at `owner` hosts.  A capability that stood under it is replaced.
    /// Gives `false`, and changes nothing, where `owner` names no address.
    /// A canonical text `a.b.c.d[/len][:port]` names the address written
    /// there.
    pub fn create_remote_capability_with_id(&mut self, owner: String, cap_id: CapID) -> (r: bool)
        requires
            old(self).wf(),
        ensures
            final(self).wf(),
            final(self).keeps_handlers(old(self)),
            final(self).keeps_buffers(old(self)),
            match crate::address::address_of_text(owner@) {
                Some(parts) => r && final(self)@ == old(self)@.insert(
                    (CapView {
                        cap_id,
                        cap_type: CapType::Untyped,
                        owner: crate::address::address_of_parts(parts),
                        delegatees: Seq::empty(),
                        memory: None,
                        has_handler: false,
                    }),
                ),
                None => !r && final(self)@ == old(self)@,
            },
            forall|a: Seq<u8>, len: Option<nat>, port: Option<u16>|
                a.len() == 4 && prefix_or_host(len) <= 32 && owner@ == #[trigger] address_text(
                    a,
                    len,
                    port,
                ) ==> r && final(self)@ == old(self)@.insert(
                    (CapView {
                        cap_id,
                        cap_type: CapType::Untyped,
                        owner: (AddressView {
                            address: a,
                            netmask: be_octets(prefix_mask(prefix_or_host(len))),
                            port: match (len, port) {
                                (None, Some(p)) => p,
                                _ => 0u16,
                            },
                        }),
                        delegatees: Seq::empty(),
                        memory: None,
                        has_handler: false,
                    }),
                ),
    {
        match IpAddress::parse(owner.as_str()) {
            Some(host) => {
                let cap: Capability<F> = Capability::create_remote_with_id(host, cap_id);
                assert(cap@.delegatees =~= Seq::empty());
                self.cap_table.insert(cap);
                true
            },
            None => false,
        }
    }

    /// Takes the capability `cap_id` out of the table.  No packet goes out.
    pub fn delete_capability(&mut self, cap_id: CapID)
        requires
            old(self).wf(),
        ensures
            final(self).wf(),
            final(self).keeps_handlers(old(self)),
            final(self).keeps_buffers(old(self)),
            final(self)@ == old(self)@.remove(cap_id),
    {
        self.cap_table.remove(cap_id);
    }

    /// Tells the switch to start its timer.
    pub fn controller_timer_start(&mut self) -> (stream_id: u32)
        ensures
            final(self)@ == old(self)@.send(
                old(self)@.switch,
                bare_image(CmdType::ControllerStartTimer, stream_id, 0),
            ),
            final(self).same_but_queue(old(self)),
    {
        let h = ControllerStartTimerHeader::construct();
        proof {
            lemma_common_read(h.common, Seq::empty());
            assert(h.common.bytes() + Seq::<u8>::empty() =~= h.common.bytes());
        }
        let switch = self.config.switch_addr.clone();
        self.enqueue(switch, h.encode());
        h.common.stream_id
    }

    /// Tells the switch to stop its timer.
    pub fn controller_timer_stop(&mut self) -> (stream_id: u32)
        ensures
            final(self)@ == old(self)@.send(
                old(self)@.switch,
                bare_image(CmdType::ControllerStopTimer, stream_id, 0),
            ),
            final(self).same_but_queue(old(self)),
    {
        let h = ControllerStopTimerHeader::construct();
        proof {
            lemma_common_read(h.common, Seq::empty());
            assert(h.common.bytes() + Seq::<u8>::empty() =~= h.common.bytes());
        }
        let switch = self.config.switch_addr.clone();
        self.enqueue(switch, h.encode());
        h.common.stream_id
    }

    /// Tells the switch to forget what it holds.
    pub fn controller_reset_switch(&mut self) -> (stream_id: u32)
        ensures
            final(self)@ == old(self)@.send(
                old(self)@.switch,
                bare_image(CmdType::ControllerResetSwitch, stream_id, 0),
            ),
            final(self).same_but_queue(old(self)),
    {
        let h = ControllerResetSwitchHeader::construct();
        proof {
            lemma_common_read(h.common, Seq::empty());
            assert(h.common.bytes() + Seq::<u8>::empty() =~= h.common.bytes());
        }
        let switch = self.config.switch_addr.clone();
        self.enqueue(switch, h.encode());
        h.common.stream_id
    }

    /// Tells the switch to stop.
    pub fn controller_stop(&mut self) -> (stream_id: u32)
        ensures
            final(self)@ == old(self)@.send(
                old(self)@.switch,
                bare_image(CmdType::ControllerStop, stream_id, 0),
            ),
            final(self).same_but_queue(old(self)),
    {
        let h = ControllerStopHeader::construct();
        proof {
            lemma_common_read(h.common, Seq::empty());
            assert(h.common.bytes() + Seq::<u8>::empty() =~= h.common.bytes());
        }
        let switch = self.config.switch_addr.clone();
        self.enqueue(switch, h.encode());
        h.common.stream_id
    }
}

/// The image of a delegation header is the image that the model sends.
pub proof fn lemma_insert_cap_image(
    h: InsertCapHeader,
    cap_id: CapID,
    cap_type: u8,
    delegatee: IpAddress,
    owner: IpAddress,
    stream_id: u32,
)
    requires
        h.is_delegation(cap_id, cap_type, delegatee, owner, stream_id),
    ensures
        h.bytes() == insert_cap_image(cap_id, cap_type, delegatee@, owner@, stream_id),
        CommonHeader::read(h.bytes()).stream_id == stream_id,
{
    assert(h.bytes() =~= insert_cap_image(cap_id, cap_type, delegatee@, owner@, stream_id));
    crate::packet_types::lemma_insert_cap_round_trip(h);
}

/// The image of a revocation header is the image that the model sends.
pub proof fn lemma_revoke_image(h: RevokeCapHeader, cap_id: CapID, owner: IpAddress, stream_id: u32)
    requires
        h.is_revocation(cap_id, owner, stream_id),
    ensures
        h.bytes() == revoke_image(cap_id, owner@, stream_id),
        CommonHeader::read(h.bytes()).stream_id == stream_id,
{
    assert(h.bytes() =~= revoke_image(cap_id, owner@, stream_id));
    crate::packet_types::lemma_revoke_cap_round_trip(h);
}

impl<F: Fn(Vec<Option<CapRef>>) -> Result<(), ()>> Service<F> {
    /// Binds the request object `obj` to the capability `cap_id`, and tells
    /// the object which capability it serves.  Gives `false`, and changes
    /// nothing, where the node does not hold the capability or an object is
    /// bound to it already.
    pub fn bind_req(&mut self, cap_id: CapID, obj: RequestObject<F>) -> (r: bool)
        requires
            old(self).wf(),
            obj.wf(),
        ensures
            final(self).wf(),
            final(self).keeps_handlers_but(old(self), cap_id),
            final(self).keeps_buffers(old(self)),
            r == (old(self)@.table.contains_key(cap_id) && old(self)@.table[cap_id].memory is None
                && !old(self)@.table[cap_id].has_handler),
            r ==> final(self)@ == (ServiceView {
                table: old(self)@.table.insert(
                    cap_id,
                    (CapView {
                        cap_type: CapType::Request,
                        has_handler: true,
                        ..old(self)@.table[cap_id]
                    }),
                ),
                ..old(self)@
            }),
            r ==> (final(self).cap_table.caps@[cap_id].request_object matches Some(o)
                && o.function == obj.function && o.is_local == obj.is_local && o.cap == Some(
                (CapRef {
                    cap_id,
                    cap_type: CapType::Request,
                    owner_address: old(self).cap_table.caps@[cap_id].owner_address,
                }),
            )),
            !r ==> final(self)@ == old(self)@ && final(self).cap_table.caps@ == old(
                self,
            ).cap_table.caps@,
    {
        match self.cap_table.lift(cap_id) {
            Some(cap) => {
                let mut cap = cap;
                let free = cap.request_object.is_none() && cap.memory_object.is_none();
                if free {
                    cap.bind_req(obj);
                }
                self.cap_table.settle(cap);
                proof {
                    if free {
                        assert(self@.table =~= old(self)@.table.insert(
                            cap_id,
                            (CapView {
                                cap_type: CapType::Request,
                                has_handler: true,
                                ..old(self)@.table[cap_id]
                            }),
                        ));
                    } else {
                        assert(self.cap_table.caps@ =~= old(self).cap_table.caps@);
                        assert(self@.table =~= old(self)@.table);
                    }
                }
                free
            },
            None => {
                assert(self@.table =~= old(self)@.table);
                false
            },
        }
    }

    /// Binds the memory object `obj` to the capability `cap_id`, and tells
    /// the object which capability it serves.  Gives `false`, and changes
    /// nothing, where the node does not hold the capability or an object is
    /// bound to it already.
    pub fn bind_mem(&mut self, cap_id: CapID, obj: MemoryObject) -> (r: bool)
        requires
            old(self).wf(),
            obj.wf(),
        ensures
            final(self).wf(),
            final(self).keeps_handlers(old(self)),
            final(self).keeps_buffers(old(self)),
            r == (old(self)@.table.contains_key(cap_id) && old(self)@.table[cap_id].memory is None
                && !old(self)@.table[cap_id].has_handler),
            r ==> final(self)@ == (ServiceView {
                table: old(self)@.table.insert(
                    cap_id,
                    (CapView {
                        cap_type: CapType::Memory,
                        memory: Some(obj.data@),
                        ..old(self)@.table[cap_id]
                    }),
                ),
                ..old(self)@
            }),
            r ==> (final(self).cap_table.caps@[cap_id].memory_object matches Some(m) && m.is_local
                == obj.is_local && m.data == obj.data && m.size == obj.size && m.cap == Some(
                (CapRef {
                    cap_id,
                    cap_type: CapType::Memory,
                    owner_address: old(self).cap_table.caps@[cap_id].owner_address,
                }),
            )),
            !r ==> final(self)@ == old(self)@ && final(self).cap_table.caps@ == old(
                self,
            ).cap_table.caps@,
    {
        match self.cap_table.lift(cap_id) {
            Some(cap) => {
                let mut cap = cap;
                let free = cap.request_object.is_none() && cap.memory_object.is_none();
                if free {
                    cap.bind_mem(obj);
                }
                self.cap_table.settle(cap);
                proof {
                    if free {
                        assert(self@.table =~= old(self)@.table.insert(
                            cap_id,
                            (CapView {
                                cap_type: CapType::Memory,
                                memory: Some(obj.data@),
                                ..old(self)@.table[cap_id]
                            }),
                        ));
                    } else {
                        assert(self.cap_table.caps@ =~= old(self).cap_table.caps@);
                        assert(self@.table =~= old(self)@.table);
                    }
                }
                free
            },
            None => {
                assert(self@.table =~= old(self)@.table);
                false
            },
        }
    }

    /// Delegates the capability `cap_id` to the node `delegatee`, and gives
    /// the stream of the packet that hands it over.  Gives `None`, and does
    /// nothing, where the node does not hold the capability.
    pub fn delegate(&mut self, cap_id: CapID, delegatee: IpAddress) -> (r: Option<u32>)
        requires
            old(self).wf(),
        ensures
            final(self).wf(),
            final(self).keeps_handlers(old(self)),
            final(self).keeps_buffers(old(self)),
            match r {
                Some(nonce) => old(self)@.table.contains_key(cap_id) && final(self)@ == old(
                    self,
                )@.delegate(cap_id, delegatee@, nonce),
                None => !old(self)@.table.contains_key(cap_id) && final(self)@ == old(self)@,
            },
    {
        match self.cap_table.lift(cap_id) {
            Some(cap) => {
                let mut cap = cap;
                let h = cap.delegate(delegatee, self.address);
                let nonce = h.common.stream_id;
                self.cap_table.settle(cap);
                proof {
                    lemma_insert_cap_image(
                        h,
                        cap_id,
                        old(self)@.table[cap_id].cap_type.code(),
                        delegatee,
                        self.address,
                        nonce,
                    );
                    let grown = CapView {
                        delegatees: old(self)@.table[cap_id].delegatees.push(delegatee@),
                        ..old(self)@.table[cap_id]
                    };
                    assert(self@.table =~= old(self)@.table.insert(cap_id, grown));
                }
                self.enqueue_observed(delegatee.to_text(), h.encode());
                Some(nonce)
            },
            None => {
                assert(self@.table =~= old(self)@.table);
                None
            },
        }
    }

    /// Revokes the capability `cap_id`: tells every delegatee, and takes it
    /// out of the table.  Gives the stream of the packets, or `None`, having
    /// done nothing, where the node does not hold the capability.
    pub fn revoke(&mut self, cap_id: CapID) -> (r: Option<u32>)
        requires
            old(self).wf(),
        ensures
            final(self).wf(),
            final(self).keeps_handlers(old(self)),
            final(self).keeps_buffers(old(self)),
            match r {
                Some(nonce) => old(self)@.table.contains_key(cap_id) && final(self)@ == old(
                    self,
                )@.revoke(cap_id, nonce),
                None => !old(self)@.table.contains_key(cap_id) && final(self)@ == old(self)@,
            },
    {
        let nonce = random_stream_id();
        let r = self.revoke_on(cap_id, nonce);
        if r {
            Some(nonce)
        } else {
            None
        }
    }

    /// Revokes the capability `cap_id` on the stream `nonce`.  Gives `false`,
    /// having done nothing, where the node does not hold the capability.
    pub fn revoke_on(&mut self, cap_id: CapID, nonce: u32) -> (r: bool)
        requires
            old(self).wf(),
        ensures
            final(self).wf(),
            final(self).keeps_handlers(old(self)),
            final(self).keeps_buffers(old(self)),
            r == old(self)@.table.contains_key(cap_id),
            final(self).cap_table.caps@ == old(self).cap_table.caps@.remove(cap_id),
            final(self)@ == old(self)@.revoke(cap_id, nonce),
    {
        let cap = match self.cap_table.take(cap_id) {
            Some(cap) => cap,
            None => {
                proof {
                    assert(self@.table =~= old(self)@.table);
                    crate::cap_table::lemma_without(old(self)@.order, cap_id);
                }
                return false;
            },
        };
        let h = RevokeCapHeader::with_stream(cap.cap_id, self.address, nonce);
        let packet = h.encode();
        let ghost image = revoke_image(cap_id, self.address@, nonce);
        let ghost dests = old(self)@.table[cap_id].delegatees;
        proof {
            lemma_revoke_image(h, cap_id, self.address, nonce);
        }
        if self.control_plane_copies {
            let switch = self.config.switch_addr.clone();
            self.enqueue(switch, packet.clone());
        }
        let n: usize = cap.delegatees.len();
        let mut i: usize = 0;
        assert(dests.subrange(0, 0) =~= Seq::empty());
        while i < n
            invariant
                i <= n == cap.delegatees@.len(),
                dests == cap.delegatees@.map_values(|a: IpAddress| a@),
                packet@ == image,
                packet@.len() >= COMMON_HEADER_SIZE,
                self.wf(),
                self.cap_table.caps@ == old(self).cap_table.caps@.remove(cap_id),
                self@ == (ServiceView {
                    table: old(self)@.table.remove(cap_id),
                    order: crate::cap_table::without(old(self)@.order, cap_id),
                    ..old(self)@.copy_to_switch(image).send_each(dests.subrange(0, i as int), image)
                }),
            decreases n - i,
        {
            let dest = cap.delegatees[i].to_text();
            proof {
                let next = dests.subrange(0, i + 1);
                assert(next.drop_last() =~= dests.subrange(0, i as int));
                assert(next.last() == cap.delegatees@[i as int]@);
            }
            self.enqueue(dest, packet.clone());
            i = i + 1;
        }
        proof {
            assert(dests.subrange(0, n as int) =~= dests);
            crate::model::lemma_send_each(old(self)@.copy_to_switch(image), dests, image);
        }
        true
    }

    /// Tells the switch that the capability `cap_id` is revoked on the node
    /// `node`.  The packet goes out only where the switch gets copies.  Gives
    /// the stream of the packet, or `None` where the node does not hold the
    /// capability.
    pub fn revoke_on_node(&mut self, cap_id: CapID, node: IpAddress) -> (r: Option<u32>)
        requires
            old(self).wf(),
        ensures
            final(self).wf(),
            final(self).keeps_handlers(old(self)),
            final(self).keeps_buffers(old(self)),
            final(self).same_but_queue(old(self)),
            match r {
                Some(nonce) => old(self)@.table.contains_key(cap_id) && final(self)@ == old(
                    self,
                )@.copy_to_switch(revoke_image(cap_id, node@, nonce)),
                None => !old(self)@.table.contains_key(cap_id) && final(self)@ == old(self)@,
            },
    {
        let h = match self.cap_table.get(cap_id) {
            Some(cap) => cap.revoke_on_node(node),
            None => {
                return None;
            },
        };
        let nonce = h.common.stream_id;
        proof {
            lemma_revoke_image(h, cap_id, node, nonce);
        }
        if self.control_plane_copies {
            let switch = self.config.switch_addr.clone();
            self.enqueue(switch, h.encode());
        }
        Some(nonce)
    }

    /// Revokes every capability of the table, oldest first, and marks the
    /// node as terminated.  Gives the streams of the revocations.
    pub fn terminate(&mut self) -> (nonces: Vec<u32>)
        requires
            old(self).wf(),
        ensures
            final(self).wf(),
            final(self).keeps_handlers(old(self)),
            final(self).keeps_buffers(old(self)),
            nonces@.len() == old(self)@.order.len(),
            final(self)@ == (ServiceView {
                terminated: true,
                ..old(self)@.revoke_all(old(self)@.order, nonces@)
            }),
    {
        let ids = self.cap_table.get_capids();
        let mut nonces: Vec<u32> = Vec::new();
        let n: usize = ids.len();
        let mut i: usize = 0;
        assert(ids@.subrange(0, 0) =~= Seq::empty());
        while i < n
            invariant
                i <= n == ids@.len(),
                ids@ == old(self)@.order,
                nonces@.len() == i,
                self.wf(),
                forall|id: CapID| #[trigger]
                    self.cap_table.caps@.contains_key(id) ==> old(self).cap_table.caps@.contains_key(
                        id,
                    ) && self.cap_table.caps@[id] == old(self).cap_table.caps@[id],
                self@ == old(self)@.revoke_all(ids@.subrange(0, i as int), nonces@),
            decreases n - i,
        {
            let nonce = random_stream_id();
            let ghost before = nonces@;
            let _ = self.revoke_on(ids[i], nonce);
            nonces.push(nonce);
            proof {
                let next = ids@.subrange(0, i + 1);
                assert(next.drop_last() =~= ids@.subrange(0, i as int));
                assert(nonces@.drop_last() =~= before);
            }
            i = i + 1;
        }
        assert(ids@.subrange(0, n as int) =~= ids@);
        self.terminated = true;
        nonces
    }
}

/// The image of a refusal header is the image that the model sends.
pub proof fn lemma_cap_invalid_image(
    h: CapInvalidHeader,
    cap_id: CapID,
    address: IpAddress,
    stream_id: u32,
)
    requires
        h.common == CommonHeader::plain(CmdType::CapInvalid, stream_id, cap_id),
        h.address@ == address.address@,
        h.port == address.port,
        h.cap_id == cap_id,
    ensures
        h.bytes() == cap_invalid_image(cap_id, address@, stream_id),
{
    assert(h.bytes() =~= cap_invalid_image(cap_id, address@, stream_id));
}

/// The image of a chunk header is the image that the model sends.
pub proof fn lemma_chunk_image(
    h: MemoryCopyResponseHeader,
    data: Seq<u8>,
    cap_id: CapID,
    stream_id: u32,
    sequence: int,
)
    requires
        h.is_chunk(data, cap_id, stream_id, sequence),
    ensures
        h.bytes() == chunk_image(data, cap_id, stream_id, sequence),
{
    assert(h.bytes() =~= chunk_image(data, cap_id, stream_id, sequence));
}

/// The capabilities that stand for the identifiers `ids`: `None` where the
/// identifier is 0 or names no capability of the table.
pub open spec fn resolved_ids<F>(caps: Map<CapID, Capability<F>>, ids: Seq<CapID>) -> Seq<
    Option<CapRef>,
> {
    Seq::new(
        ids.len(),
        |i: int|
            if ids[i] != 0 && caps.contains_key(ids[i]) {
                Some(
                    CapRef {
                        cap_id: caps[ids[i]].cap_id,
                        cap_type: caps[ids[i]].cap_type,
                        owner_address: caps[ids[i]].owner_address,
                    },
                )
            } else {
                None
            },
    )
}

/// The continuation identifiers that an invocation packet carries: as many
/// as it says, at most four.
pub open spec fn carried(packet: Seq<u8>) -> Seq<CapID> {
    Seq::new(
        if field(packet, 32, 1) < 4 {
            field(packet, 32, 1)
        } else {
            4
        },
        |i: int| field(packet, 33 + 16 * i, 16) as u128,
    )
}

/// The first four of `continuations`, or all of them where they are fewer.
pub open spec fn first_four(continuations: Seq<CapID>) -> Seq<CapID> {
    if continuations.len() < 4 {
        continuations
    } else {
        continuations.subrange(0, 4)
    }
}

impl<F: Fn(Vec<Option<CapRef>>) -> Result<(), ()>> Service<F> {
    /// Whether `outcome` is a result of running what is bound to the
    /// capability `cap_id` with the continuations `ids`: a result of one
    /// call of its handler on the capabilities that stand for them, or a
    /// failure where no request object is bound.
    pub open spec fn handles(&self, cap_id: CapID, ids: Seq<CapID>, outcome: Result<(), ()>)
        -> bool {
        match self.cap_table.caps@[cap_id].request_object {
            Some(o) => exists|args: Vec<Option<CapRef>>|
                args@ == resolved_ids(self.cap_table.caps@, ids) && call_ensures(
                    o.function,
                    (args,),
                    outcome,
                ),
            None => outcome is Err,
        }
    }

    /// Whether `outcome` is a result of running what is bound to the
    /// capability that the invocation `packet` names.
    pub open spec fn runs(&self, packet: Seq<u8>, outcome: Result<(), ()>) -> bool {
        self.handles(CommonHeader::read(packet).cap_id, carried(packet), outcome)
    }

    /// Queues the refusal of `cap_id` for `source`.
    fn refuse(&mut self, source: IpAddress, cap_id: CapID, stream_id: u32)
        ensures
            final(self)@ == old(self)@.refuse(source@, cap_id, stream_id),
            final(self).same_but_queue(old(self)),
    {
        let h = CapInvalidHeader::construct(cap_id, source, stream_id);
        proof {
            lemma_cap_invalid_image(h, cap_id, source, stream_id);
        }
        self.enqueue_observed(source.to_text(), h.encode());
    }

    /// The capabilities that stand for `ids`, as a handler gets them.
    fn resolve(&self, ids: &Vec<CapID>) -> (r: Vec<Option<CapRef>>)
        ensures
            r@ == resolved_ids(self.cap_table.caps@, ids@),
    {
        let n: usize = ids.len();
        let mut out: Vec<Option<CapRef>> = Vec::new();
        let mut i: usize = 0;
        while i < n
            invariant
                i <= n == ids@.len(),
                out@.len() == i,
                forall|j: int|
                    0 <= j < i ==> out@[j] == resolved_ids(self.cap_table.caps@, ids@)[j],
            decreases n - i,
        {
            let id: CapID = ids[i];
            let c: Option<CapRef> = if id == 0 {
                None
            } else {
                match self.cap_table.get(id) {
                    Some(cap) => Some(cap.cap_ref()),
                    None => None,
                }
            };
            out.push(c);
            i = i + 1;
        }
        assert(out@ =~= resolved_ids(self.cap_table.caps@, ids@));
        out
    }

    /// The continuation identifiers that an invocation carries.
    fn carried_ids(hdr: &RequestInvokeHeader, Ghost(packet): Ghost<Seq<u8>>) -> (r: Vec<CapID>)
        requires
            hdr.reads(packet),
        ensures
            r@ == carried(packet),
    {
        let count: usize = if hdr.number_of_conts < 4 {
            hdr.number_of_conts as usize
        } else {
            4
        };
        let mut out: Vec<CapID> = Vec::new();
        let mut i: usize = 0;
        while i < count
            invariant
                i <= count <= 4,
                count as nat == carried(packet).len(),
                hdr.reads(packet),
                out@.len() == i,
                forall|j: int| 0 <= j < i ==> out@[j] == carried(packet)[j],
            decreases count - i,
        {
            out.push(hdr.continutaion_cap_ids[i]);
            i = i + 1;
        }
        assert(out@ =~= carried(packet));
        out
    }

    /// Acts on a packet that no caller waits for, with `nonce` as the stream
    /// of what it may have to send on a stream of its own.
    pub fn parse_on(&mut self, source: IpAddress, packet: Vec<u8>, nonce: u32) -> (r: Outcome)
        requires
            old(self).wf(),
        ensures
            final(self).wf(),
            final(self).keeps_handlers(old(self)),
            final(self).keeps_buffers(old(self)),
            final(self)@ == old(self)@.dispatch(source@, packet@, nonce, result_of(r)),
            r == old(self)@.verdict(packet@, result_of(r)),
            r is Invoked ==> old(self).runs(packet@, result_of(r)),
    {
        let common = match CommonHeader::decode(packet.as_slice()) {
            Some(c) => c,
            None => {
                return Outcome::Dropped;
            },
        };
        let cmd = CmdType::from(common.cmd);
        match cmd {
            CmdType::CapRevoke => {
                match RevokeCapHeader::decode(packet.as_slice()) {
                    Some(hdr) => {
                        if self.revoke_on(hdr.cap_id, nonce) {
                            Outcome::Handled
                        } else {
                            Outcome::Dropped
                        }
                    },
                    None => Outcome::Dropped,
                }
            },
            CmdType::RequestInvoke => {
                let hdr = match RequestInvokeHeader::decode(packet.as_slice()) {
                    Some(h) => h,
                    None => {
                        return Outcome::Dropped;
                    },
                };
                let cap_id = hdr.common.cap_id;
                if !self.cap_table.contains(cap_id) {
                    self.refuse(source, cap_id, hdr.common.stream_id);
                    return Outcome::Handled;
                }
                let ids = Self::carried_ids(&hdr, Ghost(packet@));
                let continuations = self.resolve(&ids);
                let result = match self.cap_table.get(cap_id) {
                    Some(cap) => cap.run(continuations),
                    None => Err(()),
                };
                let ok = result.is_ok();
                proof {
                    match result {
                        Ok(u) => {
                            assert(u == ());
                        },
                        Err(e) => {
                            assert(e == ());
                        },
                    }
                    assert(result_of(Outcome::Invoked(ok)) == result);
                }
                if hdr.flags % 2 == 1 {
                    let code: u64 = if ok {
                        0
                    } else {
                        100
                    };
                    let resp = RequestResponseHeader::construct(
                        cap_id,
                        hdr.common.stream_id,
                        code,
                    );
                    self.enqueue(source.to_text(), resp.encode());
                }
                Outcome::Invoked(ok)
            },
            CmdType::InsertCap => {
                match InsertCapHeader::decode(packet.as_slice()) {
                    Some(hdr) => {
                        let cap: Capability<F> = Capability::from(hdr);
                        proof {
                            crate::wire::lemma_pow256_values();
                            crate::wire::lemma_field_bytes(packet@, 54, 1);
                            crate::wire::lemma_field_bytes(packet@, 59, 2);
                            assert(cap@.delegatees =~= Seq::empty());
                            assert(cap@ == delegated_cap(packet@));
                        }
                        self.cap_table.insert(cap);
                        Outcome::Handled
                    },
                    None => Outcome::Dropped,
                }
            },
            CmdType::RequestResponse => {
                self.keep(common.stream_id, common.stream_id, source, packet);
                Outcome::Stored
            },
            CmdType::MemoryCopy => {
                let cap_id = common.cap_id;
                let chunks = match self.cap_table.get(cap_id) {
                    None => {
                        self.refuse(source, cap_id, common.stream_id);
                        return Outcome::Handled;
                    },
                    Some(cap) => {
                        if cap.cap_type != CapType::Memory {
                            return Outcome::Fatal;
                        }
                        match cap.get_buffer() {
                            Some(m) => Some(
                                MemoryCopyResponseHeader::construct(
                                    &m.data,
                                    cap_id,
                                    common.stream_id,
                                ),
                            ),
                            None => None,
                        }
                    },
                };
                match chunks {
                    None => {
                        self.refuse(source, cap_id, common.stream_id);
                    },
                    Some(chunks) => {
                        let ghost data = old(self)@.table[cap_id].memory->0;
                        let n: usize = chunks.len();
                        let mut i: usize = 0;
                        while i < n
                            invariant
                                i <= n == chunks@.len(),
                                forall|k: int|
                                    0 <= k < chunks@.len() ==> (#[trigger] chunks@[k]).is_chunk(
                                        data,
                                        cap_id,
                                        common.stream_id,
                                        k + 1,
                                    ) && chunks@[k].wf(),
                                self.same_but_queue(old(self)),
                                self@ == old(self)@.send_chunks(
                                    source@.text(),
                                    data,
                                    cap_id,
                                    common.stream_id,
                                    i as nat,
                                ),
                            decreases n - i,
                        {
                            proof {
                                lemma_chunk_image(
                                    chunks@[i as int],
                                    data,
                                    cap_id,
                                    common.stream_id,
                                    i + 1,
                                );
                            }
                            let bytes = chunks[i].encode();
                            self.enqueue(source.to_text(), bytes);
                            i = i + 1;
                        }
                    },
                }
                Outcome::Handled
            },
            CmdType::MemoryCopyResponse => {
                match MemoryCopyResponseHeader::decode(packet.as_slice()) {
                    Some(hdr) => {
                        let key = common.stream_id.wrapping_add(hdr.sequence);
                        self.keep(key, common.stream_id, source, packet);
                        Outcome::Stored
                    },
                    None => Outcome::Dropped,
                }
            },
            _ => Outcome::Dropped,
        }
    }

    /// Keeps `data` as the response under `key`, and gives the stream
    /// `stream_id` one more permit.
    fn keep(&mut self, key: u32, stream_id: u32, sender: IpAddress, data: Vec<u8>)
        ensures
            final(self)@ == old(self)@.store(key, stream_id, sender@.text(), data@),
            final(self).cap_table == old(self).cap_table,
    {
        let response = Response { sender: sender.to_text(), data };
        self.responses.insert(key, response);
        let have: u64 = match self.response_notifiers.get(&stream_id) {
            Some(p) => *p,
            None => 0,
        };
        let more: u64 = if have < u64::MAX {
            have + 1
        } else {
            have
        };
        self.response_notifiers.insert(stream_id, more);
        assert(self@.responses =~= old(self)@.responses.insert(key, response@));
    }

    /// Acts on a packet that no caller waits for.
    pub fn parse(&mut self, source: IpAddress, packet: Vec<u8>) -> (r: Outcome)
        requires
            old(self).wf(),
        ensures
            final(self).wf(),
            final(self).keeps_handlers(old(self)),
            final(self).keeps_buffers(old(self)),
            exists|nonce: u32|
                final(self)@ == #[trigger] old(self)@.dispatch(
                    source@,
                    packet@,
                    nonce,
                    result_of(r),
                ),
            r == old(self)@.verdict(packet@, result_of(r)),
            r is Invoked ==> old(self).runs(packet@, result_of(r)),
    {
        let nonce = random_stream_id();
        self.parse_on(source, packet, nonce)
    }

    /// Takes in a datagram from `sender`, with `nonce` as the stream of what
    /// the node may have to send on a stream of its own.
    pub fn receive_on(&mut self, sender: IpAddress, buf: Vec<u8>, nonce: u32) -> (r: Outcome)
        requires
            old(self).wf(),
        ensures
            final(self).wf(),
            final(self).keeps_handlers(old(self)),
            final(self).keeps_buffers(old(self)),
            final(self)@ == old(self)@.receive(sender@, buf@, nonce, result_of(r)),
            r == old(self)@.receipt(sender@, buf@, result_of(r)),
            r is Invoked ==> old(self).runs(buf@, result_of(r)),
    {
        if self.recv_counter < u128::MAX {
            self.recv_counter = self.recv_counter + 1;
        }
        if sender.equals(&self.address) {
            return Outcome::Dropped;
        }
        let common = match CommonHeader::decode(buf.as_slice()) {
            Some(c) => c,
            None => {
                return Outcome::Dropped;
            },
        };
        if self.response_notifiers.contains_key(&common.stream_id) {
            if CmdType::from(common.cmd) == CmdType::MemoryCopyResponse {
                match MemoryCopyResponseHeader::decode(buf.as_slice()) {
                    Some(hdr) => {
                        let key = common.stream_id.wrapping_add(hdr.sequence);
                        self.keep(key, common.stream_id, sender, buf);
                        Outcome::Stored
                    },
                    None => Outcome::Dropped,
                }
            } else {
                self.keep(common.stream_id, common.stream_id, sender, buf);
                Outcome::Stored
            }
        } else {
            self.parse_on(sender, buf, nonce)
        }
    }

    /// Takes in a datagram from `sender`: drops it where it comes from this
    /// node or is shorter than a header, keeps it where its stream is waited
    /// on, and acts on it otherwise.
    pub fn receive(&mut self, sender: IpAddress, buf: Vec<u8>) -> (r: Outcome)
        requires
            old(self).wf(),
        ensures
            final(self).wf(),
            final(self).keeps_handlers(old(self)),
            final(self).keeps_buffers(old(self)),
            exists|nonce: u32|
                final(self)@ == #[trigger] old(self)@.receive(
                    sender@,
                    buf@,
                    nonce,
                    result_of(r),
                ),
            r == old(self)@.receipt(sender@, buf@, result_of(r)),
            r is Invoked ==> old(self).runs(buf@, result_of(r)),
    {
        let nonce = random_stream_id();
        self.receive_on(sender, buf, nonce)
    }
}

impl<F: Fn(Vec<Option<CapRef>>) -> Result<(), ()>> Service<F> {
    /// Invokes the capability `cap_id` with the continuations
    /// `continuations`, of which the first four count.
    ///
    /// A capability of this node runs at once: what is bound to it is run
    /// once.  Its result is given where `wait` says so; a caller that does
    /// not wait is told of no failure.  For any other capability the
    /// invocation goes to the owner; the response is then waited for where
    /// `wait` says so.
    pub fn request_invoke(&mut self, cap_id: CapID, continuations: Vec<CapID>, wait: bool) -> (r:
        Invocation)
        requires
            old(self).wf(),
        ensures
            final(self).wf(),
            final(self).keeps_handlers(old(self)),
            final(self).keeps_buffers(old(self)),
            final(self).same_but_queue(old(self)),
            !old(self)@.table.contains_key(cap_id) ==> r == Invocation::Unknown && final(self)@
                == old(self)@,
            old(self)@.table.contains_key(cap_id) && old(self)@.table[cap_id].owner.same_node(
                old(self)@.address,
            ) ==> {
                &&& final(self)@ == old(self)@
                &&& r matches Invocation::Done(ok)
                &&& exists|outcome: Result<(), ()>| #[trigger]
                    old(self).handles(cap_id, first_four(continuations@), outcome) && ok == (
                    !wait || outcome is Ok)
            },
            old(self)@.table.contains_key(cap_id) && !old(self)@.table[cap_id].owner.same_node(
                old(self)@.address,
            ) ==> exists|nonce: u32|
                {
                    &&& final(self)@ == #[trigger] old(self)@.send(
                        old(self)@.table[cap_id].owner.text(),
                        invoke_image(
                            cap_id,
                            nonce,
                            continuation_count(continuations@),
                            continuation_slots(continuations@),
                            wait,
                        ),
                    )
                    &&& r == if wait {
                        Invocation::Pending(nonce)
                    } else {
                        Invocation::Done(true)
                    }
                },
    {
        let (local, owner) = match self.cap_table.get(cap_id) {
            Some(cap) => (cap.owner_address.equals(&self.address), cap.owner_address),
            None => {
                return Invocation::Unknown;
            },
        };
        if local {
            let mut ids: Vec<CapID> = Vec::new();
            let n: usize = if continuations.len() < 4 {
                continuations.len()
            } else {
                4
            };
            let mut i: usize = 0;
            while i < n
                invariant
                    i <= n <= continuations@.len(),
                    n as nat == first_four(continuations@).len(),
                    ids@ == first_four(continuations@).subrange(0, i as int),
                decreases n - i,
            {
                ids.push(continuations[i]);
                assert(ids@ =~= first_four(continuations@).subrange(0, i + 1));
                i = i + 1;
            }
            assert(ids@ =~= first_four(continuations@));
            let args = self.resolve(&ids);
            let result = match self.cap_table.get(cap_id) {
                Some(cap) => cap.run(args),
                None => Err(()),
            };
            let ok = !wait || result.is_ok();
            assert(old(self).handles(cap_id, first_four(continuations@), result) && ok == (!wait
                || result is Ok));
            Invocation::Done(ok)
        } else {
            let hdr = match self.cap_table.get(cap_id) {
                Some(cap) => cap.request_invoke_with_continuation_wait_param(continuations, wait),
                None => {
                    return Invocation::Unknown;
                },
            };
            let nonce = hdr.common.stream_id;
            let packet = hdr.encode();
            proof {
                assert(packet@ =~= invoke_image(
                    cap_id,
                    nonce,
                    continuation_count(continuations@),
                    continuation_slots(continuations@),
                    wait,
                ));
            }
            self.enqueue(owner.to_text(), packet);
            if wait {
                Invocation::Pending(nonce)
            } else {
                Invocation::Done(true)
            }
        }
    }

    /// Takes the response to the invocation on `stream_id` and says what it
    /// means: success where it is a whole request-response packet with
    /// response code 0, failure otherwise.  The stream is then no longer
    /// waited on.  `None`, and no change, where no response is kept.
    pub fn complete_invoke(&mut self, stream_id: u32) -> (r: Option<Result<(), ()>>)
        ensures
            final(self).cap_table == old(self).cap_table,
            match r {
                Some(result) => {
                    &&& old(self)@.responses.contains_key(stream_id)
                    &&& result is Ok <==> response_succeeds(
                        old(self)@.responses[stream_id].data,
                    )
                    &&& final(self)@ == (ServiceView {
                        responses: old(self)@.responses.remove(stream_id),
                        permits: old(self)@.permits.remove(stream_id),
                        ..old(self)@
                    })
                },
                None => !old(self)@.responses.contains_key(stream_id) && final(self)@ == old(
                    self,
                )@,
            },
    {
        match self.get_response(stream_id) {
            Some(resp) => {
                let _ = self.response_notifiers.remove(&stream_id);
                Some(Capability::<F>::response_result(resp.data.as_slice()))
            },
            None => {
                assert(self@.responses =~= old(self)@.responses);
                None
            },
        }
    }

    /// Fetches the bytes of the memory capability `cap_id`: at once where a
    /// memory object is bound to it, else by a request to its owner.
    pub fn get_buffer(&mut self, cap_id: CapID) -> (r: BufferFetch)
        requires
            old(self).wf(),
        ensures
            final(self).wf(),
            final(self).keeps_handlers(old(self)),
            final(self).keeps_buffers(old(self)),
            final(self).same_but_queue(old(self)),
            !old(self)@.table.contains_key(cap_id) ==> r is Unknown && final(self)@ == old(
                self,
            )@,
            old(self)@.table.contains_key(cap_id) && old(self)@.table[cap_id].cap_type
                != CapType::Memory ==> r is NotMemory && final(self)@ == old(self)@,
            old(self)@.table.contains_key(cap_id) && old(self)@.table[cap_id].cap_type
                == CapType::Memory ==> match old(self)@.table[cap_id].memory {
                Some(data) => {
                    &&& final(self)@ == old(self)@
                    &&& r matches BufferFetch::Local(bytes)
                    &&& bytes@ == data
                },
                None => {
                    &&& r matches BufferFetch::Pending(nonce)
                    &&& final(self)@ == old(self)@.send(
                        old(self)@.table[cap_id].owner.text(),
                        bare_image(CmdType::MemoryCopy, nonce, cap_id),
                    )
                },
            },
    {
        let (hdr, owner) = match self.cap_table.get(cap_id) {
            None => {
                return BufferFetch::Unknown;
            },
            Some(cap) => {
                if cap.cap_type != CapType::Memory {
                    return BufferFetch::NotMemory;
                }
                match cap.get_buffer() {
                    Some(m) => {
                        return BufferFetch::Local(m.data());
                    },
                    None => (cap.memory_copy_request(), cap.owner_address),
                }
            },
        };
        let nonce = hdr.common.stream_id;
        self.enqueue(owner.to_text(), hdr.encode());
        BufferFetch::Pending(nonce)
    }
}

impl<F: Fn(Vec<Option<CapRef>>) -> Result<(), ()>> Service<F> {
    /// Puts together the buffer whose chunks came on `stream_id`, whatever
    /// the order in which they came.
    ///
    /// Where the chunks that the first one announces are all kept and make
    /// up the announced size, their bytes are given, they are no longer
    /// kept, the stream is no longer waited on, and the buffer becomes the
    /// memory object of the capability `cap_id`, if the node holds it
    /// unbound and of memory type.  Otherwise nothing changes.
    pub fn complete_get_buffer(&mut self, cap_id: CapID, stream_id: u32) -> (r: Option<Vec<u8>>)
        requires
            old(self).wf(),
        ensures
            final(self).wf(),
            final(self).keeps_handlers(old(self)),
            final(self).keeps_buffers(old(self)),
            match assembled(old(self)@.responses, stream_id) {
                Some(data) => {
                    &&& r matches Some(bytes)
                    &&& bytes@ == data
                    &&& final(self)@ == (ServiceView {
                        responses: old(self)@.responses.remove_keys(
                            chunk_keys(stream_id, chunk_count(data.len())),
                        ),
                        table: attached(old(self)@.table, cap_id, data),
                        permits: old(self)@.permits.remove(stream_id),
                        ..old(self)@
                    })
                },
                None => r is None && final(self)@ == old(self)@,
            },
    {
        let first_key = stream_id.wrapping_add(1);
        let size: u64 = match self.responses.get(&first_key) {
            Some(resp) => match MemoryCopyResponseHeader::decode(resp.data.as_slice()) {
                Some(hdr) => hdr.buffer_size,
                None => {
                    return None;
                },
            },
            None => {
                return None;
            },
        };
        if size > MAX_BUFFER_SIZE {
            return None;
        }
        assert(announced(self@.responses, stream_id) == Some(size as nat));
        let count: u64 = if size == 0 {
            1
        } else if size % 1024 == 0 {
            size / 1024
        } else {
            size / 1024 + 1
        };
        assert(count as nat == chunk_count(size as nat));
        let mut data: Vec<u8> = Vec::new();
        let mut k: u64 = 0;
        while k < count
            invariant
                k <= count <= 0xffff_ffff,
                self@ == old(self)@,
                self.cap_table == old(self).cap_table,
                self.wf(),
                announced(self@.responses, stream_id) == Some(size as nat),
                size <= MAX_BUFFER_SIZE,
                count as nat == chunk_count(size as nat),
                gathered(self@.responses, stream_id, k as nat) == Some(data@),
            decreases count - k,
        {
            let key = stream_id.wrapping_add((k + 1) as u32);
            assert(key == chunk_key(stream_id, k + 1));
            proof {
                if chunk_at(self@.responses, stream_id, k + 1) is None {
                    lemma_gathered_needs(self@.responses, stream_id, count as nat, k + 1);
                }
            }
            match self.responses.get(&key) {
                Some(resp) => match MemoryCopyResponseHeader::decode(resp.data.as_slice()) {
                    Some(hdr) => {
                        let n: usize = hdr.buffer.len();
                        let ghost before = data@;
                        let mut j: usize = 0;
                        while j < n
                            invariant
                                j <= n == hdr.buffer@.len(),
                                data@ == before + hdr.buffer@.subrange(0, j as int),
                            decreases n - j,
                        {
                            data.push(hdr.buffer[j]);
                            assert(data@ =~= before + hdr.buffer@.subrange(0, j + 1));
                            j = j + 1;
                        }
                        assert(hdr.buffer@.subrange(0, n as int) =~= hdr.buffer@);
                    },
                    None => {
                        return None;
                    },
                },
                None => {
                    return None;
                },
            }
            k = k + 1;
        }
        if data.len() as u64 != size {
            return None;
        }
        let ghost kept = self@.responses;
        let mut d: u64 = 0;
        proof {
            lemma_chunk_keys_step(stream_id, 0);
            assert(kept.remove_keys(Set::<u32>::empty()) =~= kept);
        }
        while d < count
            invariant
                d <= count <= 0xffff_ffff,
                self.wf(),
                self.cap_table == old(self).cap_table,
                kept == old(self)@.responses,
                self@ == (ServiceView {
                    responses: kept.remove_keys(chunk_keys(stream_id, d as nat)),
                    ..old(self)@
                }),
            decreases count - d,
        {
            let key = stream_id.wrapping_add((d + 1) as u32);
            let ghost prev = self@.responses;
            let _ = self.responses.remove(&key);
            proof {
                lemma_chunk_keys_step(stream_id, d as nat);
                assert(key == chunk_key(stream_id, d + 1));
                assert(self@.responses =~= prev.remove(key));
                assert(prev.remove(key) =~= kept.remove_keys(
                    chunk_keys(stream_id, d as nat).insert(key),
                ));
            }
            d = d + 1;
        }
        let _ = self.response_notifiers.remove(&stream_id);
        match self.cap_table.lift(cap_id) {
            Some(cap) => {
                let mut cap = cap;
                let free = cap.request_object.is_none() && cap.memory_object.is_none()
                    && cap.cap_type == CapType::Memory;
                if free {
                    cap.bind_mem(MemoryObject::new(data.clone()));
                }
                self.cap_table.settle(cap);
                proof {
                    if free {
                        assert(self@.table =~= attached(old(self)@.table, cap_id, data@));
                    } else {
                        assert(self.cap_table.caps@ =~= old(self).cap_table.caps@);
                        assert(self@.table =~= old(self)@.table);
                    }
                }
            },
            None => {
                assert(self@.table =~= old(self)@.table);
            },
        }
        Some(data)
    }
}

} // verus!
