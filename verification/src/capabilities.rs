//! Capabilities: the handle a node holds on a local or remote object.

use crate::address::{AddressView, IpAddress};
use crate::object::{MemoryObject, RequestObject};
use crate::packet_types::{
    CapID, CmdType, CommonHeader, Flags, InsertCapHeader, MemoryCopyRequestHeader,
    RequestInvokeHeader, RequestResponseHeader, RevokeCapHeader, REQUEST_RESPONSE_SIZE,
};
use vstd::prelude::*;

verus! {

/// What kind of object a capability stands for.
#[derive(Clone, Copy, Debug, PartialEq, Eq, Structural)]
pub enum CapType {
    /// No object bound yet.
    Untyped,
    Request,
    Memory,
}

impl CapType {
    /// The number that stands for this type on the wire.
    pub open spec fn code(self) -> u8 {
        match self {
            CapType::Untyped => 0,
            CapType::Request => 1,
            CapType::Memory => 2,
        }
    }

    /// The type that a number stands for; `Untyped` for a number that is none.
    pub open spec fn of_code(value: u8) -> CapType {
        if value == 1 {
            CapType::Request
        } else if value == 2 {
            CapType::Memory
        } else {
            CapType::Untyped
        }
    }

    /// The type of a number.  A number that is no type gives `Untyped`.
    pub fn from(value: u8) -> (r: CapType)
        ensures
            r == CapType::of_code(value),
    {
        if value == 1 {
            CapType::Request
        } else if value == 2 {
            CapType::Memory
        } else {
            CapType::Untyped
        }
    }

    /// The number of this type.
    pub fn into(self) -> (r: u8)
        ensures
            r == self.code(),
            CapType::of_code(r) == self,
    {
        match self {
            CapType::Untyped => 0,
            CapType::Request => 1,
            CapType::Memory => 2,
        }
    }
}

/// What a handler or an object is told of a capability: its identifier, its
/// type and the node that hosts its object.
#[derive(Clone, Copy, Debug)]
pub struct CapRef {
    pub cap_id: CapID,
    pub cap_type: CapType,
    pub owner_address: IpAddress,
}

/// A fresh capability identifier from `rand::random::<u128>()`.  Nothing is
/// claimed of the number.
#[verifier::external_body]
pub(crate) fn random_cap_id() -> (r: CapID) {
    rand::random::<u128>()
}

/// A capability as the laws of the runtime see it.
pub struct CapView {
    pub cap_id: CapID,
    pub cap_type: CapType,
    pub owner: AddressView,
    pub delegatees: Seq<AddressView>,
    /// The bytes of the bound memory object, if one is bound.
    pub memory: Option<Seq<u8>>,
    /// Whether a request object is bound.
    pub has_handler: bool,
}

/// A capability.  `F` is the type of the handlers of request objects.
pub struct Capability<F> {
    pub cap_id: CapID,
    pub cap_type: CapType,
    pub owner_address: IpAddress,
    pub delegatees: Vec<IpAddress>,
    pub request_object: Option<RequestObject<F>>,
    pub memory_object: Option<MemoryObject>,
}

/// The identifiers of the first four continuations, 0 in the slots that are
/// not used.
pub open spec fn continuation_slots(continuations: Seq<CapID>) -> Seq<CapID> {
    Seq::new(
        4,
        |i: int|
            if i < continuations.len() {
                continuations[i]
            } else {
                0u128
            },
    )
}

/// How many continuations a packet carries: all of them, at most four.
pub open spec fn continuation_count(continuations: Seq<CapID>) -> u8 {
    if continuations.len() < 4 {
        continuations.len() as u8
    } else {
        4u8
    }
}

/// What the answer to an invocation means: success where the datagram is a
/// whole request-response packet with response code 0, failure otherwise.
pub open spec fn response_succeeds(data: Seq<u8>) -> bool {
    &&& data.len() >= REQUEST_RESPONSE_SIZE
    &&& CmdType::of_code(CommonHeader::read(data).cmd) == CmdType::RequestResponse
    &&& RequestResponseHeader::read(data).response_code == 0
}

impl<F: Fn(Vec<Option<CapRef>>) -> Result<(), ()>> Capability<F> {
    /// The capability as a value.
    pub open spec fn view(&self) -> CapView {
        CapView {
            cap_id: self.cap_id,
            cap_type: self.cap_type,
            owner: self.owner_address@,
            delegatees: self.delegatees@.map_values(|a: IpAddress| a@),
            memory: match self.memory_object {
                Some(m) => Some(m.data@),
                None => None,
            },
            has_handler: self.request_object is Some,
        }
    }

    /// The invariant of a capability: at most one object is bound, the type
    /// says which, and the bound object is itself well formed.
    pub open spec fn wf(&self) -> bool {
        &&& !(self.request_object is Some && self.memory_object is Some)
        &&& self.request_object matches Some(o) ==> self.cap_type == CapType::Request && o.wf()
        &&& self.memory_object matches Some(m) ==> self.cap_type == CapType::Memory && m.wf()
    }

    /// Whether nothing is bound.
    pub open spec fn unbound(&self) -> bool {
        self.request_object is None && self.memory_object is None
    }

    /// Whether this is a capability without object or delegatee, with the
    /// given identifier and owner.
    pub open spec fn is_new(&self, cap_id: CapID, owner: IpAddress) -> bool {
        &&& self.cap_id == cap_id
        &&& self.cap_type == CapType::Untyped
        &&& self.owner_address == owner
        &&& self.delegatees@ == Seq::<IpAddress>::empty()
        &&& self.unbound()
    }

    /// What an object or a handler is told of this capability.
    pub open spec fn reference(&self) -> CapRef {
        CapRef { cap_id: self.cap_id, cap_type: self.cap_type, owner_address: self.owner_address }
    }

    /// A new capability of the node `owner_address`, with a fresh identifier.
    pub fn create(owner_address: IpAddress) -> (r: Capability<F>)
        ensures
            r.is_new(r.cap_id, owner_address),
            r.wf(),
    {
        let cap_id = random_cap_id();
        Self::create_with_id(owner_address, cap_id)
    }

    /// A new capability of the node `owner_address`, with the identifier
    /// `cap_id`.
    pub fn create_with_id(owner_address: IpAddress, cap_id: CapID) -> (r: Capability<F>)
        ensures
            r.is_new(cap_id, owner_address),
            r.wf(),
    {
        Capability {
            cap_id,
            cap_type: CapType::Untyped,
            owner_address,
            delegatees: Vec::new(),
            request_object: None,
            memory_object: None,
        }
    }

    /// A capability on an object that the node `owner_address` hosts.
    pub fn create_remote_with_id(owner_address: IpAddress, cap_id: CapID) -> (r: Capability<F>)
        ensures
            r.is_new(cap_id, owner_address),
            r.wf(),
    {
        Self::create_with_id(owner_address, cap_id)
    }

    /// The capability that a delegation hands over: the identifier and type
    /// of the packet, owned by the node that the packet names as the host of
    /// the object, with an empty netmask.
    pub fn from(value: InsertCapHeader) -> (r: Capability<F>)
        ensures
            r.cap_id == value.cap_id,
            r.cap_type == CapType::of_code(value.cap_type),
            r.owner_address.address@ == value.object_owner_ip_address@,
            r.owner_address.netmask@ == seq![0u8, 0u8, 0u8, 0u8],
            r.owner_address.port == value.object_owner_port,
            r.delegatees@ == Seq::<IpAddress>::empty(),
            r.unbound(),
            r.wf(),
    {
        let netmask: [u8; 4] = [0, 0, 0, 0];
        assert(netmask@ =~= seq![0u8, 0u8, 0u8, 0u8]);
        Capability {
            cap_id: value.cap_id,
            cap_type: CapType::from(value.cap_type),
            owner_address: IpAddress {
                address: value.object_owner_ip_address,
                netmask,
                port: value.object_owner_port,
            },
            delegatees: Vec::new(),
            request_object: None,
            memory_object: None,
        }
    }

    /// Two capabilities are the same when their identifiers are.
    pub fn eq(&self, other: &Capability<F>) -> (r: bool)
        ensures
            r == (self.cap_id == other.cap_id),
    {
        self.cap_id == other.cap_id
    }

    /// What an object or a handler is told of this capability.
    pub fn cap_ref(&self) -> (r: CapRef)
        ensures
            r == self.reference(),
    {
        CapRef { cap_id: self.cap_id, cap_type: self.cap_type, owner_address: self.owner_address }
    }

    /// Binds a request object.  The older name of `bind_req`.
    pub fn bind(&mut self, obj: RequestObject<F>)
        requires
            old(self).wf(),
            old(self).unbound(),
            obj.wf(),
        ensures
            final(self).wf(),
            final(self).cap_id == old(self).cap_id,
            final(self).owner_address == old(self).owner_address,
            final(self).delegatees == old(self).delegatees,
            final(self).cap_type == CapType::Request,
            final(self).memory_object is None,
            final(self).request_object matches Some(o) && o.function == obj.function && o.is_local
                == obj.is_local && o.cap == Some(
                (CapRef {
                    cap_id: old(self).cap_id,
                    cap_type: CapType::Request,
                    owner_address: old(self).owner_address,
                }),
            ),
    {
        self.bind_req(obj)
    }

    /// Binds a request object to a capability that has none: the type
    /// becomes `Request`, and the object learns which capability it serves.
    pub fn bind_req(&mut self, obj: RequestObject<F>)
        requires
            old(self).wf(),
            old(self).unbound(),
            obj.wf(),
        ensures
            final(self).wf(),
            final(self).cap_id == old(self).cap_id,
            final(self).owner_address == old(self).owner_address,
            final(self).delegatees == old(self).delegatees,
            final(self).cap_type == CapType::Request,
            final(self).memory_object is None,
            final(self).request_object matches Some(o) && o.function == obj.function && o.is_local
                == obj.is_local && o.cap == Some(
                (CapRef {
                    cap_id: old(self).cap_id,
                    cap_type: CapType::Request,
                    owner_address: old(self).owner_address,
                }),
            ),
    {
        let mut obj = obj;
        self.cap_type = CapType::Request;
        obj.set_cap(self.cap_ref());
        self.request_object = Some(obj);
    }

    /// Binds a memory object to a capability that has none: the type becomes
    /// `Memory`, and the object learns which capability it serves.
    pub fn bind_mem(&mut self, obj: MemoryObject)
        requires
            old(self).wf(),
            old(self).unbound(),
            obj.wf(),
        ensures
            final(self).wf(),
            final(self).cap_id == old(self).cap_id,
            final(self).owner_address == old(self).owner_address,
            final(self).delegatees == old(self).delegatees,
            final(self).cap_type == CapType::Memory,
            final(self).request_object is None,
            final(self).memory_object matches Some(m) && m.data == obj.data && m.size == obj.size
                && m.is_local == obj.is_local && m.cap == Some(
                (CapRef {
                    cap_id: old(self).cap_id,
                    cap_type: CapType::Memory,
                    owner_address: old(self).owner_address,
                }),
            ),
    {
        let mut obj = obj;
        self.cap_type = CapType::Memory;
        obj.set_cap(self.cap_ref());
        self.memory_object = Some(obj);
    }

    /// Records `delegatee` and gives the packet that hands the capability
    /// over, on the stream `stream_id`.  `address` is the delegating node.
    pub fn delegate_on(&mut self, delegatee: IpAddress, address: IpAddress, stream_id: u32) -> (r:
        InsertCapHeader)
        requires
            old(self).wf(),
        ensures
            final(self).wf(),
            final(self)@ == (CapView {
                delegatees: old(self)@.delegatees.push(delegatee@),
                ..old(self)@
            }),
            final(self).request_object == old(self).request_object,
            final(self).memory_object == old(self).memory_object,
            r.is_delegation(
                old(self).cap_id,
                old(self).cap_type.code(),
                delegatee,
                address,
                stream_id,
            ),
    {
        self.delegatees.push(delegatee);
        assert(self@.delegatees =~= old(self)@.delegatees.push(delegatee@));
        InsertCapHeader::with_stream(
            self.cap_id,
            self.cap_type.into(),
            delegatee,
            address,
            stream_id,
        )
    }

    /// Records `delegatee` and gives the packet that hands the capability
    /// over, on a fresh stream.
    pub fn delegate(&mut self, delegatee: IpAddress, address: IpAddress) -> (r: InsertCapHeader)
        requires
            old(self).wf(),
        ensures
            final(self).wf(),
            final(self)@ == (CapView {
                delegatees: old(self)@.delegatees.push(delegatee@),
                ..old(self)@
            }),
            final(self).request_object == old(self).request_object,
            final(self).memory_object == old(self).memory_object,
            r.is_delegation(
                old(self).cap_id,
                old(self).cap_type.code(),
                delegatee,
                address,
                r.common.stream_id,
            ),
    {
        let stream_id = crate::packet_types::random_stream_id();
        self.delegate_on(delegatee, address, stream_id)
    }

    /// The packet that revokes this capability in the name of the node
    /// `address`, on a fresh stream.  It goes to every delegatee.
    pub fn revoke(&self, address: IpAddress) -> (r: RevokeCapHeader)
        ensures
            r.is_revocation(self.cap_id, address, r.common.stream_id),
    {
        RevokeCapHeader::construct(self.cap_id, address)
    }

    /// The packet that tells the switch that this capability is revoked on
    /// the node `node`.
    pub fn revoke_on_node(&self, node: IpAddress) -> (r: RevokeCapHeader)
        ensures
            r.is_revocation(self.cap_id, node, r.common.stream_id),
    {
        RevokeCapHeader::construct(self.cap_id, node)
    }

    /// The invocation of this capability with the given continuations, on
    /// the stream `stream_id`.  At most four continuations are carried.
    pub fn invocation_on(&self, continuations: &Vec<CapID>, wait: bool, stream_id: u32) -> (r:
        RequestInvokeHeader)
        ensures
            r.is_invocation(
                self.cap_id,
                stream_id,
                continuation_count(continuations@),
                continuation_slots(continuations@),
                (Flags {
                    bits: if wait {
                        1u8
                    } else {
                        0u8
                    },
                }),
            ),
    {
        let n: usize = continuations.len();
        let c0: CapID = if 0 < n {
            continuations[0]
        } else {
            0
        };
        let c1: CapID = if 1 < n {
            continuations[1]
        } else {
            0
        };
        let c2: CapID = if 2 < n {
            continuations[2]
        } else {
            0
        };
        let c3: CapID = if 3 < n {
            continuations[3]
        } else {
            0
        };
        let cont_ids: [CapID; 4] = [c0, c1, c2, c3];
        let count: u8 = if n < 4 {
            n as u8
        } else {
            4
        };
        assert(cont_ids@ =~= continuation_slots(continuations@));
        RequestInvokeHeader::with_stream(
            self.cap_id,
            count,
            cont_ids,
            Flags::response(wait),
            stream_id,
        )
    }

    /// The invocation of this capability that waits for its response.
    pub fn request_invoke(&self) -> (r: RequestInvokeHeader)
        ensures
            r.is_invocation(
                self.cap_id,
                r.common.stream_id,
                0,
                continuation_slots(Seq::empty()),
                (Flags { bits: 1 }),
            ),
    {
        self.request_invoke_with_continuation(Vec::new())
    }

    /// The invocation of this capability that waits for no response.
    pub fn request_invoke_no_wait(&self) -> (r: RequestInvokeHeader)
        ensures
            r.is_invocation(
                self.cap_id,
                r.common.stream_id,
                0,
                continuation_slots(Seq::empty()),
                (Flags { bits: 0 }),
            ),
    {
        self.request_invoke_with_continuation_no_wait(Vec::new())
    }

    /// The invocation with continuations that waits for its response.
    pub fn request_invoke_with_continuation(&self, continuations: Vec<CapID>) -> (r:
        RequestInvokeHeader)
        ensures
            r.is_invocation(
                self.cap_id,
                r.common.stream_id,
                continuation_count(continuations@),
                continuation_slots(continuations@),
                (Flags { bits: 1 }),
            ),
    {
        self.request_invoke_with_continuation_wait_param(continuations, true)
    }

    /// The invocation with continuations that waits for no response.
    pub fn request_invoke_with_continuation_no_wait(&self, continuations: Vec<CapID>) -> (r:
        RequestInvokeHeader)
        ensures
            r.is_invocation(
                self.cap_id,
                r.common.stream_id,
                continuation_count(continuations@),
                continuation_slots(continuations@),
                (Flags { bits: 0 }),
            ),
    {
        self.request_invoke_with_continuation_wait_param(continuations, false)
    }

    /// The invocation with continuations, on a fresh stream.
    pub fn request_invoke_with_continuation_wait_param(
        &self,
        continuations: Vec<CapID>,
        wait: bool,
    ) -> (r: RequestInvokeHeader)
        ensures
            r.is_invocation(
                self.cap_id,
                r.common.stream_id,
                continuation_count(continuations@),
                continuation_slots(continuations@),
                (Flags {
                    bits: if wait {
                        1u8
                    } else {
                        0u8
                    },
                }),
            ),
    {
        let stream_id = crate::packet_types::random_stream_id();
        self.invocation_on(&continuations, wait, stream_id)
    }

    /// What the datagram that answers an invocation means for the caller.
    pub fn response_result(data: &[u8]) -> (r: Result<(), ()>)
        ensures
            r is Ok <==> response_succeeds(data@),
    {
        match RequestResponseHeader::decode(data) {
            Some(resp) => {
                if CmdType::from(resp.common.cmd) != CmdType::RequestResponse {
                    return Err(());
                }
                if resp.response_code != 0 {
                    return Err(());
                }
                Ok(())
            },
            None => Err(()),
        }
    }

    /// Runs the handler of the bound request object on `continuations`.
    /// Fails where no request object is bound.
    pub fn run(&self, continuations: Vec<Option<CapRef>>) -> (r: Result<(), ()>)
        requires
            self.wf(),
        ensures
            match self.request_object {
                Some(o) => call_ensures(o.function, (continuations,), r),
                None => r is Err,
            },
    {
        match &self.request_object {
            Some(o) => o.invoke(continuations),
            None => Err(()),
        }
    }

    /// The bound memory object, where there is one on this node.
    pub fn get_buffer(&self) -> (r: Option<&MemoryObject>)
        requires
            self.cap_type == CapType::Memory,
        ensures
            r == match self.memory_object {
                Some(m) => if m.is_local {
                    Some(&m)
                } else {
                    None
                },
                None => None,
            },
    {
        match &self.memory_object {
            Some(m) => {
                if m.is_local() {
                    Some(m)
                } else {
                    None
                }
            },
            None => None,
        }
    }

    /// The request for the bytes of this capability, on a fresh stream.
    pub fn memory_copy_request(&self) -> (r: MemoryCopyRequestHeader)
        ensures
            r.common == CommonHeader::plain(CmdType::MemoryCopy, r.common.stream_id, self.cap_id),
    {
        MemoryCopyRequestHeader::construct(self.cap_id)
    }
}

} // verus!
