//! The objects that capabilities stand for: request objects, which run a
//! handler, and memory objects, which hold bytes.

use crate::capabilities::CapRef;
use crate::packet_types::MemoryCopyResponseHeader;
use vstd::prelude::*;

verus! {

/// What a handler is called with: one entry for each continuation of the
/// invocation, `None` where the packet names none or one that the node does
/// not hold.
pub type HandlerParameters = Vec<Option<CapRef>>;

/// The largest number of bytes of a memory object: what fits the chunks that
/// a 32-bit sequence number can count.
pub const MAX_BUFFER_SIZE: u64 = 0x3ff_ffff_fc00;

/// An object that runs a handler when its capability is invoked.
pub struct RequestObject<F> {
    pub is_local: bool,
    pub cap: Option<CapRef>,
    pub function: F,
}

impl<F: Fn(Vec<Option<CapRef>>) -> Result<(), ()>> RequestObject<F> {
    /// The object lives on this node, and its handler takes every argument.
    pub open spec fn wf(&self) -> bool {
        &&& self.is_local
        &&& forall|args: Vec<Option<CapRef>>| call_requires(self.function, (args,))
    }

    /// A request object of this node with the handler `function`.
    pub fn new(function: F) -> (r: RequestObject<F>)
        requires
            forall|args: Vec<Option<CapRef>>| call_requires(function, (args,)),
        ensures
            r.is_local,
            r.cap is None,
            r.function == function,
            r.wf(),
    {
        RequestObject { is_local: true, cap: None, function }
    }

    /// Whether the object lives on this node.
    pub fn is_local(&self) -> (r: bool)
        ensures
            r == self.is_local,
    {
        self.is_local
    }

    /// Tells the object which capability it serves.
    pub fn set_cap(&mut self, c: CapRef)
        ensures
            final(self).cap == Some(c),
            final(self).is_local == old(self).is_local,
            final(self).function == old(self).function,
    {
        self.cap = Some(c);
    }

    /// Calls the handler once on `continuations` and gives what it returns.
    pub fn invoke(&self, continuations: Vec<Option<CapRef>>) -> (r: Result<(), ()>)
        requires
            self.wf(),
        ensures
            call_ensures(self.function, (continuations,), r),
    {
        (self.function)(continuations)
    }
}

/// An object that holds bytes.
pub struct MemoryObject {
    pub is_local: bool,
    pub cap: Option<CapRef>,
    pub size: u64,
    pub data: Vec<u8>,
}

impl MemoryObject {
    /// The object lives on this node, `size` is the number of bytes held,
    /// and they are few enough to be sent.
    pub open spec fn wf(&self) -> bool {
        &&& self.is_local
        &&& self.size as nat == self.data@.len()
        &&& self.size <= MAX_BUFFER_SIZE
    }

    /// A memory object of this node that holds `data`.
    pub fn new(data: Vec<u8>) -> (r: MemoryObject)
        requires
            data@.len() <= MAX_BUFFER_SIZE,
        ensures
            r.is_local,
            r.cap is None,
            r.data == data,
            r.wf(),
    {
        let size: u64 = data.len() as u64;
        MemoryObject { is_local: true, cap: None, size, data }
    }

    /// The object that the first chunk of a copy starts: it holds the bytes
    /// of that chunk.
    pub fn from(value: MemoryCopyResponseHeader) -> (r: MemoryObject)
        requires
            value.wf(),
        ensures
            r.is_local,
            r.cap is None,
            r.data@ == value.buffer@,
            r.wf(),
    {
        MemoryObject { is_local: true, cap: None, size: value.size, data: value.buffer }
    }

    /// Whether the object lives on this node.
    pub fn is_local(&self) -> (r: bool)
        ensures
            r == self.is_local,
    {
        self.is_local
    }

    /// Tells the object which capability it serves.
    pub fn set_cap(&mut self, c: CapRef)
        ensures
            final(self).cap == Some(c),
            final(self).is_local == old(self).is_local,
            final(self).size == old(self).size,
            final(self).data == old(self).data,
    {
        self.cap = Some(c);
    }

    /// A copy of the bytes.
    pub fn data(&self) -> (r: Vec<u8>)
        ensures
            r@ == self.data@,
    {
        self.data.clone()
    }

    /// Appends the bytes of one more chunk.
    pub fn append(&mut self, value: MemoryCopyResponseHeader)
        requires
            old(self).wf(),
            value.wf(),
            old(self).size + value.size <= MAX_BUFFER_SIZE,
        ensures
            final(self).wf(),
            final(self).data@ == old(self).data@ + value.buffer@,
            final(self).is_local == old(self).is_local,
            final(self).cap == old(self).cap,
    {
        let mut chunk = value.buffer;
        self.data.append(&mut chunk);
        self.size = self.size + value.size;
    }
}

} // verus!
