use tcap::address::IpAddress;
use tcap::cap_table::CapTable;
use tcap::capabilities::{CapRef, CapType, Capability};
use tcap::config::Config;
use tcap::object::{MemoryObject, RequestObject};
use tcap::packet_types::{
    CapInvalidHeader, InsertCapHeader, MemoryCopyResponseHeader, RequestResponseHeader,
};

type Handler = fn(Vec<Option<CapRef>>) -> Result<(), ()>;

fn owner() -> IpAddress {
    IpAddress { address: [10, 0, 0, 9], netmask: [255, 255, 255, 255], port: 1331 }
}

fn fails(_: Vec<Option<CapRef>>) -> Result<(), ()> {
    Err(())
}

fn counts(conts: Vec<Option<CapRef>>) -> Result<(), ()> {
    if conts.len() == 2 {
        Ok(())
    } else {
        Err(())
    }
}

#[test]
fn lookup_follows_insert_and_remove() {
    let mut t: CapTable<Handler> = CapTable::new();
    assert!(!t.contains(1));
    assert!(t.get(1).is_none());
    t.insert(Capability::create_with_id(owner(), 1));
    t.insert(Capability::create_with_id(owner(), 2));
    assert!(t.contains(1));
    assert_eq!(t.get(1).unwrap().cap_id, 1);
    assert_eq!(t.get(2).unwrap().cap_id, 2);
    t.remove(1);
    assert!(!t.contains(1));
    assert!(t.get(1).is_none());
    assert!(t.contains(2));
    t.remove(1);
    assert!(t.contains(2));
    assert_eq!(t.get_capids(), vec![2]);
}

#[test]
fn identifiers_come_in_the_order_of_insertion() {
    let mut t: CapTable<Handler> = CapTable::new();
    for id in [5u128, 3, 9, 1] {
        t.insert(Capability::create_with_id(owner(), id));
    }
    assert_eq!(t.get_capids(), vec![5, 3, 9, 1]);
    let mut again: Capability<Handler> = Capability::create_with_id(owner(), 3);
    again.bind_mem(MemoryObject::new(vec![1]));
    t.insert(again);
    assert_eq!(t.get_capids(), vec![5, 3, 9, 1]);
    assert_eq!(t.get(3).unwrap().cap_type, CapType::Memory);
    t.remove(9);
    assert_eq!(t.get_capids(), vec![5, 3, 1]);
    let taken = t.take(5).unwrap();
    assert_eq!(taken.cap_id, 5);
    assert!(t.take(5).is_none());
    assert_eq!(t.get_capids(), vec![3, 1]);
    t.insert(taken);
    assert_eq!(t.get_capids(), vec![3, 1, 5]);
    t.reset();
    assert!(t.get_capids().is_empty());
    assert!(!t.contains(3));
}

#[test]
fn lifting_keeps_the_place() {
    let mut t: CapTable<Handler> = CapTable::new();
    for id in [5u128, 3, 9] {
        t.insert(Capability::create_with_id(owner(), id));
    }
    let mut cap = t.lift(3).unwrap();
    cap.delegate(owner(), owner());
    t.settle(cap);
    assert_eq!(t.get_capids(), vec![5, 3, 9]);
    assert_eq!(t.get(3).unwrap().delegatees.len(), 1);
    assert!(t.lift(4).is_none());
}

#[test]
fn created_capabilities() {
    let a: Capability<Handler> = Capability::create(owner());
    let b: Capability<Handler> = Capability::create(owner());
    assert_ne!(a.cap_id, b.cap_id);
    assert!(!a.eq(&b));
    assert_eq!(a.cap_type, CapType::Untyped);
    assert!(a.owner_address.equals(&owner()));
    assert!(a.delegatees.is_empty());
    assert!(a.request_object.is_none() && a.memory_object.is_none());
    let c: Capability<Handler> = Capability::create_remote_with_id(owner(), 7);
    let d: Capability<Handler> = Capability::create_with_id(owner(), 7);
    assert!(c.eq(&d));
    assert_eq!(c.cap_ref().cap_id, 7);
}

#[test]
fn capability_types_have_their_numbers() {
    assert_eq!(CapType::from(0), CapType::Untyped);
    assert_eq!(CapType::from(1), CapType::Request);
    assert_eq!(CapType::from(2), CapType::Memory);
    assert_eq!(CapType::from(3), CapType::Untyped);
    assert_eq!(CapType::from(255), CapType::Untyped);
    assert_eq!(CapType::Untyped.into(), 0);
    assert_eq!(CapType::Request.into(), 1);
    assert_eq!(CapType::Memory.into(), 2);
}

#[test]
fn capability_from_a_delegation() {
    let delegatee = IpAddress { address: [10, 0, 0, 9], netmask: [0, 0, 0, 0], port: 1330 };
    let hdr = InsertCapHeader::with_stream(0xfeed, 2, delegatee, owner(), 1);
    let cap: Capability<Handler> = Capability::from(hdr);
    assert_eq!(cap.cap_id, 0xfeed);
    assert_eq!(cap.cap_type, CapType::Memory);
    assert_eq!(cap.owner_address.address, [10, 0, 0, 9]);
    assert_eq!(cap.owner_address.port, 1331);
    assert_eq!(cap.owner_address.netmask, [0, 0, 0, 0]);
    assert!(cap.delegatees.is_empty());
    assert!(cap.memory_object.is_none());
}

#[test]
fn binding_sets_type_and_back_reference() {
    let mut cap: Capability<Handler> = Capability::create_with_id(owner(), 3);
    cap.bind(RequestObject::new(fails as Handler));
    assert_eq!(cap.cap_type, CapType::Request);
    let obj = cap.request_object.as_ref().unwrap();
    assert!(obj.is_local());
    let back = obj.cap.unwrap();
    assert_eq!((back.cap_id, back.cap_type), (3, CapType::Request));
    assert_eq!(cap.run(Vec::new()), Err(()));

    let mut mem: Capability<Handler> = Capability::create_with_id(owner(), 4);
    mem.bind_mem(MemoryObject::new(vec![1, 2]));
    assert_eq!(mem.cap_type, CapType::Memory);
    let back = mem.memory_object.as_ref().unwrap().cap.unwrap();
    assert_eq!((back.cap_id, back.cap_type), (4, CapType::Memory));
    assert_eq!(mem.get_buffer().unwrap().data(), vec![1, 2]);
    assert_eq!(mem.run(Vec::new()), Err(()));
}

#[test]
fn run_hands_the_continuations_to_the_handler() {
    let mut cap: Capability<Handler> = Capability::create_with_id(owner(), 3);
    cap.bind_req(RequestObject::new(counts as Handler));
    assert_eq!(cap.run(vec![None, None]), Ok(()));
    assert_eq!(cap.run(vec![None]), Err(()));
    let unbound: Capability<Handler> = Capability::create_with_id(owner(), 5);
    assert_eq!(unbound.run(vec![None, None]), Err(()));
}

#[test]
fn invocation_packets_carry_four_continuations_at_most() {
    let cap: Capability<Handler> = Capability::create_with_id(owner(), 3);
    let h = cap.request_invoke();
    assert_eq!((h.number_of_conts, h.continutaion_cap_ids, h.flags), (0, [0, 0, 0, 0], 1));
    let h = cap.request_invoke_no_wait();
    assert_eq!((h.number_of_conts, h.continutaion_cap_ids, h.flags), (0, [0, 0, 0, 0], 0));
    let h = cap.request_invoke_with_continuation(vec![7, 8]);
    assert_eq!((h.number_of_conts, h.continutaion_cap_ids, h.flags), (2, [7, 8, 0, 0], 1));
    let h = cap.request_invoke_with_continuation_no_wait(vec![1, 2, 3, 4, 5, 6]);
    assert_eq!((h.number_of_conts, h.continutaion_cap_ids, h.flags), (4, [1, 2, 3, 4], 0));
    let h = cap.invocation_on(&vec![9], true, 0x31);
    assert_eq!(h.common.stream_id, 0x31);
    assert_eq!(h.common.cap_id, 3);
    assert_eq!(h.common.size, 98);
}

#[test]
fn delegation_and_revocation_packets() {
    let mut cap: Capability<Handler> = Capability::create_with_id(owner(), 3);
    let peer = IpAddress { address: [10, 0, 0, 9], netmask: [255, 255, 255, 255], port: 1330 };
    let h = cap.delegate_on(peer, owner(), 12);
    assert_eq!(cap.delegatees.len(), 1);
    assert_eq!((h.cap_id, h.cap_type, h.common.stream_id, h.common.cmd), (3, 0, 12, 64));
    assert_eq!((h.cap_owner_ip, h.cap_owner_port), ([10, 0, 0, 9], 1330));
    assert_eq!((h.object_owner_ip_address, h.object_owner_port), ([10, 0, 0, 9], 1331));
    let r = cap.revoke(owner());
    assert_eq!((r.cap_id, r.common.cmd, r.common.cap_id), (3, 6, 3));
    assert!(r.cap_owner_ip.equals(&owner()));
    let r = cap.revoke_on_node(peer);
    assert!(r.cap_owner_ip.equals(&peer));
    assert_eq!(cap.memory_copy_request().common.cmd, 10);
}

#[test]
fn responses_and_what_they_mean() {
    let ok = RequestResponseHeader::construct(1, 2, 0).encode();
    let failed = RequestResponseHeader::construct(1, 2, 100).encode();
    let invalid = CapInvalidHeader::construct(1, owner(), 2).encode();
    assert_eq!(Capability::<Handler>::response_result(&ok), Ok(()));
    assert_eq!(Capability::<Handler>::response_result(&failed), Err(()));
    assert_eq!(Capability::<Handler>::response_result(&invalid), Err(()));
    assert_eq!(Capability::<Handler>::response_result(&ok[..39]), Err(()));
    assert_eq!(Capability::<Handler>::response_result(&[]), Err(()));
}

#[test]
fn memory_objects_grow_by_chunks() {
    let data: Vec<u8> = (0..2500u32).map(|i| (i % 256) as u8).collect();
    let mut chunks = MemoryCopyResponseHeader::construct(&data, 1, 1);
    let third = chunks.pop().unwrap();
    let second = chunks.pop().unwrap();
    let first = chunks.pop().unwrap();
    let mut obj = MemoryObject::from(first);
    assert!(obj.is_local());
    assert_eq!(obj.size, 1024);
    obj.append(second);
    obj.append(third);
    assert_eq!(obj.size, 2500);
    assert_eq!(obj.data(), data);
    let fresh = MemoryObject::new(vec![4, 5]);
    assert_eq!((fresh.size, fresh.is_local(), fresh.cap.is_none()), (2, true, true));
}

#[test]
fn config_clone_copies_the_three_texts() {
    let conf = Config {
        interface: "veth250".to_string(),
        address: "10.0.0.9:1331".to_string(),
        switch_addr: "10.0.0.1".to_string(),
    };
    let copy = conf.clone();
    assert_eq!(copy.interface, "veth250");
    assert_eq!(copy.address, "10.0.0.9:1331");
    assert_eq!(copy.switch_addr, "10.0.0.1");
    assert_eq!(conf.interface, "veth250");
}
