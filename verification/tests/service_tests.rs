use std::cell::Cell;
use std::rc::Rc;
use tcap::address::IpAddress;
use tcap::capabilities::{CapRef, CapType};
use tcap::config::Config;
use tcap::model::{BufferFetch, Invocation, Outcome};
use tcap::object::{MemoryObject, RequestObject};
use tcap::packet_types::{CapInvalidHeader, CmdType, CommonHeader, InsertCapHeader, RevokeCapHeader};
use tcap::service::{SendRequest, Service};

type Handler = Box<dyn Fn(Vec<Option<CapRef>>) -> Result<(), ()>>;

fn service(address: &str) -> Service<Handler> {
    let conf = Config {
        interface: "veth250".to_string(),
        address: address.to_string(),
        switch_addr: "10.0.0.1".to_string(),
    };
    Service::new(conf).unwrap()
}

fn counting(calls: &Rc<Cell<u32>>, result: Result<(), ()>) -> RequestObject<Handler> {
    let calls = calls.clone();
    let handler: Handler = Box::new(move |_| {
        calls.set(calls.get() + 1);
        result
    });
    RequestObject::new(handler)
}

/// Hands every packet that `from` has queued to `to`, where it is addressed
/// to `to`, and gives what `to` made of each.
fn deliver(from: &mut Service<Handler>, to: &mut Service<Handler>) -> Vec<Outcome> {
    let mut outcomes = Vec::new();
    while let Some(packet) = from.next_to_send() {
        if packet.dest == to.address.to_text() {
            outcomes.push(to.receive(from.address, packet.data));
        }
    }
    outcomes
}

#[test]
fn test_delegate() {
    let mut service1 = service("10.0.0.9:1331");
    let mut service2 = service("10.0.0.9:1330");
    assert!(
        service1.cap_table.get_capids().is_empty(),
        "Service1 CapTable should be empty at start"
    );
    assert!(
        service2.cap_table.get_capids().is_empty(),
        "Service2 CapTable should be empty at start"
    );

    let c1 = service1.create_capability();
    assert!(
        service1.cap_table.get_capids().contains(&c1),
        "Captable should contain ID of newly created cap"
    );
    let sent = service1.delegate(c1, IpAddress::from("10.0.0.9:1330"));
    assert!(sent.is_some());
    assert_eq!(deliver(&mut service1, &mut service2), vec![Outcome::Handled]);
    assert!(
        service2.cap_table.get_capids().contains(&c1),
        "After delegate, service2 should have the capid in its table"
    );
    let held = service2.cap_table.get(c1).unwrap();
    assert_eq!(held.cap_id, c1);
    assert!(held.owner_address.equals(&service1.address));
    assert_eq!(held.owner_address.netmask, [0, 0, 0, 0]);
    assert_eq!(held.cap_type, CapType::Untyped);
    let kept = service1.cap_table.get(c1).unwrap();
    assert_eq!(kept.delegatees.len(), 1);
    assert!(kept.delegatees[0].equals(&service2.address));
}

#[test]
fn test_revocation() {
    let mut service1 = service("10.0.0.9:1230");
    let mut service2 = service("10.0.0.9:1231");
    assert!(
        service1.cap_table.get_capids().is_empty(),
        "Service1 CapTable should be empty at start"
    );
    assert!(
        service2.cap_table.get_capids().is_empty(),
        "Service2 CapTable should be empty at start"
    );

    let c1 = service1.create_capability();
    assert!(
        service1.cap_table.get_capids().contains(&c1),
        "Captable should contain ID of newly created cap"
    );
    let _ = service1.delegate(c1, IpAddress::from("10.0.0.9:1231"));
    deliver(&mut service1, &mut service2);
    assert!(
        service2.cap_table.get_capids().contains(&c1),
        "After delegate, service2 should have the capid in its table"
    );

    assert!(service1.revoke(c1).is_some());
    assert_eq!(deliver(&mut service1, &mut service2), vec![Outcome::Handled]);
    assert!(
        !service2.cap_table.get_capids().contains(&c1),
        "After revoke, service2 should NOT have the capid in its table"
    );
    assert!(!service1.cap_exists(c1));
    assert!(!service2.cap_exists(c1));
}

#[test]
fn test_delegate_and_request_invocation() {
    let mut service1 = service("10.0.0.9:1230");
    let mut service2 = service("10.0.0.9:1231");
    let calls = Rc::new(Cell::new(0));

    let request_cap1 = service1.create_capability();
    assert!(service1.bind_req(request_cap1, counting(&calls, Ok(()))));
    assert_eq!(service1.cap_table.get(request_cap1).unwrap().cap_type, CapType::Request);

    let _ = service1.delegate(request_cap1, IpAddress::from("10.0.0.9:1231"));
    deliver(&mut service1, &mut service2);
    assert!(
        service2.cap_table.get_capids().contains(&request_cap1),
        "After delegate, service2 should have the capid in its table"
    );
    assert_eq!(service2.cap_table.get(request_cap1).unwrap().cap_type, CapType::Request);

    let stream = match service2.request_invoke(request_cap1, Vec::new(), true) {
        Invocation::Pending(stream) => stream,
        other => panic!("the invocation should wait for its response, but was {:?}", other),
    };
    assert!(!service2.acquire(stream, 1));
    assert_eq!(deliver(&mut service2, &mut service1), vec![Outcome::Invoked(true)]);
    assert_eq!(calls.get(), 1);
    assert_eq!(deliver(&mut service1, &mut service2), vec![Outcome::Stored]);
    assert!(service2.acquire(stream, 1));
    assert!(!service2.acquire(stream, 1));
    assert_eq!(service2.complete_invoke(stream), Some(Ok(())));
    assert_eq!(service2.complete_invoke(stream), None);
    assert!(!service2.acquire(stream, 0));
    assert_eq!(calls.get(), 1);
}

#[test]
fn test_local_request_invocation() {
    let mut service1 = service("10.0.0.9:1230");
    let calls = Rc::new(Cell::new(0));

    let request_cap = service1.create_capability();
    assert!(service1.bind_req(request_cap, counting(&calls, Ok(()))));

    assert_eq!(service1.request_invoke(request_cap, Vec::new(), true), Invocation::Done(true));
    assert_eq!(calls.get(), 1);
    assert!(service1.next_to_send().is_none());
    assert_eq!(service1.request_invoke(request_cap, Vec::new(), false), Invocation::Done(true));
    assert_eq!(calls.get(), 2);
}

#[test]
fn local_invocation_gives_the_failure_of_the_handler() {
    let mut a = service("10.0.0.9:1230");
    let calls = Rc::new(Cell::new(0));
    let cap = a.create_capability_with_id_and_give(77);
    assert!(a.bind_req(cap, counting(&calls, Err(()))));
    assert_eq!(a.request_invoke(cap, Vec::new(), true), Invocation::Done(false));
    assert_eq!(calls.get(), 1);
}

trait WithId {
    fn create_capability_with_id_and_give(&mut self, id: u128) -> u128;
}

impl WithId for Service<Handler> {
    fn create_capability_with_id_and_give(&mut self, id: u128) -> u128 {
        self.create_capability_with_id(id);
        id
    }
}

#[test]
fn local_invocation_without_wait_reports_no_failure() {
    let mut a = service("10.0.0.9:1230");
    let calls = Rc::new(Cell::new(0));
    a.create_capability_with_id(78);
    assert!(a.bind_req(78, counting(&calls, Err(()))));
    assert_eq!(a.request_invoke(78, Vec::new(), false), Invocation::Done(true));
    assert_eq!(calls.get(), 1);
    assert!(a.next_to_send().is_none());
    assert_eq!(a.request_invoke(78, Vec::new(), true), Invocation::Done(false));
    assert_eq!(calls.get(), 2);
    // nothing bound: no failure either for a caller that does not wait
    a.create_capability_with_id(79);
    assert_eq!(a.request_invoke(79, Vec::new(), false), Invocation::Done(true));
    assert_eq!(a.request_invoke(79, Vec::new(), true), Invocation::Done(false));
    assert!(a.next_to_send().is_none());
}

#[test]
fn binding_tells_the_object_its_capability() {
    let mut a = service("10.0.0.9:1230");
    let calls = Rc::new(Cell::new(0));
    a.create_capability_with_id(5);
    a.create_capability_with_id(6);
    assert!(a.bind_req(5, counting(&calls, Ok(()))));
    assert!(a.bind_mem(6, MemoryObject::new(vec![1, 2, 3])));
    let req = a.cap_table.get(5).unwrap().request_object.as_ref().unwrap();
    let back = req.cap.unwrap();
    assert_eq!((back.cap_id, back.cap_type), (5, CapType::Request));
    assert!(back.owner_address.equals(&a.address));
    assert!(req.is_local());
    let mem = a.cap_table.get(6).unwrap().memory_object.as_ref().unwrap();
    let back = mem.cap.unwrap();
    assert_eq!((back.cap_id, back.cap_type), (6, CapType::Memory));
    assert!(back.owner_address.equals(&a.address));
    assert_eq!((mem.size, mem.data(), mem.is_local()), (3, vec![1, 2, 3], true));
}

#[test]
fn node_and_remote_owner_from_canonical_text() {
    let mut a = service("10.0.0.9:1230");
    assert_eq!((a.address.address, a.address.port), ([10, 0, 0, 9], 1230));
    assert_eq!(a.address.netmask, [255, 255, 255, 255]);
    assert!(a.create_remote_capability_with_id("192.168.1.7:4000".to_string(), 3));
    let owner = a.cap_table.get(3).unwrap().owner_address;
    assert_eq!((owner.address, owner.port), ([192, 168, 1, 7], 4000));
    assert_eq!(owner.netmask, [255, 255, 255, 255]);
    assert!(a.create_remote_capability_with_id("192.168.1.0/24:4000".to_string(), 4));
    let owner = a.cap_table.get(4).unwrap().owner_address;
    assert_eq!((owner.address, owner.netmask, owner.port), ([192, 168, 1, 0], [255, 255, 255, 0], 0));
}

#[test]
fn invocation_of_an_unbound_capability_fails() {
    let mut a = service("10.0.0.9:1230");
    a.create_capability_with_id(5);
    assert_eq!(a.request_invoke(5, Vec::new(), true), Invocation::Done(false));
    assert_eq!(a.request_invoke(6, Vec::new(), true), Invocation::Unknown);
}

#[test]
fn remote_handler_failure_is_response_code_100() {
    let mut a = service("10.0.0.9:1230");
    let mut b = service("10.0.0.9:1231");
    let calls = Rc::new(Cell::new(0));
    a.create_capability_with_id(9);
    assert!(a.bind_req(9, counting(&calls, Err(()))));
    a.delegate(9, b.address);
    deliver(&mut a, &mut b);
    let stream = match b.request_invoke(9, Vec::new(), true) {
        Invocation::Pending(stream) => stream,
        other => panic!("unexpected {:?}", other),
    };
    assert_eq!(deliver(&mut b, &mut a), vec![Outcome::Invoked(false)]);
    let response = a.next_to_send().unwrap();
    assert_eq!(response.dest, "10.0.0.9:1231");
    assert_eq!(response.stream_id, stream);
    assert_eq!(response.data.len(), 40);
    assert_eq!(response.data[12], 17);
    assert_eq!(&response.data[32..40], &[100, 0, 0, 0, 0, 0, 0, 0]);
    assert_eq!(b.receive(a.address, response.data), Outcome::Stored);
    assert!(b.acquire(stream, 1));
    assert_eq!(b.complete_invoke(stream), Some(Err(())));
    assert_eq!(calls.get(), 1);
}

#[test]
fn invocation_without_wait_gets_no_response() {
    let mut a = service("10.0.0.9:1230");
    let mut b = service("10.0.0.9:1231");
    let calls = Rc::new(Cell::new(0));
    a.create_capability_with_id(9);
    assert!(a.bind_req(9, counting(&calls, Ok(()))));
    a.delegate(9, b.address);
    deliver(&mut a, &mut b);
    assert_eq!(b.request_invoke(9, Vec::new(), false), Invocation::Done(true));
    assert_eq!(deliver(&mut b, &mut a), vec![Outcome::Invoked(true)]);
    assert_eq!(calls.get(), 1);
    assert!(a.next_to_send().is_none());
}

#[test]
fn unknown_capability_is_refused() {
    let mut a = service("10.0.0.9:1331");
    let mut b = service("10.0.0.9:1330");
    assert!(b.create_remote_capability_with_id("10.0.0.9:1331".to_string(), 0xdead));
    let stream = match b.request_invoke(0xdead, Vec::new(), true) {
        Invocation::Pending(stream) => stream,
        other => panic!("unexpected {:?}", other),
    };
    assert_eq!(deliver(&mut b, &mut a), vec![Outcome::Handled]);
    let refusal = a.next_to_send().unwrap();
    assert_eq!(refusal.dest, "10.0.0.9:1330");
    let hdr = CapInvalidHeader::decode(&refusal.data).unwrap();
    assert_eq!(CmdType::from(hdr.common.cmd), CmdType::CapInvalid);
    assert_eq!(hdr.common.stream_id, stream);
    assert_eq!(hdr.cap_id, 0xdead);
    assert_eq!(hdr.address, [10, 0, 0, 9]);
    assert_eq!(hdr.port, 1330);
    assert_eq!(b.receive(a.address, refusal.data), Outcome::Stored);
    assert!(b.acquire(stream, 1));
    assert_eq!(b.complete_invoke(stream), Some(Err(())));
}

#[test]
fn continuations_are_resolved_against_the_table() {
    let mut a = service("10.0.0.9:1230");
    let mut b = service("10.0.0.9:1231");
    let seen: Rc<Cell<Option<(usize, u128, bool, bool, bool)>>> = Rc::new(Cell::new(None));
    let seen_by_handler = seen.clone();
    let handler: Handler = Box::new(move |conts| {
        let first = conts[0].map(|c| c.cap_id).unwrap_or(0);
        seen_by_handler.set(Some((
            conts.len(),
            first,
            conts[1].is_none(),
            conts[2].is_none(),
            conts[3].is_some(),
        )));
        Ok(())
    });
    a.create_capability_with_id(1);
    a.create_capability_with_id(2);
    a.create_capability_with_id(3);
    assert!(a.bind_req(1, RequestObject::new(handler)));
    a.delegate(1, b.address);
    deliver(&mut a, &mut b);
    // 2 is held by the owner, 0 names nothing, 99 is not held, 3 is held; 4 is one too many.
    assert_eq!(b.request_invoke(1, vec![2, 0, 99, 3, 4], false), Invocation::Done(true));
    let packet = b.next_to_send().unwrap();
    assert_eq!(packet.data[32], 4);
    assert_eq!(a.receive(b.address, packet.data), Outcome::Invoked(true));
    assert_eq!(seen.get(), Some((4, 2, true, true, true)));
}

#[test]
fn memory_copy_across_chunks_in_any_order() {
    let mut a = service("10.0.0.9:1331");
    let mut b = service("10.0.0.9:1330");
    let data: Vec<u8> = (0..3000u32).map(|i| (i * 7 % 256) as u8).collect();
    a.create_capability_with_id(42);
    assert!(a.bind_mem(42, MemoryObject::new(data.clone())));
    a.delegate(42, b.address);
    deliver(&mut a, &mut b);
    assert_eq!(b.cap_table.get(42).unwrap().cap_type, CapType::Memory);

    let stream = match b.get_buffer(42) {
        BufferFetch::Pending(stream) => stream,
        other => panic!("unexpected {:?}", other),
    };
    assert_eq!(deliver(&mut b, &mut a), vec![Outcome::Handled]);
    let mut chunks: Vec<SendRequest> = Vec::new();
    while let Some(p) = a.next_to_send() {
        assert_eq!(p.dest, "10.0.0.9:1330");
        assert_eq!(p.data.len(), 1076);
        chunks.push(p);
    }
    assert_eq!(chunks.len(), 3);
    assert!(b.complete_get_buffer(42, stream).is_none());
    let last = chunks.pop().unwrap();
    assert_eq!(b.receive(a.address, last.data), Outcome::Stored);
    assert!(b.complete_get_buffer(42, stream).is_none());
    let first = chunks.remove(0);
    assert_eq!(b.receive(a.address, first.data), Outcome::Stored);
    assert!(!b.acquire(stream, 3));
    assert!(b.complete_get_buffer(42, stream).is_none());
    let middle = chunks.pop().unwrap();
    assert_eq!(b.receive(a.address, middle.data), Outcome::Stored);
    assert!(b.acquire(stream, 3));
    let got = b.complete_get_buffer(42, stream).unwrap();
    assert_eq!(got.len(), 3000);
    assert_eq!(got, data);
    assert!(b.get_response(stream.wrapping_add(1)).is_none());
    assert!(b.get_response(stream.wrapping_add(2)).is_none());
    assert!(b.get_response(stream.wrapping_add(3)).is_none());
    match b.get_buffer(42) {
        BufferFetch::Local(bytes) => assert_eq!(bytes, data),
        other => panic!("unexpected {:?}", other),
    }
}

#[test]
fn local_buffer_is_given_at_once() {
    let mut a = service("10.0.0.9:1331");
    a.create_capability_with_id(1);
    assert!(a.bind_mem(1, MemoryObject::new(vec![1, 2, 3])));
    match a.get_buffer(1) {
        BufferFetch::Local(bytes) => assert_eq!(bytes, vec![1, 2, 3]),
        other => panic!("unexpected {:?}", other),
    }
    a.create_capability_with_id(2);
    assert!(matches!(a.get_buffer(2), BufferFetch::NotMemory));
    assert!(matches!(a.get_buffer(3), BufferFetch::Unknown));
    assert!(a.next_to_send().is_none());
}

#[test]
fn empty_buffer_is_one_empty_chunk() {
    let mut a = service("10.0.0.9:1331");
    let mut b = service("10.0.0.9:1330");
    a.create_capability_with_id(42);
    assert!(a.bind_mem(42, MemoryObject::new(Vec::new())));
    a.delegate(42, b.address);
    deliver(&mut a, &mut b);
    let stream = match b.get_buffer(42) {
        BufferFetch::Pending(stream) => stream,
        other => panic!("unexpected {:?}", other),
    };
    deliver(&mut b, &mut a);
    assert_eq!(deliver(&mut a, &mut b), vec![Outcome::Stored]);
    assert_eq!(b.complete_get_buffer(42, stream), Some(Vec::new()));
}

#[test]
fn memory_copy_of_a_request_capability_is_fatal() {
    let mut a = service("10.0.0.9:1331");
    let b = IpAddress::from("10.0.0.9:1330");
    let calls = Rc::new(Cell::new(0));
    a.create_capability_with_id(1);
    assert!(a.bind_req(1, counting(&calls, Ok(()))));
    let request = CommonHeader { size: 0, stream_id: 5, cmd: 10, cap_id: 1 }.encode();
    assert_eq!(a.receive(b, request), Outcome::Fatal);
    assert!(a.next_to_send().is_none());
    let unknown = CommonHeader { size: 0, stream_id: 5, cmd: 10, cap_id: 2 }.encode();
    assert_eq!(a.receive(b, unknown), Outcome::Handled);
    let refusal = a.next_to_send().unwrap();
    assert_eq!(refusal.data[12], 7);
    assert_eq!(refusal.stream_id, 5);
}

#[test]
fn datagrams_that_are_dropped() {
    let mut a = service("10.0.0.9:1331");
    let b = IpAddress::from("10.0.0.9:1330");
    a.create_capability_with_id(1);
    // from the node itself
    let own = InsertCapHeader::with_stream(7, 0, a.address, b, 1).encode();
    assert_eq!(a.receive(a.address, own), Outcome::Dropped);
    assert!(!a.cap_exists(7));
    // shorter than a header
    assert_eq!(a.receive(b, vec![0u8; 31]), Outcome::Dropped);
    assert_eq!(a.receive(b, Vec::new()), Outcome::Dropped);
    // opcodes that no node answers
    for cmd in [0u32, 1, 2, 3, 5, 7, 13, 16, 32, 128, 129, 130, 131, 9999] {
        let packet = CommonHeader { size: 0, stream_id: 3, cmd, cap_id: 1 }.encode();
        assert_eq!(a.receive(b, packet), Outcome::Dropped);
    }
    // packets that are cut short
    let mut insert = InsertCapHeader::with_stream(7, 0, a.address, b, 1).encode();
    insert.truncate(60);
    assert_eq!(a.receive(b, insert), Outcome::Dropped);
    let mut revoke = RevokeCapHeader::with_stream(1, b, 1).encode();
    revoke.truncate(57);
    assert_eq!(a.receive(b, revoke), Outcome::Dropped);
    // a revocation of what the node does not hold
    let revoke = RevokeCapHeader::with_stream(8, b, 1).encode();
    assert_eq!(a.receive(b, revoke), Outcome::Dropped);
    assert!(a.cap_exists(1));
    assert!(!a.cap_exists(7));
    assert!(a.next_to_send().is_none());
    assert_eq!(a.recv_counter, 20);
}

#[test]
fn revoke_of_what_is_gone_does_nothing() {
    let mut a = service("10.0.0.9:1331");
    let b = IpAddress::from("10.0.0.9:1330");
    let c = a.create_capability();
    a.delegate(c, b);
    while a.next_to_send().is_some() {}
    assert!(a.revoke(c).is_some());
    assert_eq!(a.send_queue.len(), 1);
    assert!(a.revoke(c).is_none());
    assert_eq!(a.send_queue.len(), 1);
    assert!(!a.cap_exists(c));
}

#[test]
fn double_delegate_leaves_one_entry() {
    let mut a = service("10.0.0.9:1331");
    let mut b = service("10.0.0.9:1330");
    let c = a.create_capability();
    a.delegate(c, b.address);
    a.delegate(c, b.address);
    assert_eq!(a.cap_table.get(c).unwrap().delegatees.len(), 2);
    assert_eq!(deliver(&mut a, &mut b), vec![Outcome::Handled, Outcome::Handled]);
    assert_eq!(b.cap_table.get_capids(), vec![c]);
    // revocation goes to both recorded delegatees
    a.revoke(c);
    assert_eq!(a.send_queue.len(), 2);
    assert_eq!(deliver(&mut a, &mut b), vec![Outcome::Handled, Outcome::Dropped]);
    assert!(b.cap_table.get_capids().is_empty());
}

#[test]
fn revocation_is_passed_on() {
    let mut a = service("10.0.0.9:1");
    let mut b = service("10.0.0.9:2");
    let mut c = service("10.0.0.9:3");
    let cap = a.create_capability();
    a.delegate(cap, b.address);
    deliver(&mut a, &mut b);
    b.delegate(cap, c.address);
    deliver(&mut b, &mut c);
    assert!(c.cap_exists(cap));
    // the capability that went on names the node that passed it on as its owner
    assert!(c.cap_table.get(cap).unwrap().owner_address.equals(&b.address));
    a.revoke(cap);
    deliver(&mut a, &mut b);
    assert!(!b.cap_exists(cap));
    deliver(&mut b, &mut c);
    assert!(!c.cap_exists(cap));
}

#[test]
fn control_packets_are_copied_to_the_switch() {
    let mut a = service("10.0.0.9:1331");
    let b = IpAddress::from("10.0.0.9:1330");
    a.control_plane_copies = true;
    let c = a.create_capability();
    a.delegate(c, b);
    let copy = a.next_to_send().unwrap();
    let packet = a.next_to_send().unwrap();
    assert_eq!(copy.dest, "10.0.0.1");
    assert_eq!(packet.dest, "10.0.0.9:1330");
    assert_eq!(copy.data, packet.data);
    assert_eq!(copy.data[12], 64);
    assert!(a.revoke_on_node(c, b).is_some());
    let told = a.next_to_send().unwrap();
    assert_eq!(told.dest, "10.0.0.1");
    let hdr = RevokeCapHeader::decode(&told.data).unwrap();
    assert_eq!(hdr.cap_id, c);
    assert!(hdr.cap_owner_ip.equals(&b));
    assert!(a.cap_exists(c));
    a.revoke(c);
    let copy = a.next_to_send().unwrap();
    let packet = a.next_to_send().unwrap();
    assert_eq!((copy.dest.as_str(), packet.dest.as_str()), ("10.0.0.1", "10.0.0.9:1330"));
    assert_eq!(copy.data, packet.data);
    assert_eq!(copy.data[12], 6);
    assert!(a.next_to_send().is_none());
    // a refusal is copied too
    let request = CommonHeader { size: 0, stream_id: 5, cmd: 10, cap_id: 2 }.encode();
    assert_eq!(a.receive(b, request), Outcome::Handled);
    assert_eq!(a.next_to_send().unwrap().dest, "10.0.0.1");
    assert_eq!(a.next_to_send().unwrap().dest, "10.0.0.9:1330");
}

#[test]
fn without_copies_the_switch_hears_nothing() {
    let mut a = service("10.0.0.9:1331");
    let b = IpAddress::from("10.0.0.9:1330");
    let c = a.create_capability();
    assert!(a.revoke_on_node(c, b).is_some());
    assert!(a.revoke_on_node(c + 1, b).is_none());
    assert!(a.next_to_send().is_none());
}

#[test]
fn terminate_revokes_everything_oldest_first() {
    let mut a = service("10.0.0.9:1331");
    let b = IpAddress::from("10.0.0.9:1330");
    let c = IpAddress::from("10.0.0.9:1329");
    a.create_capability_with_id(30);
    a.create_capability_with_id(10);
    a.create_capability_with_id(20);
    a.delegate(10, b);
    a.delegate(30, c);
    a.delegate(30, b);
    while a.next_to_send().is_some() {}
    assert_eq!(a.cap_table.get_capids(), vec![30, 10, 20]);
    let streams = a.terminate();
    assert_eq!(streams.len(), 3);
    assert!(a.terminated);
    assert!(a.cap_table.get_capids().is_empty());
    let mut sent: Vec<(String, u128, u32)> = Vec::new();
    while let Some(p) = a.next_to_send() {
        let hdr = RevokeCapHeader::decode(&p.data).unwrap();
        assert_eq!(hdr.common.cmd, 6);
        assert!(hdr.cap_owner_ip.equals(&a.address));
        sent.push((p.dest, hdr.cap_id, p.stream_id));
    }
    assert_eq!(
        sent,
        vec![
            ("10.0.0.9:1329".to_string(), 30, streams[0]),
            ("10.0.0.9:1330".to_string(), 30, streams[0]),
            ("10.0.0.9:1330".to_string(), 10, streams[1]),
        ]
    );
}

#[test]
fn sending_registers_the_stream() {
    let mut a = service("10.0.0.9:1331");
    let packet = CommonHeader { size: 0, stream_id: 0x0a0b, cmd: 0, cap_id: 0 }.encode();
    let request = SendRequest::new("10.0.0.9:1330".to_string(), packet.clone());
    assert_eq!(request.stream_id, 0x0a0b);
    assert_eq!(a.send(request, true), Some(0x0a0b));
    let other = SendRequest::new("10.0.0.9:1330".to_string(), packet.clone());
    assert_eq!(a.send(other, false), None);
    assert!(!a.acquire(0x0a0b, 0));
    let out = a.next_to_send().unwrap();
    assert_eq!(out.data, packet);
    assert_eq!(a.send_counter, 1);
    assert!(a.acquire(0x0a0b, 0));
    assert!(!a.acquire(0x0a0b, 1));
    assert!(a.next_to_send().is_some());
    assert!(a.next_to_send().is_none());
    assert_eq!(a.send_counter, 2);
}

#[test]
fn responses_are_kept_by_stream() {
    let mut a = service("10.0.0.9:1331");
    let b = IpAddress::from("10.0.0.9:1330");
    let request = SendRequest::new(
        "10.0.0.9:1330".to_string(),
        CommonHeader { size: 0, stream_id: 9, cmd: 14, cap_id: 1 }.encode(),
    );
    a.send(request, true);
    a.next_to_send();
    let answer = CommonHeader { size: 0, stream_id: 9, cmd: 7, cap_id: 1 }.encode();
    assert_eq!(a.receive(b, answer.clone()), Outcome::Stored);
    let seen = a.get_response_no_delete(9).unwrap();
    assert_eq!(seen.sender, "10.0.0.9:1330");
    assert_eq!(seen.data, answer);
    assert!(a.get_response_no_delete(9).is_some());
    let taken = a.get_response(9).unwrap();
    assert_eq!(taken.data, answer);
    assert!(a.get_response(9).is_none());
    assert!(a.get_response_no_delete(8).is_none());
}

#[test]
fn unsolicited_response_is_kept_and_counts_a_permit() {
    let mut a = service("10.0.0.9:1331");
    let b = IpAddress::from("10.0.0.9:1330");
    let answer = tcap::packet_types::RequestResponseHeader::construct(1, 77, 0).encode();
    assert_eq!(a.receive(b, answer), Outcome::Stored);
    assert!(a.acquire(77, 1));
    assert_eq!(a.complete_invoke(77), Some(Ok(())));
}

#[test]
fn chunk_keys_wrap_around() {
    let mut a = service("10.0.0.9:1331");
    let b = IpAddress::from("10.0.0.9:1330");
    let stream = u32::MAX;
    a.create_remote_capability_with_id("10.0.0.9:1330".to_string(), 4);
    let data: Vec<u8> = (0..1500u32).map(|i| (i % 256) as u8).collect();
    let chunks = tcap::packet_types::MemoryCopyResponseHeader::construct(&data, 4, stream);
    assert_eq!(chunks.len(), 2);
    assert_eq!(a.receive(b, chunks[1].encode()), Outcome::Stored);
    assert_eq!(a.receive(b, chunks[0].encode()), Outcome::Stored);
    assert!(a.get_response_no_delete(0).is_some());
    assert!(a.get_response_no_delete(1).is_some());
    assert!(a.acquire(stream, 2));
    assert_eq!(a.complete_get_buffer(4, stream), Some(data));
}

#[test]
fn assembly_needs_every_chunk_and_the_announced_size() {
    let mut a = service("10.0.0.9:1331");
    let b = IpAddress::from("10.0.0.9:1330");
    let data: Vec<u8> = vec![5u8; 2000];
    let chunks = tcap::packet_types::MemoryCopyResponseHeader::construct(&data, 4, 100);
    assert_eq!(a.receive(b, chunks[1].encode()), Outcome::Stored);
    assert!(a.complete_get_buffer(4, 100).is_none());
    assert!(a.get_response_no_delete(102).is_some());
    // a first chunk that announces more than arrives
    let mut lying = chunks[0].encode();
    lying[40] = 0xd1;
    assert_eq!(a.receive(b, lying), Outcome::Stored);
    assert!(a.complete_get_buffer(4, 100).is_none());
    assert!(a.get_response_no_delete(101).is_some());
    assert_eq!(a.receive(b, chunks[0].encode()), Outcome::Stored);
    assert_eq!(a.complete_get_buffer(4, 100), Some(data));
}

#[test]
fn reset_forgets_tables_and_counters() {
    let mut a = service("10.0.0.9:1331");
    let b = IpAddress::from("10.0.0.9:1330");
    a.create_capability();
    a.delegate(a.cap_table.get_capids()[0], b);
    a.next_to_send();
    a.receive(b, CommonHeader { size: 0, stream_id: 9, cmd: 17, cap_id: 1 }.encode());
    assert_eq!((a.send_counter, a.recv_counter), (1, 1));
    a.reset();
    assert!(a.cap_table.get_capids().is_empty());
    assert!(a.get_response_no_delete(9).is_none());
    assert!(!a.acquire(9, 0));
    assert_eq!((a.send_counter, a.recv_counter), (0, 0));
}

#[test]
fn controller_packets_go_to_the_switch() {
    let mut a = service("10.0.0.9:1331");
    let s1 = a.controller_timer_start();
    let s2 = a.controller_timer_stop();
    let s3 = a.controller_reset_switch();
    let s4 = a.controller_stop();
    let expected = [(130u8, s1), (131, s2), (128, s3), (129, s4)];
    for (cmd, stream) in expected {
        let p = a.next_to_send().unwrap();
        assert_eq!(p.dest, "10.0.0.1");
        assert_eq!(p.data.len(), 32);
        assert_eq!(p.data[12], cmd);
        assert_eq!(p.stream_id, stream);
        assert_eq!(&p.data[16..32], &[0u8; 16]);
    }
}

#[test]
fn service_needs_an_address() {
    let conf = Config {
        interface: "veth250".to_string(),
        address: "nowhere".to_string(),
        switch_addr: "10.0.0.1".to_string(),
    };
    assert!(Service::<Handler>::new(conf).is_none());
    let mut a = service("10.0.0.9:1331");
    assert_eq!(a.address.address, [10, 0, 0, 9]);
    assert_eq!(a.address.port, 1331);
    assert!(!a.create_remote_capability_with_id("nowhere".to_string(), 1));
    assert!(!a.cap_exists(1));
}

#[test]
fn create_and_delete() {
    let mut a = service("10.0.0.9:1331");
    let c1 = a.create_capability();
    let c2 = a.create_capability();
    assert_ne!(c1, c2);
    assert!(a.cap_exists(c1));
    let held = a.cap_table.get(c1).unwrap();
    assert_eq!(held.cap_type, CapType::Untyped);
    assert!(held.owner_address.equals(&a.address));
    a.delete_capability(c1);
    assert!(!a.cap_exists(c1));
    assert!(a.cap_exists(c2));
    assert!(a.next_to_send().is_none());
    a.delete_capability(c1);
    assert_eq!(a.cap_table.get_capids(), vec![c2]);
}

#[test]
fn binding_happens_once() {
    let mut a = service("10.0.0.9:1331");
    let calls = Rc::new(Cell::new(0));
    a.create_capability_with_id(1);
    assert!(a.bind_req(1, counting(&calls, Ok(()))));
    assert!(!a.bind_req(1, counting(&calls, Err(()))));
    assert!(!a.bind_mem(1, MemoryObject::new(vec![1])));
    assert!(!a.bind_req(2, counting(&calls, Ok(()))));
    assert_eq!(a.request_invoke(1, Vec::new(), true), Invocation::Done(true));
    a.create_capability_with_id(3);
    assert!(a.bind_mem(3, MemoryObject::new(vec![1])));
    assert!(!a.bind_req(3, counting(&calls, Ok(()))));
    assert_eq!(a.cap_table.get(3).unwrap().cap_type, CapType::Memory);
}
