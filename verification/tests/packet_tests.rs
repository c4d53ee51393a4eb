use tcap::packet_types::{
    CapInvalidHeader, CmdType, CommonHeader, ControllerResetSwitchHeader,
    ControllerStartTimerHeader, ControllerStopHeader, ControllerStopTimerHeader, Flags,
    InsertCapHeader, IpAddress, MemoryCopyRequestHeader, MemoryCopyResponseHeader,
    NOPRequestHeader, RequestInvokeHeader, RequestResponseHeader, RevokeCapHeader,
};
use tcap::wire::{get_le, get_u16, get_u32, put_le};

fn addr(a: [u8; 4], port: u16) -> IpAddress {
    IpAddress { address: a, netmask: [255, 255, 255, 0], port }
}

#[test]
fn little_endian_fields() {
    let mut buf: Vec<u8> = vec![0xaa];
    put_le(&mut buf, 0x0102_0304, 4);
    put_le(&mut buf, 0x1122, 2);
    put_le(&mut buf, 5, 0);
    assert_eq!(buf, vec![0xaa, 0x04, 0x03, 0x02, 0x01, 0x22, 0x11]);
    assert_eq!(get_le(&buf, 1, 4), 0x0102_0304);
    assert_eq!(get_u32(&buf, 1), 0x0102_0304);
    assert_eq!(get_u16(&buf, 5), 0x1122);
    assert_eq!(get_le(&buf, 0, 0), 0);
    let mut wide: Vec<u8> = Vec::new();
    put_le(&mut wide, u128::MAX - 1, 16);
    assert_eq!(wide.len(), 16);
    assert_eq!(wide[0], 0xfe);
    assert_eq!(get_le(&wide, 0, 16), u128::MAX - 1);
}

#[test]
fn field_keeps_the_low_bytes() {
    let mut buf: Vec<u8> = Vec::new();
    put_le(&mut buf, 0x0a0b_0c0d, 2);
    assert_eq!(buf, vec![0x0d, 0x0c]);
}

#[test]
fn common_header_layout() {
    let h = CommonHeader {
        size: 0x0807_0605_0403_0201,
        stream_id: 0x0c0b_0a09,
        cmd: 14,
        cap_id: 0x201f_1e1d_1c1b_1a19_1817_1615_1413_1211,
    };
    let bytes = h.encode();
    assert_eq!(bytes.len(), 32);
    let mut expected: Vec<u8> = (1u8..=12).collect();
    expected.extend_from_slice(&[14, 0, 0, 0]);
    expected.extend(0x11u8..=0x20);
    assert_eq!(bytes, expected);
    assert_eq!(CommonHeader::decode(&bytes), Some(h));
}

#[test]
fn common_header_needs_thirty_two_bytes() {
    let h = CommonHeader { size: 1, stream_id: 2, cmd: 3, cap_id: 4 };
    let bytes = h.encode();
    assert!(CommonHeader::decode(&bytes[..31]).is_none());
    assert!(CommonHeader::decode(&[]).is_none());
    let mut longer = bytes.clone();
    longer.push(9);
    assert_eq!(CommonHeader::decode(&longer), Some(h));
}

#[test]
fn opcodes_have_their_numbers() {
    let table = [
        (0u32, CmdType::Nop),
        (1, CmdType::CapGetInfo),
        (2, CmdType::CapIsSame),
        (3, CmdType::CapDiminish),
        (5, CmdType::CapClose),
        (6, CmdType::CapRevoke),
        (7, CmdType::CapInvalid),
        (10, CmdType::MemoryCopy),
        (11, CmdType::MemoryCopyResponse),
        (13, CmdType::RequestCreate),
        (14, CmdType::RequestInvoke),
        (16, CmdType::RequestReceive),
        (17, CmdType::RequestResponse),
        (32, CmdType::Unknown),
        (64, CmdType::InsertCap),
        (128, CmdType::ControllerResetSwitch),
        (129, CmdType::ControllerStop),
        (130, CmdType::ControllerStartTimer),
        (131, CmdType::ControllerStopTimer),
    ];
    for (code, cmd) in table {
        assert_eq!(CmdType::from(code), cmd);
        assert_eq!(cmd.to_u32(), code);
    }
}

#[test]
fn numbers_without_opcode_are_unknown() {
    for code in [4u32, 8, 9, 12, 15, 18, 31, 33, 63, 65, 127, 132, 1000, u32::MAX] {
        assert_eq!(CmdType::from(code), CmdType::Unknown);
    }
}

#[test]
fn flags_bits() {
    assert_eq!(Flags::REQUIRE_RESPONSE, 1);
    assert_eq!(Flags::empty().bits(), 0);
    assert!(!Flags::empty().contains_require_response());
    assert_eq!(Flags::response(true).bits(), 1);
    assert!(Flags::response(true).contains_require_response());
    assert_eq!(Flags::response(false).bits(), 0);
    assert_eq!(Flags::from_bits(1), Some(Flags { bits: 1 }));
    assert_eq!(Flags::from_bits(0), Some(Flags { bits: 0 }));
    assert_eq!(Flags::from_bits(2), None);
    assert_eq!(Flags::from_bits(255), None);
}

#[test]
fn request_invoke_layout() {
    let h = RequestInvokeHeader::with_stream(0x55, 2, [7, 8, 0, 0], Flags::response(true), 0x99);
    assert_eq!(h.common.size, 98);
    assert_eq!(h.common.cmd, 14);
    assert_eq!(h.common.stream_id, 0x99);
    assert_eq!(h.common.cap_id, 0x55);
    let bytes = h.encode();
    assert_eq!(bytes.len(), 98);
    assert_eq!(bytes[0], 98);
    assert_eq!(bytes[8], 0x99);
    assert_eq!(bytes[12], 14);
    assert_eq!(bytes[16], 0x55);
    assert_eq!(bytes[32], 2);
    assert_eq!(bytes[33], 7);
    assert_eq!(bytes[49], 8);
    assert_eq!(bytes[65], 0);
    assert_eq!(bytes[97], 1);
    let back = RequestInvokeHeader::decode(&bytes).unwrap();
    assert_eq!(back.common, h.common);
    assert_eq!(back.number_of_conts, 2);
    assert_eq!(back.continutaion_cap_ids, [7, 8, 0, 0]);
    assert_eq!(back.flags, 1);
    assert!(RequestInvokeHeader::decode(&bytes[..97]).is_none());
}

#[test]
fn request_invoke_gets_a_stream() {
    let h = RequestInvokeHeader::construct(0x55, 0, [0, 0, 0, 0], Flags::empty());
    assert_eq!(h.common.cap_id, 0x55);
    assert_eq!(h.common.cmd, 14);
    assert_eq!(h.flags, 0);
}

#[test]
fn cap_invalid_layout() {
    let h = CapInvalidHeader::construct(0x0102, addr([10, 0, 0, 9], 0x1234), 77);
    assert_eq!(h.common, CommonHeader { size: 0, stream_id: 77, cmd: 7, cap_id: 0x0102 });
    let bytes = h.encode();
    assert_eq!(bytes.len(), 54);
    assert_eq!(&bytes[32..36], &[10, 0, 0, 9]);
    assert_eq!(&bytes[36..38], &[0x34, 0x12]);
    assert_eq!(&bytes[38..40], &[0x02, 0x01]);
    let back = CapInvalidHeader::decode(&bytes).unwrap();
    assert_eq!(back.address, [10, 0, 0, 9]);
    assert_eq!(back.port, 0x1234);
    assert_eq!(back.cap_id, 0x0102);
    assert!(CapInvalidHeader::decode(&bytes[..53]).is_none());
}

#[test]
fn request_response_layout() {
    let h = RequestResponseHeader::construct(9, 5, 100);
    assert_eq!(h.common, CommonHeader { size: 0, stream_id: 5, cmd: 17, cap_id: 9 });
    let bytes = h.encode();
    assert_eq!(bytes.len(), 40);
    assert_eq!(&bytes[32..40], &[100, 0, 0, 0, 0, 0, 0, 0]);
    assert_eq!(RequestResponseHeader::decode(&bytes), Some(h));
    assert_eq!(RequestResponseHeader::decode(&bytes[..39]), None);
}

#[test]
fn insert_cap_layout() {
    let delegatee = addr([10, 0, 0, 9], 1330);
    let owner = addr([10, 0, 0, 8], 1331);
    let h = InsertCapHeader::with_stream(0xabcd, 2, delegatee, owner, 3);
    assert_eq!(h.common, CommonHeader { size: 0, stream_id: 3, cmd: 64, cap_id: 0xabcd });
    let bytes = h.encode();
    assert_eq!(bytes.len(), 61);
    assert_eq!(&bytes[32..36], &[10, 0, 0, 9]);
    assert_eq!(&bytes[36..38], &1330u16.to_le_bytes());
    assert_eq!(&bytes[38..40], &[0xcd, 0xab]);
    assert_eq!(bytes[54], 2);
    assert_eq!(&bytes[55..59], &[10, 0, 0, 8]);
    assert_eq!(&bytes[59..61], &1331u16.to_le_bytes());
    let back = InsertCapHeader::decode(&bytes).unwrap();
    assert_eq!(back.common, h.common);
    assert_eq!(back.cap_owner_ip, [10, 0, 0, 9]);
    assert_eq!(back.cap_owner_port, 1330);
    assert_eq!(back.cap_id, 0xabcd);
    assert_eq!(back.cap_type, 2);
    assert_eq!(back.object_owner_ip_address, [10, 0, 0, 8]);
    assert_eq!(back.object_owner_port, 1331);
    assert!(InsertCapHeader::decode(&bytes[..60]).is_none());
    let fresh = InsertCapHeader::construct(0xabcd, 2, delegatee, owner);
    assert_eq!(fresh.cap_id, 0xabcd);
    assert_eq!(fresh.common.cmd, 64);
}

#[test]
fn revoke_cap_layout() {
    let owner = IpAddress { address: [1, 2, 3, 4], netmask: [255, 255, 0, 0], port: 0x0a0b };
    let h = RevokeCapHeader::with_stream(0x77, owner, 11);
    assert_eq!(h.common, CommonHeader { size: 0, stream_id: 11, cmd: 6, cap_id: 0x77 });
    let bytes = h.encode();
    assert_eq!(bytes.len(), 58);
    assert_eq!(&bytes[32..42], &[1, 2, 3, 4, 255, 255, 0, 0, 0x0b, 0x0a]);
    assert_eq!(bytes[42], 0x77);
    let back = RevokeCapHeader::decode(&bytes).unwrap();
    assert_eq!(back.cap_id, 0x77);
    assert_eq!(back.cap_owner_ip.address, [1, 2, 3, 4]);
    assert_eq!(back.cap_owner_ip.netmask, [255, 255, 0, 0]);
    assert_eq!(back.cap_owner_ip.port, 0x0a0b);
    assert!(RevokeCapHeader::decode(&bytes[..57]).is_none());
    assert_eq!(RevokeCapHeader::construct(0x77, owner).cap_id, 0x77);
}

#[test]
fn bare_packets() {
    let m = MemoryCopyRequestHeader::with_stream(4, 8);
    assert_eq!(m.common, CommonHeader { size: 0, stream_id: 8, cmd: 10, cap_id: 4 });
    assert_eq!(m.encode().len(), 32);
    assert_eq!(MemoryCopyRequestHeader::decode(&m.encode()), Some(m));
    assert_eq!(MemoryCopyRequestHeader::construct(4).common.cmd, 10);
    let start = ControllerStartTimerHeader::construct();
    assert_eq!((start.common.size, start.common.cmd, start.common.cap_id), (0, 130, 0));
    let stop_timer = ControllerStopTimerHeader::construct();
    assert_eq!((stop_timer.common.size, stop_timer.common.cmd, stop_timer.common.cap_id), (0, 131, 0));
    let reset = ControllerResetSwitchHeader::construct();
    assert_eq!((reset.common.size, reset.common.cmd, reset.common.cap_id), (0, 128, 0));
    let stop = ControllerStopHeader::construct();
    assert_eq!((stop.common.size, stop.common.cmd, stop.common.cap_id), (0, 129, 0));
    assert_eq!(stop.encode().len(), 32);
    assert_eq!(ControllerStopHeader::decode(&stop.encode()), Some(stop));
    assert_eq!(start.encode()[12], 130);
    assert_eq!(stop_timer.encode()[12], 131);
    assert_eq!(reset.encode()[12], 128);
    let nop = NOPRequestHeader::_construct(3, 0x0102);
    assert_eq!((nop.common.cmd, nop.common.cap_id, nop.info), (0, 3, 0x0102));
    let bytes = nop.encode();
    assert_eq!(bytes.len(), 40);
    assert_eq!(&bytes[32..34], &[2, 1]);
}

#[test]
fn stream_identifiers_vary() {
    let mut seen: Vec<u32> = Vec::new();
    for _ in 0..16 {
        seen.push(MemoryCopyRequestHeader::construct(1).common.stream_id);
    }
    seen.sort();
    seen.dedup();
    assert!(seen.len() > 1);
}

#[test]
fn buffer_of_three_thousand_bytes_makes_three_chunks() {
    let data: Vec<u8> = (0..3000u32).map(|i| (i % 251) as u8).collect();
    let chunks = MemoryCopyResponseHeader::construct(&data, 5, 9);
    assert_eq!(chunks.len(), 3);
    let sizes: Vec<u64> = chunks.iter().map(|c| c.size).collect();
    assert_eq!(sizes, vec![1024, 1024, 952]);
    for (i, c) in chunks.iter().enumerate() {
        assert_eq!(c.sequence as usize, i + 1);
        assert_eq!(c.buffer_size, 3000);
        assert_eq!(c.common, CommonHeader { size: 0, stream_id: 9, cmd: 11, cap_id: 5 });
        assert_eq!(c.buffer.len() as u64, c.size);
    }
    assert_eq!(&chunks[1].buffer[..], &data[1024..2048]);
    assert_eq!(&chunks[2].buffer[..], &data[2048..]);
}

#[test]
fn chunk_counts_at_the_edges() {
    let count = |n: usize| MemoryCopyResponseHeader::construct(&vec![1u8; n], 1, 1).len();
    assert_eq!(count(0), 1);
    assert_eq!(count(1), 1);
    assert_eq!(count(1023), 1);
    assert_eq!(count(1024), 1);
    assert_eq!(count(1025), 2);
    assert_eq!(count(2048), 2);
    assert_eq!(count(2049), 3);
    let empty = MemoryCopyResponseHeader::construct(&Vec::new(), 1, 1);
    assert_eq!((empty[0].size, empty[0].buffer_size, empty[0].sequence), (0, 0, 1));
}

#[test]
fn memory_copy_response_layout() {
    let data: Vec<u8> = vec![9, 8, 7];
    let chunks = MemoryCopyResponseHeader::construct(&data, 0x44, 0x0102);
    let bytes = chunks[0].encode();
    assert_eq!(bytes.len(), 1076);
    assert_eq!(&bytes[8..12], &[2, 1, 0, 0]);
    assert_eq!(bytes[12], 11);
    assert_eq!(&bytes[32..40], &[3, 0, 0, 0, 0, 0, 0, 0]);
    assert_eq!(&bytes[40..48], &[3, 0, 0, 0, 0, 0, 0, 0]);
    assert_eq!(&bytes[48..52], &[1, 0, 0, 0]);
    assert_eq!(&bytes[52..55], &[9, 8, 7]);
    assert!(bytes[55..].iter().all(|b| *b == 0));
    let back = MemoryCopyResponseHeader::decode(&bytes).unwrap();
    assert_eq!(back.size, 3);
    assert_eq!(back.buffer_size, 3);
    assert_eq!(back.sequence, 1);
    assert_eq!(back.buffer, vec![9, 8, 7]);
    let short = MemoryCopyResponseHeader::decode(&bytes[..55]).unwrap();
    assert_eq!(short.buffer, vec![9, 8, 7]);
    assert!(MemoryCopyResponseHeader::decode(&bytes[..54]).is_none());
    assert!(MemoryCopyResponseHeader::decode(&bytes[..51]).is_none());
}

#[test]
fn memory_copy_response_refuses_a_size_over_the_chunk() {
    let chunks = MemoryCopyResponseHeader::construct(&vec![1u8; 10], 1, 1);
    let mut bytes = chunks[0].encode();
    bytes[32] = 0x01;
    bytes[33] = 0x04;
    assert!(MemoryCopyResponseHeader::decode(&bytes).is_none());
    bytes[32] = 0x00;
    let whole = MemoryCopyResponseHeader::decode(&bytes).unwrap();
    assert_eq!(whole.buffer.len(), 1024);
}
