use tcap::address::IpAddress;

#[test]
fn test_create_ip_addr_object_from_string() {
    let obj = IpAddress::from("10.0.0.1:1234");
    assert!(obj.port == 1234);
    assert!(obj.address == [10, 0, 0, 1]);
    assert!(obj.netmask == [255, 255, 255, 255]); // default value for netmask
}

#[test]
fn test_create_ip_addr_object_with_netmask() {
    let obj = IpAddress::from("10.0.0.1/24:1012");
    assert!(obj.port == 0);
    assert!(obj.address == [10, 0, 0, 1]);
    assert!(obj.netmask == [255, 255, 255, 0]);
}

#[test]
fn parse_without_port_gives_port_zero() {
    let obj = IpAddress::parse("192.168.7.42").unwrap();
    assert_eq!(obj.address, [192, 168, 7, 42]);
    assert_eq!(obj.netmask, [255, 255, 255, 255]);
    assert_eq!(obj.port, 0);
}

#[test]
fn parse_prefix_lengths() {
    assert_eq!(IpAddress::parse("10.1.2.3/0").unwrap().netmask, [0, 0, 0, 0]);
    assert_eq!(IpAddress::parse("10.1.2.3/8").unwrap().netmask, [255, 0, 0, 0]);
    assert_eq!(IpAddress::parse("10.1.2.3/12").unwrap().netmask, [255, 240, 0, 0]);
    assert_eq!(IpAddress::parse("10.1.2.3/31").unwrap().netmask, [255, 255, 255, 254]);
    assert_eq!(IpAddress::parse("10.1.2.3/32").unwrap().netmask, [255, 255, 255, 255]);
    assert_eq!(IpAddress::parse("10.1.2.3/12").unwrap().address, [10, 1, 2, 3]);
}

#[test]
fn parse_port_limits() {
    assert_eq!(IpAddress::parse("1.2.3.4:0").unwrap().port, 0);
    assert_eq!(IpAddress::parse("1.2.3.4:65535").unwrap().port, 65535);
    assert!(IpAddress::parse("1.2.3.4:65536").is_none());
    assert!(IpAddress::parse("1.2.3.4:99999999999999999999").is_none());
    assert_eq!(IpAddress::parse("1.2.3.4:+80").unwrap().port, 80);
    assert_eq!(IpAddress::parse("1.2.3.4:0080").unwrap().port, 80);
}

#[test]
fn parse_refuses_what_is_no_address() {
    assert!(IpAddress::parse("").is_none());
    assert!(IpAddress::parse("not an address").is_none());
    assert!(IpAddress::parse("1.2.3.4:").is_none());
    assert!(IpAddress::parse("1.2.3.4:12:13").is_none());
    assert!(IpAddress::parse("1.2.3.4:-1").is_none());
    assert!(IpAddress::parse("1.2.3.4:8o").is_none());
    assert!(IpAddress::parse("1.2.3.256:80").is_none());
    assert!(IpAddress::parse("1.2.3.4/33").is_none());
    assert!(IpAddress::parse("1.2.3.4/:80").is_none());
    assert!(IpAddress::parse("1.2.3.\u{664}:80").is_none());
    assert!(IpAddress::parse(":80").is_none());
}

#[test]
fn text_is_address_and_port() {
    let a = IpAddress { address: [10, 0, 0, 9], netmask: [255, 255, 255, 0], port: 1331 };
    assert_eq!(a.to_text(), "10.0.0.9:1331");
    let b = IpAddress { address: [0, 0, 0, 0], netmask: [0, 0, 0, 0], port: 0 };
    assert_eq!(b.to_text(), "0.0.0.0:0");
    let c = IpAddress { address: [255, 255, 255, 255], netmask: [0, 0, 0, 0], port: 65535 };
    assert_eq!(c.to_text(), "255.255.255.255:65535");
    let d = IpAddress { address: [100, 20, 3, 109], netmask: [0, 0, 0, 0], port: 10 };
    assert_eq!(d.to_text(), "100.20.3.109:10");
}

#[test]
fn text_round_trip() {
    let texts = [
        "10.0.0.9:1331",
        "0.0.0.0:0",
        "255.255.255.255:65535",
        "127.0.0.1:8080",
        "1.22.133.4:5",
        "192.168.1.100:60000",
    ];
    for s in texts {
        assert_eq!(IpAddress::parse(s).unwrap().to_text(), s);
        assert_eq!(IpAddress::from(s).to_text(), s);
    }
}

#[test]
fn round_trip_of_every_port_digit_count() {
    for port in [0u16, 7, 42, 999, 1000, 9999, 10000, 65535] {
        for last in [0u8, 9, 10, 99, 100, 255] {
            let a = IpAddress { address: [1, 2, 3, last], netmask: [255, 255, 255, 255], port };
            let back = IpAddress::parse(a.to_text().as_str()).unwrap();
            assert_eq!(back.address, a.address);
            assert_eq!(back.port, a.port);
            assert_eq!(back.netmask, [255, 255, 255, 255]);
        }
    }
}

#[test]
fn equals_looks_at_octets_and_port_only() {
    let a = IpAddress { address: [10, 0, 0, 9], netmask: [255, 255, 255, 255], port: 1331 };
    let same = IpAddress { address: [10, 0, 0, 9], netmask: [0, 0, 0, 0], port: 1331 };
    let other_port = IpAddress { address: [10, 0, 0, 9], netmask: [255, 255, 255, 255], port: 1330 };
    let other_host = IpAddress { address: [10, 0, 0, 8], netmask: [255, 255, 255, 255], port: 1331 };
    assert!(a.equals(&a));
    assert!(a.equals(&same));
    assert!(!a.equals(&other_port));
    assert!(!a.equals(&other_host));
}
