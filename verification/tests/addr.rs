use mesh_network::addr::{AddrParseError, Ipv4Addr, NETMASK, SUBNET};

#[test]
fn addresses_are_read() {
    assert_eq!(Ipv4Addr::from_str("10.67.1.5"), Ok(Ipv4Addr::new(10, 67, 1, 5)));
    assert_eq!(Ipv4Addr::from_str("0.0.0.0"), Ok(Ipv4Addr::new(0, 0, 0, 0)));
    assert_eq!(Ipv4Addr::from_str("255.255.255.255"), Ok(Ipv4Addr::new(255, 255, 255, 255)));
}

#[test]
fn other_texts_are_refused() {
    for text in [
        "", ".", "10", "10.67.1", "10.67.1.", ".10.67.1.5", "10.67.1.5.", "10.67.1.5.6", "10..1.5",
        "10.67.1.256", "10.67.1.1000", "10.67.1.05", "010.67.1.5", "10.67.1.00", " 10.67.1.5",
        "10.67.1.5 ", "10.67.1.+5", "10.67.1.-5", "a.b.c.d", "10,67,1,5", "0x0a.67.1.5",
        "10.67.1.\u{0665}",
    ] {
        assert_eq!(Ipv4Addr::from_str(text), Err(AddrParseError), "{:?}", text);
    }
    assert_eq!(AddrParseError.message(), "invalid IPv4 address syntax");
}

#[test]
fn texts_read_back() {
    for ip in [
        Ipv4Addr::new(10, 67, 1, 5),
        Ipv4Addr::new(1, 20, 255, 0),
        Ipv4Addr::new(192, 168, 100, 99),
    ] {
        assert_eq!(Ipv4Addr::from_str(&ip.to_text()), Ok(ip));
    }
    assert_eq!(Ipv4Addr::new(1, 20, 255, 0).to_text(), "1.20.255.0");
}

#[test]
fn octets_come_apart_as_they_were_put_together() {
    assert_eq!(Ipv4Addr::new(1, 2, 3, 4).octets(), [1, 2, 3, 4]);
    assert_eq!(Ipv4Addr::new(1, 2, 3, 4).bits, 0x0102_0304);
}

#[test]
fn mesh_is_10_67() {
    assert!(Ipv4Addr::new(10, 67, 0, 0).is_in_mesh());
    assert!(Ipv4Addr::new(10, 67, 255, 255).is_in_mesh());
    assert!(!Ipv4Addr::new(10, 68, 0, 0).is_in_mesh());
    assert!(!Ipv4Addr::new(11, 67, 0, 0).is_in_mesh());
    assert!(!Ipv4Addr::new(192, 168, 1, 1).is_in_mesh());
    assert_eq!(Ipv4Addr { bits: SUBNET }, Ipv4Addr::new(10, 67, 0, 0));
    assert_eq!(Ipv4Addr { bits: NETMASK }, Ipv4Addr::new(255, 255, 0, 0));
}
