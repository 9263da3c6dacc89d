use ipguard::addr::Ipv4Addr;
use ipguard::text::{parse_address, push_address, push_decimal, to_chars};

#[test]
fn decimal_of_counts() {
    for (n, text) in [
        (0u32, "0"),
        (7, "7"),
        (10, "10"),
        (99, "99"),
        (100, "100"),
        (255, "255"),
        (1_000_000, "1000000"),
        (4_294_967_295, "4294967295"),
    ] {
        let mut out = String::new();
        push_decimal(&mut out, n);
        assert_eq!(out, text);
    }
}

#[test]
fn decimal_is_appended() {
    let mut out = String::from("n=");
    push_decimal(&mut out, 1203);
    assert_eq!(out, "n=1203");
}

#[test]
fn address_text() {
    assert_eq!(Ipv4Addr(10, 0, 0, 1).to_text(), "10.0.0.1");
    assert_eq!(Ipv4Addr(0, 0, 0, 0).to_text(), "0.0.0.0");
    assert_eq!(Ipv4Addr(255, 255, 255, 255).to_text(), "255.255.255.255");
    assert_eq!(Ipv4Addr(192, 168, 100, 9).to_text(), "192.168.100.9");
    let mut out = String::from(">");
    push_address(&mut out, Ipv4Addr(1, 20, 200, 0));
    assert_eq!(out, ">1.20.200.0");
}

#[test]
fn chars_of_a_string() {
    assert_eq!(to_chars("a\u{e9}\u{2003}z"), vec!['a', '\u{e9}', '\u{2003}', 'z']);
    assert!(to_chars("").is_empty());
}

#[test]
fn address_is_read() {
    assert_eq!(parse_address("10.0.0.1"), Some(Ipv4Addr(10, 0, 0, 1)));
    assert_eq!(parse_address("0.0.0.0"), Some(Ipv4Addr(0, 0, 0, 0)));
    assert_eq!(parse_address("255.255.255.255"), Some(Ipv4Addr(255, 255, 255, 255)));
    assert_eq!(parse_address("192.168.100.9"), Some(Ipv4Addr(192, 168, 100, 9)));
    assert_eq!(parse_address("1.22.3.199"), Some(Ipv4Addr(1, 22, 3, 199)));
}

#[test]
fn malformed_addresses_are_not_read() {
    for text in [
        "",
        "10",
        "10.0.0",
        "10.0.0.",
        ".10.0.0",
        "10..0.1",
        "10.0.0.1.",
        "10.0.0.1.2",
        "256.0.0.1",
        "10.0.0.256",
        "10.0.0.999",
        "10.0.0.1000",
        "010.0.0.1",
        "10.00.0.1",
        "10.0.0.01",
        "10.0.0.1 ",
        " 10.0.0.1",
        "10.0.0.-1",
        "+10.0.0.1",
        "10.0.0.a",
        "a.b.c.d",
        "10,0,0,1",
        "10.0.0.1\n",
        "1o.0.0.1",
        "\u{661}.0.0.1",
        "localhost",
        "::1",
        "0x0a.0.0.1",
    ] {
        assert_eq!(parse_address(text), None, "{:?}", text);
    }
}

#[test]
fn written_address_is_read_back() {
    let mut seed: u32 = 12345;
    for _ in 0..2000 {
        seed = seed.wrapping_mul(1_664_525).wrapping_add(1_013_904_223);
        let bytes = seed.to_be_bytes();
        let ip = Ipv4Addr(bytes[0], bytes[1], bytes[2], bytes[3]);
        assert_eq!(parse_address(&ip.to_text()), Some(ip));
    }
    for n in 0..=255u8 {
        let ip = Ipv4Addr(n, 255 - n, n, 0);
        assert_eq!(parse_address(&ip.to_text()), Some(ip));
    }
}
