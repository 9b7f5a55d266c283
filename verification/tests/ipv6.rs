use edge_lb::ipv6::{format_ipv6, parse_ipv6};
use edge_lb::registry::parse_ip_address;
use edge_lb::route_msg::IpAddress;

fn groups(g: [u16; 8]) -> u128 {
    g.iter().fold(0u128, |v, x| (v << 16) | u128::from(*x))
}

#[test]
fn ipv6_text_parses_like_the_standard_reader() {
    let ok: [(&str, [u16; 8]); 14] = [
        ("::", [0; 8]),
        ("::1", [0, 0, 0, 0, 0, 0, 0, 1]),
        ("1::", [1, 0, 0, 0, 0, 0, 0, 0]),
        ("1::2", [1, 0, 0, 0, 0, 0, 0, 2]),
        ("fd00:1:2:3::12", [0xfd00, 1, 2, 3, 0, 0, 0, 0x12]),
        ("FD00::ABCD", [0xfd00, 0, 0, 0, 0, 0, 0, 0xabcd]),
        ("1:2:3:4:5:6:7:8", [1, 2, 3, 4, 5, 6, 7, 8]),
        ("1:2:3:4:5:6:1.2.3.4", [1, 2, 3, 4, 5, 6, 0x0102, 0x0304]),
        ("::ffff:10.0.0.1", [0, 0, 0, 0, 0, 0xffff, 0x0a00, 1]),
        ("::1.2.3.4", [0, 0, 0, 0, 0, 0, 0x0102, 0x0304]),
        ("1::1.2.3.4", [1, 0, 0, 0, 0, 0, 0x0102, 0x0304]),
        ("1:2:3:4:5:6:7::", [1, 2, 3, 4, 5, 6, 7, 0]),
        ("::2:3:4:5:6:7:8", [0, 2, 3, 4, 5, 6, 7, 8]),
        ("0000:0000::", [0; 8]),
    ];
    for (text, g) in ok {
        assert_eq!(parse_ipv6(text), Some(groups(g)), "{text:?}");
    }
    for text in [
        "", ":", ":::", "1:::2", "1::2::3", "12345::", "1:2:3:4:5:6:7:8:9", "1:2:3:4:5:6:7", "::01.2.3.4",
        "::256.1.1.1", "1.2.3.4", "1:2:3:4:5:6:7:1.2.3.4", "::1.2.3", "g::", " ::1", "::1 ", "1:2:3:4:5:6:7:8::",
        "00000::", ":1::", "1:",
    ] {
        assert_eq!(parse_ipv6(text), None, "{text:?}");
    }
}

#[test]
fn addresses_parse_in_either_family() {
    assert_eq!(parse_ip_address("10.0.0.1"), Some(IpAddress::V4(0x0a00_0001)));
    assert_eq!(parse_ip_address("fd00::1"), Some(IpAddress::V6(0xfd00_0000_0000_0000_0000_0000_0000_0001)));
    assert_eq!(parse_ip_address("10.0.0"), None);
}

#[test]
fn ipv6_displays_with_the_longest_zero_run_compressed() {
    let cases: [([u16; 8], &str); 9] = [
        ([0; 8], "::"),
        ([0, 0, 0, 0, 0, 0, 0, 1], "::1"),
        ([1, 0, 0, 0, 0, 0, 0, 0], "1::"),
        ([1, 0, 0, 1, 0, 0, 0, 1], "1:0:0:1::1"),
        ([1, 0, 0, 0, 1, 0, 0, 1], "1::1:0:0:1"),
        ([1, 0, 1, 0, 1, 0, 1, 0], "1:0:1:0:1:0:1:0"),
        ([0, 0, 0, 0, 0, 0xffff, 0x0a00, 1], "::ffff:10.0.0.1"),
        ([0, 0, 0, 0, 0, 0, 0x0a00, 1], "::a00:1"),
        ([0xffff; 8], "ffff:ffff:ffff:ffff:ffff:ffff:ffff:ffff"),
    ];
    for (g, text) in cases {
        assert_eq!(format_ipv6(groups(g)), text);
    }
}
