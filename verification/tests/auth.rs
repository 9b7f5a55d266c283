use edge_lb::auth::{authorize, AuthError};
use edge_lb::auth::{format_ip, ip_in_cidr, trusted_remote, trusted_source_cidrs};
use edge_lb::route_msg::IpAddress;

fn v4(a: u32) -> IpAddress {
    IpAddress::V4(a)
}

fn v6(text: &str) -> IpAddress {
    IpAddress::V6(edge_lb::ipv6::parse_ipv6(text).unwrap())
}

#[test]
fn configured_cidrs_win_over_discovery() {
    let configured = vec!["10.0.0.0/8".to_string()];
    assert_eq!(trusted_source_cidrs(&configured, Some("192.168.0.0/24".to_string()), v4(0xc0a8_000c)), configured);
}

#[test]
fn interface_network_then_underlay_slash_24_are_trusted_by_default() {
    assert_eq!(
        trusted_source_cidrs(&Vec::new(), Some("192.168.0.0/22".to_string()), v4(0xc0a8_000c)),
        vec!["192.168.0.0/22".to_string()]
    );
    assert_eq!(trusted_source_cidrs(&Vec::new(), None, v4(0xc0a8_010c)), vec!["192.168.1.0/24".to_string()]);
    assert!(trusted_source_cidrs(&Vec::new(), None, v4(0)).is_empty());
}

#[test]
fn an_ipv6_underlay_trusts_its_slash_64() {
    assert_eq!(
        trusted_source_cidrs(&Vec::new(), None, v6("fd00:1:2:3::12")),
        vec!["fd00:1:2:3::12/64".to_string()]
    );
    assert!(trusted_source_cidrs(&Vec::new(), None, IpAddress::V6(0)).is_empty());
}

#[test]
fn remotes_are_trusted_from_loopback_or_a_trusted_network() {
    let cidrs = vec!["garbage".to_string(), "192.168.0.0/24".to_string()];
    assert!(trusted_remote(&cidrs, v4(0x7f00_0001)));
    assert!(trusted_remote(&cidrs, v4(0xc0a8_0063)));
    assert!(!trusted_remote(&cidrs, v4(0xc0a8_0163)));
    assert!(!ip_in_cidr(v4(0xc0a8_0001), "192.168.0.0/33"));
    assert!(ip_in_cidr(v4(0x0102_0304), "0.0.0.0/0"));
}

#[test]
fn ipv6_remotes_match_ipv6_networks() {
    let cidrs = vec!["fd00:1:2:3::/64".to_string(), "10.0.0.0/8".to_string()];
    assert!(trusted_remote(&cidrs, v6("::1")));
    assert!(trusted_remote(&cidrs, v6("fd00:1:2:3:ffff::9")));
    assert!(!trusted_remote(&cidrs, v6("fd00:1:2:4::9")));
    assert!(!ip_in_cidr(v6("::a00:1"), "10.0.0.0/8"));
    assert!(!ip_in_cidr(v4(0x0a00_0001), "fd00::/8"));
    assert!(!ip_in_cidr(v6("fd00::1"), "fd00::/129"));
    assert!(ip_in_cidr(v6("2001:db8::1"), "::/0"));
}

#[test]
fn addresses_display_in_their_family() {
    assert_eq!(format_ip(v4(0x0a00_0001)), "10.0.0.1");
    assert_eq!(format_ip(v6("fd00:0:0:0:0:0:0:7")), "fd00::7");
}

#[test]
fn calls_need_the_bearer_token_and_a_trusted_peer() {
    let cidrs = vec!["192.168.0.0/24".to_string()];
    let peer = v4(0xc0a8_0015);
    assert_eq!(authorize(Some("s3"), "Bearer s3", Some(peer), &cidrs), Ok(()));
    assert_eq!(authorize(None, "", Some(v4(0x7f00_0001)), &Vec::new()), Ok(()));
    let e = authorize(Some("s3"), "Bearer x", Some(peer), &cidrs).unwrap_err();
    assert_eq!(e, AuthError::BadToken);
    assert_eq!(e.message(), "missing or invalid bearer token");
    let e = authorize(None, "", None, &cidrs).unwrap_err();
    assert_eq!(e.message(), "missing peer address");
    let e = authorize(None, "", Some(v4(0x0a00_0001)), &cidrs).unwrap_err();
    assert_eq!(e, AuthError::Untrusted(v4(0x0a00_0001)));
    assert_eq!(e.message(), "peer 10.0.0.1 is not trusted");
    let e = authorize(None, "", Some(v6("fd00::7")), &cidrs).unwrap_err();
    assert_eq!(e.message(), "peer fd00::7 is not trusted");
}
