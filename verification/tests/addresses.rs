use peers::addr::{IpAddr, SocketAddr};

#[test]
fn unspecified_addresses() {
    assert!(IpAddr::V4(0).is_unspecified());
    assert!(IpAddr::V6(0).is_unspecified());
    assert!(!IpAddr::V4(1).is_unspecified());
    assert!(!IpAddr::V6(1).is_unspecified());
}

#[test]
fn loopback_addresses() {
    assert!(IpAddr::V4(0x7f00_0001).is_loopback());
    assert!(IpAddr::V4(0x7f00_0000).is_loopback());
    assert!(IpAddr::V4(0x7fff_ffff).is_loopback());
    assert!(!IpAddr::V4(0x7eff_ffff).is_loopback());
    assert!(!IpAddr::V4(0x8000_0000).is_loopback());
    assert!(IpAddr::V6(1).is_loopback());
    assert!(!IpAddr::V6(0).is_loopback());
    // An IPv4 loopback address mapped into IPv6 is not one of IPv6.
    assert!(!IpAddr::V6(0xffff_7f00_0001).is_loopback());
}

#[test]
fn parts_of_an_address() {
    let v4 = SocketAddr::V4 { ip: 0x0a00_0001, port: 4131 };
    assert_eq!(v4.ip(), IpAddr::V4(0x0a00_0001));
    assert_eq!(v4.port(), 4131);
    let v6 = SocketAddr::V6 { ip: 7, port: 4132, flowinfo: 1, scope_id: 2 };
    assert_eq!(v6.ip(), IpAddr::V6(7));
    assert_eq!(v6.port(), 4132);
    assert_ne!(v6, SocketAddr::V6 { ip: 7, port: 4132, flowinfo: 0, scope_id: 2 });
}
