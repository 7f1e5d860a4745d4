use ai_protect::engine::identity::Identity;
use ai_protect::engine::net::SocketAddr;

fn addr(ip: &str, port: u16) -> SocketAddr {
    SocketAddr { ip: ip.to_string(), port }
}

#[test]
fn formats_peer_ip_as_identity_string() {
    let identity = Identity::from_peer_addr(addr("127.0.0.1", 54321));

    assert_eq!(identity.0, "ip:127.0.0.1");
}

#[test]
fn peer_ip_and_bind_dn_never_collide_even_with_matching_text() {
    let ip_identity = Identity::from_peer_addr(addr("127.0.0.1", 1));
    let dn_identity = Identity::from_bind_dn("127.0.0.1".to_string());

    assert_ne!(ip_identity, dn_identity);
}

#[test]
fn same_ip_different_ports_share_identity() {
    let a = Identity::from_peer_addr(addr("127.0.0.1", 1));
    let b = Identity::from_peer_addr(addr("127.0.0.1", 2));

    assert_eq!(a, b);
}

#[test]
fn distinct_ips_produce_distinct_identities() {
    let a = Identity::from_peer_addr(addr("127.0.0.1", 1));
    let b = Identity::from_peer_addr(addr("127.0.0.2", 1));

    assert_ne!(a, b);
}
