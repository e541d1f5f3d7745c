use crust::peer_id::PeerId;
use crust::registry::ConnectionMap;

fn key(first: u8) -> PeerId {
    let mut k = [0u8; 32];
    k[0] = first;
    PeerId::new(k)
}

#[test]
fn begin_creates_and_end_removes() {
    let p = key(4);
    let mut cm: ConnectionMap<u8> = ConnectionMap::new();
    assert!(!cm.contains(&p));
    cm.begin_handshake(p);
    cm.begin_handshake(p);
    assert_eq!(cm.handshake_count(&p), 2);
    cm.end_handshake(&p);
    assert!(cm.contains(&p));
    assert_eq!(cm.handshake_count(&p), 1);
    cm.end_handshake(&p);
    assert!(!cm.contains(&p));
    assert_eq!(cm.handshake_count(&p), 0);
}

#[test]
fn active_entry_outlives_handshakes() {
    let p = key(4);
    let mut cm: ConnectionMap<u8> = ConnectionMap::new();
    cm.begin_handshake(p);
    cm.set_active(p, 7);
    assert_eq!(cm.handshake_count(&p), 1);
    cm.end_handshake(&p);
    assert!(cm.contains(&p));
    assert!(cm.has_active(&p));
    assert_eq!(cm.active(&p), Some(&7));
    cm.end_handshake(&p);
    assert!(cm.contains(&p));
    assert_eq!(cm.handshake_count(&p), 0);
}

#[test]
fn set_active_without_handshake_creates_entry() {
    let p = key(4);
    let mut cm: ConnectionMap<u8> = ConnectionMap::new();
    cm.set_active(p, 1);
    assert!(cm.contains(&p));
    assert_eq!(cm.handshake_count(&p), 0);
    cm.set_active(p, 2);
    assert_eq!(cm.active(&p), Some(&2));
}

#[test]
fn end_without_entry_changes_nothing() {
    let p = key(4);
    let q = key(5);
    let mut cm: ConnectionMap<u8> = ConnectionMap::new();
    cm.begin_handshake(q);
    cm.end_handshake(&p);
    assert!(!cm.contains(&p));
    assert_eq!(cm.handshake_count(&q), 1);
}

#[test]
fn peers_are_kept_apart() {
    let p = key(4);
    let q = key(5);
    let r = key(6);
    let mut cm: ConnectionMap<u8> = ConnectionMap::new();
    cm.begin_handshake(p);
    cm.begin_handshake(q);
    cm.begin_handshake(r);
    cm.set_active(q, 9);
    cm.end_handshake(&p);
    assert!(!cm.contains(&p));
    assert_eq!(cm.handshake_count(&q), 1);
    assert_eq!(cm.handshake_count(&r), 1);
    assert!(!cm.has_active(&r));
    assert_eq!(cm.active(&q), Some(&9));
    assert_eq!(cm.active(&p), None);
}

#[test]
fn entry_exists_iff_live_along_a_sequence() {
    let p = key(1);
    let mut cm: ConnectionMap<u8> = ConnectionMap::new();
    let check = |cm: &ConnectionMap<u8>| {
        assert_eq!(cm.contains(&p), cm.handshake_count(&p) > 0 || cm.has_active(&p));
    };
    check(&cm);
    cm.begin_handshake(p);
    check(&cm);
    cm.end_handshake(&p);
    check(&cm);
    cm.begin_handshake(p);
    check(&cm);
    cm.set_active(p, 3);
    check(&cm);
    cm.end_handshake(&p);
    check(&cm);
    cm.end_handshake(&p);
    check(&cm);
}

#[test]
fn identities_compare_by_bytes() {
    let a = key(1);
    let b = key(1);
    let c = key(2);
    assert!(a.same_as(&b));
    assert!(!a.same_as(&c));
    assert!(c.is_greater_than(&a));
    assert!(!a.is_greater_than(&c));
    let top = PeerId::new([255u8; 32]);
    let bottom = PeerId::new([0u8; 32]);
    assert!(top.is_greater_than(&bottom));
}
