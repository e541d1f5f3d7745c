use crust::contact_info::{Endpoint, IpAddr, OurContactInfo, Protocol, SocketAddr};
use crust::event::{ContactInfoResult, Event, EventChannel, IoErrorKind};
use crust::peer_id::PeerId;

fn addr(last: u8, port: u16) -> SocketAddr {
    SocketAddr { ip: IpAddr::V4([10, 0, 0, last]), port }
}

#[test]
fn their_info_copies_every_field() {
    let ours = OurContactInfo {
        socket: 5u32,
        secret: Some([1, 2, 3, 4]),
        static_addrs: vec![
            Endpoint { protocol: Protocol::Tcp, addr: addr(1, 5483) },
            Endpoint { protocol: Protocol::Utp, addr: addr(2, 5484) },
        ],
        rendezvous_addrs: vec![
            addr(3, 40000),
            SocketAddr { ip: IpAddr::V6([0, 0, 0, 0, 0, 0, 0, 1]), port: 1 },
        ],
        pub_key: PeerId::new([7u8; 32]),
    };
    let theirs = ours.make_their_info();
    assert_eq!(theirs.secret, Some([1, 2, 3, 4]));
    assert_eq!(theirs.static_addrs, ours.static_addrs);
    assert_eq!(theirs.rendezvous_addrs, ours.rendezvous_addrs);
    assert_eq!(theirs.pub_key, PeerId::new([7u8; 32]));
    assert_eq!(theirs.static_addrs.len(), 2);
}

#[test]
fn their_info_of_empty_lists() {
    let ours = OurContactInfo {
        socket: (),
        secret: None,
        static_addrs: Vec::new(),
        rendezvous_addrs: Vec::new(),
        pub_key: PeerId::new([0u8; 32]),
    };
    let theirs = ours.make_their_info();
    assert_eq!(theirs.secret, None);
    assert!(theirs.static_addrs.is_empty());
    assert!(theirs.rendezvous_addrs.is_empty());
}

#[test]
fn events_come_out_in_emission_order() {
    let p = PeerId::new([3u8; 32]);
    let mut ch: EventChannel<Event<u8, u32>> = EventChannel::new();
    assert!(ch.next().is_none());
    ch.emit(Event::NewMessage(p, vec![1, 2]));
    ch.emit(Event::LostConnection(p));
    ch.emit(Event::BootstrapFinished);
    ch.emit(Event::ContactInfoPrepared(ContactInfoResult {
        result_token: 12,
        result: Err(IoErrorKind::TimedOut),
    }));
    assert_eq!(ch.len(), 4);
    assert!(matches!(ch.next(), Some(Event::NewMessage(_, ref m)) if m == &vec![1, 2]));
    assert!(matches!(ch.next(), Some(Event::LostConnection(_))));
    assert!(matches!(ch.next(), Some(Event::BootstrapFinished)));
    match ch.next() {
        Some(Event::ContactInfoPrepared(r)) => {
            assert_eq!(r.result_token, 12);
            assert!(matches!(r.result, Err(IoErrorKind::TimedOut)));
        }
        _ => panic!("expected the contact info result"),
    }
    assert!(ch.next().is_none());
    assert_eq!(ch.len(), 0);
}
