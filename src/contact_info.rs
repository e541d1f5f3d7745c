//! How to reach a peer: our own side, which keeps a live socket, and the side
//! sent out of band to the peer, which carries none.

use vstd::prelude::*;

use crate::peer_id::PeerId;

verus! {

/// Size of the rendezvous secret.
pub const SECRET_BYTES: usize = 4;

/// Transport protocol of a listening endpoint.
#[derive(Clone, Copy, Debug, PartialEq, Eq, Structural)]
pub enum Protocol {
    Tcp,
    Utp,
}

/// An IP address, as its bytes or segments.
#[derive(Clone, Copy, Debug, PartialEq, Eq)]
pub enum IpAddr {
    V4([u8; 4]),
    V6([u16; 8]),
}

/// An IP address with a port.
#[derive(Clone, Copy, Debug, PartialEq, Eq)]
pub struct SocketAddr {
    pub ip: IpAddr,
    pub port: u16,
}

/// A listening address with the protocol spoken there.
#[derive(Clone, Copy, Debug, PartialEq, Eq)]
pub struct Endpoint {
    pub protocol: Protocol,
    pub addr: SocketAddr,
}

/// Contact info prepared on our side. `socket` is the mapped UDP socket, kept
/// open so that the mapping of the NAT stays alive; it is released with the value.
#[derive(Debug)]
pub struct OurContactInfo<S> {
    pub socket: S,
    /// Secret data used for rendezvous connect.
    pub secret: Option<[u8; 4]>,
    /// Our TCP listening addresses.
    pub static_addrs: Vec<Endpoint>,
    /// The mapped addresses of our UDP socket.
    pub rendezvous_addrs: Vec<SocketAddr>,
    /// Our identity.
    pub pub_key: PeerId,
}

/// Contact info used to connect to another peer: what they sent us out of band.
#[derive(Debug)]
pub struct TheirContactInfo {
    /// Secret data used for rendezvous connect.
    pub secret: Option<[u8; 4]>,
    /// Their TCP listening addresses.
    pub static_addrs: Vec<Endpoint>,
    /// Their mapped addresses for UDP rendezvous connect.
    pub rendezvous_addrs: Vec<SocketAddr>,
    /// Their identity.
    pub pub_key: PeerId,
}

fn copy_all<T: Copy>(v: &Vec<T>) -> (r: Vec<T>)
    ensures
        r@ == v@,
{
    let mut r: Vec<T> = Vec::new();
    let mut i: usize = 0;
    while i < v.len()
        invariant
            i <= v@.len(),
            r@ == v@.subrange(0, i as int),
        decreases v@.len() - i,
    {
        r.push(v[i]);
        i = i + 1;
        assert(r@ =~= v@.subrange(0, i as int));
    }
    assert(r@ =~= v@);
    r
}

impl<S> OurContactInfo<S> {
    /// The info to send to a peer so that it can connect to us: the secret, both
    /// address lists and the identity, field for field, and no socket.
    pub fn make_their_info(&self) -> (r: TheirContactInfo)
        ensures
            r.secret == self.secret,
            r.static_addrs@ == self.static_addrs@,
            r.rendezvous_addrs@ == self.rendezvous_addrs@,
            r.pub_key == self.pub_key,
    {
        TheirContactInfo {
            secret: self.secret,
            static_addrs: copy_all(&self.static_addrs),
            rendezvous_addrs: copy_all(&self.rendezvous_addrs),
            pub_key: self.pub_key,
        }
    }
}

} // verus!
