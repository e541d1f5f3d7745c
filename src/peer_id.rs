//! Peer identities: a public key of 32 bytes, ordered byte by byte.

use vstd::prelude::*;

verus! {

/// Number of bytes in a peer's public key.
pub const KEY_BYTES: usize = 32;

/// The identity of a peer: its public signing key.
#[derive(Clone, Copy, Debug, PartialEq, Eq, Hash)]
pub struct PeerId {
    pub key: [u8; 32],
}

/// `a` comes strictly before `b` in lexicographic byte order.
pub open spec fn key_less(a: Seq<u8>, b: Seq<u8>) -> bool {
    exists|i: int|
        0 <= i < a.len() && i < b.len() && a[i] < b[i] && (forall|j: int|
            0 <= j < i ==> a[j] == b[j])
}

impl View for PeerId {
    type V = Seq<u8>;

    open spec fn view(&self) -> Seq<u8> {
        self.key@
    }
}

/// Two distinct keys of one length are ordered one way or the other, never both.
pub proof fn lemma_key_order_total(a: Seq<u8>, b: Seq<u8>)
    requires
        a.len() == b.len(),
        a != b,
    ensures
        key_less(a, b) != key_less(b, a),
{
    assert(exists|i: int| 0 <= i < a.len() && a[i] != b[i]) by {
        if forall|i: int| 0 <= i < a.len() ==> a[i] == b[i] {
            assert(a =~= b);
        }
    }
    lemma_first_difference(a, b);
    let k = choose|i: int| 0 <= i < a.len() && a[i] != b[i] && (forall|j: int|
        0 <= j < i ==> a[j] == b[j]);
    if key_less(a, b) && key_less(b, a) {
        let p = choose|i: int|
            0 <= i < a.len() && i < b.len() && a[i] < b[i] && (forall|j: int|
                0 <= j < i ==> a[j] == b[j]);
        let q = choose|i: int|
            0 <= i < b.len() && i < a.len() && b[i] < a[i] && (forall|j: int|
                0 <= j < i ==> b[j] == a[j]);
        if p < q {
            assert(b[p] == a[p]);
        } else if q < p {
            assert(a[q] == b[q]);
        }
    }
    if a[k] < b[k] {
        assert(key_less(a, b));
    } else {
        assert(key_less(b, a));
    }
}

proof fn lemma_first_difference(a: Seq<u8>, b: Seq<u8>)
    requires
        a.len() == b.len(),
        exists|i: int| 0 <= i < a.len() && a[i] != b[i],
    ensures
        exists|i: int| 0 <= i < a.len() && a[i] != b[i] && (forall|j: int|
            0 <= j < i ==> a[j] == b[j]),
    decreases a.len(),
{
    if a[0] != b[0] {
        assert(0 < a.len() && a[0] != b[0] && (forall|j: int| 0 <= j < 0 ==> a[j] == b[j]));
    } else {
        let a1 = a.subrange(1, a.len() as int);
        let b1 = b.subrange(1, b.len() as int);
        let w = choose|i: int| 0 <= i < a.len() && a[i] != b[i];
        assert(a1[w - 1] != b1[w - 1]);
        lemma_first_difference(a1, b1);
        let k = choose|i: int| 0 <= i < a1.len() && a1[i] != b1[i] && (forall|j: int|
            0 <= j < i ==> a1[j] == b1[j]);
        assert forall|j: int| 0 <= j < k + 1 implies a[j] == b[j] by {
            if j > 0 {
                assert(a1[j - 1] == b1[j - 1]);
            }
        }
        assert(a[k + 1] != b[k + 1]);
    }
}

impl PeerId {
    pub fn new(key: [u8; 32]) -> (r: PeerId)
        ensures
            r@ == key@,
    {
        PeerId { key }
    }

    /// Whether the two identities hold the same key bytes.
    pub fn same_as(&self, other: &PeerId) -> (r: bool)
        ensures
            r == (self@ == other@),
    {
        let mut i: usize = 0;
        while i < KEY_BYTES
            invariant
                0 <= i <= KEY_BYTES,
                self@.len() == KEY_BYTES,
                other@.len() == KEY_BYTES,
                forall|j: int| 0 <= j < i ==> other@[j] == self@[j],
            decreases KEY_BYTES - i,
        {
            if self.key[i] != other.key[i] {
                assert(self@[i as int] != other@[i as int]);
                return false;
            }
            i = i + 1;
        }
        assert(self@ =~= other@);
        true
    }

    /// Whether this identity orders strictly after `other`.
    pub fn is_greater_than(&self, other: &PeerId) -> (r: bool)
        ensures
            r == key_less(other@, self@),
    {
        let mut i: usize = 0;
        while i < KEY_BYTES
            invariant
                0 <= i <= KEY_BYTES,
                self@.len() == KEY_BYTES,
                other@.len() == KEY_BYTES,
                forall|j: int| 0 <= j < i ==> other@[j] == self@[j],
            decreases KEY_BYTES - i,
        {
            let a = other.key[i];
            let b = self.key[i];
            if a != b {
                if a > b {
                    proof {
                        if key_less(other@, self@) {
                            let p = choose|k: int|
                                0 <= k < other@.len() && k < self@.len() && other@[k] < self@[k]
                                    && (forall|j: int| 0 <= j < k ==> other@[j] == self@[j]);
                            if p < i {
                            } else if p > i {
                                assert(other@[i as int] == self@[i as int]);
                            }
                        }
                    }
                    return false;
                }
                assert(key_less(other@, self@)) by {
                    assert(other@[i as int] < self@[i as int]);
                }
                return true;
            }
            i = i + 1;
        }
        proof {
            if key_less(other@, self@) {
                let p = choose|k: int|
                    0 <= k < other@.len() && k < self@.len() && other@[k] < self@[k] && (forall|
                        j: int,
                    | 0 <= j < k ==> other@[j] == self@[j]);
                assert(other@[p] == self@[p]);
            }
        }
        false
    }
}

} // verus!
