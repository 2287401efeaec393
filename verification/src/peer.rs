//! Peer identifiers and the XOR metric between them.
//!
//! A peer identifier is a fixed-length byte string. The distance between two
//! identifiers is the bitwise XOR of their bytes, read as a big-endian
//! unsigned integer. All contracts of the routing table are stated over this
//! integer.

use vstd::prelude::*;

verus! {

/// Number of bytes in a peer identifier.
pub const ID_LEN: usize = 32;

/// Number of bits in a peer identifier, which is also the number of buckets
/// of a routing table.
pub const ID_BITS: usize = 256;

/// Bytewise XOR of two byte strings of the same length.
pub open spec fn xor_bytes(a: Seq<u8>, b: Seq<u8>) -> Seq<u8> {
    Seq::new(a.len(), |i: int| a[i] ^ b[i])
}

/// The unsigned integer that a byte string denotes, most significant byte
/// first.
pub open spec fn be_value(s: Seq<u8>) -> nat
    decreases s.len(),
{
    if s.len() == 0 {
        0
    } else {
        be_value(s.drop_last()) * 256 + s.last() as nat
    }
}

/// The XOR distance between two identifiers given by their bytes.
pub open spec fn distance(a: Seq<u8>, b: Seq<u8>) -> nat {
    be_value(xor_bytes(a, b))
}

/// Number of zero bits in front of the first one bit of a byte; 8 for zero.
pub open spec fn leading_zeros(x: u8) -> nat {
    if x >= 128 {
        0
    } else if x >= 64 {
        1
    } else if x >= 32 {
        2
    } else if x >= 16 {
        3
    } else if x >= 8 {
        4
    } else if x >= 4 {
        5
    } else if x >= 2 {
        6
    } else if x >= 1 {
        7
    } else {
        8
    }
}

/// Number of leading bits that `a` and `b` share, counted from byte `from`
/// on.
pub open spec fn shared_bits_from(a: Seq<u8>, b: Seq<u8>, from: int) -> nat
    decreases a.len() - from,
{
    if from < 0 || from >= a.len() {
        0
    } else if a[from] == b[from] {
        8 + shared_bits_from(a, b, from + 1)
    } else {
        leading_zeros(a[from] ^ b[from])
    }
}

/// Number of leading bits that two identifiers share: the full bit length
/// when they are equal.
pub open spec fn shared_prefix_bits(a: Seq<u8>, b: Seq<u8>) -> nat {
    shared_bits_from(a, b, 0)
}

/// A byte string that agrees with a smaller one up to a position, and is
/// smaller there, denotes a smaller integer.
pub proof fn lemma_be_value_first_difference(s: Seq<u8>, t: Seq<u8>, i: int)
    requires
        s.len() == t.len(),
        0 <= i < s.len(),
        forall|j: int| 0 <= j < i ==> s[j] == t[j],
        s[i] < t[i],
    ensures
        be_value(s) < be_value(t),
    decreases s.len(),
{
    let sp = s.drop_last();
    let tp = t.drop_last();
    if i == s.len() - 1 {
        assert(sp =~= tp);
    } else {
        lemma_be_value_first_difference(sp, tp, i);
    }
}

/// Byte strings of one length that denote the same integer are equal.
pub proof fn lemma_be_value_injective(s: Seq<u8>, t: Seq<u8>)
    requires
        s.len() == t.len(),
        be_value(s) == be_value(t),
    ensures
        s == t,
    decreases s.len(),
{
    if s.len() > 0 {
        let sp = s.drop_last();
        let tp = t.drop_last();
        lemma_be_value_injective(sp, tp);
        assert(s =~= sp.push(s.last()));
    }
}

/// The integer that a byte string of all zeros denotes is zero.
pub proof fn lemma_be_value_zero(s: Seq<u8>)
    requires
        forall|j: int| 0 <= j < s.len() ==> s[j] == 0,
    ensures
        be_value(s) == 0,
    decreases s.len(),
{
    if s.len() > 0 {
        lemma_be_value_zero(s.drop_last());
    }
}

/// The distance of an identifier to itself is zero.
pub proof fn theorem_distance_self(a: Seq<u8>)
    ensures
        distance(a, a) == 0,
{
    let x = xor_bytes(a, a);
    assert forall|j: int| 0 <= j < x.len() implies x[j] == 0 by {
        let v = a[j];
        assert(v ^ v == 0) by (bit_vector);
    }
    lemma_be_value_zero(x);
}

/// The distance does not depend on the order of its arguments.
pub proof fn theorem_distance_symmetric(a: Seq<u8>, b: Seq<u8>)
    requires
        a.len() == b.len(),
    ensures
        distance(a, b) == distance(b, a),
{
    let x = xor_bytes(a, b);
    let y = xor_bytes(b, a);
    assert forall|j: int| 0 <= j < x.len() implies x[j] == y[j] by {
        let v = a[j];
        let w = b[j];
        assert(v ^ w == w ^ v) by (bit_vector);
    }
    assert(x =~= y);
}

/// Two identifiers at the same distance from a third one are the same
/// identifier: seen from one target, no two peers tie.
pub proof fn theorem_distance_injective(a: Seq<u8>, b: Seq<u8>, target: Seq<u8>)
    requires
        a.len() == target.len(),
        b.len() == target.len(),
        distance(a, target) == distance(b, target),
    ensures
        a == b,
{
    let x = xor_bytes(a, target);
    let y = xor_bytes(b, target);
    lemma_be_value_injective(x, y);
    assert forall|j: int| 0 <= j < a.len() implies a[j] == b[j] by {
        let v = a[j];
        let w = b[j];
        let t = target[j];
        assert(x[j] == y[j]);
        assert(v ^ t == w ^ t ==> v == w) by (bit_vector);
    }
}

/// Distance zero means the same identifier.
pub proof fn theorem_distance_zero_is_identity(a: Seq<u8>, b: Seq<u8>)
    requires
        a.len() == b.len(),
        distance(a, b) == 0,
    ensures
        a == b,
{
    theorem_distance_self(b);
    theorem_distance_injective(a, b, b);
}

/// An identifier of a peer: a fixed-length byte string derived from the
/// peer's public key.
#[derive(Clone, Copy, Debug)]
pub struct PeerId {
    pub bytes: [u8; 32],
}

impl View for PeerId {
    type V = Seq<u8>;

    open spec fn view(&self) -> Seq<u8> {
        self.bytes@
    }
}

impl PartialEq for PeerId {
    fn eq(&self, other: &PeerId) -> (equal: bool) {
        self.same(other)
    }
}

impl Eq for PeerId {

}

impl vstd::std_specs::cmp::PartialEqSpecImpl for PeerId {
    open spec fn obeys_eq_spec() -> bool {
        true
    }

    open spec fn eq_spec(&self, other: &PeerId) -> bool {
        self@ == other@
    }
}

/// The key that libp2p's Kademlia gives to the raw bytes `raw`: their
/// SHA-256 digest, 32 bytes long.
pub uninterp spec fn kad_key(raw: Seq<u8>) -> Seq<u8>;

/// Runs `raw` through libp2p's `KBucketKey::new` and returns what
/// `hashed_bytes` gives for the key: the SHA-256 digest of `raw`, which
/// depends on `raw` alone and is 32 bytes long.
#[verifier::external_body]
fn kad_key_bytes(raw: &Vec<u8>) -> (key: [u8; 32])
    ensures
        key@ == kad_key(raw@),
{
    let hashed = libp2p::kad::KBucketKey::new(raw.clone());
    let mut key = [0u8; 32];
    key.copy_from_slice(hashed.hashed_bytes());
    key
}

/// An XOR distance between two identifiers, most significant byte first.
#[derive(Clone, Copy, Debug)]
pub struct Distance {
    pub bytes: [u8; 32],
}

impl View for Distance {
    type V = nat;

    open spec fn view(&self) -> nat {
        be_value(self.bytes@)
    }
}

impl PartialEq for Distance {
    fn eq(&self, other: &Distance) -> (equal: bool) {
        self.same(other)
    }
}

impl Eq for Distance {

}

impl vstd::std_specs::cmp::PartialEqSpecImpl for Distance {
    open spec fn obeys_eq_spec() -> bool {
        true
    }

    open spec fn eq_spec(&self, other: &Distance) -> bool {
        self@ == other@
    }
}

impl Distance {
    /// The bytes of the distance, most significant first.
    pub fn as_bytes(&self) -> (bytes: [u8; 32])
        ensures
            bytes == self.bytes,
    {
        self.bytes
    }

    /// Whether this distance is zero.
    pub fn is_zero(&self) -> (zero: bool)
        ensures
            zero == (self@ == 0),
    {
        let mut i: usize = 0;
        while i < 32
            invariant
                i <= 32,
                forall|j: int| 0 <= j < i ==> self.bytes@[j] == 0,
            decreases 32 - i,
        {
            if self.bytes[i] != 0 {
                proof {
                    let zeros = Seq::new(32, |j: int| 0u8);
                    lemma_be_value_zero(zeros);
                    if self@ == 0 {
                        lemma_be_value_injective(self.bytes@, zeros);
                    }
                }
                return false;
            }
            i += 1;
        }
        proof {
            lemma_be_value_zero(self.bytes@);
        }
        true
    }

    /// Whether this distance is strictly smaller than `other`.
    pub fn less_than(&self, other: &Distance) -> (less: bool)
        ensures
            less == (self@ < other@),
    {
        let mut i: usize = 0;
        while i < 32
            invariant
                i <= 32,
                forall|j: int| 0 <= j < i ==> self.bytes@[j] == other.bytes@[j],
            decreases 32 - i,
        {
            if self.bytes[i] < other.bytes[i] {
                proof {
                    lemma_be_value_first_difference(self.bytes@, other.bytes@, i as int);
                }
                return true;
            }
            if self.bytes[i] > other.bytes[i] {
                proof {
                    lemma_be_value_first_difference(other.bytes@, self.bytes@, i as int);
                }
                return false;
            }
            i += 1;
        }
        assert(self.bytes@ =~= other.bytes@);
        false
    }

    /// Whether the two distances are equal.
    pub fn same(&self, other: &Distance) -> (equal: bool)
        ensures
            equal == (self@ == other@),
            equal == (self.bytes@ == other.bytes@),
    {
        let mut i: usize = 0;
        while i < 32
            invariant
                i <= 32,
                forall|j: int| 0 <= j < i ==> self.bytes@[j] == other.bytes@[j],
            decreases 32 - i,
        {
            if self.bytes[i] != other.bytes[i] {
                proof {
                    if self@ == other@ {
                        lemma_be_value_injective(self.bytes@, other.bytes@);
                    }
                }
                return false;
            }
            i += 1;
        }
        assert(self.bytes@ =~= other.bytes@);
        true
    }
}

impl PeerId {
    /// The identifier with the given bytes.
    pub fn new(bytes: [u8; 32]) -> (id: PeerId)
        ensures
            id@ == bytes@,
            id.bytes == bytes,
    {
        PeerId { bytes }
    }

    /// The identifier that Kademlia derives from the raw bytes of a peer's
    /// name, such as the bytes of a libp2p peer id: their position in the
    /// key space.
    pub fn from_raw(raw: &Vec<u8>) -> (id: PeerId)
        ensures
            id@ == kad_key(raw@),
    {
        PeerId { bytes: kad_key_bytes(raw) }
    }

    /// The bytes of the identifier.
    pub fn as_bytes(&self) -> (bytes: [u8; 32])
        ensures
            bytes@ == self@,
    {
        self.bytes
    }

    /// Whether the two identifiers are the same.
    pub fn same(&self, other: &PeerId) -> (equal: bool)
        ensures
            equal == (self@ == other@),
            equal == (*self == *other),
    {
        let mut i: usize = 0;
        while i < 32
            invariant
                i <= 32,
                forall|j: int| 0 <= j < i ==> self.bytes@[j] == other.bytes@[j],
            decreases 32 - i,
        {
            if self.bytes[i] != other.bytes[i] {
                return false;
            }
            i += 1;
        }
        assert(self.bytes =~= other.bytes);
        true
    }

    /// The XOR distance between the two identifiers.
    pub fn distance(&self, other: &PeerId) -> (d: Distance)
        ensures
            d@ == distance(self@, other@),
            d.bytes@ == xor_bytes(self@, other@),
    {
        let mut out: [u8; 32] = [0u8; 32];
        let mut i: usize = 0;
        while i < 32
            invariant
                i <= 32,
                forall|j: int| 0 <= j < i ==> out@[j] == self.bytes@[j] ^ other.bytes@[j],
            decreases 32 - i,
        {
            out[i] = self.bytes[i] ^ other.bytes[i];
            i += 1;
        }
        Distance { bytes: out }
    }

    /// Number of leading bits that the two identifiers share, from 0 to
    /// `ID_BITS`; `ID_BITS` exactly when they are the same identifier.
    pub fn shared_prefix_len(&self, other: &PeerId) -> (n: usize)
        ensures
            n == shared_prefix_bits(self@, other@),
            n <= ID_BITS,
            n == ID_BITS <==> self@ == other@,
    {
        let mut i: usize = 0;
        while i < 32
            invariant
                i <= 32,
                forall|j: int| 0 <= j < i ==> self.bytes@[j] == other.bytes@[j],
                shared_prefix_bits(self@, other@) == 8 * i + shared_bits_from(
                    self@,
                    other@,
                    i as int,
                ),
            decreases 32 - i,
        {
            let a = self.bytes[i];
            let b = other.bytes[i];
            if a != b {
                let x = a ^ b;
                assert(x != 0) by (bit_vector)
                    requires
                        x == a ^ b,
                        a != b,
                ;
                let z = count_leading_zeros(x);
                return 8 * i + z;
            }
            i += 1;
        }
        assert(self.bytes@ =~= other.bytes@);
        256
    }
}

/// Number of zero bits in front of the first one bit of a byte.
pub fn count_leading_zeros(x: u8) -> (n: usize)
    ensures
        n == leading_zeros(x),
        n <= 8,
        n == 8 <==> x == 0,
{
    if x >= 128 {
        0
    } else if x >= 64 {
        1
    } else if x >= 32 {
        2
    } else if x >= 16 {
        3
    } else if x >= 8 {
        4
    } else if x >= 4 {
        5
    } else if x >= 2 {
        6
    } else if x >= 1 {
        7
    } else {
        8
    }
}

/// The views of a sequence of identifiers.
pub open spec fn peer_views(peers: Seq<PeerId>) -> Seq<Seq<u8>> {
    Seq::new(peers.len(), |k: int| peers[k]@)
}

/// The first position of `peer` in `peers`, if it occurs there.
pub fn position_of_peer(peers: &Vec<PeerId>, peer: &PeerId) -> (r: Option<usize>)
    ensures
        match r {
            Some(k) => k < peers.len() && peer_views(peers@)[k as int] == peer@ && forall|l: int|
                0 <= l < k ==> peer_views(peers@)[l] != peer@,
            None => !peer_views(peers@).contains(peer@),
        },
{
    let mut k: usize = 0;
    while k < peers.len()
        invariant
            k <= peers.len(),
            forall|l: int| 0 <= l < k ==> peer_views(peers@)[l] != peer@,
        decreases peers.len() - k,
    {
        if peers[k].same(peer) {
            return Some(k);
        }
        k += 1;
    }
    None
}

/// Whether `peer` is among `peers`.
pub fn contains_peer(peers: &Vec<PeerId>, peer: &PeerId) -> (found: bool)
    ensures
        found == peer_views(peers@).contains(peer@),
{
    position_of_peer(peers, peer).is_some()
}

} // verus!
