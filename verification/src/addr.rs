//! Network addresses in their binary multiaddr form.

use crate::peer::PeerId;
use vstd::prelude::*;

verus! {

/// The multiaddr parser's error, carried through unread.
#[verifier::external_type_specification]
#[verifier::external_body]
pub struct ExMultiaddrError(libp2p::multiaddr::Error);

/// The binary encoding that libp2p gives to the textual multiaddr `text`, or
/// `None` where libp2p does not accept `text` as a multiaddr.
pub uninterp spec fn multiaddr_encoding(text: Seq<char>) -> Option<Seq<u8>>;

/// Parses `text` with libp2p's `Multiaddr::from_str` and returns the bytes
/// that `Multiaddr::to_vec` gives for the parsed address. The parser reads
/// nothing but its argument, so the outcome is `multiaddr_encoding` of the
/// text: the bytes where it accepts the text, its error where it does not.
#[verifier::external_body]
fn encode_multiaddr(text: &str) -> (r: Result<Vec<u8>, libp2p::multiaddr::Error>)
    ensures
        r is Ok <==> multiaddr_encoding(text@) is Some,
        r matches Ok(bytes) ==> multiaddr_encoding(text@) == Some(bytes@),
{
    match text.parse::<libp2p::Multiaddr>() {
        Ok(addr) => Ok(addr.to_vec()),
        Err(e) => Err(e),
    }
}

/// Why an address could not be dialed.
#[derive(Clone, Copy, Debug, PartialEq, Eq, Structural)]
pub enum DialError {
    /// The text is not a multiaddr.
    MalformedAddress,
    /// The transport could not reach the address.
    Unreachable,
}

/// A network address: the bytes of a multiaddr. Two addresses are the same
/// when their bytes are.
#[derive(Debug)]
pub struct Multiaddr {
    pub bytes: Vec<u8>,
}

impl View for Multiaddr {
    type V = Seq<u8>;

    open spec fn view(&self) -> Seq<u8> {
        self.bytes@
    }
}

impl PartialEq for Multiaddr {
    fn eq(&self, other: &Multiaddr) -> (equal: bool) {
        self.same(other)
    }
}

impl Eq for Multiaddr {

}

impl vstd::std_specs::cmp::PartialEqSpecImpl for Multiaddr {
    open spec fn obeys_eq_spec() -> bool {
        true
    }

    open spec fn eq_spec(&self, other: &Multiaddr) -> bool {
        self@ == other@
    }
}

impl Clone for Multiaddr {
    fn clone(&self) -> (copy: Self)
        ensures
            copy@ == self@,
    {
        let bytes = self.bytes.clone();
        Multiaddr { bytes }
    }
}

impl Multiaddr {
    /// The address with the given binary form.
    pub fn from_bytes(bytes: Vec<u8>) -> (addr: Multiaddr)
        ensures
            addr@ == bytes@,
    {
        Multiaddr { bytes }
    }

    /// The binary form of the address.
    pub fn to_bytes(&self) -> (bytes: Vec<u8>)
        ensures
            bytes@ == self@,
    {
        let bytes = self.bytes.clone();
        bytes
    }

    /// Parses a textual multiaddr such as `/ip4/1.2.3.4/tcp/9000`. Text that
    /// is not a multiaddr gives `DialError::MalformedAddress`.
    pub fn parse(text: &str) -> (r: Result<Multiaddr, DialError>)
        ensures
            r is Ok <==> multiaddr_encoding(text@) is Some,
            r matches Ok(addr) ==> multiaddr_encoding(text@) == Some(addr@),
            r matches Err(e) ==> e == DialError::MalformedAddress,
    {
        match encode_multiaddr(text) {
            Ok(bytes) => Ok(Multiaddr { bytes }),
            Err(_) => Err(DialError::MalformedAddress),
        }
    }

    /// Whether the two addresses are the same.
    pub fn same(&self, other: &Multiaddr) -> (equal: bool)
        ensures
            equal == (self@ == other@),
    {
        if self.bytes.len() != other.bytes.len() {
            return false;
        }
        let mut i: usize = 0;
        while i < self.bytes.len()
            invariant
                i <= self.bytes.len(),
                self.bytes.len() == other.bytes.len(),
                forall|j: int| 0 <= j < i ==> self.bytes@[j] == other.bytes@[j],
            decreases self.bytes.len() - i,
        {
            if self.bytes[i] != other.bytes[i] {
                return false;
            }
            i += 1;
        }
        assert(self.bytes@ =~= other.bytes@);
        true
    }
}

/// The views of a sequence of addresses.
pub open spec fn addr_views(addrs: Seq<Multiaddr>) -> Seq<Seq<u8>> {
    Seq::new(addrs.len(), |i: int| addrs[i]@)
}

/// Whether `addr` occurs in `addrs`.
pub fn contains_addr(addrs: &Vec<Multiaddr>, addr: &Multiaddr) -> (found: bool)
    ensures
        found == addr_views(addrs@).contains(addr@),
{
    let mut i: usize = 0;
    while i < addrs.len()
        invariant
            i <= addrs.len(),
            forall|j: int| 0 <= j < i ==> addr_views(addrs@)[j] != addr@,
        decreases addrs.len() - i,
    {
        if addrs[i].same(addr) {
            assert(addr_views(addrs@)[i as int] == addr@);
            return true;
        }
        i += 1;
    }
    false
}

/// A copy of a list of addresses.
pub fn clone_addrs(addrs: &Vec<Multiaddr>) -> (copy: Vec<Multiaddr>)
    ensures
        addr_views(copy@) == addr_views(addrs@),
{
    let mut copy: Vec<Multiaddr> = Vec::new();
    let mut i: usize = 0;
    while i < addrs.len()
        invariant
            i <= addrs.len(),
            copy.len() == i,
            forall|j: int| 0 <= j < i ==> copy@[j]@ == addrs@[j]@,
        decreases addrs.len() - i,
    {
        copy.push(addrs[i].clone());
        i += 1;
    }
    copy
}

/// A peer together with one address at which it can be reached.
#[derive(Debug, PartialEq, Eq)]
pub struct Contact {
    pub peer: PeerId,
    pub addr: Multiaddr,
}

impl View for Contact {
    type V = (Seq<u8>, Seq<u8>);

    open spec fn view(&self) -> (Seq<u8>, Seq<u8>) {
        (self.peer@, self.addr@)
    }
}

impl Clone for Contact {
    fn clone(&self) -> (copy: Self)
        ensures
            copy@ == self@,
    {
        Contact { peer: self.peer, addr: self.addr.clone() }
    }
}

/// The views of a sequence of contacts.
pub open spec fn contact_views(contacts: Seq<Contact>) -> Seq<(Seq<u8>, Seq<u8>)> {
    Seq::new(contacts.len(), |k: int| contacts[k]@)
}

/// A copy of a list of contacts.
pub fn clone_contacts(contacts: &Vec<Contact>) -> (copy: Vec<Contact>)
    ensures
        contact_views(copy@) == contact_views(contacts@),
{
    let mut copy: Vec<Contact> = Vec::new();
    let mut i: usize = 0;
    while i < contacts.len()
        invariant
            i <= contacts.len(),
            copy.len() == i,
            forall|j: int| 0 <= j < i ==> copy@[j]@ == contacts@[j]@,
        decreases contacts.len() - i,
    {
        copy.push(contacts[i].clone());
        i += 1;
    }
    copy
}

} // verus!
