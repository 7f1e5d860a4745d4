//! Who is acting.

use vstd::prelude::*;

use crate::engine::net::SocketAddr;

verus! {

/// The principal that policy history and audit records are kept under.
#[derive(Debug, Clone, PartialEq, Eq, Hash, PartialOrd, Ord)]
pub struct Identity(pub String);

impl View for Identity {
    type V = Seq<char>;

    open spec fn view(&self) -> Seq<char> {
        self.0@
    }
}

/// The identity of a client known only by its IP address.
pub open spec fn peer_identity(ip: Seq<char>) -> Seq<char> {
    "ip:"@ + ip
}

/// The identity of a client whose bind under `dn` succeeded.
pub open spec fn dn_identity(dn: Seq<char>) -> Seq<char> {
    "dn:"@ + dn
}

impl Identity {
    /// The identity of a client before any successful bind. It leaves the
    /// ephemeral port out, so that a reconnect keeps its history.
    pub fn from_peer_addr(addr: SocketAddr) -> (identity: Identity)
        ensures
            identity@ == peer_identity(addr.ip@),
    {
        let mut text = "ip:".to_owned();
        text.append(addr.ip.as_str());
        Identity(text)
    }

    /// The identity of a client whose bind under `dn` was confirmed by the
    /// directory.
    pub fn from_bind_dn(dn: String) -> (identity: Identity)
        ensures
            identity@ == dn_identity(dn@),
    {
        let mut text = "dn:".to_owned();
        text.append(dn.as_str());
        Identity(text)
    }

    /// A copy of this identity.
    pub fn duplicate(&self) -> (copy: Identity)
        ensures
            copy == *self,
    {
        Identity(self.0.clone())
    }
}

/// An address-based identity and a DN-based one never coincide, whatever text
/// the DN holds.
pub proof fn peer_and_dn_identities_are_disjoint(ip: Seq<char>, dn: Seq<char>)
    ensures
        peer_identity(ip) != dn_identity(dn),
{
    reveal_strlit("ip:");
    reveal_strlit("dn:");
    assert(peer_identity(ip)[0] == 'i');
    assert(dn_identity(dn)[0] == 'd');
}

/// Two address-based identities coincide exactly when the IP addresses do;
/// the port plays no part.
pub proof fn peer_identity_is_the_ip(a: SocketAddr, b: SocketAddr)
    ensures
        peer_identity(a.ip@) == peer_identity(b.ip@) <==> a.ip@ == b.ip@,
{
    lemma_prefix_is_injective("ip:"@, a.ip@, b.ip@);
}

/// Two DN-based identities coincide exactly when the DNs do.
pub proof fn dn_identity_is_the_dn(a: Seq<char>, b: Seq<char>)
    ensures
        dn_identity(a) == dn_identity(b) <==> a == b,
{
    lemma_prefix_is_injective("dn:"@, a, b);
}

proof fn lemma_prefix_is_injective(prefix: Seq<char>, a: Seq<char>, b: Seq<char>)
    ensures
        prefix + a == prefix + b <==> a == b,
{
    if prefix + a == prefix + b {
        assert((prefix + a).skip(prefix.len() as int) =~= a);
        assert((prefix + b).skip(prefix.len() as int) =~= b);
    }
}

/// An identity says where it comes from: an address follows `ip:`, and a DN
/// follows `dn:`, each as it is.
pub proof fn identities_say_where_they_come_from(text: Seq<char>)
    ensures
        peer_identity(text) == seq!['i', 'p', ':'] + text,
        dn_identity(text) == seq!['d', 'n', ':'] + text,
{
    reveal_strlit("ip:");
    reveal_strlit("dn:");
    assert("ip:"@ =~= seq!['i', 'p', ':']);
    assert("dn:"@ =~= seq!['d', 'n', ':']);
}

/// An identity is its text.
pub proof fn identities_are_their_text(identity: Identity)
    ensures
        identity@ == identity.0@,
{
}

}
