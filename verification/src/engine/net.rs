//! Network addresses as plain values.

use vstd::prelude::*;

verus! {

/// The address of one end of a connection: an IP address in text form, and a
/// port.
#[derive(Debug, Clone, PartialEq, Eq)]
pub struct SocketAddr {
    pub ip: String,
    pub port: u16,
}

impl SocketAddr {
    /// A copy of this address.
    pub fn duplicate(&self) -> (copy: SocketAddr)
        ensures
            copy == *self,
    {
        SocketAddr { ip: self.ip.clone(), port: self.port }
    }
}

}
