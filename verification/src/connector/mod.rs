//! Wire protocols.

pub mod ber;
pub mod ldap;
pub mod message;
