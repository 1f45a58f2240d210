//! The verified core of a DNS forwarding proxy: the reversible transform of
//! the tunnel, the decoder of DNS messages, the response cache and the
//! decisions of the proxy engine.
pub mod address;
pub mod cache;
pub mod crypt;
pub mod dns;
pub mod proxy;
pub mod report;
pub mod text;
