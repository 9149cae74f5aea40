//! Signing in through Heron (OAuth loopback, RFC 8252) and the stored session.
pub mod loopback;
pub mod session;
