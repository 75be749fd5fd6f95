//! Cryptographic state of the messaging core: the encrypted key store, the
//! local identity, pairwise double-ratchet sessions, sender-keyed group
//! ratchets, and the safety-number fingerprint.

pub mod digest;
pub mod safety_numbers;
pub mod key_store;
pub mod identity;
pub mod olm;
pub mod megolm;
pub mod sessions;
pub mod group_sessions;
