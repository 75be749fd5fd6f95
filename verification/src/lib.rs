//! End-to-end-encrypted peer-to-peer messaging core.
//!
//! The crate covers long-term identity and one-time-key management, pairwise
//! double-ratchet sessions, sender-keyed group ratchets with explicit rekeying,
//! trust-on-first-use certificate pinning, an encrypted-at-rest key store, a
//! human-comparable safety number, a retrying delivery queue, and the durable
//! message store, together with the orchestrating chat service.  Transport,
//! disk access and JSON framing of the wire payloads live outside the crate.

pub mod error;
pub mod features;
pub mod text;
pub mod crypto;
pub mod services;
pub mod debrid;
pub mod iptv;
pub mod web_archive;
pub mod archive_viewer;
pub mod torrent;
pub mod wallet;
