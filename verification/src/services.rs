//! Services around the cryptographic core: certificate pinning, transport
//! identity, the delivery queue, the durable message store, the wire types,
//! and the orchestrating chat service.

pub mod runtime;
pub mod chat_tofu;
pub mod chat_types;
pub mod chat_delivery_queue;
pub mod chat_content;
pub mod chat_message_store;
pub mod chat_tls;
pub mod chat_service;
