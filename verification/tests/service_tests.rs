//! Tests of the services around the core: certificate pinning, the
//! delivery queue, the message store, the content frame, the transport
//! identity, and the full chat service.

use archivist_lib::crypto::key_store::KeyStore;
use archivist_lib::services::chat_content::{decode_content, encode_content};
use archivist_lib::services::chat_delivery_queue::{
    backoff_secs, AttemptOutcome, DeliveryQueue, PendingDelivery,
};
use archivist_lib::services::chat_message_store::{
    sanitize_filename, short_peer_id, MessageStore,
};
use archivist_lib::services::chat_service::{ChatService, ChatSettings};
use archivist_lib::services::chat_tls::generate_self_signed_cert;
use archivist_lib::services::chat_tofu::{TofuStore, TrustLevel};
use archivist_lib::services::chat_types::{
    Attachment, ChatMessageContent, DeliveryAck, DeliveryAckStatus, DeliveryStatus,
    OlmMessageType, StoredMessage, WirePayload,
};

fn ks(seed: u8) -> KeyStore {
    let mut key = Vec::new();
    for i in 0..32u8 {
        key.push(seed.wrapping_mul(7).wrapping_add(i));
    }
    KeyStore::new(key).unwrap()
}

fn settings() -> ChatSettings {
    ChatSettings { port: 9443, max_message_size: 4096, store_history: true, notify_on_message: false }
}

// ── TOFU ───────────────────────────────────────────────────────

#[test]
fn test_first_use_trust() {
    let mut store = TofuStore::new();
    let trusted = store.check_or_store("peer-a", "AA:BB:CC").unwrap();
    assert!(trusted);
    assert!(matches!(store.get_entry("peer-a").unwrap().trust_level, TrustLevel::FirstUse));
}

#[test]
fn test_same_fingerprint_accepted() {
    let mut store = TofuStore::new();
    store.check_or_store("peer-a", "AA:BB:CC").unwrap();
    let trusted = store.check_or_store("peer-a", "AA:BB:CC").unwrap();
    assert!(trusted);
}

#[test]
fn test_changed_fingerprint_detected() {
    let mut store = TofuStore::new();
    store.check_or_store("peer-a", "AA:BB:CC").unwrap();
    let trusted = store.check_or_store("peer-a", "DD:EE:FF").unwrap();
    assert!(!trusted);
    let entry = store.get_entry("peer-a").unwrap();
    assert!(matches!(entry.trust_level, TrustLevel::Changed));
    assert_eq!(entry.previous_fingerprint.as_deref(), Some("AA:BB:CC"));
    assert_eq!(entry.cert_fingerprint, "DD:EE:FF");
}

#[test]
fn test_verify_peer() {
    let mut store = TofuStore::new();
    store.check_or_store("peer-a", "AA:BB:CC").unwrap();
    store.verify_peer("peer-a").unwrap();
    assert!(matches!(store.get_entry("peer-a").unwrap().trust_level, TrustLevel::Verified));
}

#[test]
fn test_accept_changed() {
    let mut store = TofuStore::new();
    store.check_or_store("peer-a", "AA:BB:CC").unwrap();
    store.check_or_store("peer-a", "DD:EE:FF").unwrap();
    store.accept_changed("peer-a").unwrap();
    let entry = store.get_entry("peer-a").unwrap();
    assert!(matches!(entry.trust_level, TrustLevel::FirstUse));
    assert!(entry.previous_fingerprint.is_none());
}

#[test]
fn test_persistence() {
    let mut store = TofuStore::new();
    store.check_or_store("peer-a", "AA:BB:CC").unwrap();
    let exported = store.export_entries();
    let mut reloaded = TofuStore::new();
    for (peer, entry) in exported {
        reloaded.hydrate_entry(peer.as_str(), entry);
    }
    assert!(reloaded.get_entry("peer-a").is_some());
}

// ── Delivery queue ─────────────────────────────────────────────

fn ack_delivery(id: &str, retry_count: u32, max_retries: u32) -> PendingDelivery {
    PendingDelivery {
        message_id: id.to_string(),
        conversation_id: "dm:peer".to_string(),
        target_peer_id: "peer".to_string(),
        target_address: "127.0.0.1".to_string(),
        target_port: 9443,
        endpoint: "chat/ack".to_string(),
        payload: WirePayload::Ack(DeliveryAck {
            message_id: id.to_string(),
            status: DeliveryAckStatus::Delivered,
        }),
        retry_count,
        max_retries,
        last_attempt: None,
        created_at: 0,
    }
}

#[test]
fn test_backoff_schedule() {
    assert_eq!(backoff_secs(0), 0);
    assert_eq!(backoff_secs(1), 5);
    assert_eq!(backoff_secs(2), 15);
    assert_eq!(backoff_secs(3), 45);
    assert_eq!(backoff_secs(4), 120);
    assert_eq!(backoff_secs(5), 300);
    assert_eq!(backoff_secs(99), 300);
}

#[test]
fn test_delivery_retries_until_exhausted() {
    let mut q = DeliveryQueue::new();
    q.enqueue(ack_delivery("m1", 0, 3));
    assert_eq!(q.pending_count(), 1);
    // first failure: scheduled again
    let r1 = q.record_attempt(0, false, 1_000);
    assert!(matches!(r1, AttemptOutcome::Scheduled));
    assert_eq!(q.pending_count(), 1);
    assert_eq!(q.get(0).retry_count, 1);
    // second failure: scheduled again
    let r2 = q.record_attempt(0, false, 2_000);
    assert!(matches!(r2, AttemptOutcome::Scheduled));
    // third failure reaches max_retries: removed and reported failed once
    let r3 = q.record_attempt(0, false, 3_000);
    assert!(matches!(r3, AttemptOutcome::Failed));
    assert_eq!(q.pending_count(), 0);
}

#[test]
fn test_delivery_success_removes() {
    let mut q = DeliveryQueue::new();
    q.enqueue(ack_delivery("m1", 0, 3));
    let r = q.record_attempt(0, true, 500);
    assert!(matches!(r, AttemptOutcome::Delivered));
    assert_eq!(q.pending_count(), 0);
}

#[test]
fn test_delivery_backoff_window() {
    let mut q = DeliveryQueue::new();
    q.enqueue(ack_delivery("m1", 0, 10));
    let _ = q.record_attempt(0, false, 10_000);
    // retry_count is now 1: the window is five seconds
    assert!(!archivist_lib::services::chat_delivery_queue::is_ready_for_retry(
        q.get(0),
        12_000
    ));
    assert!(archivist_lib::services::chat_delivery_queue::is_ready_for_retry(
        q.get(0),
        15_000
    ));
}

#[test]
fn test_has_pending_for() {
    let mut q = DeliveryQueue::new();
    q.enqueue(ack_delivery("m1", 0, 3));
    assert!(q.has_pending_for("peer"));
    assert!(!q.has_pending_for("other"));
}

// ── Message store ──────────────────────────────────────────────

fn message(id: &str, text: &str, ts: i64, outgoing: bool) -> StoredMessage {
    StoredMessage {
        id: id.to_string(),
        sender_peer_id: "peer".to_string(),
        content: ChatMessageContent {
            text: text.to_string(),
            reply_to: None,
            attachments: Vec::new(),
        },
        timestamp: ts,
        delivery_status: DeliveryStatus::Sending,
        is_outgoing: outgoing,
    }
}

#[test]
fn test_message_store_roundtrip() {
    let mut store = MessageStore::new();
    store.get_or_create_direct("peer");
    store.add_message("dm:peer", message("m1", "one", 10, true)).unwrap();
    store.add_message("dm:peer", message("m2", "two", 20, false)).unwrap();
    let msgs = store.get_messages("dm:peer", 10, None);
    assert_eq!(msgs.len(), 2);
    assert_eq!(msgs[0].content.text, "one");
    assert_eq!(msgs[1].content.text, "two");
    assert_eq!(store.total_unread(), 1);
    store.mark_read("dm:peer").unwrap();
    assert_eq!(store.total_unread(), 0);
}

#[test]
fn test_message_store_pagination() {
    let mut store = MessageStore::new();
    store.get_or_create_direct("peer");
    for i in 0..5i64 {
        store
            .add_message("dm:peer", message(&format!("m{}", i), &format!("t{}", i), i * 10, true))
            .unwrap();
    }
    let latest = store.get_messages("dm:peer", 2, None);
    assert_eq!(latest.len(), 2);
    assert_eq!(latest[0].content.text, "t3");
    assert_eq!(latest[1].content.text, "t4");
    let older = store.get_messages("dm:peer", 10, Some(30));
    assert_eq!(older.len(), 3);
    assert_eq!(older[2].content.text, "t2");
}

#[test]
fn test_update_delivery_status() {
    let mut store = MessageStore::new();
    store.get_or_create_direct("peer");
    store.add_message("dm:peer", message("m1", "one", 10, true)).unwrap();
    store
        .update_delivery_status("dm:peer", "m1", DeliveryStatus::Delivered)
        .unwrap();
    let msgs = store.get_messages("dm:peer", 10, None);
    assert!(matches!(msgs[0].delivery_status, DeliveryStatus::Delivered));
}

#[test]
fn test_summaries_sorted() {
    let mut store = MessageStore::new();
    store.get_or_create_direct("a");
    store.get_or_create_direct("b");
    store.add_message("dm:a", message("m1", "early", 10, true)).unwrap();
    store.add_message("dm:b", message("m2", "late", 99, true)).unwrap();
    let summaries = store.get_conversation_summaries();
    assert_eq!(summaries.len(), 2);
    assert_eq!(summaries[0].id, "dm:b");
    assert_eq!(summaries[1].id, "dm:a");
    assert_eq!(summaries[0].last_message.as_deref(), Some("late"));
}

#[test]
fn test_short_peer_id() {
    assert_eq!(short_peer_id("short"), "short");
    assert_eq!(short_peer_id("abcdefghijklmnop"), "abcdef..mnop");
}

#[test]
fn test_sanitize_filename() {
    assert_eq!(sanitize_filename("dm:peer/one"), "dm_peer_one");
    assert_eq!(sanitize_filename("plain"), "plain");
}

// ── Content frame ──────────────────────────────────────────────

#[test]
fn test_content_frame_roundtrip() {
    let content = ChatMessageContent {
        text: "hello with ünicode".to_string(),
        reply_to: Some("m-7".to_string()),
        attachments: vec![Attachment {
            cid: "bafy123".to_string(),
            filename: "photo.png".to_string(),
            mime_type: "image/png".to_string(),
            size_bytes: 12345,
        }],
    };
    let bytes = encode_content(&content);
    let decoded = decode_content(&bytes).unwrap();
    assert_eq!(decoded.text, content.text);
    assert_eq!(decoded.reply_to, content.reply_to);
    assert_eq!(decoded.attachments.len(), 1);
    assert_eq!(decoded.attachments[0].cid, "bafy123");
    assert_eq!(decoded.attachments[0].size_bytes, 12345);
}

#[test]
fn test_content_frame_rejects_truncation() {
    let content = ChatMessageContent {
        text: "short".to_string(),
        reply_to: None,
        attachments: Vec::new(),
    };
    let bytes = encode_content(&content);
    assert!(decode_content(&bytes[..bytes.len() - 1]).is_err());
    assert!(decode_content(&bytes[..3]).is_err());
}

// ── TLS identity ───────────────────────────────────────────────

#[test]
fn test_self_signed_cert_fingerprint_shape() {
    let identity = generate_self_signed_cert("peer-1234567890").unwrap();
    assert!(!identity.cert_pem.is_empty());
    assert!(!identity.key_pem.is_empty());
    // 32 hex pairs separated by colons
    assert_eq!(identity.fingerprint.len(), 95);
    let parts: Vec<&str> = identity.fingerprint.split(':').collect();
    assert_eq!(parts.len(), 32);
    for p in parts {
        assert_eq!(p.len(), 2);
        assert!(p.chars().all(|c| c.is_ascii_hexdigit()));
    }
}

// ── Chat service end to end ────────────────────────────────────

#[test]
fn test_chat_service_direct_message_flow() {
    let mut alice =
        ChatService::new(ks(30), "alice".to_string(), "FP:AA".to_string(), &settings()).unwrap();
    let mut bob =
        ChatService::new(ks(31), "bob".to_string(), "FP:BB".to_string(), &settings()).unwrap();

    // Alice initiates; Bob answers with his own bundle.
    let request = alice.prepare_session_request().unwrap();
    let response = bob.handle_prekey_bundle(&request).unwrap();
    let conv_id = alice.complete_session_initiation("bob", &response).unwrap();
    assert_eq!(conv_id, "dm:bob");

    // Alice sends; the encrypted message sits in her delivery queue.
    let stored = alice.send_message("dm:bob", "hello bob", None, "127.0.0.1").unwrap();
    assert_eq!(stored.content.text, "hello bob");
    assert!(matches!(stored.delivery_status, DeliveryStatus::Sending));
    assert_eq!(alice.delivery_count(), 1);
    let payload = alice.delivery_at(0).payload.clone();
    let encrypted = match payload {
        WirePayload::Message(m) => m,
        _ => panic!("expected a direct message payload"),
    };
    assert!(matches!(encrypted.message_type, OlmMessageType::PreKey));

    // Bob receives it and reads the same text.
    let received = bob.receive_message(&encrypted).unwrap();
    assert_eq!(received.content.text, "hello bob");
    assert!(!received.is_outgoing);

    // Bob replies over the established session.
    let reply = bob.send_message("dm:alice", "hi alice", None, "127.0.0.1").unwrap();
    assert_eq!(reply.content.text, "hi alice");
    let reply_payload = bob.delivery_at(0).payload.clone();
    let reply_encrypted = match reply_payload {
        WirePayload::Message(m) => m,
        _ => panic!("expected a direct message payload"),
    };
    let got = alice.receive_message(&reply_encrypted).unwrap();
    assert_eq!(got.content.text, "hi alice");
}

#[test]
fn test_chat_service_oversized_message_rejected() {
    let mut alice =
        ChatService::new(ks(32), "alice".to_string(), "FP:AA".to_string(), &settings()).unwrap();
    let long = "x".repeat(5000);
    let r = alice.send_message("dm:bob", long.as_str(), None, "127.0.0.1");
    assert!(r.is_err());
    assert_eq!(alice.delivery_count(), 0);
}

#[test]
fn test_chat_service_group_flow() {
    let mut alice =
        ChatService::new(ks(33), "alice".to_string(), "FP:AA".to_string(), &settings()).unwrap();
    let mut bob =
        ChatService::new(ks(34), "bob".to_string(), "FP:BB".to_string(), &settings()).unwrap();
    let mut carol =
        ChatService::new(ks(35), "carol".to_string(), "FP:CC".to_string(), &settings()).unwrap();

    // Pairwise sessions alice->bob and alice->carol.
    let req_b = alice.prepare_session_request().unwrap();
    let resp_b = bob.handle_prekey_bundle(&req_b).unwrap();
    alice.complete_session_initiation("bob", &resp_b).unwrap();
    let req_c = alice.prepare_session_request().unwrap();
    let resp_c = carol.handle_prekey_bundle(&req_c).unwrap();
    alice.complete_session_initiation("carol", &resp_c).unwrap();

    // Alice creates the group; both members get invites.
    let addresses = vec![
        ("bob".to_string(), "127.0.0.1".to_string()),
        ("carol".to_string(), "127.0.0.1".to_string()),
    ];
    let info = alice
        .create_group("g-one", vec!["bob".to_string(), "carol".to_string()], &addresses)
        .unwrap();
    assert_eq!(info.group_name, "g-one");
    assert_eq!(alice.delivery_count(), 2);

    // Each member imports the invite.
    for i in 0..2 {
        let payload = alice.delivery_at(i).payload.clone();
        let target = alice.delivery_at(i).target_peer_id.clone();
        let invite = match payload {
            WirePayload::Invite(inv) => inv,
            _ => panic!("expected an invite payload"),
        };
        if target == "bob" {
            bob.handle_group_invite(&invite).unwrap();
        } else {
            carol.handle_group_invite(&invite).unwrap();
        }
    }

    // Alice sends a group message; both decrypt it.
    let stored = alice
        .send_group_message(info.group_id.as_str(), "hello group", None, &addresses)
        .unwrap();
    assert_eq!(stored.content.text, "hello group");
    // One queue entry per member; each recipient decrypts its own copy.
    let mut seen = 0;
    for i in 0..alice.delivery_count() {
        let payload = alice.delivery_at(i).payload.clone();
        let target = alice.delivery_at(i).target_peer_id.clone();
        if let WirePayload::GroupMessage(gm) = payload {
            if target == "bob" {
                let at_bob = bob.receive_group_message(&gm).unwrap();
                assert_eq!(at_bob.content.text, "hello group");
            } else {
                let at_carol = carol.receive_group_message(&gm).unwrap();
                assert_eq!(at_carol.content.text, "hello group");
            }
            seen += 1;
        }
    }
    assert_eq!(seen, 2);
}

#[test]
fn test_chat_service_pins_changed_fingerprint() {
    let mut alice =
        ChatService::new(ks(37), "alice".to_string(), "FP:AA".to_string(), &settings()).unwrap();
    let mut bob1 =
        ChatService::new(ks(38), "bob".to_string(), "FP:B1".to_string(), &settings()).unwrap();
    let mut bob2 =
        ChatService::new(ks(39), "bob".to_string(), "FP:B2".to_string(), &settings()).unwrap();

    let req1 = alice.prepare_session_request().unwrap();
    let resp1 = bob1.handle_prekey_bundle(&req1).unwrap();
    alice.complete_session_initiation("bob", &resp1).unwrap();
    {
        let entry = alice.tofu_entry("bob").unwrap();
        assert_eq!(entry.cert_fingerprint, "FP:B1");
        assert!(matches!(
            entry.trust_level,
            archivist_lib::services::chat_tofu::TrustLevel::FirstUse
        ));
    }

    // The same peer id shows up with a different certificate: the ledger
    // flags the change and keeps the prior fingerprint.
    let req2 = alice.prepare_session_request().unwrap();
    let resp2 = bob2.handle_prekey_bundle(&req2).unwrap();
    alice.complete_session_initiation("bob", &resp2).unwrap();
    let entry = alice.tofu_entry("bob").unwrap();
    assert_eq!(entry.cert_fingerprint, "FP:B2");
    assert_eq!(entry.previous_fingerprint.as_deref(), Some("FP:B1"));
    assert!(matches!(
        entry.trust_level,
        archivist_lib::services::chat_tofu::TrustLevel::Changed
    ));
}

#[test]
fn test_chat_service_ack_updates_status() {
    let mut alice =
        ChatService::new(ks(40), "alice".to_string(), "FP:AA".to_string(), &settings()).unwrap();
    let mut bob =
        ChatService::new(ks(41), "bob".to_string(), "FP:BB".to_string(), &settings()).unwrap();
    let request = alice.prepare_session_request().unwrap();
    let response = bob.handle_prekey_bundle(&request).unwrap();
    alice.complete_session_initiation("bob", &response).unwrap();
    let stored = alice.send_message("dm:bob", "ping", None, "127.0.0.1").unwrap();
    alice
        .handle_ack(&DeliveryAck {
            message_id: stored.id.clone(),
            status: DeliveryAckStatus::Read,
        })
        .unwrap();
    let msgs = alice.get_messages("dm:bob", 10, None);
    assert_eq!(msgs.len(), 1);
    assert!(matches!(msgs[0].delivery_status, DeliveryStatus::Read));
}

#[test]
fn test_chat_service_safety_number() {
    let alice =
        ChatService::new(ks(36), "alice".to_string(), "FP:AA".to_string(), &settings()).unwrap();
    let info = alice.get_safety_number("stranger").unwrap();
    assert_eq!(info.peer_id, "stranger");
    assert_eq!(info.groups.len(), 12);
    assert!(!info.verified);
}

#[test]
fn test_storage_slots_cover_persisted_sessions() {
    let mut alice =
        ChatService::new(ks(60), "alice".to_string(), "FP:AA".to_string(), &settings()).unwrap();
    let mut bob =
        ChatService::new(ks(61), "bob".to_string(), "FP:BB".to_string(), &settings()).unwrap();
    let request = alice.prepare_session_request().unwrap();
    let response = bob.handle_prekey_bundle(&request).unwrap();
    alice.complete_session_initiation("bob", &response).unwrap();
    let slots = alice.storage_slots();
    let mut has_identity = false;
    let mut has_bob_session = false;
    for slot in &slots {
        match slot {
            archivist_lib::crypto::key_store::Slot::Identity => has_identity = true,
            archivist_lib::crypto::key_store::Slot::Session(p) if p == "bob" => {
                has_bob_session = true
            },
            _ => {},
        }
    }
    assert!(has_identity);
    assert!(has_bob_session);
    for slot in &slots {
        assert!(alice.export_key_slot(slot).is_some());
    }
}
