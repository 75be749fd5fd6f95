//! Tests of the cryptographic core: safety numbers, the encrypted key
//! store, the identity manager, and the pairwise and group ratchets.

use archivist_lib::crypto::group_sessions::GroupSessionManager;
use archivist_lib::crypto::identity::IdentityManager;
use archivist_lib::crypto::key_store::KeyStore;
use archivist_lib::crypto::safety_numbers::{compute_safety_number, format_safety_number};
use archivist_lib::crypto::sessions::SessionManager;
use archivist_lib::services::chat_types::OlmMessageType;

fn make_ks(seed: u8) -> KeyStore {
    let mut key = Vec::new();
    for i in 0..32u8 {
        key.push(seed.wrapping_add(i));
    }
    KeyStore::new(key).unwrap()
}

#[test]
fn test_deterministic() {
    let a = "keyAAAA";
    let b = "keyBBBB";
    let sn1 = compute_safety_number(a, b);
    let sn2 = compute_safety_number(a, b);
    assert_eq!(sn1, sn2);
}

#[test]
fn test_symmetric() {
    let a = "key_alice_identity";
    let b = "key_bob_identity";
    let sn_ab = compute_safety_number(a, b);
    let sn_ba = compute_safety_number(b, a);
    assert_eq!(sn_ab, sn_ba);
}

#[test]
fn test_different_keys_different_numbers() {
    let sn1 = compute_safety_number("keyA", "keyB");
    let sn2 = compute_safety_number("keyC", "keyD");
    assert_ne!(sn1, sn2);
}

#[test]
fn test_format() {
    let sn = compute_safety_number("test1", "test2");
    let groups = format_safety_number(sn.as_str());
    assert_eq!(groups.len(), 12);
    for g in &groups {
        assert_eq!(g.len(), 5);
        assert!(g.chars().all(|c| c.is_ascii_digit()));
    }
}

#[test]
fn test_master_key_length_checked() {
    assert!(KeyStore::new(vec![0u8; 31]).is_err());
    assert!(KeyStore::new(vec![0u8; 32]).is_ok());
}

#[test]
fn test_encrypt_decrypt_roundtrip() {
    let ks = make_ks(1);
    let plaintext = b"hello secret world";
    let enc = ks.encrypt(plaintext).unwrap();
    let dec = ks.decrypt(&enc).unwrap();
    assert_eq!(dec, plaintext);
}

#[test]
fn test_decrypt_rejects_short_and_corrupt() {
    let ks = make_ks(1);
    assert!(ks.decrypt(b"short").is_err());
    let mut enc = ks.encrypt(b"payload").unwrap();
    let last = enc.len() - 1;
    enc[last] ^= 0xff;
    assert!(ks.decrypt(&enc).is_err());
}

#[test]
fn test_identity_save_load() {
    let mut ks = make_ks(2);
    ks.save_identity(b"pickle-data").unwrap();
    let loaded = ks.load_identity().unwrap().unwrap();
    assert_eq!(loaded, b"pickle-data");
}

#[test]
fn test_session_save_load() {
    let mut ks = make_ks(3);
    ks.save_session("peer123", b"session-pickle").unwrap();
    let loaded = ks.load_session("peer123").unwrap().unwrap();
    assert_eq!(loaded, b"session-pickle");
    assert!(ks.load_session("no-such-peer").unwrap().is_none());
}

#[test]
fn test_group_session_save_load() {
    let mut ks = make_ks(4);
    ks.save_outbound_group_session("g1", b"outbound-data").unwrap();
    assert_eq!(ks.load_outbound_group_session("g1").unwrap().unwrap(), b"outbound-data");
    ks.save_inbound_group_session("g1", "sender-a", b"inbound-data").unwrap();
    assert_eq!(
        ks.load_inbound_group_session("g1", "sender-a").unwrap().unwrap(),
        b"inbound-data"
    );
}

#[test]
fn test_hydrate_roundtrip() {
    let mut ks = make_ks(5);
    ks.save_session("peer-x", b"resident").unwrap();
    let sealed = ks
        .export_slot(&archivist_lib::crypto::key_store::Slot::Session("peer-x".to_string()))
        .unwrap();
    let mut ks2 = make_ks(5);
    ks2.hydrate_slot(
        archivist_lib::crypto::key_store::Slot::Session("peer-x".to_string()),
        sealed,
    )
    .unwrap();
    assert_eq!(ks2.load_session("peer-x").unwrap().unwrap(), b"resident");
}

#[test]
fn test_create_identity() {
    let mut ks = make_ks(6);
    let mgr = IdentityManager::load_or_create(&mut ks, "peer-abc").unwrap();
    let bundle = mgr.export_pre_key_bundle();
    assert_eq!(bundle.peer_id, "peer-abc");
    assert!(!bundle.identity_key.is_empty());
    assert!(!bundle.signing_key.is_empty());
}

#[test]
fn test_persist_roundtrip() {
    let mut ks = make_ks(7);
    let mgr = IdentityManager::load_or_create(&mut ks, "peer-xyz").unwrap();
    let ik = mgr.curve25519_key();
    let mgr2 = IdentityManager::load_or_create(&mut ks, "peer-xyz").unwrap();
    assert_eq!(mgr2.curve25519_key(), ik);
}

#[test]
fn test_one_time_key_generation() {
    let mut ks = make_ks(8);
    let mut mgr = IdentityManager::load_or_create(&mut ks, "peer-otk").unwrap();
    mgr.generate_one_time_keys_if_needed(&mut ks).unwrap();
    let bundle = mgr.export_pre_key_bundle();
    assert!(bundle.one_time_key.is_some());
}

#[test]
fn test_session_establishment_and_encrypt_decrypt() {
    let mut ks_a = make_ks(9);
    let mut ks_b = make_ks(10);
    let alice = IdentityManager::load_or_create(&mut ks_a, "alice").unwrap();
    let mut bob = IdentityManager::load_or_create(&mut ks_b, "bob").unwrap();
    bob.generate_one_time_keys_if_needed(&mut ks_b).unwrap();
    let bob_bundle = bob.export_pre_key_bundle();

    let mut alice_sm = SessionManager::new();
    alice_sm
        .create_outbound_session(alice.account(), &bob_bundle, &mut ks_a)
        .unwrap();

    let (msg_type, ciphertext) = alice_sm.encrypt("bob", b"hello bob", &mut ks_a).unwrap();
    assert!(matches!(msg_type, OlmMessageType::PreKey));

    let mut bob_sm = SessionManager::new();
    let plaintext = bob_sm
        .create_inbound_session(
            bob.account_mut(),
            "alice",
            alice.curve25519_key().as_str(),
            ciphertext.as_str(),
            &mut ks_b,
        )
        .unwrap();
    assert_eq!(plaintext, b"hello bob");
}

#[test]
fn test_multiple_messages() {
    let mut ks_a = make_ks(11);
    let mut ks_b = make_ks(12);
    let alice = IdentityManager::load_or_create(&mut ks_a, "alice").unwrap();
    let mut bob = IdentityManager::load_or_create(&mut ks_b, "bob").unwrap();
    bob.generate_one_time_keys_if_needed(&mut ks_b).unwrap();
    let bob_bundle = bob.export_pre_key_bundle();

    let mut alice_sm = SessionManager::new();
    alice_sm
        .create_outbound_session(alice.account(), &bob_bundle, &mut ks_a)
        .unwrap();

    let (t1, c1) = alice_sm.encrypt("bob", b"msg1", &mut ks_a).unwrap();
    assert!(matches!(t1, OlmMessageType::PreKey));
    let mut bob_sm = SessionManager::new();
    let pt = bob_sm
        .create_inbound_session(
            bob.account_mut(),
            "alice",
            alice.curve25519_key().as_str(),
            c1.as_str(),
            &mut ks_b,
        )
        .unwrap();
    assert_eq!(pt, b"msg1");

    let (t2, c2) = alice_sm.encrypt("bob", b"msg2", &mut ks_a).unwrap();
    let pt2 = bob_sm.decrypt("alice", t2, c2.as_str(), &mut ks_b).unwrap();
    assert_eq!(pt2, b"msg2");

    let (t3, c3) = alice_sm.encrypt("bob", b"msg3", &mut ks_a).unwrap();
    let pt3 = bob_sm.decrypt("alice", t3, c3.as_str(), &mut ks_b).unwrap();
    assert_eq!(pt3, b"msg3");
}

#[test]
fn test_replayed_ciphertext_rejected() {
    let mut ks_a = make_ks(13);
    let mut ks_b = make_ks(14);
    let alice = IdentityManager::load_or_create(&mut ks_a, "alice").unwrap();
    let mut bob = IdentityManager::load_or_create(&mut ks_b, "bob").unwrap();
    bob.generate_one_time_keys_if_needed(&mut ks_b).unwrap();
    let bob_bundle = bob.export_pre_key_bundle();
    let mut alice_sm = SessionManager::new();
    alice_sm
        .create_outbound_session(alice.account(), &bob_bundle, &mut ks_a)
        .unwrap();
    let (_t1, c1) = alice_sm.encrypt("bob", b"first", &mut ks_a).unwrap();
    let mut bob_sm = SessionManager::new();
    bob_sm
        .create_inbound_session(
            bob.account_mut(),
            "alice",
            alice.curve25519_key().as_str(),
            c1.as_str(),
            &mut ks_b,
        )
        .unwrap();
    let (t2, c2) = alice_sm.encrypt("bob", b"second", &mut ks_a).unwrap();
    let first = bob_sm.decrypt("alice", t2, c2.as_str(), &mut ks_b).unwrap();
    assert_eq!(first, b"second");
    // decrypting the same ciphertext again must fail: the ratchet advanced
    let replay = bob_sm.decrypt("alice", t2, c2.as_str(), &mut ks_b);
    assert!(replay.is_err());
}

#[test]
fn test_missing_one_time_key_rejected() {
    let mut ks_a = make_ks(15);
    let mut ks_b = make_ks(16);
    let alice = IdentityManager::load_or_create(&mut ks_a, "alice").unwrap();
    let bob = IdentityManager::load_or_create(&mut ks_b, "bob").unwrap();
    let mut bundle = bob.export_pre_key_bundle();
    bundle.one_time_key = None;
    let mut alice_sm = SessionManager::new();
    let r = alice_sm.create_outbound_session(alice.account(), &bundle, &mut ks_a);
    assert!(r.is_err());
}

#[test]
fn test_group_encrypt_decrypt() {
    let mut ks_a = make_ks(17);
    let mut ks_b = make_ks(18);
    let mut alice_gsm = GroupSessionManager::new();
    let session_key = alice_gsm.create_group_session("g1", &mut ks_a).unwrap();
    let mut bob_gsm = GroupSessionManager::new();
    bob_gsm
        .add_inbound_session("g1", "alice", session_key.as_str(), &mut ks_b)
        .unwrap();
    let (ct, _idx) = alice_gsm.encrypt_group("g1", b"group hello", &mut ks_a).unwrap();
    let pt = bob_gsm.decrypt_group("g1", "alice", ct.as_str(), &mut ks_b).unwrap();
    assert_eq!(pt, b"group hello");
}

#[test]
fn test_rekey_prevents_old_session_decrypt() {
    let mut ks_a = make_ks(19);
    let mut ks_b = make_ks(20);
    let mut alice_gsm = GroupSessionManager::new();
    let key1 = alice_gsm.create_group_session("g1", &mut ks_a).unwrap();
    let mut bob_gsm = GroupSessionManager::new();
    bob_gsm
        .add_inbound_session("g1", "alice", key1.as_str(), &mut ks_b)
        .unwrap();
    let key2 = alice_gsm.rekey_group("g1", &mut ks_a).unwrap();
    assert_ne!(key1, key2);
    let (ct, _) = alice_gsm.encrypt_group("g1", b"after rekey", &mut ks_a).unwrap();
    let result = bob_gsm.decrypt_group("g1", "alice", ct.as_str(), &mut ks_b);
    assert!(result.is_err());
}

#[test]
fn test_multiple_senders() {
    let mut ks_a = make_ks(21);
    let mut ks_b = make_ks(22);
    let mut ks_c = make_ks(23);
    let mut alice_gsm = GroupSessionManager::new();
    let alice_key = alice_gsm.create_group_session("g1", &mut ks_a).unwrap();
    let mut bob_gsm = GroupSessionManager::new();
    let bob_key = bob_gsm.create_group_session("g1", &mut ks_b).unwrap();
    let mut carol_gsm = GroupSessionManager::new();
    carol_gsm
        .add_inbound_session("g1", "alice", alice_key.as_str(), &mut ks_c)
        .unwrap();
    carol_gsm
        .add_inbound_session("g1", "bob", bob_key.as_str(), &mut ks_c)
        .unwrap();
    let (ct_a, _) = alice_gsm.encrypt_group("g1", b"from alice", &mut ks_a).unwrap();
    let (ct_b, _) = bob_gsm.encrypt_group("g1", b"from bob", &mut ks_b).unwrap();
    assert_eq!(
        carol_gsm.decrypt_group("g1", "alice", ct_a.as_str(), &mut ks_c).unwrap(),
        b"from alice"
    );
    assert_eq!(
        carol_gsm.decrypt_group("g1", "bob", ct_b.as_str(), &mut ks_c).unwrap(),
        b"from bob"
    );
}
