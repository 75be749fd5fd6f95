//! Integration tests for the chat crypto stack.

use archivist_lib::crypto::group_sessions::GroupSessionManager;
use archivist_lib::crypto::identity::IdentityManager;
use archivist_lib::crypto::key_store::KeyStore;
use archivist_lib::crypto::safety_numbers;
use archivist_lib::crypto::sessions::SessionManager;
use archivist_lib::services::chat_types::OlmMessageType;

fn fresh_ks(seed: u8) -> KeyStore {
    let mut key = Vec::new();
    for i in 0..32u8 {
        key.push(seed.wrapping_mul(3).wrapping_add(i));
    }
    KeyStore::new(key).unwrap()
}

#[test]
fn test_full_1to1_message_flow() {
    let mut ks_a = fresh_ks(1);
    let mut ks_b = fresh_ks(2);

    // Create identities
    let alice_id = IdentityManager::load_or_create(&mut ks_a, "alice").unwrap();
    let mut bob_id = IdentityManager::load_or_create(&mut ks_b, "bob").unwrap();

    bob_id.generate_one_time_keys_if_needed(&mut ks_b).unwrap();
    let bob_bundle = bob_id.export_pre_key_bundle();

    // Alice creates outbound session
    let mut alice_sessions = SessionManager::new();
    alice_sessions
        .create_outbound_session(alice_id.account(), &bob_bundle, &mut ks_a)
        .unwrap();

    // Alice sends
    let (t1, c1) = alice_sessions.encrypt("bob", b"Hello Bob!", &mut ks_a).unwrap();
    assert!(matches!(t1, OlmMessageType::PreKey));

    // Bob receives and creates inbound session
    let mut bob_sessions = SessionManager::new();
    let plaintext = bob_sessions
        .create_inbound_session(
            bob_id.account_mut(),
            "alice",
            alice_id.curve25519_key().as_str(),
            c1.as_str(),
            &mut ks_b,
        )
        .unwrap();
    assert_eq!(plaintext, b"Hello Bob!");

    // Bob replies
    let (t2, c2) = bob_sessions.encrypt("alice", b"Hi Alice!", &mut ks_b).unwrap();
    let pt2 = alice_sessions.decrypt("bob", t2, c2.as_str(), &mut ks_a).unwrap();
    assert_eq!(pt2, b"Hi Alice!");

    // Multiple messages back and forth
    let (t3, c3) = alice_sessions.encrypt("bob", b"msg3", &mut ks_a).unwrap();
    let pt3 = bob_sessions.decrypt("alice", t3, c3.as_str(), &mut ks_b).unwrap();
    assert_eq!(pt3, b"msg3");

    let (t4, c4) = bob_sessions.encrypt("alice", b"msg4", &mut ks_b).unwrap();
    let pt4 = alice_sessions.decrypt("bob", t4, c4.as_str(), &mut ks_a).unwrap();
    assert_eq!(pt4, b"msg4");
}

#[test]
fn test_full_group_message_flow() {
    let mut ks_a = fresh_ks(3);
    let mut ks_b = fresh_ks(4);
    let mut ks_c = fresh_ks(5);

    // Alice creates group
    let mut alice_gsm = GroupSessionManager::new();
    let session_key = alice_gsm.create_group_session("g1", &mut ks_a).unwrap();

    // Bob and Carol receive the session key
    let mut bob_gsm = GroupSessionManager::new();
    bob_gsm
        .add_inbound_session("g1", "alice", session_key.as_str(), &mut ks_b)
        .unwrap();

    let mut carol_gsm = GroupSessionManager::new();
    carol_gsm
        .add_inbound_session("g1", "alice", session_key.as_str(), &mut ks_c)
        .unwrap();

    // Alice sends to group
    let (ct, _idx) = alice_gsm.encrypt_group("g1", b"Hello group!", &mut ks_a).unwrap();

    // Both Bob and Carol can decrypt
    let pt_bob = bob_gsm.decrypt_group("g1", "alice", ct.as_str(), &mut ks_b).unwrap();
    assert_eq!(pt_bob, b"Hello group!");

    let pt_carol = carol_gsm.decrypt_group("g1", "alice", ct.as_str(), &mut ks_c).unwrap();
    assert_eq!(pt_carol, b"Hello group!");
}

#[test]
fn test_group_rekey_on_member_removal() {
    let mut ks_a = fresh_ks(6);
    let mut ks_b = fresh_ks(7);
    let mut ks_c = fresh_ks(8);

    // Create group with Alice, Bob, Carol
    let mut alice_gsm = GroupSessionManager::new();
    let key1 = alice_gsm.create_group_session("g1", &mut ks_a).unwrap();

    let mut bob_gsm = GroupSessionManager::new();
    bob_gsm
        .add_inbound_session("g1", "alice", key1.as_str(), &mut ks_b)
        .unwrap();

    let mut carol_gsm = GroupSessionManager::new();
    carol_gsm
        .add_inbound_session("g1", "alice", key1.as_str(), &mut ks_c)
        .unwrap();

    // Remove Bob: rekey
    let key2 = alice_gsm.rekey_group("g1", &mut ks_a).unwrap();

    // Carol gets the new key
    carol_gsm
        .add_inbound_session("g1", "alice-rekeyed", key2.as_str(), &mut ks_c)
        .unwrap();

    // Alice encrypts with the new session
    let (ct, _) = alice_gsm.encrypt_group("g1", b"secret after rekey", &mut ks_a).unwrap();

    // Carol can decrypt with the new inbound session
    let pt = carol_gsm
        .decrypt_group("g1", "alice-rekeyed", ct.as_str(), &mut ks_c)
        .unwrap();
    assert_eq!(pt, b"secret after rekey");

    // Bob's old session cannot decrypt the new message
    let result = bob_gsm.decrypt_group("g1", "alice", ct.as_str(), &mut ks_b);
    assert!(result.is_err());
}

#[test]
fn test_forward_secrecy_group() {
    let mut ks_a = fresh_ks(9);
    let mut ks_b = fresh_ks(10);

    let mut alice_gsm = GroupSessionManager::new();
    let key = alice_gsm.create_group_session("g1", &mut ks_a).unwrap();

    let mut bob_gsm = GroupSessionManager::new();
    bob_gsm
        .add_inbound_session("g1", "alice", key.as_str(), &mut ks_b)
        .unwrap();

    // Send first message
    let (ct1, i1) = alice_gsm.encrypt_group("g1", b"message 1", &mut ks_a).unwrap();
    let pt1 = bob_gsm.decrypt_group("g1", "alice", ct1.as_str(), &mut ks_b).unwrap();
    assert_eq!(pt1, b"message 1");
    assert_eq!(i1, 0);

    // Send second message: the ratchet advances
    let (ct2, i2) = alice_gsm.encrypt_group("g1", b"message 2", &mut ks_a).unwrap();
    let pt2 = bob_gsm.decrypt_group("g1", "alice", ct2.as_str(), &mut ks_b).unwrap();
    assert_eq!(pt2, b"message 2");
    assert_eq!(i2, 1);

    // A key exported after the first message opens nothing before it: the
    // hash ratchet only moves forward, so earlier indices stay protected.
}

#[test]
fn test_safety_numbers_consistency() {
    let mut ks_a = fresh_ks(11);
    let mut ks_b = fresh_ks(12);
    let mut ks_c = fresh_ks(13);

    let alice_id = IdentityManager::load_or_create(&mut ks_a, "alice").unwrap();
    let bob_id = IdentityManager::load_or_create(&mut ks_b, "bob").unwrap();

    let alice_ik = alice_id.curve25519_key();
    let bob_ik = bob_id.curve25519_key();

    // Safety numbers should be symmetric
    let sn_ab = safety_numbers::compute_safety_number(alice_ik.as_str(), bob_ik.as_str());
    let sn_ba = safety_numbers::compute_safety_number(bob_ik.as_str(), alice_ik.as_str());
    assert_eq!(sn_ab, sn_ba);

    // Different identities give different safety numbers
    let carol_id = IdentityManager::load_or_create(&mut ks_c, "carol").unwrap();
    let carol_ik = carol_id.curve25519_key();
    let sn_ac = safety_numbers::compute_safety_number(alice_ik.as_str(), carol_ik.as_str());
    assert_ne!(sn_ab, sn_ac);
}
