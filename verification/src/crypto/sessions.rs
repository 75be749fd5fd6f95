use vstd::prelude::*;
use vstd::pervasive::VecAdditionalExecFns;
use vstd::string::StrSliceExecFns;
use crate::error::ArchivistError;
use crate::crypto::key_store::{KeyStore, SlotKey};
use crate::crypto::identity::PreKeyBundle;
use crate::crypto::olm::{
    account_create_outbound_session, account_create_inbound_session,
    account_create_inbound_from_message, session_encrypt_b64,
    session_decrypt_b64, session_pickle_json, session_from_pickle_json, olm_session_id,
    olm_received, olm_established, olm_usable, olm_inbound_ok, olm_inbound_msg_ok,
    valid_curve25519_b64, valid_session_pickle, usable_session_pickle, owire_plain, owire_sid,
};
use crate::services::chat_types::OlmMessageType;
use crate::text::{str_eq, string_from_utf8};

verus! {

/// What the contracts see of one pairwise ratchet session: its id, the
/// serialized messages it has already decrypted, and whether it has ever
/// decrypted one (only then do its own messages drop the pre-key prelude).
pub struct SessionModel {
    pub sid: Seq<char>,
    pub received: Set<Seq<char>>,
    pub established: bool,
    /// Whether the session can encrypt; the constructors and every
    /// successful decrypt leave it so.
    pub usable: bool,
}

pub open spec fn session_model(s: vodozemac::olm::Session) -> SessionModel {
    SessionModel {
        sid: olm_session_id(s),
        received: olm_received(s),
        established: olm_established(s),
        usable: olm_usable(s),
    }
}

/// A stored session blob: the UTF-8 bytes of a pickle that restores.
pub open spec fn session_blob_ok(b: Seq<u8>) -> bool {
    &&& vstd::utf8::valid_utf8(b)
    &&& valid_session_pickle(vstd::utf8::decode_utf8(b))
}

/// A stored session blob whose pickle came from a usable session.
pub open spec fn session_blob_usable(b: Seq<u8>) -> bool {
    usable_session_pickle(vstd::utf8::decode_utf8(b))
}

/// Manages the pairwise double-ratchet sessions, one per peer.
///
/// Every encrypt and decrypt is immediately followed by a persist of the
/// same mutated state object, never a reload.
pub struct SessionManager {
    sessions: Vec<(String, vodozemac::olm::Session)>,
    model: Ghost<Map<Seq<char>, SessionModel>>,
}

impl SessionManager {
    /// The resident sessions: peer id to session state.
    pub closed spec fn model(&self) -> Map<Seq<char>, SessionModel> {
        self.model@
    }

    pub closed spec fn wf(&self) -> bool {
        &&& forall|i: int, j: int|
            0 <= i < j < self.sessions@.len() ==> (#[trigger] self.sessions@[i]).0@ != (
            #[trigger] self.sessions@[j]).0@
        &&& forall|k: Seq<char>|
            self.model@.contains_key(k) <==> exists|i: int|
                0 <= i < self.sessions@.len() && (#[trigger] self.sessions@[i]).0@ == k
        &&& forall|i: int|
            0 <= i < self.sessions@.len() ==> (#[trigger] self.model@[self.sessions@[i].0@])
                == session_model(self.sessions@[i].1)
    }

    pub fn new() -> (r: SessionManager)
        ensures
            r.wf(),
            r.model() == Map::<Seq<char>, SessionModel>::empty(),
    {
        SessionManager { sessions: Vec::new(), model: Ghost(Map::empty()) }
    }

    /// After replacing the session object at index `i` by one whose
    /// observed state matches the ghost ledger, well-formedness holds again.
    proof fn reestablish_after_update(
        &self,
        prior: SessionManager,
        i: int,
        was: vodozemac::olm::Session,
        now: vodozemac::olm::Session,
    )
        requires
            prior.wf(),
            0 <= i < prior.sessions@.len(),
            self.sessions@.len() == prior.sessions@.len(),
            forall|n: int|
                0 <= n < prior.sessions@.len() && n != i ==> self.sessions@[n]
                    == prior.sessions@[n],
            self.sessions@[i].0@ == prior.sessions@[i].0@,
            self.model@ == prior.model@.insert(
                prior.sessions@[i].0@,
                session_model(self.sessions@[i].1),
            ) || (self.model@ == prior.model@ && session_model(self.sessions@[i].1)
                == session_model(prior.sessions@[i].1)),
        ensures
            self.wf(),
    {
        assert forall|k: Seq<char>| self.model@.contains_key(k) implies exists|n: int|
            0 <= n < self.sessions@.len() && (#[trigger] self.sessions@[n]).0@ == k by {
            let n = choose|n: int|
                0 <= n < prior.sessions@.len() && (#[trigger] prior.sessions@[n]).0@ == k;
            assert(self.sessions@[n].0@ == k);
        }
        assert forall|k: Seq<char>|
            (exists|n: int|
                0 <= n < self.sessions@.len() && (#[trigger] self.sessions@[n]).0@ == k) implies
            self.model@.contains_key(k) by {
            let n = choose|n: int|
                0 <= n < self.sessions@.len() && (#[trigger] self.sessions@[n]).0@ == k;
            assert(prior.sessions@[n].0@ == k);
        }
    }

    fn find(&self, peer_id: &str) -> (r: Option<usize>)
        ensures
            match r {
                Some(i) => i < self.sessions@.len() && self.sessions@[i as int].0@ == peer_id@,
                None => forall|i: int|
                    0 <= i < self.sessions@.len() ==> (#[trigger] self.sessions@[i]).0@
                        != peer_id@,
            },
    {
        let mut i: usize = 0;
        while i < self.sessions.len()
            invariant
                i <= self.sessions@.len(),
                forall|k: int| 0 <= k < i ==> (#[trigger] self.sessions@[k]).0@ != peer_id@,
            decreases self.sessions@.len() - i,
        {
            if str_eq(self.sessions[i].0.as_str(), peer_id) {
                return Some(i);
            }
            i = i + 1;
        }
        None
    }

    /// Make a session resident under a peer id, replacing what was there.
    fn put(&mut self, peer_id: &str, session: vodozemac::olm::Session)
        requires
            old(self).wf(),
        ensures
            final(self).wf(),
            final(self).model() == old(self).model().insert(peer_id@, session_model(session)),
    {
        let ghost key = peer_id@;
        let ghost m = session_model(session);
        match self.find(peer_id) {
            Some(i) => {
                self.sessions.set(i, (peer_id.to_owned(), session));
                proof {
                    self.model@ = self.model@.insert(key, m);
                    assert forall|k: Seq<char>| self.model@.contains_key(k) implies exists|
                        n: int,
                    |
                        0 <= n < self.sessions@.len() && (#[trigger] self.sessions@[n]).0@
                            == k by {
                        if k == key {
                            assert(self.sessions@[i as int].0@ == k);
                        } else {
                            let n = choose|n: int|
                                0 <= n < old(self).sessions@.len() && (#[trigger] old(self).sessions@[n]).0@ == k;
                            assert(self.sessions@[n].0@ == k);
                        }
                    }
                }
            },
            None => {
                self.sessions.push((peer_id.to_owned(), session));
                proof {
                    self.model@ = self.model@.insert(key, m);
                    let len = self.sessions@.len();
                    assert forall|k: Seq<char>| self.model@.contains_key(k) implies exists|
                        n: int,
                    |
                        0 <= n < len && (#[trigger] self.sessions@[n]).0@ == k by {
                        if k == key {
                            assert(self.sessions@[len - 1].0@ == k);
                        } else {
                            let n = choose|n: int|
                                0 <= n < old(self).sessions@.len() && (#[trigger] old(self).sessions@[n]).0@ == k;
                            assert(self.sessions@[n].0@ == k);
                        }
                    }
                }
            },
        }
    }

    /// Whether a session with the peer is resident.
    pub fn has_session(&self, peer_id: &str) -> (r: bool)
        requires
            self.wf(),
        ensures
            r == self.model().contains_key(peer_id@),
    {
        match self.find(peer_id) {
            Some(_) => true,
            None => false,
        }
    }

    /// Create an outbound session towards a peer from their pre-key bundle.
    ///
    /// The bundle must carry a one-time key; there is no fallback to a
    /// signed-prekey-only handshake.  The new session is persisted
    /// immediately.
    pub fn create_outbound_session(
        &mut self,
        account: &vodozemac::olm::Account,
        peer_bundle: &PreKeyBundle,
        key_store: &mut KeyStore,
    ) -> (r: Result<(), ArchivistError>)
        requires
            old(self).wf(),
            old(key_store).wf(),
        ensures
            final(self).wf(),
            final(key_store).wf(),
            final(key_store).master() == old(key_store).master(),
            peer_bundle.one_time_key is None ==> r is Err,
            (peer_bundle.one_time_key matches Some(k) && valid_curve25519_b64(k@)
                && valid_curve25519_b64(peer_bundle.identity_key@)) ==> r is Ok,
            r is Ok ==> {
                &&& final(self).model().contains_key(peer_bundle.peer_id@)
                &&& final(self).model() == old(self).model().insert(
                    peer_bundle.peer_id@,
                    final(self).model()[peer_bundle.peer_id@],
                )
                &&& final(self).model()[peer_bundle.peer_id@].received =~= Set::<Seq<char>>::empty()
                &&& !final(self).model()[peer_bundle.peer_id@].established
                &&& final(self).model()[peer_bundle.peer_id@].usable
                &&& final(key_store).contents() == old(key_store).contents().insert(
                    SlotKey::Session(peer_bundle.peer_id@),
                    final(key_store).contents()[SlotKey::Session(peer_bundle.peer_id@)],
                )
                &&& session_blob_ok(final(key_store).contents()[SlotKey::Session(
                    peer_bundle.peer_id@,
                )])
                &&& session_blob_usable(final(key_store).contents()[SlotKey::Session(
                    peer_bundle.peer_id@,
                )])
            },
            r is Err ==> final(self).model() == old(self).model() && final(key_store).contents() == old(key_store).contents() && r->Err_0 is CryptoError,
    {
        let otk = match &peer_bundle.one_time_key {
            Some(k) => k,
            None => {
                return Err(
                    ArchivistError::CryptoError("Peer bundle missing one-time key".to_string()),
                );
            },
        };
        let session = account_create_outbound_session(
            account,
            peer_bundle.identity_key.as_str(),
            otk.as_str(),
        )?;
        let pickle = session_pickle_json(&session)?;
        proof {
            vstd::utf8::encode_utf8_valid_utf8(pickle@);
            vstd::utf8::encode_utf8_decode_utf8(pickle@);
        }
        key_store.save_session(peer_bundle.peer_id.as_str(), pickle.as_str().as_bytes())?;
        self.put(peer_bundle.peer_id.as_str(), session);
        Ok(())
    }

    /// Create an inbound session from a received pre-key message and return
    /// the recovered plaintext.  The new session is persisted immediately.
    pub fn create_inbound_session(
        &mut self,
        account: &mut vodozemac::olm::Account,
        sender_peer_id: &str,
        sender_identity_key_b64: &str,
        pre_key_message_b64: &str,
        key_store: &mut KeyStore,
    ) -> (r: Result<Vec<u8>, ArchivistError>)
        requires
            old(self).wf(),
            old(key_store).wf(),
        ensures
            final(self).wf(),
            final(key_store).wf(),
            final(key_store).master() == old(key_store).master(),
            olm_inbound_ok(*old(account), sender_identity_key_b64@, pre_key_message_b64@)
                ==> r is Ok,
            r is Ok ==> {
                &&& r->Ok_0@ == owire_plain(pre_key_message_b64@)
                &&& final(self).model().contains_key(sender_peer_id@)
                &&& final(self).model() == old(self).model().insert(
                    sender_peer_id@,
                    final(self).model()[sender_peer_id@],
                )
                &&& final(self).model()[sender_peer_id@].sid == owire_sid(pre_key_message_b64@)
                &&& final(self).model()[sender_peer_id@].established
                &&& final(key_store).contents() == old(key_store).contents().insert(
                    SlotKey::Session(sender_peer_id@),
                    final(key_store).contents()[SlotKey::Session(sender_peer_id@)],
                )
                &&& session_blob_ok(final(key_store).contents()[SlotKey::Session(
                    sender_peer_id@,
                )])
            },
            r is Err ==> final(self).model() == old(self).model() && final(key_store).contents() == old(key_store).contents() && r->Err_0 is CryptoError,
    {
        let (session, plaintext) = account_create_inbound_session(
            account,
            sender_identity_key_b64,
            pre_key_message_b64,
        )?;
        let pickle = session_pickle_json(&session)?;
        proof {
            vstd::utf8::encode_utf8_valid_utf8(pickle@);
            vstd::utf8::encode_utf8_decode_utf8(pickle@);
        }
        key_store.save_session(sender_peer_id, pickle.as_str().as_bytes())?;
        self.put(sender_peer_id, session);
        Ok(plaintext)
    }

    /// Create an inbound session from a received pre-key message whose
    /// sender identity key is taken from the message itself, and return the
    /// recovered plaintext.  The new session is persisted immediately.
    pub fn create_inbound_session_from_message(
        &mut self,
        account: &mut vodozemac::olm::Account,
        sender_peer_id: &str,
        pre_key_message_b64: &str,
        key_store: &mut KeyStore,
    ) -> (r: Result<Vec<u8>, ArchivistError>)
        requires
            old(self).wf(),
            old(key_store).wf(),
        ensures
            final(self).wf(),
            final(key_store).wf(),
            final(key_store).master() == old(key_store).master(),
            olm_inbound_msg_ok(*old(account), pre_key_message_b64@) ==> r is Ok,
            r is Ok ==> {
                &&& r->Ok_0@ == owire_plain(pre_key_message_b64@)
                &&& final(self).model().contains_key(sender_peer_id@)
                &&& final(self).model() == old(self).model().insert(
                    sender_peer_id@,
                    final(self).model()[sender_peer_id@],
                )
                &&& final(self).model()[sender_peer_id@].sid == owire_sid(pre_key_message_b64@)
                &&& final(self).model()[sender_peer_id@].established
                &&& final(key_store).contents() == old(key_store).contents().insert(
                    SlotKey::Session(sender_peer_id@),
                    final(key_store).contents()[SlotKey::Session(sender_peer_id@)],
                )
                &&& session_blob_ok(final(key_store).contents()[SlotKey::Session(
                    sender_peer_id@,
                )])
            },
            r is Err ==> final(self).model() == old(self).model() && final(key_store).contents() == old(key_store).contents() && r->Err_0 is CryptoError,
    {
        let (session, plaintext) = account_create_inbound_from_message(
            account,
            pre_key_message_b64,
        )?;
        let pickle = session_pickle_json(&session)?;
        proof {
            vstd::utf8::encode_utf8_valid_utf8(pickle@);
            vstd::utf8::encode_utf8_decode_utf8(pickle@);
        }
        key_store.save_session(sender_peer_id, pickle.as_str().as_bytes())?;
        self.put(sender_peer_id, session);
        Ok(plaintext)
    }

    /// Encrypt a plaintext for a peer: advance the ratchet, classify the
    /// output as pre-key or normal, and persist the mutated session.
    /// Fails with `SessionNotFound` when no session is resident.
    pub fn encrypt(&mut self, peer_id: &str, plaintext: &[u8], key_store: &mut KeyStore) -> (r:
        Result<(OlmMessageType, String), ArchivistError>)
        requires
            old(self).wf(),
            old(key_store).wf(),
        ensures
            final(self).wf(),
            final(key_store).wf(),
            final(key_store).master() == old(key_store).master(),
            !old(self).model().contains_key(peer_id@) ==> r is Err && r->Err_0
                is SessionNotFound,
            (old(self).model().contains_key(peer_id@) && old(self).model()[peer_id@].usable)
                ==> r is Ok,
            r is Ok ==> old(self).model().contains_key(peer_id@) && {
                let m = old(self).model()[peer_id@];
                &&& owire_plain(r->Ok_0.1@) == plaintext@
                &&& owire_sid(r->Ok_0.1@) == m.sid
                &&& (r->Ok_0.0 is PreKey <==> !m.established)
                &&& final(self).model() == old(self).model()
                &&& final(key_store).contents() == old(key_store).contents().insert(
                    SlotKey::Session(peer_id@),
                    final(key_store).contents()[SlotKey::Session(peer_id@)],
                )
                &&& session_blob_ok(final(key_store).contents()[SlotKey::Session(peer_id@)])
                &&& (m.usable ==> session_blob_usable(final(key_store).contents()[
                    SlotKey::Session(peer_id@)
                ]))
            },
            r is Err ==> final(self).model() == old(self).model() && final(key_store).contents() == old(key_store).contents(),
            r is Err && old(self).model().contains_key(peer_id@) ==> r->Err_0 is CryptoError,
    {
        let i = match self.find(peer_id) {
            Some(i) => i,
            None => {
                return Err(
                    ArchivistError::SessionNotFound(String::from_str("No session for peer")),
                );
            },
        };
        let ghost key = peer_id@;
        let ghost old_session = old(self).sessions@[i as int].1;
        proof {
            assert(old(self).model()[key] == session_model(old_session));
        }
        let (stored_key, mut session) = self.sessions.remove(i);
        let encrypted = match session_encrypt_b64(&mut session, plaintext) {
            Ok(e) => e,
            Err(e) => {
                self.sessions.insert(i, (stored_key, session));
                proof {
                    assert(!old(self).model()[key].usable);
                    self.reestablish_after_update(*old(self), i as int, old_session, session);
                }
                return Err(e);
            },
        };
        let pickle = match session_pickle_json(&session) {
            Ok(p) => p,
            Err(e) => {
                self.sessions.insert(i, (stored_key, session));
                proof {
                    self.reestablish_after_update(*old(self), i as int, old_session, session);
                }
                return Err(e);
            },
        };
        proof {
            vstd::utf8::encode_utf8_valid_utf8(pickle@);
            vstd::utf8::encode_utf8_decode_utf8(pickle@);
        }
        self.sessions.insert(i, (stored_key, session));
        proof {
            self.reestablish_after_update(*old(self), i as int, old_session, session);
        }
        match key_store.save_session(peer_id, pickle.as_str().as_bytes()) {
            Ok(_) => {},
            Err(e) => {
                return Err(e);
            },
        }
        let message_type = if encrypted.0 {
            OlmMessageType::PreKey
        } else {
            OlmMessageType::Normal
        };
        Ok((message_type, encrypted.1))
    }

    /// Decrypt a message from a peer: advance the ratchet, return the
    /// plaintext, and persist the mutated session.  Fails with
    /// `SessionNotFound` when no session is resident; decrypting a message
    /// this session already consumed fails.
    pub fn decrypt(
        &mut self,
        peer_id: &str,
        message_type: OlmMessageType,
        ciphertext: &str,
        key_store: &mut KeyStore,
    ) -> (r: Result<Vec<u8>, ArchivistError>)
        requires
            old(self).wf(),
            old(key_store).wf(),
        ensures
            final(self).wf(),
            final(key_store).wf(),
            final(key_store).master() == old(key_store).master(),
            !old(self).model().contains_key(peer_id@) ==> r is Err && r->Err_0
                is SessionNotFound && *final(self) == *old(self) && final(key_store).contents()
                == old(key_store).contents(),
            r is Ok ==> old(self).model().contains_key(peer_id@) && {
                let m = old(self).model()[peer_id@];
                &&& r->Ok_0@ == owire_plain(ciphertext@)
                &&& owire_sid(ciphertext@) == m.sid
                &&& !m.received.contains(ciphertext@)
                &&& final(self).model() == old(self).model().insert(
                    peer_id@,
                    SessionModel {
                        sid: m.sid,
                        received: m.received.insert(ciphertext@),
                        established: true,
                        usable: final(self).model()[peer_id@].usable,
                    },
                )
                &&& (m.usable ==> final(self).model()[peer_id@].usable)
                &&& final(key_store).contents() == old(key_store).contents().insert(
                    SlotKey::Session(peer_id@),
                    final(key_store).contents()[SlotKey::Session(peer_id@)],
                )
                &&& session_blob_ok(final(key_store).contents()[SlotKey::Session(peer_id@)])
                &&& (m.usable ==> session_blob_usable(final(key_store).contents()[
                    SlotKey::Session(peer_id@)
                ]))
            },
            old(self).model().contains_key(peer_id@) && old(self).model()[
                peer_id@
            ].received.contains(ciphertext@) ==> r is Err,
            old(self).model().contains_key(peer_id@) && owire_sid(ciphertext@) != old(self).model()[peer_id@].sid ==> r is Err,
            r is Err && old(self).model().contains_key(peer_id@) ==> r->Err_0 is CryptoError
                && final(key_store).contents() == old(key_store).contents() && (final(self).model() == old(self).model() || final(self).model() == old(self).model().insert(
                peer_id@,
                SessionModel {
                    sid: old(self).model()[peer_id@].sid,
                    received: old(self).model()[peer_id@].received.insert(ciphertext@),
                    established: true,
                    usable: final(self).model()[peer_id@].usable,
                },
            )),
    {
        let i = match self.find(peer_id) {
            Some(i) => i,
            None => {
                return Err(
                    ArchivistError::SessionNotFound(String::from_str("No session for peer")),
                );
            },
        };
        let is_pre_key = matches!(message_type, OlmMessageType::PreKey);
        let ghost key = peer_id@;
        let (stored_key, mut session) = self.sessions.remove(i);
        let ghost old_session = old(self).sessions@[i as int].1;
        let plaintext = match session_decrypt_b64(&mut session, is_pre_key, ciphertext) {
            Ok(p) => p,
            Err(e) => {
                self.sessions.insert(i, (stored_key, session));
                proof {
                    self.reestablish_after_update(*old(self), i as int, old_session, session);
                }
                return Err(e);
            },
        };
        let ghost m = old(self).model@[key];
        let pickle = match session_pickle_json(&session) {
            Ok(p) => {
                proof {
                    vstd::utf8::encode_utf8_valid_utf8(p@);
                    vstd::utf8::encode_utf8_decode_utf8(p@);
                }
                p
            },
            Err(e) => {
                // The ratchet advanced but serializing it failed; keep the
                // advanced state resident and report the error.
                self.sessions.insert(i, (stored_key, session));
                proof {
                    self.model@ = self.model@.insert(
                        key,
                        SessionModel {
                            sid: m.sid,
                            received: m.received.insert(ciphertext@),
                            established: true,
                            usable: olm_usable(session),
                        },
                    );
                    self.reestablish_after_update(*old(self), i as int, old_session, session);
                }
                return Err(e);
            },
        };
        self.sessions.insert(i, (stored_key, session));
        proof {
            self.model@ = self.model@.insert(
                key,
                SessionModel {
                    sid: m.sid,
                    received: m.received.insert(ciphertext@),
                    established: true,
                    usable: olm_usable(session),
                },
            );
            self.reestablish_after_update(*old(self), i as int, old_session, session);
        }
        match key_store.save_session(peer_id, pickle.as_str().as_bytes()) {
            Ok(_) => {},
            Err(e) => {
                return Err(e);
            },
        }
        Ok(plaintext)
    }

    /// Load a persisted session into memory; a no-op if one is resident.
    /// Returns whether a session with the peer is now resident.
    pub fn load_session(&mut self, peer_id: &str, key_store: &KeyStore) -> (r: Result<
        bool,
        ArchivistError,
    >)
        requires
            old(self).wf(),
            key_store.wf(),
        ensures
            final(self).wf(),
            old(self).model().contains_key(peer_id@) ==> r is Ok && r->Ok_0 && final(self).model() == old(self).model(),
            r is Ok ==> (r->Ok_0 <==> (old(self).model().contains_key(peer_id@)
                || key_store.contents().contains_key(SlotKey::Session(peer_id@)))),
            r is Ok ==> final(self).model() == old(self).model().insert(
                peer_id@,
                final(self).model()[peer_id@],
            ) || final(self).model() == old(self).model(),
            !r->Ok_0 && r is Ok ==> final(self).model() == old(self).model(),
            forall|k: Seq<char>|
                k != peer_id@ ==> final(self).model().contains_key(k) == old(self).model().contains_key(k) && (old(self).model().contains_key(k) ==> final(self).model()[k] == old(self).model()[k]),
            (!old(self).model().contains_key(peer_id@) && key_store.contents().contains_key(
                SlotKey::Session(peer_id@),
            ) && session_blob_ok(key_store.contents()[SlotKey::Session(peer_id@)])) ==> r is Ok
                && r->Ok_0 && final(self).model().contains_key(peer_id@),
            (!old(self).model().contains_key(peer_id@) && !key_store.contents().contains_key(
                SlotKey::Session(peer_id@),
            )) ==> r is Ok && !r->Ok_0,
            (!old(self).model().contains_key(peer_id@) && key_store.contents().contains_key(
                SlotKey::Session(peer_id@),
            ) && session_blob_ok(key_store.contents()[SlotKey::Session(peer_id@)])
                && session_blob_usable(key_store.contents()[SlotKey::Session(peer_id@)]) && r
                is Ok) ==> final(self).model()[peer_id@].usable,
            r is Err ==> r->Err_0 is CryptoError && final(self).model() == old(self).model(),
    {
        match self.find(peer_id) {
            Some(_) => {
                assert(self.model@.contains_key(peer_id@));
                return Ok(true);
            },
            None => {},
        }
        let loaded = match key_store.load_session(peer_id) {
            Ok(l) => l,
            Err(e) => {
                proof {
                    assert(false);
                }
                return Err(e);
            },
        };
        match loaded {
            Some(bytes) => {
                let ghost blob = bytes@;
                let pickle_str = string_from_utf8(bytes)?;
                proof {
                    if session_blob_ok(blob) {
                        vstd::utf8::encode_utf8_decode_utf8(pickle_str@);
                        assert(pickle_str@ == vstd::utf8::decode_utf8(blob));
                    }
                }
                let session = session_from_pickle_json(pickle_str.as_str())?;
                self.put(peer_id, session);
                Ok(true)
            },
            None => Ok(false),
        }
    }
}

} // verus!
