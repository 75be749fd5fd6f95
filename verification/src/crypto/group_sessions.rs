use vstd::prelude::*;
use vstd::pervasive::VecAdditionalExecFns;
use vstd::string::StrSliceExecFns;
use crate::error::ArchivistError;
use crate::crypto::key_store::{KeyStore, SlotKey};
use crate::crypto::megolm::{
    group_session_new, group_session_id, group_session_key_b64, group_session_encrypt,
    group_session_pickle_json, group_session_from_pickle_json, inbound_group_session_new,
    inbound_group_session_decrypt, inbound_group_session_pickle_json,
    inbound_group_session_from_pickle_json, group_session_message_index, ogs_sid, ogs_index,
    igs_sid, igs_first, gwire_plain,
    gwire_sid, gwire_index, gwire_genuine, gkey_sid, gkey_first, valid_group_key_b64,
    valid_group_pickle, valid_inbound_group_pickle,
};
use crate::text::{str_eq, string_from_utf8};

verus! {

/// What the contracts see of the outbound sender ratchet of one group.
pub struct OutboundModel {
    pub sid: Seq<char>,
    pub index: nat,
}

pub open spec fn outbound_model(s: vodozemac::megolm::GroupSession) -> OutboundModel {
    OutboundModel { sid: ogs_sid(s), index: ogs_index(s) }
}

/// What the contracts see of one inbound sender ratchet.
pub struct InboundModel {
    pub sid: Seq<char>,
    pub first: nat,
}

pub open spec fn inbound_model(s: vodozemac::megolm::InboundGroupSession) -> InboundModel {
    InboundModel { sid: igs_sid(s), first: igs_first(s) }
}

/// The outbound ledger matches the resident outbound sessions.
pub open spec fn outbound_wf(
    v: Seq<(String, vodozemac::megolm::GroupSession)>,
    m: Map<Seq<char>, OutboundModel>,
) -> bool {
    &&& forall|i: int, j: int|
        0 <= i < j < v.len() ==> (#[trigger] v[i]).0@ != (#[trigger] v[j]).0@
    &&& forall|k: Seq<char>|
        m.contains_key(k) <==> exists|i: int| 0 <= i < v.len() && (#[trigger] v[i]).0@ == k
    &&& forall|i: int| 0 <= i < v.len() ==> (#[trigger] m[v[i].0@]) == outbound_model(v[i].1)
}

/// The inbound ledger matches the resident inbound sessions.
pub open spec fn inbound_wf(
    v: Seq<((String, String), vodozemac::megolm::InboundGroupSession)>,
    m: Map<(Seq<char>, Seq<char>), InboundModel>,
) -> bool {
    &&& forall|i: int, j: int|
        0 <= i < j < v.len() ==> ((#[trigger] v[i]).0.0@, (v[i]).0.1@) != (((
        #[trigger] v[j]).0.0@), (v[j]).0.1@)
    &&& forall|k: (Seq<char>, Seq<char>)|
        m.contains_key(k) <==> exists|i: int|
            0 <= i < v.len() && ((#[trigger] v[i]).0.0@, (v[i]).0.1@) == k
    &&& forall|i: int|
        0 <= i < v.len() ==> (#[trigger] m[((v[i]).0.0@, (v[i]).0.1@)]) == inbound_model(v[i].1)
}

/// A stored outbound group-session blob: the UTF-8 bytes of a pickle that
/// restores.
pub open spec fn group_blob_ok(b: Seq<u8>) -> bool {
    &&& vstd::utf8::valid_utf8(b)
    &&& valid_group_pickle(vstd::utf8::decode_utf8(b))
}

/// A stored inbound group-session blob: the UTF-8 bytes of a pickle that
/// restores.
pub open spec fn inbound_group_blob_ok(b: Seq<u8>) -> bool {
    &&& vstd::utf8::valid_utf8(b)
    &&& valid_inbound_group_pickle(vstd::utf8::decode_utf8(b))
}

/// Manages the sender-keyed group ratchets: one outbound session per group
/// (ours), and one inbound session per (group, sender) pair.
pub struct GroupSessionManager {
    outbound: Vec<(String, vodozemac::megolm::GroupSession)>,
    inbound: Vec<((String, String), vodozemac::megolm::InboundGroupSession)>,
    out_model: Ghost<Map<Seq<char>, OutboundModel>>,
    in_model: Ghost<Map<(Seq<char>, Seq<char>), InboundModel>>,
}

impl GroupSessionManager {
    /// The outbound ratchets: group id to session state.
    pub closed spec fn outbound(&self) -> Map<Seq<char>, OutboundModel> {
        self.out_model@
    }

    /// The inbound ratchets: (group id, sender) to session state.
    pub closed spec fn inbound(&self) -> Map<(Seq<char>, Seq<char>), InboundModel> {
        self.in_model@
    }

    pub closed spec fn wf(&self) -> bool {
        &&& outbound_wf(self.outbound@, self.out_model@)
        &&& inbound_wf(self.inbound@, self.in_model@)
    }

    pub fn new() -> (r: GroupSessionManager)
        ensures
            r.wf(),
            r.outbound() == Map::<Seq<char>, OutboundModel>::empty(),
            r.inbound() == Map::<(Seq<char>, Seq<char>), InboundModel>::empty(),
    {
        GroupSessionManager {
            outbound: Vec::new(),
            inbound: Vec::new(),
            out_model: Ghost(Map::empty()),
            in_model: Ghost(Map::empty()),
        }
    }

    fn find_outbound(&self, group_id: &str) -> (r: Option<usize>)
        ensures
            match r {
                Some(i) => i < self.outbound@.len() && self.outbound@[i as int].0@ == group_id@,
                None => forall|i: int|
                    0 <= i < self.outbound@.len() ==> (#[trigger] self.outbound@[i]).0@
                        != group_id@,
            },
    {
        let mut i: usize = 0;
        while i < self.outbound.len()
            invariant
                i <= self.outbound@.len(),
                forall|k: int| 0 <= k < i ==> (#[trigger] self.outbound@[k]).0@ != group_id@,
            decreases self.outbound@.len() - i,
        {
            if str_eq(self.outbound[i].0.as_str(), group_id) {
                return Some(i);
            }
            i = i + 1;
        }
        None
    }

    fn find_inbound(&self, group_id: &str, sender_key: &str) -> (r: Option<usize>)
        ensures
            match r {
                Some(i) => i < self.inbound@.len() && self.inbound@[i as int].0.0@ == group_id@
                    && self.inbound@[i as int].0.1@ == sender_key@,
                None => forall|i: int|
                    0 <= i < self.inbound@.len() ==> ((#[trigger] self.inbound@[i]).0.0@, (
                    self.inbound@[i]).0.1@) != (group_id@, sender_key@),
            },
    {
        let mut i: usize = 0;
        while i < self.inbound.len()
            invariant
                i <= self.inbound@.len(),
                forall|k: int|
                    0 <= k < i ==> ((#[trigger] self.inbound@[k]).0.0@, (self.inbound@[k]).0.1@)
                        != (group_id@, sender_key@),
            decreases self.inbound@.len() - i,
        {
            if str_eq(self.inbound[i].0.0.as_str(), group_id) && str_eq(
                self.inbound[i].0.1.as_str(),
                sender_key,
            ) {
                return Some(i);
            }
            i = i + 1;
        }
        None
    }

    /// Make an outbound session resident, replacing what was there.
    fn put_outbound(&mut self, group_id: &str, session: vodozemac::megolm::GroupSession)
        requires
            old(self).wf(),
        ensures
            final(self).wf(),
            final(self).outbound() == old(self).outbound().insert(
                group_id@,
                outbound_model(session),
            ),
            final(self).inbound() == old(self).inbound(),
    {
        let ghost key = group_id@;
        let ghost m = outbound_model(session);
        match self.find_outbound(group_id) {
            Some(i) => {
                self.outbound.set(i, (group_id.to_owned(), session));
                proof {
                    self.out_model@ = self.out_model@.insert(key, m);
                    assert forall|k: Seq<char>| self.out_model@.contains_key(k) implies exists|
                        n: int,
                    |
                        0 <= n < self.outbound@.len() && (#[trigger] self.outbound@[n]).0@
                            == k by {
                        if k == key {
                            assert(self.outbound@[i as int].0@ == k);
                        } else {
                            let n = choose|n: int|
                                0 <= n < old(self).outbound@.len() && (#[trigger] old(self).outbound@[n]).0@ == k;
                            assert(self.outbound@[n].0@ == k);
                        }
                    }
                    assert forall|k: Seq<char>|
                        (exists|n: int|
                            0 <= n < self.outbound@.len() && (#[trigger] self.outbound@[n]).0@
                                == k) implies self.out_model@.contains_key(k) by {
                        let n = choose|n: int|
                            0 <= n < self.outbound@.len() && (#[trigger] self.outbound@[n]).0@
                                == k;
                        assert(old(self).outbound@[n].0@ == k || k == key);
                    }
                }
            },
            None => {
                self.outbound.push((group_id.to_owned(), session));
                proof {
                    self.out_model@ = self.out_model@.insert(key, m);
                    let len = self.outbound@.len();
                    assert forall|k: Seq<char>| self.out_model@.contains_key(k) implies exists|
                        n: int,
                    |
                        0 <= n < len && (#[trigger] self.outbound@[n]).0@ == k by {
                        if k == key {
                            assert(self.outbound@[len - 1].0@ == k);
                        } else {
                            let n = choose|n: int|
                                0 <= n < old(self).outbound@.len() && (#[trigger] old(self).outbound@[n]).0@ == k;
                            assert(self.outbound@[n].0@ == k);
                        }
                    }
                    assert forall|k: Seq<char>|
                        (exists|n: int|
                            0 <= n < len && (#[trigger] self.outbound@[n]).0@ == k) implies
                        self.out_model@.contains_key(k) by {
                        let n = choose|n: int|
                            0 <= n < len && (#[trigger] self.outbound@[n]).0@ == k;
                        if n < len - 1 {
                            assert(old(self).outbound@[n].0@ == k);
                        } else {
                            assert(k == key);
                        }
                    }
                }
            },
        }
    }

    /// Make an inbound session resident, replacing what was there.
    fn put_inbound(
        &mut self,
        group_id: &str,
        sender_key: &str,
        session: vodozemac::megolm::InboundGroupSession,
    )
        requires
            old(self).wf(),
        ensures
            final(self).wf(),
            final(self).inbound() == old(self).inbound().insert(
                (group_id@, sender_key@),
                inbound_model(session),
            ),
            final(self).outbound() == old(self).outbound(),
    {
        let ghost key = (group_id@, sender_key@);
        let ghost m = inbound_model(session);
        match self.find_inbound(group_id, sender_key) {
            Some(i) => {
                self.inbound.set(i, ((group_id.to_owned(), sender_key.to_owned()), session));
                proof {
                    self.in_model@ = self.in_model@.insert(key, m);
                    assert forall|k: (Seq<char>, Seq<char>)|
                        self.in_model@.contains_key(k) implies exists|n: int|
                        0 <= n < self.inbound@.len() && ((#[trigger] self.inbound@[n]).0.0@, (
                        self.inbound@[n]).0.1@) == k by {
                        if k == key {
                            assert(((self.inbound@[i as int]).0.0@, (
                            self.inbound@[i as int]).0.1@) == k);
                        } else {
                            let n = choose|n: int|
                                0 <= n < old(self).inbound@.len() && ((#[trigger] old(self).inbound@[n]).0.0@, (old(self).inbound@[n]).0.1@) == k;
                            assert(((self.inbound@[n]).0.0@, (self.inbound@[n]).0.1@) == k);
                        }
                    }
                    assert forall|k: (Seq<char>, Seq<char>)|
                        (exists|n: int|
                            0 <= n < self.inbound@.len() && ((#[trigger] self.inbound@[n]).0.0@, (
                            self.inbound@[n]).0.1@) == k) implies self.in_model@.contains_key(
                        k,
                    ) by {
                        let n = choose|n: int|
                            0 <= n < self.inbound@.len() && ((#[trigger] self.inbound@[n]).0.0@, (
                            self.inbound@[n]).0.1@) == k;
                        assert(((old(self).inbound@[n]).0.0@, (old(self).inbound@[n]).0.1@) == k
                            || k == key);
                    }
                }
            },
            None => {
                self.inbound.push(((group_id.to_owned(), sender_key.to_owned()), session));
                proof {
                    self.in_model@ = self.in_model@.insert(key, m);
                    let len = self.inbound@.len();
                    assert forall|k: (Seq<char>, Seq<char>)|
                        self.in_model@.contains_key(k) implies exists|n: int|
                        0 <= n < len && ((#[trigger] self.inbound@[n]).0.0@, (
                        self.inbound@[n]).0.1@) == k by {
                        if k == key {
                            assert(((self.inbound@[len - 1]).0.0@, (self.inbound@[len - 1]).0.1@)
                                == k);
                        } else {
                            let n = choose|n: int|
                                0 <= n < old(self).inbound@.len() && ((#[trigger] old(self).inbound@[n]).0.0@, (old(self).inbound@[n]).0.1@) == k;
                            assert(((self.inbound@[n]).0.0@, (self.inbound@[n]).0.1@) == k);
                        }
                    }
                    assert forall|k: (Seq<char>, Seq<char>)|
                        (exists|n: int|
                            0 <= n < len && ((#[trigger] self.inbound@[n]).0.0@, (
                            self.inbound@[n]).0.1@) == k) implies self.in_model@.contains_key(
                        k,
                    ) by {
                        let n = choose|n: int|
                            0 <= n < len && ((#[trigger] self.inbound@[n]).0.0@, (
                            self.inbound@[n]).0.1@) == k;
                        if n < len - 1 {
                            assert(((old(self).inbound@[n]).0.0@, (old(self).inbound@[n]).0.1@)
                                == k);
                        } else {
                            assert(k == key);
                        }
                    }
                }
            },
        }
    }

    /// Create a fresh outbound session for a group and return the
    /// exportable session key, to be delivered over pairwise sessions.
    /// Overwrites any prior outbound session of the group; the old one can
    /// encrypt nothing further, which is the point of a rekey.
    pub fn create_group_session(&mut self, group_id: &str, key_store: &mut KeyStore) -> (r: Result<
        String,
        ArchivistError,
    >)
        requires
            old(self).wf(),
            old(key_store).wf(),
        ensures
            final(self).wf(),
            final(key_store).wf(),
            final(key_store).master() == old(key_store).master(),
            final(self).inbound() == old(self).inbound(),
            r is Ok,
            r is Ok ==> {
                &&& final(self).outbound().contains_key(group_id@)
                &&& final(self).outbound() == old(self).outbound().insert(
                    group_id@,
                    final(self).outbound()[group_id@],
                )
                &&& final(self).outbound()[group_id@].index == 0
                &&& gkey_sid(r->Ok_0@) == final(self).outbound()[group_id@].sid
                &&& gkey_first(r->Ok_0@) == 0
                &&& valid_group_key_b64(r->Ok_0@)
                &&& final(key_store).contents() == old(key_store).contents().insert(
                    SlotKey::GroupOutbound(group_id@),
                    final(key_store).contents()[SlotKey::GroupOutbound(group_id@)],
                )
                &&& group_blob_ok(final(key_store).contents()[SlotKey::GroupOutbound(group_id@)])
            },
    {
        let session = group_session_new();
        let session_key = group_session_key_b64(&session);
        let pickle = group_session_pickle_json(&session)?;
        proof {
            vstd::utf8::encode_utf8_valid_utf8(pickle@);
            vstd::utf8::encode_utf8_decode_utf8(pickle@);
        }
        key_store.save_outbound_group_session(group_id, pickle.as_str().as_bytes())?;
        self.put_outbound(group_id, session);
        Ok(session_key)
    }

    /// Rekey the outbound session of a group, for instance on a membership
    /// change: the fresh key is returned for distribution to the resulting
    /// member set.
    pub fn rekey_group(&mut self, group_id: &str, key_store: &mut KeyStore) -> (r: Result<
        String,
        ArchivistError,
    >)
        requires
            old(self).wf(),
            old(key_store).wf(),
        ensures
            final(self).wf(),
            final(key_store).wf(),
            final(key_store).master() == old(key_store).master(),
            final(self).inbound() == old(self).inbound(),
            r is Ok,
            r is Ok ==> {
                &&& final(self).outbound().contains_key(group_id@)
                &&& final(self).outbound() == old(self).outbound().insert(
                    group_id@,
                    final(self).outbound()[group_id@],
                )
                &&& final(self).outbound()[group_id@].index == 0
                &&& gkey_sid(r->Ok_0@) == final(self).outbound()[group_id@].sid
                &&& gkey_first(r->Ok_0@) == 0
                &&& valid_group_key_b64(r->Ok_0@)
                &&& final(key_store).contents() == old(key_store).contents().insert(
                    SlotKey::GroupOutbound(group_id@),
                    final(key_store).contents()[SlotKey::GroupOutbound(group_id@)],
                )
                &&& group_blob_ok(final(key_store).contents()[SlotKey::GroupOutbound(group_id@)])
            },
    {
        self.create_group_session(group_id, key_store)
    }

    /// Import an inbound session received from another member, keyed by
    /// sender so messages from different senders never collide.
    pub fn add_inbound_session(
        &mut self,
        group_id: &str,
        sender_key: &str,
        exported_session_key: &str,
        key_store: &mut KeyStore,
    ) -> (r: Result<(), ArchivistError>)
        requires
            old(self).wf(),
            old(key_store).wf(),
        ensures
            final(self).wf(),
            final(key_store).wf(),
            final(key_store).master() == old(key_store).master(),
            final(self).outbound() == old(self).outbound(),
            valid_group_key_b64(exported_session_key@) ==> r is Ok,
            r is Ok ==> {
                &&& final(self).inbound() == old(self).inbound().insert(
                    (group_id@, sender_key@),
                    InboundModel {
                        sid: gkey_sid(exported_session_key@),
                        first: gkey_first(exported_session_key@),
                    },
                )
                &&& final(key_store).contents() == old(key_store).contents().insert(
                    SlotKey::GroupInbound(group_id@, sender_key@),
                    final(key_store).contents()[SlotKey::GroupInbound(group_id@, sender_key@)],
                )
                &&& inbound_group_blob_ok(final(key_store).contents()[SlotKey::GroupInbound(
                    group_id@,
                    sender_key@,
                )])
            },
            r is Err ==> r->Err_0 is CryptoError && final(self).inbound() == old(self).inbound() && final(key_store).contents() == old(key_store).contents(),
    {
        let session = inbound_group_session_new(exported_session_key)?;
        let pickle = inbound_group_session_pickle_json(&session)?;
        proof {
            vstd::utf8::encode_utf8_valid_utf8(pickle@);
            vstd::utf8::encode_utf8_decode_utf8(pickle@);
        }
        key_store.save_inbound_group_session(group_id, sender_key, pickle.as_str().as_bytes())?;
        self.put_inbound(group_id, sender_key, session);
        Ok(())
    }

    /// Encrypt a plaintext with the group's outbound session, returning the
    /// ciphertext and the ratchet index it was produced at.  The mutated
    /// session is persisted immediately.
    pub fn encrypt_group(&mut self, group_id: &str, plaintext: &[u8], key_store: &mut KeyStore)
        -> (r: Result<(String, u32), ArchivistError>)
        requires
            old(self).wf(),
            old(key_store).wf(),
        ensures
            final(self).wf(),
            final(key_store).wf(),
            final(key_store).master() == old(key_store).master(),
            final(self).inbound() == old(self).inbound(),
            !old(self).outbound().contains_key(group_id@) ==> r is Err && r->Err_0
                is CryptoError && final(self).outbound() == old(self).outbound() && final(key_store).contents() == old(key_store).contents(),
            (old(self).outbound().contains_key(group_id@) && old(self).outbound()[
                group_id@
            ].index < 0xffff_ffff) ==> r is Ok,
            r is Ok ==> old(self).outbound().contains_key(group_id@) && old(self).outbound()[
                group_id@
            ].index < 0xffff_ffff && {
                let m = old(self).outbound()[group_id@];
                &&& gwire_plain(r->Ok_0.0@) == plaintext@
                &&& gwire_sid(r->Ok_0.0@) == m.sid
                &&& gwire_index(r->Ok_0.0@) == m.index
                &&& gwire_genuine(r->Ok_0.0@)
                &&& r->Ok_0.1 == m.index
                &&& final(self).outbound() == old(self).outbound().insert(
                    group_id@,
                    OutboundModel { sid: m.sid, index: (m.index + 1) as nat },
                )
                &&& final(key_store).contents() == old(key_store).contents().insert(
                    SlotKey::GroupOutbound(group_id@),
                    final(key_store).contents()[SlotKey::GroupOutbound(group_id@)],
                )
                &&& group_blob_ok(final(key_store).contents()[SlotKey::GroupOutbound(group_id@)])
            },
            r is Err ==> r->Err_0 is CryptoError && final(key_store).contents() == old(key_store).contents() && (final(self).outbound() == old(self).outbound() || (old(self).outbound().contains_key(group_id@) && final(self).outbound() == old(self).outbound().insert(
                group_id@,
                OutboundModel {
                    sid: old(self).outbound()[group_id@].sid,
                    index: (old(self).outbound()[group_id@].index + 1) as nat,
                },
            ))),
    {
        let i = match self.find_outbound(group_id) {
            Some(i) => i,
            None => {
                return Err(
                    ArchivistError::CryptoError(
                        String::from_str("No outbound group session for group"),
                    ),
                );
            },
        };
        if group_session_message_index(&self.outbound[i].1) == 0xffff_ffff {
            return Err(
                ArchivistError::CryptoError(String::from_str("Group ratchet exhausted")),
            );
        }
        let ghost key = group_id@;
        let ghost m = old(self).out_model@[key];
        let (stored_key, mut session) = self.outbound.remove(i);
        let encrypted = group_session_encrypt(&mut session, plaintext);
        self.outbound.insert(i, (stored_key, session));
        proof {
            self.out_model@ = self.out_model@.insert(
                key,
                OutboundModel { sid: m.sid, index: (m.index + 1) as nat },
            );
            assert forall|k: Seq<char>| self.out_model@.contains_key(k) implies exists|n: int|
                0 <= n < self.outbound@.len() && (#[trigger] self.outbound@[n]).0@ == k by {
                let n = choose|n: int|
                    0 <= n < old(self).outbound@.len() && (#[trigger] old(self).outbound@[n]).0@
                        == k;
                assert(self.outbound@[n].0@ == k);
            }
            assert forall|k: Seq<char>|
                (exists|n: int|
                    0 <= n < self.outbound@.len() && (#[trigger] self.outbound@[n]).0@
                        == k) implies self.out_model@.contains_key(k) by {
                let n = choose|n: int|
                    0 <= n < self.outbound@.len() && (#[trigger] self.outbound@[n]).0@ == k;
                assert(old(self).outbound@[n].0@ == k);
            }
            assert(self.wf());
        }
        let pickle = match group_session_pickle_json(&self.outbound[i].1) {
            Ok(p) => {
                proof {
                    vstd::utf8::encode_utf8_valid_utf8(p@);
                    vstd::utf8::encode_utf8_decode_utf8(p@);
                }
                p
            },
            Err(e) => {
                return Err(e);
            },
        };
        match key_store.save_outbound_group_session(group_id, pickle.as_str().as_bytes()) {
            Ok(_) => {},
            Err(e) => {
                return Err(e);
            },
        }
        Ok(encrypted)
    }

    /// Decrypt a message from a sender in a group with the matching inbound
    /// session.  It fails when no such session exists, when the ciphertext
    /// belongs to another session (for instance one produced after a rekey
    /// this receiver has not learnt of), or when its index lies before the
    /// session's first known index.
    pub fn decrypt_group(
        &mut self,
        group_id: &str,
        sender_key: &str,
        ciphertext: &str,
        key_store: &mut KeyStore,
    ) -> (r: Result<Vec<u8>, ArchivistError>)
        requires
            old(self).wf(),
            old(key_store).wf(),
        ensures
            final(self).wf(),
            final(key_store).wf(),
            final(key_store).master() == old(key_store).master(),
            final(self).outbound() == old(self).outbound(),
            final(self).inbound() == old(self).inbound(),
            !old(self).inbound().contains_key((group_id@, sender_key@)) ==> r is Err && r->Err_0
                is CryptoError && final(key_store).contents() == old(key_store).contents(),
            (old(self).inbound().contains_key((group_id@, sender_key@)) && gwire_genuine(
                ciphertext@,
            ) && gwire_sid(ciphertext@) == old(self).inbound()[(group_id@, sender_key@)].sid
                && gwire_index(ciphertext@) >= old(self).inbound()[
                (group_id@, sender_key@)
            ].first) ==> r is Ok,
            r is Ok ==> old(self).inbound().contains_key((group_id@, sender_key@)) && {
                let m = old(self).inbound()[(group_id@, sender_key@)];
                &&& r->Ok_0@ == gwire_plain(ciphertext@)
                &&& gwire_sid(ciphertext@) == m.sid
                &&& gwire_index(ciphertext@) >= m.first
                &&& final(key_store).contents() == old(key_store).contents().insert(
                    SlotKey::GroupInbound(group_id@, sender_key@),
                    final(key_store).contents()[SlotKey::GroupInbound(group_id@, sender_key@)],
                )
                &&& inbound_group_blob_ok(final(key_store).contents()[SlotKey::GroupInbound(
                    group_id@,
                    sender_key@,
                )])
            },
            old(self).inbound().contains_key((group_id@, sender_key@)) && gwire_sid(ciphertext@)
                != old(self).inbound()[(group_id@, sender_key@)].sid ==> r is Err,
            r is Err ==> r->Err_0 is CryptoError && final(key_store).contents() == old(key_store).contents(),
    {
        let i = match self.find_inbound(group_id, sender_key) {
            Some(i) => i,
            None => {
                return Err(
                    ArchivistError::CryptoError(
                        String::from_str("No inbound group session for sender in group"),
                    ),
                );
            },
        };
        let ghost key = (group_id@, sender_key@);
        let ghost m = old(self).in_model@[key];
        let (stored_key, mut session) = self.inbound.remove(i);
        let decrypted = match inbound_group_session_decrypt(&mut session, ciphertext) {
            Ok(d) => d,
            Err(e) => {
                self.inbound.insert(i, (stored_key, session));
                proof {
                    self.reestablish_inbound(*old(self), i as int);
                }
                return Err(e);
            },
        };
        self.inbound.insert(i, (stored_key, session));
        proof {
            self.reestablish_inbound(*old(self), i as int);
        }
        let pickle = match inbound_group_session_pickle_json(&self.inbound[i].1) {
            Ok(p) => {
                proof {
                    vstd::utf8::encode_utf8_valid_utf8(p@);
                    vstd::utf8::encode_utf8_decode_utf8(p@);
                }
                p
            },
            Err(e) => {
                return Err(e);
            },
        };
        match key_store.save_inbound_group_session(
            group_id,
            sender_key,
            pickle.as_str().as_bytes(),
        ) {
            Ok(_) => {},
            Err(e) => {
                return Err(e);
            },
        }
        Ok(decrypted.0)
    }

    /// After replacing the inbound session at index `i` by one with the
    /// same key and the same observed state, well-formedness holds again.
    proof fn reestablish_inbound(&self, prior: GroupSessionManager, i: int)
        requires
            prior.wf(),
            0 <= i < prior.inbound@.len(),
            self.inbound@.len() == prior.inbound@.len(),
            self.outbound@ == prior.outbound@,
            self.out_model@ == prior.out_model@,
            self.in_model@ == prior.in_model@,
            forall|n: int|
                0 <= n < prior.inbound@.len() && n != i ==> self.inbound@[n]
                    == prior.inbound@[n],
            (self.inbound@[i]).0.0@ == (prior.inbound@[i]).0.0@,
            (self.inbound@[i]).0.1@ == (prior.inbound@[i]).0.1@,
            inbound_model(self.inbound@[i].1) == inbound_model(prior.inbound@[i].1),
        ensures
            self.wf(),
    {
        assert forall|k: (Seq<char>, Seq<char>)| self.in_model@.contains_key(k) implies exists|
            n: int,
        |
            0 <= n < self.inbound@.len() && ((#[trigger] self.inbound@[n]).0.0@, (
            self.inbound@[n]).0.1@) == k by {
            let n = choose|n: int|
                0 <= n < prior.inbound@.len() && ((#[trigger] prior.inbound@[n]).0.0@, (
                prior.inbound@[n]).0.1@) == k;
            assert(((self.inbound@[n]).0.0@, (self.inbound@[n]).0.1@) == k);
        }
        assert forall|k: (Seq<char>, Seq<char>)|
            (exists|n: int|
                0 <= n < self.inbound@.len() && ((#[trigger] self.inbound@[n]).0.0@, (
                self.inbound@[n]).0.1@) == k) implies self.in_model@.contains_key(k) by {
            let n = choose|n: int|
                0 <= n < self.inbound@.len() && ((#[trigger] self.inbound@[n]).0.0@, (
                self.inbound@[n]).0.1@) == k;
            assert(((prior.inbound@[n]).0.0@, (prior.inbound@[n]).0.1@) == k);
        }
    }

    /// The id of the group's outbound session, if one is resident.
    pub fn session_id(&self, group_id: &str) -> (r: Option<String>)
        requires
            self.wf(),
        ensures
            r is Some <==> self.outbound().contains_key(group_id@),
            r is Some ==> r->Some_0@ == self.outbound()[group_id@].sid,
    {
        match self.find_outbound(group_id) {
            Some(i) => Some(group_session_id(&self.outbound[i].1)),
            None => None,
        }
    }

    /// Whether an outbound session for the group is resident.
    pub fn has_outbound(&self, group_id: &str) -> (r: bool)
        requires
            self.wf(),
        ensures
            r == self.outbound().contains_key(group_id@),
    {
        match self.find_outbound(group_id) {
            Some(_) => true,
            None => false,
        }
    }

    /// Load a persisted outbound session; a no-op if one is resident.
    pub fn load_outbound_session(&mut self, group_id: &str, key_store: &KeyStore) -> (r: Result<
        bool,
        ArchivistError,
    >)
        requires
            old(self).wf(),
            key_store.wf(),
        ensures
            final(self).wf(),
            final(self).inbound() == old(self).inbound(),
            old(self).outbound().contains_key(group_id@) ==> r is Ok && r->Ok_0 && final(self).outbound() == old(self).outbound(),
            r is Ok ==> (r->Ok_0 <==> (old(self).outbound().contains_key(group_id@)
                || key_store.contents().contains_key(SlotKey::GroupOutbound(group_id@)))),
            r is Ok ==> final(self).outbound() == old(self).outbound().insert(
                group_id@,
                final(self).outbound()[group_id@],
            ) || final(self).outbound() == old(self).outbound(),
            forall|k: Seq<char>|
                k != group_id@ ==> final(self).outbound().contains_key(k) == old(self).outbound().contains_key(k) && (old(self).outbound().contains_key(k) ==> final(self).outbound()[k] == old(self).outbound()[k]),
            (!old(self).outbound().contains_key(group_id@)
                && key_store.contents().contains_key(SlotKey::GroupOutbound(group_id@))
                && group_blob_ok(key_store.contents()[SlotKey::GroupOutbound(group_id@)]))
                ==> r is Ok && r->Ok_0,
            (!old(self).outbound().contains_key(group_id@)
                && !key_store.contents().contains_key(SlotKey::GroupOutbound(group_id@)))
                ==> r is Ok && !r->Ok_0,
            r is Err ==> r->Err_0 is CryptoError && final(self).outbound() == old(self).outbound(),
    {
        match self.find_outbound(group_id) {
            Some(_) => {
                assert(self.out_model@.contains_key(group_id@));
                return Ok(true);
            },
            None => {},
        }
        let loaded = match key_store.load_outbound_group_session(group_id) {
            Ok(l) => l,
            Err(e) => {
                proof {
                    assert(false);
                }
                return Err(e);
            },
        };
        match loaded {
            Some(bytes) => {
                let ghost blob = bytes@;
                let pickle_str = string_from_utf8(bytes)?;
                proof {
                    if group_blob_ok(blob) {
                        vstd::utf8::encode_utf8_decode_utf8(pickle_str@);
                        assert(pickle_str@ == vstd::utf8::decode_utf8(blob));
                    }
                }
                let session = group_session_from_pickle_json(pickle_str.as_str())?;
                self.put_outbound(group_id, session);
                Ok(true)
            },
            None => Ok(false),
        }
    }

    /// Load a persisted inbound session; a no-op if one is resident.
    pub fn load_inbound_session(
        &mut self,
        group_id: &str,
        sender_key: &str,
        key_store: &KeyStore,
    ) -> (r: Result<bool, ArchivistError>)
        requires
            old(self).wf(),
            key_store.wf(),
        ensures
            final(self).wf(),
            final(self).outbound() == old(self).outbound(),
            old(self).inbound().contains_key((group_id@, sender_key@)) ==> r is Ok && r->Ok_0
                && final(self).inbound() == old(self).inbound(),
            r is Ok ==> (r->Ok_0 <==> (old(self).inbound().contains_key((group_id@, sender_key@))
                || key_store.contents().contains_key(SlotKey::GroupInbound(
                group_id@,
                sender_key@,
            )))),
            r is Ok ==> final(self).inbound() == old(self).inbound().insert(
                (group_id@, sender_key@),
                final(self).inbound()[(group_id@, sender_key@)],
            ) || final(self).inbound() == old(self).inbound(),
            forall|k: (Seq<char>, Seq<char>)|
                k != (group_id@, sender_key@) ==> final(self).inbound().contains_key(k) == old(self).inbound().contains_key(k) && (old(self).inbound().contains_key(k) ==> final(self).inbound()[k] == old(self).inbound()[k]),
            (!old(self).inbound().contains_key((group_id@, sender_key@))
                && key_store.contents().contains_key(SlotKey::GroupInbound(
                group_id@,
                sender_key@,
            )) && inbound_group_blob_ok(key_store.contents()[SlotKey::GroupInbound(
                group_id@,
                sender_key@,
            )])) ==> r is Ok && r->Ok_0,
            (!old(self).inbound().contains_key((group_id@, sender_key@))
                && !key_store.contents().contains_key(SlotKey::GroupInbound(
                group_id@,
                sender_key@,
            ))) ==> r is Ok && !r->Ok_0,
            r is Err ==> r->Err_0 is CryptoError && final(self).inbound() == old(self).inbound(),
    {
        match self.find_inbound(group_id, sender_key) {
            Some(_) => {
                assert(self.in_model@.contains_key((group_id@, sender_key@)));
                return Ok(true);
            },
            None => {},
        }
        let loaded = match key_store.load_inbound_group_session(group_id, sender_key) {
            Ok(l) => l,
            Err(e) => {
                proof {
                    assert(false);
                }
                return Err(e);
            },
        };
        match loaded {
            Some(bytes) => {
                let ghost blob = bytes@;
                let pickle_str = string_from_utf8(bytes)?;
                proof {
                    if inbound_group_blob_ok(blob) {
                        vstd::utf8::encode_utf8_decode_utf8(pickle_str@);
                        assert(pickle_str@ == vstd::utf8::decode_utf8(blob));
                    }
                }
                let session = inbound_group_session_from_pickle_json(pickle_str.as_str())?;
                self.put_inbound(group_id, sender_key, session);
                Ok(true)
            },
            None => Ok(false),
        }
    }
}

} // verus!
