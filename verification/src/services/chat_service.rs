use vstd::prelude::*;
use vstd::pervasive::VecAdditionalExecFns;
use vstd::string::StrSliceExecFns;
use vstd::string::StringExecFns;
use crate::error::ArchivistError;
use crate::crypto::identity::IdentityManager;
use crate::crypto::key_store::{KeyStore, Slot, SlotKey};
use crate::crypto::sessions::{SessionManager, SessionModel, session_blob_ok,
    session_blob_usable};
use crate::crypto::group_sessions::{GroupSessionManager, OutboundModel, InboundModel};
use crate::crypto::olm::{owire_plain, owire_sid, olm_inbound_ok, olm_inbound_msg_ok,
    is_prekey_wire, valid_curve25519_b64};
use crate::crypto::megolm::{gwire_plain, gwire_sid, gwire_index, gwire_genuine, gkey_sid,
    gkey_first, valid_group_key_b64};
use crate::crypto::safety_numbers::{compute_safety_number, format_safety_number,
    safety_number_spec};
use crate::services::chat_content::{encode_content, decode_content, content_bytes};
use crate::services::chat_delivery_queue::{DeliveryQueue, PendingDelivery, AttemptOutcome,
    PendingDeliveryModel, is_ready_for_retry, ready_spec};
use crate::services::chat_message_store::{MessageStore, ConversationModel,
    clone_stored_message, update_status_spec};
use crate::services::chat_tofu::{TofuStore, TofuEntry, TofuEntryModel, TrustLevel};
use crate::services::chat_types::{
    ChatIdentityInfo, ChatMessageContent, ChatServerStatus, ConversationSummary, DeliveryAck,
    DeliveryAckStatus, DeliveryStatus, EncryptedChatMessage, EncryptedGroupMessage, GroupInfo,
    GroupInfoModel, GroupInvite, GroupMemberInfo, GroupRekey, OlmMessageType,
    PreKeyBundleExchange, RekeyReason, SafetyNumberInfo, StoredMessage, WirePayload,
    WirePayloadModel,
};
use crate::services::chat_message_store::summary_in_store;
use crate::services::runtime::{new_uuid, now_ms};
use crate::text::str_eq;

verus! {

/// Configuration of the chat service.
#[derive(Debug, Clone)]
pub struct ChatSettings {
    pub port: u16,
    /// Upper bound on a message's text, in bytes.
    pub max_message_size: usize,
    pub store_history: bool,
    pub notify_on_message: bool,
}

/// The group ledger matches the resident group records.
pub open spec fn groups_wf(v: Seq<(String, GroupInfo)>, m: Map<Seq<char>, GroupInfoModel>) -> bool {
    &&& forall|i: int, j: int|
        0 <= i < j < v.len() ==> (#[trigger] v[i]).0@ != (#[trigger] v[j]).0@
    &&& forall|k: Seq<char>|
        m.contains_key(k) <==> exists|i: int| 0 <= i < v.len() && (#[trigger] v[i]).0@ == k
    &&& forall|i: int| 0 <= i < v.len() ==> (#[trigger] m[v[i].0@]) == v[i].1@
}

/// The identity-key ledger matches the resident peer keys.
pub open spec fn peer_keys_wf(v: Seq<(String, String)>, m: Map<Seq<char>, Seq<char>>) -> bool {
    &&& forall|i: int, j: int|
        0 <= i < j < v.len() ==> (#[trigger] v[i]).0@ != (#[trigger] v[j]).0@
    &&& forall|k: Seq<char>|
        m.contains_key(k) <==> exists|i: int| 0 <= i < v.len() && (#[trigger] v[i]).0@ == k
    &&& forall|i: int| 0 <= i < v.len() ==> (#[trigger] m[v[i].0@]) == v[i].1@
}


/// The stored delivery status an acknowledgment maps to.
pub open spec fn ack_status(s: DeliveryAckStatus) -> DeliveryStatus {
    match s {
        DeliveryAckStatus::Delivered => DeliveryStatus::Delivered,
        DeliveryAckStatus::Read => DeliveryStatus::Read,
        DeliveryAckStatus::Failed => DeliveryStatus::Failed,
    }
}

/// A pairwise session the service can encrypt over right away: resident
/// and usable, or absent but restorable from a stored usable pickle.
pub open spec fn session_servable(
    sessions: Map<Seq<char>, SessionModel>,
    ks: Map<SlotKey, Seq<u8>>,
    k: Seq<char>,
) -> bool {
    ||| (sessions.contains_key(k) && sessions[k].usable)
    ||| (!sessions.contains_key(k) && ks.contains_key(SlotKey::Session(k)) && session_blob_ok(
        ks[SlotKey::Session(k)],
    ) && session_blob_usable(ks[SlotKey::Session(k)]))
}

/// Whether `newq` is `oldq` with entries appended at the tail.
pub open spec fn queue_extended(
    oldq: Seq<PendingDeliveryModel>,
    newq: Seq<PendingDeliveryModel>,
) -> bool {
    oldq.len() <= newq.len() && newq.subrange(0, oldq.len() as int) == oldq
}

/// Whether an address is listed for a peer.
pub open spec fn address_listed(addresses: Seq<(String, String)>, peer: Seq<char>) -> bool {
    exists|j: int| 0 <= j < addresses.len() && (#[trigger] addresses[j]).0@ == peer
}

/// The address recorded for a peer, if one is listed.
fn lookup_address(addresses: &Vec<(String, String)>, peer_id: &str) -> (r: Option<String>)
    ensures
        r is Some <==> address_listed(addresses@, peer_id@),
{
    let mut i: usize = 0;
    while i < addresses.len()
        invariant
            i <= addresses@.len(),
            forall|j: int| 0 <= j < i ==> (#[trigger] addresses@[j]).0@ != peer_id@,
        decreases addresses@.len() - i,
    {
        if str_eq(addresses[i].0.as_str(), peer_id) {
            assert(addresses@[i as int].0@ == peer_id@);
            return Some(addresses[i].1.clone());
        }
        i = i + 1;
    }
    None
}

/// A copy of a member record with the same character sequences.
fn clone_member(m: &GroupMemberInfo) -> (r: GroupMemberInfo)
    ensures
        r@ == m@,
{
    GroupMemberInfo { peer_id: m.peer_id.clone(), identity_key: m.identity_key.clone() }
}

/// A copy of a member list with the same views.
fn clone_members(members: &Vec<GroupMemberInfo>) -> (r: Vec<GroupMemberInfo>)
    ensures
        r@.len() == members@.len(),
        forall|i: int| 0 <= i < members@.len() ==> (#[trigger] r@[i])@ == members@[i]@,
{
    let mut out: Vec<GroupMemberInfo> = Vec::new();
    let mut i: usize = 0;
    while i < members.len()
        invariant
            i <= members@.len(),
            out@.len() == i,
            forall|n: int| 0 <= n < i ==> (#[trigger] out@[n])@ == members@[n]@,
        decreases members@.len() - i,
    {
        out.push(clone_member(&members[i]));
        i = i + 1;
    }
    out
}

/// A copy of a group record with the same view.
fn clone_group_info(g: &GroupInfo) -> (r: GroupInfo)
    ensures
        r@ == g@,
{
    let r = GroupInfo {
        group_id: g.group_id.clone(),
        group_name: g.group_name.clone(),
        creator_peer_id: g.creator_peer_id.clone(),
        members: clone_members(&g.members),
        created_at: g.created_at,
    };
    proof {
        assert(r@.members =~= g@.members);
        assert(r@ == g@);
    }
    r
}

/// A copy of an encrypted group message with the same view.
fn clone_group_message(m: &EncryptedGroupMessage) -> (r: EncryptedGroupMessage)
    ensures
        r@ == m@,
{
    EncryptedGroupMessage {
        message_id: m.message_id.clone(),
        group_id: m.group_id.clone(),
        sender_peer_id: m.sender_peer_id.clone(),
        sender_identity_key: m.sender_identity_key.clone(),
        ciphertext: m.ciphertext.clone(),
        session_id: m.session_id.clone(),
        message_index: m.message_index,
        timestamp: m.timestamp,
    }
}

/// A member already served by a delivery in `oldq`'s appended range stays
/// served once the queue grows to `newq`.
proof fn lemma_served_transfer(
    member_models: Seq<crate::services::chat_types::GroupMemberInfoModel>,
    addresses: Seq<(String, String)>,
    sessions: Map<Seq<char>, SessionModel>,
    ks: Map<SlotKey, Seq<u8>>,
    me: Seq<char>,
    base_len: int,
    bound: int,
    oldq: Seq<PendingDeliveryModel>,
    newq: Seq<PendingDeliveryModel>,
)
    requires
        0 <= base_len <= oldq.len(),
        oldq.len() <= newq.len(),
        newq.subrange(0, oldq.len() as int) == oldq,
        forall|n: int|
            (0 <= n < bound && (#[trigger] member_models[n]).peer_id != me && address_listed(
                addresses,
                member_models[n].peer_id,
            ) && session_servable(sessions, ks, member_models[n].peer_id)) ==> exists|t: int|
                base_len <= t < oldq.len() && (#[trigger] oldq[t]).target_peer_id
                    == member_models[n].peer_id,
    ensures
        forall|n: int|
            (0 <= n < bound && (#[trigger] member_models[n]).peer_id != me && address_listed(
                addresses,
                member_models[n].peer_id,
            ) && session_servable(sessions, ks, member_models[n].peer_id)) ==> exists|t: int|
                base_len <= t < newq.len() && (#[trigger] newq[t]).target_peer_id
                    == member_models[n].peer_id,
{
    assert forall|n: int|
        (0 <= n < bound && (#[trigger] member_models[n]).peer_id != me && address_listed(
            addresses,
            member_models[n].peer_id,
        ) && session_servable(sessions, ks, member_models[n].peer_id)) implies exists|t: int|
        base_len <= t < newq.len() && (#[trigger] newq[t]).target_peer_id == member_models[
        n].peer_id by {
        let t = choose|t: int|
            base_len <= t < oldq.len() && (#[trigger] oldq[t]).target_peer_id == member_models[
            n].peer_id;
        assert(newq[t] == oldq[t]);
    }
}

/// As `lemma_served_transfer`, for a plain list of member peer ids.
proof fn lemma_served_transfer_ids(
    ids: Seq<Seq<char>>,
    addresses: Seq<(String, String)>,
    sessions: Map<Seq<char>, SessionModel>,
    ks: Map<SlotKey, Seq<u8>>,
    base_len: int,
    bound: int,
    oldq: Seq<PendingDeliveryModel>,
    newq: Seq<PendingDeliveryModel>,
)
    requires
        0 <= base_len <= oldq.len(),
        oldq.len() <= newq.len(),
        newq.subrange(0, oldq.len() as int) == oldq,
        forall|n: int|
            (0 <= n < bound && address_listed(addresses, #[trigger] ids[n]) && session_servable(
                sessions,
                ks,
                ids[n],
            )) ==> exists|t: int|
                base_len <= t < oldq.len() && (#[trigger] oldq[t]).target_peer_id == ids[n],
    ensures
        forall|n: int|
            (0 <= n < bound && address_listed(addresses, #[trigger] ids[n]) && session_servable(
                sessions,
                ks,
                ids[n],
            )) ==> exists|t: int|
                base_len <= t < newq.len() && (#[trigger] newq[t]).target_peer_id == ids[n],
{
    assert forall|n: int|
        (0 <= n < bound && address_listed(addresses, #[trigger] ids[n]) && session_servable(
            sessions,
            ks,
            ids[n],
        )) implies exists|t: int|
        base_len <= t < newq.len() && (#[trigger] newq[t]).target_peer_id == ids[n] by {
        let t = choose|t: int|
            base_len <= t < oldq.len() && (#[trigger] oldq[t]).target_peer_id == ids[n];
        assert(newq[t] == oldq[t]);
    }
}

/// The orchestrator of the messaging core: session bootstrap, message send
/// and receive, group lifecycle, certificate pinning, and the delivery
/// queue, all over one encrypted key store.
///
/// One instance serialises every crypto-mutating operation; a host that
/// runs operations concurrently guards the instance with one exclusive
/// lock.
pub struct ChatService {
    identity: IdentityManager,
    sessions: SessionManager,
    group_sessions: GroupSessionManager,
    tofu_store: TofuStore,
    key_store: KeyStore,
    message_store: MessageStore,
    delivery_queue: DeliveryQueue,
    our_peer_id: String,
    our_cert_fingerprint: String,
    groups: Vec<(String, GroupInfo)>,
    groups_model: Ghost<Map<Seq<char>, GroupInfoModel>>,
    chat_port: u16,
    peer_identity_keys: Vec<(String, String)>,
    peer_keys_model: Ghost<Map<Seq<char>, Seq<char>>>,
    max_message_size: usize,
    store_history: bool,
    notify_on_message: bool,
}

impl ChatService {
    // ── Models ─────────────────────────────────────────────────

    pub closed spec fn sessions_model(&self) -> Map<Seq<char>, SessionModel> {
        self.sessions.model()
    }

    pub closed spec fn outbound(&self) -> Map<Seq<char>, OutboundModel> {
        self.group_sessions.outbound()
    }

    pub closed spec fn inbound(&self) -> Map<(Seq<char>, Seq<char>), InboundModel> {
        self.group_sessions.inbound()
    }

    pub closed spec fn ledger(&self) -> Map<Seq<char>, TofuEntryModel> {
        self.tofu_store.ledger()
    }

    pub closed spec fn conversations(&self) -> Map<Seq<char>, ConversationModel> {
        self.message_store.model()
    }

    pub closed spec fn queue(&self) -> Seq<PendingDeliveryModel> {
        self.delivery_queue.model()
    }

    pub closed spec fn groups(&self) -> Map<Seq<char>, GroupInfoModel> {
        self.groups_model@
    }

    pub closed spec fn peer_keys(&self) -> Map<Seq<char>, Seq<char>> {
        self.peer_keys_model@
    }

    pub closed spec fn peer(&self) -> Seq<char> {
        self.our_peer_id@
    }

    pub closed spec fn fingerprint(&self) -> Seq<char> {
        self.our_cert_fingerprint@
    }

    pub closed spec fn ik(&self) -> Seq<char> {
        self.identity.ik()
    }

    pub closed spec fn sk(&self) -> Seq<char> {
        self.identity.sk()
    }

    pub closed spec fn otk_count(&self) -> nat {
        self.identity.otk_count()
    }

    pub closed spec fn max_size(&self) -> nat {
        self.max_message_size as nat
    }

    pub closed spec fn keeps_history(&self) -> bool {
        self.store_history
    }

    pub closed spec fn port(&self) -> u16 {
        self.chat_port
    }

    pub closed spec fn wf(&self) -> bool {
        &&& self.identity.peer() == self.our_peer_id@
        &&& self.sessions.wf()
        &&& self.group_sessions.wf()
        &&& self.tofu_store.wf()
        &&& self.key_store.wf()
        &&& self.message_store.wf()
        &&& groups_wf(self.groups@, self.groups_model@)
        &&& peer_keys_wf(self.peer_identity_keys@, self.peer_keys_model@)
    }

    // ── Construction ───────────────────────────────────────────

    /// Build the service: load or create the identity in the key store and
    /// start with empty session, group, pinning and conversation state.
    /// Persisted state is hydrated by the host afterwards.
    pub fn new(
        key_store: KeyStore,
        peer_id: String,
        cert_fingerprint: String,
        chat_settings: &ChatSettings,
    ) -> (r: Result<ChatService, ArchivistError>)
        requires
            key_store.wf(),
        ensures
            r is Ok ==> {
                &&& r->Ok_0.wf()
                &&& r->Ok_0.peer() == peer_id@
                &&& r->Ok_0.fingerprint() == cert_fingerprint@
                &&& r->Ok_0.max_size() == chat_settings.max_message_size
                &&& r->Ok_0.keeps_history() == chat_settings.store_history
                &&& r->Ok_0.port() == chat_settings.port
                &&& r->Ok_0.queue() =~= Seq::<PendingDeliveryModel>::empty()
            },
            r is Err ==> r->Err_0 is CryptoError,
    {
        let mut key_store = key_store;
        let identity = IdentityManager::load_or_create(&mut key_store, peer_id.as_str())?;
        Ok(
            ChatService {
                identity,
                sessions: SessionManager::new(),
                group_sessions: GroupSessionManager::new(),
                tofu_store: TofuStore::new(),
                key_store,
                message_store: MessageStore::new(),
                delivery_queue: DeliveryQueue::new(),
                our_peer_id: peer_id,
                our_cert_fingerprint: cert_fingerprint,
                groups: Vec::new(),
                groups_model: Ghost(Map::empty()),
                chat_port: chat_settings.port,
                peer_identity_keys: Vec::new(),
                peer_keys_model: Ghost(Map::empty()),
                max_message_size: chat_settings.max_message_size,
                store_history: chat_settings.store_history,
                notify_on_message: chat_settings.notify_on_message,
            },
        )
    }

    /// Update the visible peer id once the network layer has assigned one.
    pub fn update_peer_id(&mut self, peer_id: &str)
        requires
            old(self).wf(),
        ensures
            final(self).wf(),
            final(self).peer() == peer_id@,
    {
        self.our_peer_id = peer_id.to_owned();
        self.identity.set_peer_id(peer_id);
    }

    // ── Small vector-map helpers ───────────────────────────────

    fn find_group(&self, group_id: &str) -> (r: Option<usize>)
        ensures
            match r {
                Some(i) => i < self.groups@.len() && self.groups@[i as int].0@ == group_id@,
                None => forall|i: int|
                    0 <= i < self.groups@.len() ==> (#[trigger] self.groups@[i]).0@ != group_id@,
            },
    {
        let mut i: usize = 0;
        while i < self.groups.len()
            invariant
                i <= self.groups@.len(),
                forall|k: int| 0 <= k < i ==> (#[trigger] self.groups@[k]).0@ != group_id@,
            decreases self.groups@.len() - i,
        {
            if str_eq(self.groups[i].0.as_str(), group_id) {
                return Some(i);
            }
            i = i + 1;
        }
        None
    }

    fn put_group(&mut self, group_id: &str, info: GroupInfo)
        requires
            old(self).wf(),
        ensures
            final(self).wf(),
            final(self).groups() == old(self).groups().insert(group_id@, info@),
            final(self).sessions_model() == old(self).sessions_model(),
            final(self).outbound() == old(self).outbound(),
            final(self).inbound() == old(self).inbound(),
            final(self).ledger() == old(self).ledger(),
            final(self).conversations() == old(self).conversations(),
            final(self).queue() == old(self).queue(),
            final(self).peer_keys() == old(self).peer_keys(),
            final(self).peer() == old(self).peer(),
            final(self).ik() == old(self).ik(),
            final(self).fingerprint() == old(self).fingerprint(),
            final(self).port() == old(self).port(),
            final(self).max_size() == old(self).max_size(),
            final(self).keeps_history() == old(self).keeps_history(),
            final(self).otk_count() == old(self).otk_count(),
            final(self).sk() == old(self).sk(),
            final(self).account() == old(self).account(),
            final(self).key_store_contents() == old(self).key_store_contents(),
    {
        let ghost key = group_id@;
        let ghost m = info@;
        match self.find_group(group_id) {
            Some(i) => {
                self.groups.set(i, (group_id.to_owned(), info));
                proof {
                    self.groups_model@ = self.groups_model@.insert(key, m);
                    assert forall|k: Seq<char>| self.groups_model@.contains_key(k) implies exists|
                        n: int,
                    |
                        0 <= n < self.groups@.len() && (#[trigger] self.groups@[n]).0@ == k by {
                        if k == key {
                            assert(self.groups@[i as int].0@ == k);
                        } else {
                            let n = choose|n: int|
                                0 <= n < old(self).groups@.len() && (#[trigger] old(self).groups@[n]).0@ == k;
                            assert(self.groups@[n].0@ == k);
                        }
                    }
                    assert forall|k: Seq<char>|
                        (exists|n: int|
                            0 <= n < self.groups@.len() && (#[trigger] self.groups@[n]).0@
                                == k) implies self.groups_model@.contains_key(k) by {
                        let n = choose|n: int|
                            0 <= n < self.groups@.len() && (#[trigger] self.groups@[n]).0@ == k;
                        assert(old(self).groups@[n].0@ == k || k == key);
                    }
                    assert(groups_wf(self.groups@, self.groups_model@));
                }
            },
            None => {
                self.groups.push((group_id.to_owned(), info));
                proof {
                    self.groups_model@ = self.groups_model@.insert(key, m);
                    let len = self.groups@.len();
                    assert forall|k: Seq<char>| self.groups_model@.contains_key(k) implies exists|
                        n: int,
                    |
                        0 <= n < len && (#[trigger] self.groups@[n]).0@ == k by {
                        if k == key {
                            assert(self.groups@[len - 1].0@ == k);
                        } else {
                            let n = choose|n: int|
                                0 <= n < old(self).groups@.len() && (#[trigger] old(self).groups@[n]).0@ == k;
                            assert(self.groups@[n].0@ == k);
                        }
                    }
                    assert forall|k: Seq<char>|
                        (exists|n: int|
                            0 <= n < len && (#[trigger] self.groups@[n]).0@ == k) implies
                        self.groups_model@.contains_key(k) by {
                        let n = choose|n: int|
                            0 <= n < len && (#[trigger] self.groups@[n]).0@ == k;
                        if n < len - 1 {
                            assert(old(self).groups@[n].0@ == k);
                        } else {
                            assert(k == key);
                        }
                    }
                    assert(groups_wf(self.groups@, self.groups_model@));
                }
            },
        }
    }

    fn find_peer_key(&self, peer_id: &str) -> (r: Option<usize>)
        ensures
            match r {
                Some(i) => i < self.peer_identity_keys@.len()
                    && self.peer_identity_keys@[i as int].0@ == peer_id@,
                None => forall|i: int|
                    0 <= i < self.peer_identity_keys@.len() ==> (
                    #[trigger] self.peer_identity_keys@[i]).0@ != peer_id@,
            },
    {
        let mut i: usize = 0;
        while i < self.peer_identity_keys.len()
            invariant
                i <= self.peer_identity_keys@.len(),
                forall|k: int|
                    0 <= k < i ==> (#[trigger] self.peer_identity_keys@[k]).0@ != peer_id@,
            decreases self.peer_identity_keys@.len() - i,
        {
            if str_eq(self.peer_identity_keys[i].0.as_str(), peer_id) {
                return Some(i);
            }
            i = i + 1;
        }
        None
    }

    fn put_peer_key(&mut self, peer_id: &str, identity_key: String)
        requires
            old(self).wf(),
        ensures
            final(self).wf(),
            final(self).peer_keys() == old(self).peer_keys().insert(peer_id@, identity_key@),
            final(self).sessions_model() == old(self).sessions_model(),
            final(self).outbound() == old(self).outbound(),
            final(self).inbound() == old(self).inbound(),
            final(self).ledger() == old(self).ledger(),
            final(self).conversations() == old(self).conversations(),
            final(self).queue() == old(self).queue(),
            final(self).groups() == old(self).groups(),
            final(self).peer() == old(self).peer(),
            final(self).ik() == old(self).ik(),
            final(self).fingerprint() == old(self).fingerprint(),
            final(self).port() == old(self).port(),
            final(self).max_size() == old(self).max_size(),
            final(self).keeps_history() == old(self).keeps_history(),
            final(self).otk_count() == old(self).otk_count(),
            final(self).sk() == old(self).sk(),
            final(self).account() == old(self).account(),
            final(self).key_store_contents() == old(self).key_store_contents(),
    {
        let ghost key = peer_id@;
        let ghost m = identity_key@;
        match self.find_peer_key(peer_id) {
            Some(i) => {
                self.peer_identity_keys.set(i, (peer_id.to_owned(), identity_key));
                proof {
                    self.peer_keys_model@ = self.peer_keys_model@.insert(key, m);
                    assert forall|k: Seq<char>|
                        self.peer_keys_model@.contains_key(k) implies exists|n: int|
                        0 <= n < self.peer_identity_keys@.len() && (
                        #[trigger] self.peer_identity_keys@[n]).0@ == k by {
                        if k == key {
                            assert(self.peer_identity_keys@[i as int].0@ == k);
                        } else {
                            let n = choose|n: int|
                                0 <= n < old(self).peer_identity_keys@.len() && (#[trigger] old(self).peer_identity_keys@[n]).0@ == k;
                            assert(self.peer_identity_keys@[n].0@ == k);
                        }
                    }
                    assert forall|k: Seq<char>|
                        (exists|n: int|
                            0 <= n < self.peer_identity_keys@.len() && (
                            #[trigger] self.peer_identity_keys@[n]).0@ == k) implies
                        self.peer_keys_model@.contains_key(k) by {
                        let n = choose|n: int|
                            0 <= n < self.peer_identity_keys@.len() && (
                            #[trigger] self.peer_identity_keys@[n]).0@ == k;
                        assert(old(self).peer_identity_keys@[n].0@ == k || k == key);
                    }
                    assert(peer_keys_wf(self.peer_identity_keys@, self.peer_keys_model@));
                }
            },
            None => {
                self.peer_identity_keys.push((peer_id.to_owned(), identity_key));
                proof {
                    self.peer_keys_model@ = self.peer_keys_model@.insert(key, m);
                    let len = self.peer_identity_keys@.len();
                    assert forall|k: Seq<char>|
                        self.peer_keys_model@.contains_key(k) implies exists|n: int|
                        0 <= n < len && (#[trigger] self.peer_identity_keys@[n]).0@ == k by {
                        if k == key {
                            assert(self.peer_identity_keys@[len - 1].0@ == k);
                        } else {
                            let n = choose|n: int|
                                0 <= n < old(self).peer_identity_keys@.len() && (#[trigger] old(self).peer_identity_keys@[n]).0@ == k;
                            assert(self.peer_identity_keys@[n].0@ == k);
                        }
                    }
                    assert forall|k: Seq<char>|
                        (exists|n: int|
                            0 <= n < len && (#[trigger] self.peer_identity_keys@[n]).0@
                                == k) implies self.peer_keys_model@.contains_key(k) by {
                        let n = choose|n: int|
                            0 <= n < len && (#[trigger] self.peer_identity_keys@[n]).0@ == k;
                        if n < len - 1 {
                            assert(old(self).peer_identity_keys@[n].0@ == k);
                        } else {
                            assert(k == key);
                        }
                    }
                    assert(peer_keys_wf(self.peer_identity_keys@, self.peer_keys_model@));
                }
            },
        }
    }

    pub closed spec fn key_store_contents(&self) -> Map<SlotKey, Seq<u8>> {
        self.key_store.contents()
    }

    /// The name of every occupied key-store slot, so a host persisting the
    /// store walks the store's own slot list rather than re-deriving it.
    pub fn storage_slots(&self) -> (r: Vec<Slot>)
        requires
            self.wf(),
        ensures
            forall|i: int|
                0 <= i < r@.len() ==> self.key_store_contents().contains_key((
                #[trigger] r@[i])@),
            forall|k: SlotKey|
                #[trigger] self.key_store_contents().contains_key(k) ==> exists|i: int|
                    0 <= i < r@.len() && (#[trigger] r@[i])@ == k,
    {
        self.key_store.slot_names()
    }

    /// The underlying account, visible only to specifications.
    pub closed spec fn account(&self) -> vodozemac::olm::Account {
        self.identity.spec_account()
    }

    /// The identity blob as it is persisted.
    pub closed spec fn identity_pickled(&self) -> Seq<u8> {
        self.identity.pickled()
    }

    /// How many conversations the store holds.
    pub closed spec fn conv_count(&self) -> nat {
        self.message_store.convs().len()
    }

    /// The unread counters of the conversations, in store order.
    pub closed spec fn unread_counts(&self) -> Seq<u32> {
        Seq::new(self.message_store.convs().len(), |i: int| self.message_store.convs()[i].unread_count)
    }

    // ── Session establishment ──────────────────────────────────

    /// Build the pre-key bundle exchange that initiates a session: top up
    /// the one-time keys and export the bundle.  The host posts it to the
    /// peer and hands the answer to `complete_session_initiation`.
    pub fn prepare_session_request(&mut self) -> (r: Result<
        PreKeyBundleExchange,
        ArchivistError,
    >)
        requires
            old(self).wf(),
        ensures
            final(self).wf(),
            final(self).peer() == old(self).peer(),
            r is Ok,
            r is Ok ==> {
                &&& r->Ok_0.sender_peer_id@ == old(self).peer()
                &&& r->Ok_0.cert_fingerprint@ == old(self).fingerprint()
                &&& r->Ok_0.bundle.identity_key@ == old(self).ik()
                &&& valid_curve25519_b64(r->Ok_0.bundle.identity_key@)
                &&& r->Ok_0.bundle.signing_key@ == old(self).sk()
                &&& r->Ok_0.bundle.one_time_key is Some
                &&& valid_curve25519_b64(r->Ok_0.bundle.one_time_key->0@)
                &&& r->Ok_0.bundle.peer_id@ == old(self).peer()
            },
    {
        self.identity.generate_one_time_keys_if_needed(&mut self.key_store)?;
        let bundle = self.identity.export_pre_key_bundle();
        Ok(
            PreKeyBundleExchange {
                sender_peer_id: self.our_peer_id.clone(),
                bundle,
                cert_fingerprint: self.our_cert_fingerprint.clone(),
            },
        )
    }

    /// Complete session initiation from the peer's answering exchange: pin
    /// the peer's certificate fingerprint, remember its identity key, open
    /// the outbound ratchet session, consume the published one-time keys,
    /// and ensure the direct conversation exists.  Returns the
    /// conversation id.
    pub fn complete_session_initiation(
        &mut self,
        peer_id: &str,
        peer_exchange: &PreKeyBundleExchange,
    ) -> (r: Result<String, ArchivistError>)
        requires
            old(self).wf(),
        ensures
            final(self).wf(),
            final(self).peer() == old(self).peer(),
            peer_exchange.bundle.one_time_key is None ==> r is Err,
            (peer_exchange.bundle.one_time_key matches Some(k) && valid_curve25519_b64(k@)
                && valid_curve25519_b64(peer_exchange.bundle.identity_key@)) ==> r is Ok,
            r is Ok ==> {
                &&& r->Ok_0@ == seq!['d', 'm', ':'] + peer_id@
                &&& final(self).sessions_model().contains_key(peer_exchange.bundle.peer_id@)
                &&& final(self).ledger().contains_key(peer_id@)
                &&& final(self).ledger()[peer_id@].cert_fingerprint
                    == peer_exchange.cert_fingerprint@
                &&& ((old(self).ledger().contains_key(peer_id@) && old(self).ledger()[
                    peer_id@
                ].cert_fingerprint != peer_exchange.cert_fingerprint@) ==> (final(self).ledger()[
                    peer_id@
                ].trust_level is Changed && final(self).ledger()[peer_id@].previous_fingerprint
                    == Some(old(self).ledger()[peer_id@].cert_fingerprint)))
                &&& final(self).peer_keys()[peer_id@] == peer_exchange.bundle.identity_key@
                &&& final(self).otk_count() == 0
                &&& final(self).conversations().contains_key(seq!['d', 'm', ':'] + peer_id@)
            },
    {
        let trusted = self.tofu_store.check_or_store(
            peer_id,
            peer_exchange.cert_fingerprint.as_str(),
        )?;
        self.put_peer_key(peer_id, peer_exchange.bundle.identity_key.clone());
        self.sessions.create_outbound_session(
            self.identity.account(),
            &peer_exchange.bundle,
            &mut self.key_store,
        )?;
        self.identity.mark_keys_as_published();
        self.identity.persist(&mut self.key_store)?;
        self.message_store.get_or_create_direct(peer_id);
        Ok(MessageStore::direct_conversation_id(peer_id))
    }

    /// Answer a peer's pre-key bundle exchange: pin the initiator's
    /// fingerprint, remember its identity key, open our outbound session
    /// towards it from its bundle, consume the published one-time keys, and
    /// return our own exchange, so bundle exchange is symmetric.
    pub fn handle_prekey_bundle(&mut self, exchange: &PreKeyBundleExchange) -> (r: Result<
        PreKeyBundleExchange,
        ArchivistError,
    >)
        requires
            old(self).wf(),
        ensures
            final(self).wf(),
            final(self).peer() == old(self).peer(),
            exchange.bundle.one_time_key is None ==> r is Err,
            (exchange.bundle.one_time_key matches Some(k) && valid_curve25519_b64(k@)
                && valid_curve25519_b64(exchange.bundle.identity_key@)) ==> r is Ok,
            r is Ok ==> {
                &&& r->Ok_0.sender_peer_id@ == old(self).peer()
                &&& r->Ok_0.cert_fingerprint@ == old(self).fingerprint()
                &&& r->Ok_0.bundle.identity_key@ == old(self).ik()
                &&& r->Ok_0.bundle.one_time_key is Some
                &&& r->Ok_0.bundle.peer_id@ == old(self).peer()
                &&& final(self).sessions_model().contains_key(exchange.bundle.peer_id@)
                &&& final(self).ledger().contains_key(exchange.sender_peer_id@)
                &&& final(self).ledger()[exchange.sender_peer_id@].cert_fingerprint
                    == exchange.cert_fingerprint@
                &&& ((old(self).ledger().contains_key(exchange.sender_peer_id@) && old(self).ledger()[exchange.sender_peer_id@].cert_fingerprint != exchange.cert_fingerprint@)
                    ==> (final(self).ledger()[exchange.sender_peer_id@].trust_level is Changed
                    && final(self).ledger()[exchange.sender_peer_id@].previous_fingerprint
                    == Some(old(self).ledger()[exchange.sender_peer_id@].cert_fingerprint)))
                &&& final(self).peer_keys()[exchange.sender_peer_id@]
                    == exchange.bundle.identity_key@
                &&& final(self).otk_count() == 0
                &&& final(self).conversations().contains_key(
                    seq!['d', 'm', ':'] + exchange.sender_peer_id@,
                )
            },
    {
        let _trusted = self.tofu_store.check_or_store(
            exchange.sender_peer_id.as_str(),
            exchange.cert_fingerprint.as_str(),
        )?;
        self.put_peer_key(
            exchange.sender_peer_id.as_str(),
            exchange.bundle.identity_key.clone(),
        );
        self.identity.generate_one_time_keys_if_needed(&mut self.key_store)?;
        let our_bundle = self.identity.export_pre_key_bundle();
        self.sessions.create_outbound_session(
            self.identity.account(),
            &exchange.bundle,
            &mut self.key_store,
        )?;
        self.identity.mark_keys_as_published();
        self.identity.persist(&mut self.key_store)?;
        self.message_store.get_or_create_direct(exchange.sender_peer_id.as_str());
        Ok(
            PreKeyBundleExchange {
                sender_peer_id: self.our_peer_id.clone(),
                bundle: our_bundle,
                cert_fingerprint: self.our_cert_fingerprint.clone(),
            },
        )
    }

    // ── 1-to-1 messaging ──────────────────────────────────────

    /// Send a message over the direct conversation.  Oversized text is
    /// rejected before any cryptographic work; the ratchet advances, the
    /// encrypted message joins the delivery queue, and the plaintext is
    /// stored locally as `Sending` when history is kept.
    pub fn send_message(
        &mut self,
        conversation_id: &str,
        text: &str,
        reply_to: Option<String>,
        peer_address: &str,
    ) -> (r: Result<StoredMessage, ArchivistError>)
        requires
            old(self).wf(),
        ensures
            final(self).wf(),
            final(self).peer() == old(self).peer(),
            vstd::utf8::encode_utf8(text@).len() > old(self).max_size() ==> r is Err && r->Err_0
                is ChatError && final(self).queue() == old(self).queue() && final(self).sessions_model() == old(self).sessions_model() && final(self).key_store_contents() == old(self).key_store_contents() && final(self).conversations() == old(self).conversations(),
            (vstd::utf8::encode_utf8(text@).len() <= old(self).max_size() && !(
            conversation_id@.len() >= 3 && conversation_id@.subrange(0, 3) == seq!['d', 'm', ':']))
                ==> r is Err && r->Err_0 is ChatError && final(self).queue() == old(self).queue() && final(self).sessions_model() == old(self).sessions_model() && final(self).key_store_contents() == old(self).key_store_contents() && final(self).conversations() == old(self).conversations(),
            (vstd::utf8::encode_utf8(text@).len() <= old(self).max_size()
                && conversation_id@.len() >= 3 && conversation_id@.subrange(0, 3) == seq![
                'd',
                'm',
                ':',
            ] && old(self).sessions_model().contains_key(conversation_id@.skip(3)) && old(self).sessions_model()[conversation_id@.skip(3)].usable) ==> r is Ok,
            (vstd::utf8::encode_utf8(text@).len() <= old(self).max_size()
                && conversation_id@.len() >= 3 && conversation_id@.subrange(0, 3) == seq![
                'd',
                'm',
                ':',
            ] && !old(self).sessions_model().contains_key(conversation_id@.skip(3)) && old(
                self,
            ).key_store_contents().contains_key(SlotKey::Session(conversation_id@.skip(3)))
                && session_blob_ok(
                old(self).key_store_contents()[SlotKey::Session(conversation_id@.skip(3))],
            ) && session_blob_usable(
                old(self).key_store_contents()[SlotKey::Session(conversation_id@.skip(3))],
            )) ==> r is Ok,
            r is Ok && !old(self).keeps_history() ==> final(self).conversations() == old(self).conversations(),
            r is Ok && old(self).keeps_history() && !old(self).conversations().contains_key(
                conversation_id@,
            ) ==> final(self).conversations() == old(self).conversations(),
            r is Ok && old(self).keeps_history() && old(self).conversations().contains_key(
                conversation_id@,
            ) ==> final(self).conversations() == old(self).conversations().insert(
                conversation_id@,
                ConversationModel {
                    messages: old(self).conversations()[conversation_id@].messages.push(
                        r->Ok_0@,
                    ),
                    last_message_at: Some(r->Ok_0@.timestamp),
                    ..old(self).conversations()[conversation_id@]
                },
            ),
            r is Ok ==> {
                let peer = conversation_id@.skip(3);
                let d = final(self).queue().last();
                &&& conversation_id@.len() >= 3 && conversation_id@.subrange(0, 3) == seq![
                    'd',
                    'm',
                    ':',
                ]
                &&& r->Ok_0@.content.text == text@
                &&& r->Ok_0@.content.attachments.len() == 0
                &&& r->Ok_0@.delivery_status is Sending
                &&& r->Ok_0@.is_outgoing
                &&& r->Ok_0@.sender_peer_id == old(self).peer()
                &&& final(self).queue() =~= old(self).queue().push(d)
                &&& d.message_id == r->Ok_0@.id
                &&& d.conversation_id == conversation_id@
                &&& d.target_peer_id == peer
                &&& d.target_address == peer_address@
                &&& d.target_port == old(self).port()
                &&& d.endpoint == "chat/message"@
                &&& d.retry_count == 0
                &&& d.max_retries == 100
                &&& d.last_attempt is None
                &&& (d.payload matches WirePayloadModel::Message(m) && {
                    &&& owire_plain(m.ciphertext) == content_bytes(r->Ok_0@.content)
                    &&& m.message_id == r->Ok_0@.id
                    &&& m.sender_peer_id == old(self).peer()
                    &&& m.sender_identity_key == old(self).ik()
                    &&& (old(self).sessions_model().contains_key(peer)
                        ==> owire_sid(m.ciphertext) == old(self).sessions_model()[peer].sid)
                })
            },
    {
        let text_bytes_len = text.as_bytes().len();
        if text_bytes_len > self.max_message_size {
            return Err(ArchivistError::ChatError("Message too large".to_string()));
        }
        proof {
            reveal_strlit("dm:");
            assert("dm:"@ =~= seq!['d', 'm', ':']);
        }
        let n = conversation_id.unicode_len();
        let valid = if n < 3 {
            false
        } else {
            let prefix = conversation_id.substring_char(0, 3);
            str_eq(prefix, "dm:")
        };
        if !valid {
            return Err(ArchivistError::ChatError("Invalid DM conversation ID".to_string()));
        }
        let peer_id_str = conversation_id.substring_char(3, n);
        proof {
            assert(peer_id_str@ =~= conversation_id@.skip(3));
        }
        self.sessions.load_session(peer_id_str, &self.key_store)?;
        let content = ChatMessageContent {
            text: text.to_owned(),
            reply_to,
            attachments: Vec::new(),
        };
        let plaintext = encode_content(&content);
        let encrypted_pair = self.sessions.encrypt(
            peer_id_str,
            plaintext.as_slice(),
            &mut self.key_store,
        )?;
        let message_id = new_uuid();
        let now = now_ms();
        let encrypted = EncryptedChatMessage {
            message_id: message_id.clone(),
            sender_peer_id: self.our_peer_id.clone(),
            sender_identity_key: self.identity.curve25519_key(),
            message_type: encrypted_pair.0,
            ciphertext: encrypted_pair.1,
            timestamp: now,
        };
        let delivery = PendingDelivery {
            message_id: message_id.clone(),
            conversation_id: conversation_id.to_owned(),
            target_peer_id: peer_id_str.to_owned(),
            target_address: peer_address.to_owned(),
            target_port: self.chat_port,
            endpoint: String::from_str("chat/message"),
            payload: WirePayload::Message(encrypted),
            retry_count: 0,
            max_retries: 100,
            last_attempt: None,
            created_at: now,
        };
        self.delivery_queue.enqueue(delivery);
        let stored = StoredMessage {
            id: message_id,
            sender_peer_id: self.our_peer_id.clone(),
            content,
            timestamp: now,
            delivery_status: DeliveryStatus::Sending,
            is_outgoing: true,
        };
        if self.store_history {
            self.message_store.add_message(
                conversation_id,
                clone_stored_message(&stored),
            )?;
        }
        proof {
            assert(stored@.content.attachments =~= Seq::<
                crate::services::chat_types::AttachmentModel,
            >::empty());
        }
        Ok(stored)
    }

    /// Receive and decrypt an incoming 1-to-1 message: open the inbound
    /// session from a pre-key message, or advance the resident ratchet for
    /// a normal one; the decrypted frame becomes the stored message.  A
    /// ciphertext the resident session already consumed is rejected.
    pub fn receive_message(&mut self, encrypted: &EncryptedChatMessage) -> (r: Result<
        StoredMessage,
        ArchivistError,
    >)
        requires
            old(self).wf(),
        ensures
            final(self).wf(),
            final(self).peer() == old(self).peer(),
            r is Ok ==> {
                &&& content_bytes(r->Ok_0@.content) == owire_plain(encrypted@.ciphertext)
                &&& r->Ok_0@.id == encrypted@.message_id
                &&& r->Ok_0@.sender_peer_id == encrypted@.sender_peer_id
                &&& r->Ok_0@.timestamp == encrypted@.timestamp
                &&& r->Ok_0@.delivery_status is Delivered
                &&& !r->Ok_0@.is_outgoing
                &&& final(self).sessions_model().contains_key(encrypted@.sender_peer_id)
                &&& (encrypted@.message_type is PreKey ==> final(self).sessions_model()[
                    encrypted@.sender_peer_id
                ].sid == owire_sid(encrypted@.ciphertext))
                &&& final(self).conversations().contains_key(
                    seq!['d', 'm', ':'] + encrypted@.sender_peer_id,
                )
                &&& final(self).key_store_contents().contains_key(SlotKey::Identity)
                &&& final(self).key_store_contents()[SlotKey::Identity] == final(self).identity_pickled()
            },
            (encrypted@.message_type is Normal && old(self).sessions_model().contains_key(
                encrypted@.sender_peer_id,
            ) && old(self).sessions_model()[encrypted@.sender_peer_id].received.contains(
                encrypted@.ciphertext,
            )) ==> r is Err,
            ({
                &&& encrypted@.message_type is PreKey
                &&& olm_inbound_ok(
                    old(self).account(),
                    encrypted@.sender_identity_key,
                    encrypted@.ciphertext,
                )
                &&& (old(self).sessions_model().contains_key(encrypted@.sender_peer_id) || !old(self).key_store_contents().contains_key(SlotKey::Session(
                    encrypted@.sender_peer_id,
                )) || session_blob_ok(old(self).key_store_contents()[SlotKey::Session(
                    encrypted@.sender_peer_id,
                )]))
                &&& (exists|c: crate::services::chat_types::ContentModel|
                    owire_plain(encrypted@.ciphertext) == #[trigger] content_bytes(c)
                        && c.attachments.len() == 0)
            }) ==> r is Ok,
            r is Ok ==> final(self).peer_keys().contains_key(encrypted@.sender_peer_id),
            r is Ok && !old(self).peer_keys().contains_key(encrypted@.sender_peer_id)
                ==> final(self).peer_keys() == old(self).peer_keys().insert(
                encrypted@.sender_peer_id,
                encrypted@.sender_identity_key,
            ),
            r is Ok && old(self).peer_keys().contains_key(encrypted@.sender_peer_id)
                ==> final(self).peer_keys() == old(self).peer_keys(),
            r is Ok && !old(self).keeps_history() ==> final(self).conversations()[
                seq!['d', 'm', ':'] + encrypted@.sender_peer_id
            ].messages == (if old(self).conversations().contains_key(
                seq!['d', 'm', ':'] + encrypted@.sender_peer_id,
            ) {
                old(self).conversations()[seq!['d', 'm', ':'] + encrypted@.sender_peer_id].messages
            } else {
                Seq::<crate::services::chat_types::StoredMessageModel>::empty()
            }),
            r is Ok && old(self).keeps_history() ==> final(self).conversations()[
                seq!['d', 'm', ':'] + encrypted@.sender_peer_id
            ].messages == (if old(self).conversations().contains_key(
                seq!['d', 'm', ':'] + encrypted@.sender_peer_id,
            ) {
                old(self).conversations()[seq!['d', 'm', ':'] + encrypted@.sender_peer_id].messages
            } else {
                Seq::<crate::services::chat_types::StoredMessageModel>::empty()
            }).push(r->Ok_0@),
    {
        let peer_id = encrypted.sender_peer_id.as_str();
        self.sessions.load_session(peer_id, &self.key_store)?;
        let plaintext = match encrypted.message_type {
            OlmMessageType::PreKey => {
                let acct = self.identity.account_mut();
                let p = self.sessions.create_inbound_session(
                    acct,
                    peer_id,
                    encrypted.sender_identity_key.as_str(),
                    encrypted.ciphertext.as_str(),
                    &mut self.key_store,
                )?;
                p
            },
            OlmMessageType::Normal => {
                self.sessions.decrypt(
                    peer_id,
                    OlmMessageType::Normal,
                    encrypted.ciphertext.as_str(),
                    &mut self.key_store,
                )?
            },
        };
        self.identity.persist(&mut self.key_store)?;
        let content = decode_content(plaintext.as_slice())?;
        match self.find_peer_key(peer_id) {
            Some(_) => {
                proof {
                    assert(self.peer_keys().contains_key(peer_id@));
                }
            },
            None => {
                proof {
                    assert(!self.peer_keys().contains_key(peer_id@));
                }
                self.put_peer_key(peer_id, encrypted.sender_identity_key.clone());
            },
        }
        self.message_store.get_or_create_direct(peer_id);
        let stored = StoredMessage {
            id: encrypted.message_id.clone(),
            sender_peer_id: encrypted.sender_peer_id.clone(),
            content,
            timestamp: encrypted.timestamp,
            delivery_status: DeliveryStatus::Delivered,
            is_outgoing: false,
        };
        if self.store_history {
            let conv_id = MessageStore::direct_conversation_id(peer_id);
            self.message_store.add_message(
                conv_id.as_str(),
                clone_stored_message(&stored),
            )?;
        }
        Ok(stored)
    }


    // ── Group lifecycle ───────────────────────────────────────

    /// Create a group: generate a fresh outbound ratchet, record the group
    /// and its conversation, and enqueue an invite carrying the encrypted
    /// session key for every listed member that has a reachable address and
    /// an established pairwise session.  A member without a session is
    /// skipped: it cannot be invited until a 1:1 session exists.
    pub fn create_group(
        &mut self,
        group_name: &str,
        member_peer_ids: Vec<String>,
        member_addresses: &Vec<(String, String)>,
    ) -> (r: Result<GroupInfo, ArchivistError>)
        requires
            old(self).wf(),
        ensures
            final(self).wf(),
            final(self).peer() == old(self).peer(),
            r is Ok,
            r is Ok ==> {
                let gid = r->Ok_0.group_id@;
                &&& r->Ok_0.group_name@ == group_name@
                &&& r->Ok_0.creator_peer_id@ == old(self).peer()
                &&& r->Ok_0@.members.len() == member_peer_ids@.len()
                &&& (forall|i: int|
                    0 <= i < member_peer_ids@.len() ==> (#[trigger] r->Ok_0@.members[i]).peer_id
                        == member_peer_ids@[i]@)
                &&& final(self).outbound().contains_key(gid)
                &&& final(self).outbound()[gid].index == 0
                &&& final(self).groups().contains_key(gid)
                &&& final(self).conversations().contains_key(gid)
                &&& queue_extended(old(self).queue(), final(self).queue())
                &&& (forall|t: int|
                    old(self).queue().len() <= t < final(self).queue().len() ==> {
                        let d = #[trigger] final(self).queue()[t];
                        &&& d.endpoint == "chat/group/invite"@
                        &&& d.max_retries == 50
                        &&& d.conversation_id == gid
                        &&& (exists|i: int|
                            0 <= i < member_peer_ids@.len() && (
                            #[trigger] member_peer_ids@[i])@ == d.target_peer_id)
                        &&& (d.payload matches WirePayloadModel::Invite(inv) && inv.group_id
                            == gid && exists|k: Seq<char>|
                            #[trigger] vstd::utf8::encode_utf8(k) == owire_plain(
                                inv.encrypted_session_key,
                            ) && gkey_sid(k) == final(self).outbound()[gid].sid && gkey_first(k)
                                == 0)
                    })
                &&& (forall|i: int|
                    (0 <= i < member_peer_ids@.len() && address_listed(
                        member_addresses@,
                        (#[trigger] member_peer_ids@[i])@,
                    ) && session_servable(
                        old(self).sessions_model(),
                        old(self).key_store_contents(),
                        member_peer_ids@[i]@,
                    )) ==> exists|t: int|
                        old(self).queue().len() <= t < final(self).queue().len() && (
                        #[trigger] final(self).queue()[t]).target_peer_id == member_peer_ids@[i]@)
            },
    {
        let group_id = new_uuid();
        let session_key = self.group_sessions.create_group_session(
            group_id.as_str(),
            &mut self.key_store,
        )?;
        let ghost gid = group_id@;
        let ghost sid = self.group_sessions.outbound()[gid].sid;
        proof {
            assert(gkey_sid(session_key@) == sid && gkey_first(session_key@) == 0);
        }
        let mut members: Vec<GroupMemberInfo> = Vec::new();
        let mut mi: usize = 0;
        while mi < member_peer_ids.len()
            invariant
                mi <= member_peer_ids@.len(),
                members@.len() == mi,
                forall|i: int|
                    0 <= i < mi ==> (#[trigger] members@[i])@.peer_id == member_peer_ids@[i]@,
            decreases member_peer_ids@.len() - mi,
        {
            members.push(
                GroupMemberInfo {
                    peer_id: member_peer_ids[mi].clone(),
                    identity_key: String::new(),
                },
            );
            mi = mi + 1;
        }
        let now = now_ms();
        let group_info = GroupInfo {
            group_id: group_id.clone(),
            group_name: group_name.to_owned(),
            creator_peer_id: self.our_peer_id.clone(),
            members: clone_members(&members),
            created_at: now,
        };
        self.put_group(group_id.as_str(), clone_group_info(&group_info));
        let mut member_ids: Vec<String> = Vec::new();
        let mut ci: usize = 0;
        while ci < member_peer_ids.len()
            invariant
                ci <= member_peer_ids@.len(),
                member_ids@.len() == ci,
            decreases member_peer_ids@.len() - ci,
        {
            member_ids.push(member_peer_ids[ci].clone());
            ci = ci + 1;
        }
        self.message_store.get_or_create_group(group_id.as_str(), group_name, member_ids);
        let ghost id_models = Seq::new(member_peer_ids@.len(), |i: int| member_peer_ids@[i]@);
        let ghost base = self.delivery_queue.model();
        proof {
            assert(self.queue().subrange(0, base.len() as int) =~= base);
        }
        let mut pi: usize = 0;
        while pi < member_peer_ids.len()
            invariant
                self.wf(),
                pi <= member_peer_ids@.len(),
                self.peer() == old(self).peer(),
                self.fingerprint() == old(self).fingerprint(),
                self.port() == old(self).port(),
                self.max_size() == old(self).max_size(),
                self.keeps_history() == old(self).keeps_history(),
                gid == group_id@,
                self.outbound().contains_key(gid),
                self.outbound()[gid].index == 0,
                self.outbound()[gid].sid == sid,
                self.groups().contains_key(gid),
                self.conversations().contains_key(gid),
                gkey_sid(session_key@) == sid && gkey_first(session_key@) == 0,
                base == old(self).queue(),
                id_models == Seq::new(member_peer_ids@.len(), |i: int| member_peer_ids@[i]@),
                forall|k: Seq<char>|
                    #[trigger] old(self).sessions_model().contains_key(k)
                        ==> self.sessions_model().contains_key(k) && self.sessions_model()[k]
                        == old(self).sessions_model()[k],
                forall|k: Seq<char>|
                    #[trigger] session_servable(
                        old(self).sessions_model(),
                        old(self).key_store_contents(),
                        k,
                    ) ==> session_servable(
                        self.sessions_model(),
                        self.key_store_contents(),
                        k,
                    ),
                forall|n: int|
                    (0 <= n < pi && address_listed(member_addresses@, #[trigger] id_models[n])
                        && session_servable(
                        old(self).sessions_model(),
                        old(self).key_store_contents(),
                        id_models[n],
                    )) ==> exists|t: int|
                        base.len() <= t < self.queue().len() && (
                        #[trigger] self.queue()[t]).target_peer_id == id_models[n],
                queue_extended(base, self.queue()),
                forall|t: int|
                    base.len() <= t < self.queue().len() ==> {
                        let d = #[trigger] self.queue()[t];
                        &&& d.endpoint == "chat/group/invite"@
                        &&& d.max_retries == 50
                        &&& d.conversation_id == gid
                        &&& (exists|i: int|
                            0 <= i < id_models.len() && #[trigger] id_models[i]
                                == d.target_peer_id)
                        &&& (d.payload matches WirePayloadModel::Invite(inv) && inv.group_id
                            == gid && exists|k: Seq<char>|
                            #[trigger] vstd::utf8::encode_utf8(k) == owire_plain(
                                inv.encrypted_session_key,
                            ) && gkey_sid(k) == sid && gkey_first(k) == 0)
                    },
            decreases member_peer_ids@.len() - pi,
        {
            let peer_id = &member_peer_ids[pi];
            let ghost target = peer_id@;
            let ghost qstart = self.delivery_queue.model();
            proof {
                assert(id_models[pi as int] == target);
            }
            let addr = lookup_address(member_addresses, peer_id.as_str());
            match addr {
                None => {
                    proof {
                        assert(!address_listed(member_addresses@, target));
                    }
                },
                Some(address) => {
                    let ghost s1 = self.sessions_model();
                    let ghost ks1 = self.key_store_contents();
                    match self.sessions.load_session(peer_id.as_str(), &self.key_store) {
                        Ok(_) => {},
                        Err(_) => {
                            proof {
                                if session_servable(
                                    old(self).sessions_model(),
                                    old(self).key_store_contents(),
                                    target,
                                ) {
                                    assert(session_servable(s1, ks1, target));
                                    assert(false);
                                }
                                assert(self.queue().subrange(0, qstart.len() as int) =~= qstart);
                                lemma_served_transfer_ids(
                                    id_models,
                                    member_addresses@,
                                    old(self).sessions_model(),
                                    old(self).key_store_contents(),
                                    base.len() as int,
                                    pi + 1,
                                    qstart,
                                    self.queue(),
                                );
                            }
                            pi = pi + 1;
                            continue;
                        },
                    }
                    if self.sessions.has_session(peer_id.as_str()) {
                        let encrypted_key = match self.sessions.encrypt(
                            peer_id.as_str(),
                            session_key.as_str().as_bytes(),
                            &mut self.key_store,
                        ) {
                            Ok(pair) => pair.1,
                            Err(_) => {
                                proof {
                                    if session_servable(
                                        old(self).sessions_model(),
                                        old(self).key_store_contents(),
                                        target,
                                    ) {
                                        assert(session_servable(s1, ks1, target));
                                        assert(false);
                                    }
                                    assert(self.queue().subrange(0, qstart.len() as int)
                                        =~= qstart);
                                    lemma_served_transfer_ids(
                                        id_models,
                                        member_addresses@,
                                        old(self).sessions_model(),
                                        old(self).key_store_contents(),
                                        base.len() as int,
                                        pi + 1,
                                        qstart,
                                        self.queue(),
                                    );
                                }
                                pi = pi + 1;
                                continue;
                            },
                        };
                        proof {
                            assert(owire_plain(encrypted_key@) == vstd::utf8::encode_utf8(
                                session_key@,
                            ));
                        }
                        let invite = GroupInvite {
                            group_id: group_id.clone(),
                            group_name: group_name.to_owned(),
                            creator_peer_id: self.our_peer_id.clone(),
                            members: clone_members(&members),
                            encrypted_session_key: encrypted_key,
                        };
                        proof {
                            reveal_strlit("invite:");
                            reveal_strlit(":");
                            reveal_strlit("chat/group/invite");
                        }
                        let mut invite_id = String::from_str("invite:");
                        invite_id.append(group_id.as_str());
                        invite_id.append(":");
                        invite_id.append(peer_id.as_str());
                        let delivery = PendingDelivery {
                            message_id: invite_id,
                            conversation_id: group_id.clone(),
                            target_peer_id: peer_id.clone(),
                            target_address: address,
                            target_port: self.chat_port,
                            endpoint: String::from_str("chat/group/invite"),
                            payload: WirePayload::Invite(invite),
                            retry_count: 0,
                            max_retries: 50,
                            last_attempt: None,
                            created_at: now,
                        };
                        let ghost prev = self.delivery_queue.model();
                        let ghost dm = delivery@;
                        self.delivery_queue.enqueue(delivery);
                        proof {
                            assert(self.queue() =~= prev.push(dm));
                            assert(self.queue().subrange(0, base.len() as int) =~= base);
                            assert(vstd::utf8::encode_utf8(session_key@) == owire_plain(
                                dm.payload->Invite_0.encrypted_session_key,
                            ));
                            assert forall|t: int|
                                base.len() <= t < self.queue().len() implies {
                                let d = #[trigger] self.queue()[t];
                                &&& d.endpoint == "chat/group/invite"@
                                &&& d.max_retries == 50
                                &&& d.conversation_id == gid
                                &&& (exists|i: int|
                                    0 <= i < id_models.len() && #[trigger] id_models[i]
                                        == d.target_peer_id)
                                &&& (d.payload matches WirePayloadModel::Invite(inv)
                                    && inv.group_id == gid && exists|k: Seq<char>|
                                    #[trigger] vstd::utf8::encode_utf8(k) == owire_plain(
                                        inv.encrypted_session_key,
                                    ) && gkey_sid(k) == sid && gkey_first(k) == 0)
                            } by {
                                if t < prev.len() {
                                    assert(self.queue()[t] == prev[t]);
                                } else {
                                    assert(self.queue()[t] == dm);
                                    assert(id_models[pi as int] == dm.target_peer_id);
                                }
                            }
                            assert(base.len() <= prev.len() < self.queue().len());
                            assert(self.queue()[prev.len() as int].target_peer_id == target);
                        }
                    } else {
                        proof {
                            if session_servable(
                                old(self).sessions_model(),
                                old(self).key_store_contents(),
                                target,
                            ) {
                                assert(session_servable(s1, ks1, target));
                                assert(false);
                            }
                        }
                    }
                },
            }
            proof {
                assert(self.queue().subrange(0, qstart.len() as int) =~= qstart);
                lemma_served_transfer_ids(
                    id_models,
                    member_addresses@,
                    old(self).sessions_model(),
                    old(self).key_store_contents(),
                    base.len() as int,
                    pi as int,
                    qstart,
                    self.queue(),
                );
                if address_listed(member_addresses@, target) && session_servable(
                    old(self).sessions_model(),
                    old(self).key_store_contents(),
                    target,
                ) {
                    assert(exists|t: int|
                        base.len() <= t < self.queue().len() && (
                        #[trigger] self.queue()[t]).target_peer_id == target);
                }
            }
            pi = pi + 1;
        }
        proof {
            assert forall|t: int|
                base.len() <= t < self.queue().len() implies exists|i: int|
                0 <= i < member_peer_ids@.len() && (#[trigger] member_peer_ids@[i])@ == (
                #[trigger] self.queue()[t]).target_peer_id by {
                let i = choose|i: int|
                    0 <= i < id_models.len() && #[trigger] id_models[i] == self.queue()[
                    t].target_peer_id;
                assert(member_peer_ids@[i]@ == id_models[i]);
            }
            assert forall|i: int|
                (0 <= i < member_peer_ids@.len() && address_listed(
                    member_addresses@,
                    (#[trigger] member_peer_ids@[i])@,
                ) && session_servable(
                    old(self).sessions_model(),
                    old(self).key_store_contents(),
                    member_peer_ids@[i]@,
                )) implies exists|t: int|
                base.len() <= t < self.queue().len() && (
                #[trigger] self.queue()[t]).target_peer_id == member_peer_ids@[i]@ by {
                assert(id_models[i] == member_peer_ids@[i]@);
            }
        }
        Ok(group_info)
    }

    /// Encrypt a message with the group's outbound ratchet, enqueue it for
    /// every other member with a reachable address, and store it locally.
    pub fn send_group_message(
        &mut self,
        group_id: &str,
        text: &str,
        reply_to: Option<String>,
        member_addresses: &Vec<(String, String)>,
    ) -> (r: Result<StoredMessage, ArchivistError>)
        requires
            old(self).wf(),
        ensures
            final(self).wf(),
            final(self).peer() == old(self).peer(),
            (old(self).outbound().contains_key(group_id@) && old(self).outbound()[
                group_id@
            ].index < 0xffff_ffff) ==> r is Ok,
            r is Ok ==> {
                &&& r->Ok_0@.content.text == text@
                &&& r->Ok_0@.content.attachments.len() == 0
                &&& r->Ok_0@.delivery_status is Sending
                &&& r->Ok_0@.is_outgoing
                &&& r->Ok_0@.sender_peer_id == old(self).peer()
                &&& queue_extended(old(self).queue(), final(self).queue())
                &&& (forall|t: int|
                    old(self).queue().len() <= t < final(self).queue().len() ==> {
                        let d = #[trigger] final(self).queue()[t];
                        &&& d.endpoint == "chat/group/message"@
                        &&& d.max_retries == 100
                        &&& d.conversation_id == group_id@
                        &&& d.target_peer_id != old(self).peer()
                        &&& (d.payload matches WirePayloadModel::GroupMessage(gm) && {
                            &&& gm.group_id == group_id@
                            &&& gwire_plain(gm.ciphertext) == content_bytes(r->Ok_0@.content)
                            &&& gwire_genuine(gm.ciphertext)
                            &&& (old(self).outbound().contains_key(group_id@) ==> gwire_sid(
                                gm.ciphertext,
                            ) == old(self).outbound()[group_id@].sid)
                        })
                    })
            },
    {
        let content = ChatMessageContent {
            text: text.to_owned(),
            reply_to,
            attachments: Vec::new(),
        };
        let plaintext = encode_content(&content);
        self.group_sessions.load_outbound_session(group_id, &self.key_store)?;
        let encrypted_pair = self.group_sessions.encrypt_group(
            group_id,
            plaintext.as_slice(),
            &mut self.key_store,
        )?;
        let session_id = match self.group_sessions.session_id(group_id) {
            Some(sid) => sid,
            None => String::new(),
        };
        let message_id = new_uuid();
        let now = now_ms();
        let encrypted = EncryptedGroupMessage {
            message_id: message_id.clone(),
            group_id: group_id.to_owned(),
            sender_peer_id: self.our_peer_id.clone(),
            sender_identity_key: self.identity.curve25519_key(),
            ciphertext: encrypted_pair.0,
            session_id,
            message_index: encrypted_pair.1,
            timestamp: now,
        };
        let ghost gm_model = encrypted@;
        let members = match self.find_group(group_id) {
            Some(gi) => clone_members(&self.groups[gi].1.members),
            None => Vec::new(),
        };
        let ghost base = self.delivery_queue.model();
        proof {
            assert(self.queue().subrange(0, base.len() as int) =~= base);
        }
        let mut pi: usize = 0;
        while pi < members.len()
            invariant
                self.wf(),
                pi <= members@.len(),
                self.peer() == old(self).peer(),
                self.fingerprint() == old(self).fingerprint(),
                self.port() == old(self).port(),
                self.max_size() == old(self).max_size(),
                self.keeps_history() == old(self).keeps_history(),
                self.conversations() == old(self).conversations(),
                gm_model == encrypted@,
                queue_extended(base, self.queue()),
                forall|t: int|
                    base.len() <= t < self.queue().len() ==> {
                        let d = #[trigger] self.queue()[t];
                        &&& d.endpoint == "chat/group/message"@
                        &&& d.max_retries == 100
                        &&& d.conversation_id == group_id@
                        &&& d.target_peer_id != old(self).peer()
                        &&& d.payload == WirePayloadModel::GroupMessage(gm_model)
                    },
            decreases members@.len() - pi,
        {
            let member_peer = &members[pi].peer_id;
            if !str_eq(member_peer.as_str(), self.our_peer_id.as_str()) {
                match lookup_address(member_addresses, member_peer.as_str()) {
                    None => {},
                    Some(address) => {
                        proof {
                            reveal_strlit(":");
                            reveal_strlit("chat/group/message");
                        }
                        let mut delivery_id = message_id.clone();
                        delivery_id.append(":");
                        delivery_id.append(member_peer.as_str());
                        let payload_message = clone_group_message(&encrypted);
                        proof {
                            assert(payload_message@ == gm_model);
                        }
                        let delivery = PendingDelivery {
                            message_id: delivery_id,
                            conversation_id: group_id.to_owned(),
                            target_peer_id: member_peer.clone(),
                            target_address: address,
                            target_port: self.chat_port,
                            endpoint: String::from_str("chat/group/message"),
                            payload: WirePayload::GroupMessage(payload_message),
                            retry_count: 0,
                            max_retries: 100,
                            last_attempt: None,
                            created_at: now,
                        };
                        let ghost prev = self.delivery_queue.model();
                        let ghost dm = delivery@;
                        self.delivery_queue.enqueue(delivery);
                        proof {
                            assert(self.queue() =~= prev.push(dm));
                            assert(self.queue().subrange(0, base.len() as int) =~= base);
                            assert(dm.payload == WirePayloadModel::GroupMessage(gm_model));
                            assert forall|t: int|
                                base.len() <= t < self.queue().len() implies {
                                let d = #[trigger] self.queue()[t];
                                &&& d.endpoint == "chat/group/message"@
                                &&& d.max_retries == 100
                                &&& d.conversation_id == group_id@
                                &&& d.target_peer_id != old(self).peer()
                                &&& d.payload == WirePayloadModel::GroupMessage(gm_model)
                            } by {
                                if t < prev.len() {
                                    assert(self.queue()[t] == prev[t]);
                                } else {
                                    assert(self.queue()[t] == dm);
                                }
                            }
                        }
                    },
                }
            }
            pi = pi + 1;
        }
        let stored = StoredMessage {
            id: message_id,
            sender_peer_id: self.our_peer_id.clone(),
            content,
            timestamp: now,
            delivery_status: DeliveryStatus::Sending,
            is_outgoing: true,
        };
        self.message_store.add_message(group_id, clone_stored_message(&stored))?;
        proof {
            assert(stored@.content.attachments =~= Seq::<
                crate::services::chat_types::AttachmentModel,
            >::empty());
        }
        Ok(stored)
    }

    /// Receive and decrypt an incoming group message with the matching
    /// inbound sender ratchet; the decrypted frame becomes the stored
    /// message.  A ciphertext of another session, for instance one produced
    /// after a rekey this receiver has not learnt of, is rejected.
    pub fn receive_group_message(&mut self, encrypted: &EncryptedGroupMessage) -> (r: Result<
        StoredMessage,
        ArchivistError,
    >)
        requires
            old(self).wf(),
        ensures
            final(self).wf(),
            final(self).peer() == old(self).peer(),
            r is Ok ==> {
                &&& content_bytes(r->Ok_0@.content) == gwire_plain(encrypted@.ciphertext)
                &&& r->Ok_0@.id == encrypted@.message_id
                &&& r->Ok_0@.sender_peer_id == encrypted@.sender_peer_id
                &&& r->Ok_0@.delivery_status is Delivered
                &&& !r->Ok_0@.is_outgoing
                &&& (old(self).inbound().contains_key(
                    (encrypted@.group_id, encrypted@.sender_peer_id),
                ) ==> gwire_sid(encrypted@.ciphertext) == old(self).inbound()[
                    (encrypted@.group_id, encrypted@.sender_peer_id)
                ].sid)
            },
            (old(self).inbound().contains_key((encrypted@.group_id, encrypted@.sender_peer_id))
                && gwire_sid(encrypted@.ciphertext) != old(self).inbound()[
                (encrypted@.group_id, encrypted@.sender_peer_id)
            ].sid) ==> r is Err,
            ({
                &&& old(self).inbound().contains_key(
                    (encrypted@.group_id, encrypted@.sender_peer_id),
                )
                &&& gwire_genuine(encrypted@.ciphertext)
                &&& gwire_sid(encrypted@.ciphertext) == old(self).inbound()[
                    (encrypted@.group_id, encrypted@.sender_peer_id)
                ].sid
                &&& gwire_index(encrypted@.ciphertext) >= old(self).inbound()[
                    (encrypted@.group_id, encrypted@.sender_peer_id)
                ].first
                &&& (exists|c: crate::services::chat_types::ContentModel|
                    gwire_plain(encrypted@.ciphertext) == #[trigger] content_bytes(c)
                        && c.attachments.len() == 0)
            }) ==> r is Ok,
    {
        let peer_id = encrypted.sender_peer_id.as_str();
        let group_id = encrypted.group_id.as_str();
        self.group_sessions.load_inbound_session(group_id, peer_id, &self.key_store)?;
        let plaintext = self.group_sessions.decrypt_group(
            group_id,
            peer_id,
            encrypted.ciphertext.as_str(),
            &mut self.key_store,
        )?;
        let content = decode_content(plaintext.as_slice())?;
        let stored = StoredMessage {
            id: encrypted.message_id.clone(),
            sender_peer_id: encrypted.sender_peer_id.clone(),
            content,
            timestamp: encrypted.timestamp,
            delivery_status: DeliveryStatus::Delivered,
            is_outgoing: false,
        };
        self.message_store.add_message(group_id, clone_stored_message(&stored))?;
        Ok(stored)
    }

    /// Join a group from an invite: decrypt the embedded session key over
    /// the creator's pairwise session, install it as the inbound sender
    /// ratchet, and record the group and its conversation.
    pub fn handle_group_invite(&mut self, invite: &GroupInvite) -> (r: Result<
        (),
        ArchivistError,
    >)
        requires
            old(self).wf(),
        ensures
            final(self).wf(),
            final(self).peer() == old(self).peer(),
            ({
                &&& is_prekey_wire(invite@.encrypted_session_key)
                &&& olm_inbound_msg_ok(old(self).account(), invite@.encrypted_session_key)
                &&& vstd::utf8::valid_utf8(owire_plain(invite@.encrypted_session_key))
                &&& valid_group_key_b64(vstd::utf8::decode_utf8(owire_plain(
                    invite@.encrypted_session_key,
                )))
                &&& (old(self).sessions_model().contains_key(invite@.creator_peer_id) || !old(self).key_store_contents().contains_key(SlotKey::Session(
                    invite@.creator_peer_id,
                )) || session_blob_ok(old(self).key_store_contents()[SlotKey::Session(
                    invite@.creator_peer_id,
                )]))
            }) ==> r is Ok,
            r is Ok ==> {
                &&& exists|k: Seq<char>|
                    #[trigger] vstd::utf8::encode_utf8(k) == owire_plain(
                        invite@.encrypted_session_key,
                    ) && final(self).inbound()[
                        (invite@.group_id, invite@.creator_peer_id)
                    ] == (InboundModel { sid: gkey_sid(k), first: gkey_first(k) })
                &&& final(self).inbound().contains_key(
                    (invite@.group_id, invite@.creator_peer_id),
                )
                &&& final(self).groups().contains_key(invite@.group_id)
                &&& final(self).conversations().contains_key(invite@.group_id)
            },
    {
        let peer_id = invite.creator_peer_id.as_str();
        self.sessions.load_session(peer_id, &self.key_store)?;
        let session_key_bytes = match crate::crypto::olm::classify_olm_b64(
            invite.encrypted_session_key.as_str(),
        ) {
            Some(true) => {
                let acct = self.identity.account_mut();
                self.sessions.create_inbound_session_from_message(
                    acct,
                    peer_id,
                    invite.encrypted_session_key.as_str(),
                    &mut self.key_store,
                )?
            },
            Some(false) => {
                self.sessions.decrypt(
                    peer_id,
                    OlmMessageType::Normal,
                    invite.encrypted_session_key.as_str(),
                    &mut self.key_store,
                )?
            },
            None => {
                return Err(
                    ArchivistError::CryptoError(
                        "Cannot decrypt group session key".to_string(),
                    ),
                );
            },
        };
        self.identity.persist(&mut self.key_store)?;
        let ghost key_bytes = session_key_bytes@;
        let session_key = crate::text::string_from_utf8(session_key_bytes)?;
        proof {
            if vstd::utf8::valid_utf8(key_bytes) {
                vstd::utf8::encode_utf8_decode_utf8(session_key@);
                assert(session_key@ == vstd::utf8::decode_utf8(key_bytes));
            }
        }
        self.group_sessions.add_inbound_session(
            invite.group_id.as_str(),
            peer_id,
            session_key.as_str(),
            &mut self.key_store,
        )?;
        let now = now_ms();
        let group_info = GroupInfo {
            group_id: invite.group_id.clone(),
            group_name: invite.group_name.clone(),
            creator_peer_id: invite.creator_peer_id.clone(),
            members: clone_members(&invite.members),
            created_at: now,
        };
        self.put_group(invite.group_id.as_str(), group_info);
        let mut member_ids: Vec<String> = Vec::new();
        let mut i: usize = 0;
        while i < invite.members.len()
            invariant
                i <= invite.members@.len(),
            decreases invite.members@.len() - i,
        {
            member_ids.push(invite.members[i].peer_id.clone());
            i = i + 1;
        }
        self.message_store.get_or_create_group(
            invite.group_id.as_str(),
            invite.group_name.as_str(),
            member_ids,
        );
        Ok(())
    }

    /// Install the fresh inbound session announced by a group rekey.  The
    /// key is expected over the established pairwise session with the
    /// group's creator; an unknown group is left untouched.
    pub fn handle_group_rekey(&mut self, rekey: &GroupRekey) -> (r: Result<(), ArchivistError>)
        requires
            old(self).wf(),
        ensures
            final(self).wf(),
            final(self).peer() == old(self).peer(),
            !old(self).groups().contains_key(rekey@.group_id) ==> r is Ok && final(self).inbound() == old(self).inbound(),
            (r is Ok && old(self).groups().contains_key(rekey@.group_id)) ==> {
                let creator = old(self).groups()[rekey@.group_id].creator_peer_id;
                &&& final(self).inbound().contains_key((rekey@.group_id, creator))
                &&& exists|k: Seq<char>|
                    #[trigger] vstd::utf8::encode_utf8(k) == owire_plain(
                        rekey@.encrypted_session_key,
                    ) && final(self).inbound()[(rekey@.group_id, creator)] == (InboundModel {
                        sid: gkey_sid(k),
                        first: gkey_first(k),
                    })
            },
    {
        let gi = match self.find_group(rekey.group_id.as_str()) {
            Some(gi) => gi,
            None => {
                return Ok(());
            },
        };
        let sender_peer_id = self.groups[gi].1.creator_peer_id.clone();
        self.sessions.load_session(sender_peer_id.as_str(), &self.key_store)?;
        let session_key_bytes = self.sessions.decrypt(
            sender_peer_id.as_str(),
            OlmMessageType::Normal,
            rekey.encrypted_session_key.as_str(),
            &mut self.key_store,
        )?;
        let session_key = crate::text::string_from_utf8(session_key_bytes)?;
        self.group_sessions.add_inbound_session(
            rekey.group_id.as_str(),
            sender_peer_id.as_str(),
            session_key.as_str(),
            &mut self.key_store,
        )?;
        Ok(())
    }

    /// Distribute a fresh group session key to every current member but
    /// ourselves, encrypted over the pairwise sessions.  Members without a
    /// reachable address or an established session are skipped.
    fn distribute_group_key(
        &mut self,
        group_id: &str,
        session_key: &str,
        reason: RekeyReason,
        member_addresses: &Vec<(String, String)>,
    ) -> (r: Result<(), ArchivistError>)
        requires
            old(self).wf(),
        ensures
            final(self).wf(),
            final(self).peer() == old(self).peer(),
            final(self).fingerprint() == old(self).fingerprint(),
            final(self).port() == old(self).port(),
            final(self).max_size() == old(self).max_size(),
            final(self).keeps_history() == old(self).keeps_history(),
            final(self).groups() == old(self).groups(),
            final(self).conversations() == old(self).conversations(),
            final(self).outbound() == old(self).outbound(),
            final(self).inbound() == old(self).inbound(),
            r is Ok,
            !old(self).groups().contains_key(group_id@) ==> final(self).queue() == old(self).queue(),
            queue_extended(old(self).queue(), final(self).queue()),
            forall|t: int|
                old(self).queue().len() <= t < final(self).queue().len() ==> {
                    let d = #[trigger] final(self).queue()[t];
                    &&& d.endpoint == "chat/group/rekey"@
                    &&& d.max_retries == 50
                    &&& d.conversation_id == group_id@
                    &&& d.target_peer_id != old(self).peer()
                    &&& (old(self).groups().contains_key(group_id@) ==> exists|i: int|
                        0 <= i < old(self).groups()[group_id@].members.len() && (#[trigger] old(self).groups()[group_id@].members[i]).peer_id == d.target_peer_id)
                    &&& (d.payload matches WirePayloadModel::Rekey(rm) && rm.group_id == group_id@
                        && owire_plain(rm.encrypted_session_key) == vstd::utf8::encode_utf8(
                        session_key@,
                    ))
                },
            old(self).groups().contains_key(group_id@) ==> (forall|i: int|
                (0 <= i < old(self).groups()[group_id@].members.len() && (#[trigger] old(self).groups()[group_id@].members[i]).peer_id != old(self).peer() && address_listed(
                    member_addresses@,
                    old(self).groups()[group_id@].members[i].peer_id,
                ) && session_servable(
                    old(self).sessions_model(),
                    old(self).key_store_contents(),
                    old(self).groups()[group_id@].members[i].peer_id,
                )) ==> exists|t: int|
                    old(self).queue().len() <= t < final(self).queue().len() && (#[trigger] final(self).queue()[t]).target_peer_id == old(self).groups()[group_id@].members[i].peer_id),
    {
        let members = match self.find_group(group_id) {
            Some(gi) => clone_members(&self.groups[gi].1.members),
            None => {
                proof {
                    assert(old(self).queue().subrange(
                        0,
                        old(self).queue().len() as int,
                    ) =~= old(self).queue());
                }
                return Ok(());
            },
        };
        let ghost had_group = old(self).groups().contains_key(group_id@);
        let ghost member_models = Seq::new(members@.len(), |i: int| members@[i]@);
        proof {
            if had_group {
                assert(member_models =~= old(self).groups()[group_id@].members);
            }
        }
        let session_id = match self.group_sessions.session_id(group_id) {
            Some(sid) => sid,
            None => String::new(),
        };
        let now = now_ms();
        let ghost base = self.delivery_queue.model();
        proof {
            assert(self.queue().subrange(0, base.len() as int) =~= base);
        }
        let mut pi: usize = 0;
        while pi < members.len()
            invariant
                self.wf(),
                pi <= members@.len(),
                self.peer() == old(self).peer(),
                self.fingerprint() == old(self).fingerprint(),
                self.port() == old(self).port(),
                self.max_size() == old(self).max_size(),
                self.keeps_history() == old(self).keeps_history(),
                self.groups() == old(self).groups(),
                self.conversations() == old(self).conversations(),
                self.outbound() == old(self).outbound(),
                self.inbound() == old(self).inbound(),
                member_models == Seq::new(members@.len(), |i: int| members@[i]@),
                had_group ==> member_models =~= old(self).groups()[group_id@].members,
                base == old(self).queue(),
                forall|k: Seq<char>|
                    #[trigger] old(self).sessions_model().contains_key(k) ==> self.sessions_model().contains_key(k) && self.sessions_model()[k] == old(self).sessions_model()[k],
                forall|k: Seq<char>|
                    #[trigger] session_servable(
                        old(self).sessions_model(),
                        old(self).key_store_contents(),
                        k,
                    ) ==> session_servable(
                        self.sessions_model(),
                        self.key_store_contents(),
                        k,
                    ),
                forall|n: int|
                    (0 <= n < pi && (#[trigger] member_models[n]).peer_id != old(self).peer()
                        && address_listed(member_addresses@, member_models[n].peer_id)
                        && session_servable(
                        old(self).sessions_model(),
                        old(self).key_store_contents(),
                        member_models[n].peer_id,
                    )) ==> exists|t: int|
                        base.len() <= t < self.queue().len() && (#[trigger] self.queue()[t]).target_peer_id == member_models[n].peer_id,
                queue_extended(base, self.queue()),
                forall|t: int|
                    base.len() <= t < self.queue().len() ==> {
                        let d = #[trigger] self.queue()[t];
                        &&& d.endpoint == "chat/group/rekey"@
                        &&& d.max_retries == 50
                        &&& d.conversation_id == group_id@
                        &&& d.target_peer_id != old(self).peer()
                        &&& (exists|i: int|
                            0 <= i < member_models.len() && (#[trigger] member_models[i]).peer_id
                                == d.target_peer_id)
                        &&& (d.payload matches WirePayloadModel::Rekey(rm) && rm.group_id
                            == group_id@ && owire_plain(rm.encrypted_session_key)
                            == vstd::utf8::encode_utf8(session_key@))
                    },
            decreases members@.len() - pi,
        {
            let member_peer = &members[pi].peer_id;
            let ghost target = member_peer@;
            let ghost qstart = self.delivery_queue.model();
            proof {
                assert(member_models[pi as int].peer_id == target);
            }
            if !str_eq(member_peer.as_str(), self.our_peer_id.as_str()) {
                match lookup_address(member_addresses, member_peer.as_str()) {
                    None => {
                        proof {
                            assert(!address_listed(member_addresses@, target));
                        }
                    },
                    Some(address) => {
                        let ghost s1 = self.sessions_model();
                        let ghost ks1 = self.key_store_contents();
                        match self.sessions.load_session(member_peer.as_str(), &self.key_store) {
                            Ok(_) => {},
                            Err(_) => {
                                proof {
                                    if session_servable(
                                        old(self).sessions_model(),
                                        old(self).key_store_contents(),
                                        target,
                                    ) {
                                        assert(session_servable(s1, ks1, target));
                                        assert(false);
                                    }
                                    assert(self.queue().subrange(0, qstart.len() as int)
                                        =~= qstart);
                                    lemma_served_transfer(
                                        member_models,
                                        member_addresses@,
                                        old(self).sessions_model(),
                                        old(self).key_store_contents(),
                                        old(self).peer(),
                                        base.len() as int,
                                        pi + 1,
                                        qstart,
                                        self.queue(),
                                    );
                                }
                                pi = pi + 1;
                                continue;
                            },
                        }
                        if self.sessions.has_session(member_peer.as_str()) {
                            let encrypted_key = match self.sessions.encrypt(
                                member_peer.as_str(),
                                session_key.as_bytes(),
                                &mut self.key_store,
                            ) {
                                Ok(pair) => pair.1,
                                Err(_) => {
                                    proof {
                                        if session_servable(
                                            old(self).sessions_model(),
                                            old(self).key_store_contents(),
                                            target,
                                        ) {
                                            assert(session_servable(s1, ks1, target));
                                            assert(false);
                                        }
                                        assert(self.queue().subrange(0, qstart.len() as int)
                                            =~= qstart);
                                        lemma_served_transfer(
                                            member_models,
                                            member_addresses@,
                                            old(self).sessions_model(),
                                            old(self).key_store_contents(),
                                            old(self).peer(),
                                            base.len() as int,
                                            pi + 1,
                                            qstart,
                                            self.queue(),
                                        );
                                    }
                                    pi = pi + 1;
                                    continue;
                                },
                            };
                            let group_rekey = GroupRekey {
                                group_id: group_id.to_owned(),
                                new_session_id: session_id.clone(),
                                encrypted_session_key: encrypted_key,
                                reason,
                            };
                            proof {
                                reveal_strlit("rekey:");
                                reveal_strlit(":");
                                reveal_strlit("chat/group/rekey");
                            }
                            let mut rekey_id = String::from_str("rekey:");
                            rekey_id.append(group_id);
                            rekey_id.append(":");
                            rekey_id.append(member_peer.as_str());
                            let delivery = PendingDelivery {
                                message_id: rekey_id,
                                conversation_id: group_id.to_owned(),
                                target_peer_id: member_peer.clone(),
                                target_address: address,
                                target_port: self.chat_port,
                                endpoint: String::from_str("chat/group/rekey"),
                                payload: WirePayload::Rekey(group_rekey),
                                retry_count: 0,
                                max_retries: 50,
                                last_attempt: None,
                                created_at: now,
                            };
                            let ghost target = member_peer@;
                            let ghost prev = self.delivery_queue.model();
                            let ghost dm = delivery@;
                            self.delivery_queue.enqueue(delivery);
                            proof {
                                assert(self.queue() =~= prev.push(dm));
                                assert(self.queue().subrange(0, base.len() as int) =~= base);
                                assert(member_models[pi as int].peer_id == target);
                                assert forall|t: int|
                                    base.len() <= t < self.queue().len() implies {
                                    let d = #[trigger] self.queue()[t];
                                    &&& d.endpoint == "chat/group/rekey"@
                                    &&& d.max_retries == 50
                                    &&& d.conversation_id == group_id@
                                    &&& d.target_peer_id != old(self).peer()
                                    &&& (exists|i: int|
                                        0 <= i < member_models.len() && (
                                        #[trigger] member_models[i]).peer_id
                                            == d.target_peer_id)
                                    &&& (d.payload matches WirePayloadModel::Rekey(rm)
                                        && rm.group_id == group_id@ && owire_plain(
                                        rm.encrypted_session_key,
                                    ) == vstd::utf8::encode_utf8(session_key@))
                                } by {
                                    if t < prev.len() {
                                        assert(self.queue()[t] == prev[t]);
                                    } else {
                                        assert(self.queue()[t] == dm);
                                        assert(member_models[pi as int].peer_id
                                            == dm.target_peer_id);
                                    }
                                }
                                assert(base.len() <= prev.len() < self.queue().len());
                                assert(self.queue()[prev.len() as int].target_peer_id == target);
                            }
                        } else {
                            proof {
                                if session_servable(
                                    old(self).sessions_model(),
                                    old(self).key_store_contents(),
                                    target,
                                ) {
                                    assert(session_servable(s1, ks1, target));
                                    assert(false);
                                }
                            }
                        }
                    },
                }
            } else {
                proof {
                    assert(target == old(self).peer());
                }
            }
            proof {
                assert(self.queue().subrange(0, qstart.len() as int) =~= qstart);
                lemma_served_transfer(
                    member_models,
                    member_addresses@,
                    old(self).sessions_model(),
                    old(self).key_store_contents(),
                    old(self).peer(),
                    base.len() as int,
                    pi as int,
                    qstart,
                    self.queue(),
                );
                if target != old(self).peer() && address_listed(member_addresses@, target)
                    && session_servable(
                    old(self).sessions_model(),
                    old(self).key_store_contents(),
                    target,
                ) {
                    assert(exists|t: int|
                        base.len() <= t < self.queue().len() && (
                        #[trigger] self.queue()[t]).target_peer_id == target);
                }
            }
            pi = pi + 1;
        }
        Ok(())
    }

    /// Add a member to a group: rekey unconditionally, record the new
    /// member, and redistribute the fresh key to the resulting member set.
    /// The newcomer receives the new key only, so it cannot read history.
    pub fn add_group_member(
        &mut self,
        group_id: &str,
        peer_id: &str,
        member_addresses: &Vec<(String, String)>,
    ) -> (r: Result<(), ArchivistError>)
        requires
            old(self).wf(),
        ensures
            final(self).wf(),
            final(self).peer() == old(self).peer(),
            r is Ok,
            r is Ok ==> {
                &&& final(self).outbound().contains_key(group_id@)
                &&& final(self).outbound()[group_id@].index == 0
                &&& (old(self).groups().contains_key(group_id@) ==> final(self).groups().contains_key(group_id@) && final(self).groups()[
                    group_id@
                ].members.len() > 0 && final(self).groups()[group_id@].members.last().peer_id
                    == peer_id@)
                &&& queue_extended(old(self).queue(), final(self).queue())
                &&& (exists|k: Seq<char>| {
                    &&& #[trigger] gkey_sid(k) == final(self).outbound()[group_id@].sid
                    &&& gkey_first(k) == 0
                    &&& (forall|t: int|
                        old(self).queue().len() <= t < final(self).queue().len() ==> {
                            let d = #[trigger] final(self).queue()[t];
                            &&& d.endpoint == "chat/group/rekey"@
                            &&& d.max_retries == 50
                            &&& d.conversation_id == group_id@
                            &&& d.target_peer_id != old(self).peer()
                            &&& (d.payload matches WirePayloadModel::Rekey(rm) && rm.group_id
                                == group_id@ && owire_plain(rm.encrypted_session_key)
                                == vstd::utf8::encode_utf8(k))
                        })
                })
                &&& (final(self).groups().contains_key(group_id@) ==> (forall|i: int|
                    (0 <= i < final(self).groups()[group_id@].members.len() && (#[trigger] final(self).groups()[group_id@].members[i]).peer_id != old(self).peer() && address_listed(
                        member_addresses@,
                        final(self).groups()[group_id@].members[i].peer_id,
                    ) && session_servable(
                        old(self).sessions_model(),
                        old(self).key_store_contents(),
                        final(self).groups()[group_id@].members[i].peer_id,
                    )) ==> exists|t: int|
                        old(self).queue().len() <= t < final(self).queue().len() && (#[trigger] final(self).queue()[t]).target_peer_id == final(self).groups()[group_id@].members[i].peer_id))
            },
    {
        let new_session_key = self.group_sessions.rekey_group(group_id, &mut self.key_store)?;
        match self.find_group(group_id) {
            Some(gi) => {
                let old_info = &self.groups[gi].1;
                let mut new_members = clone_members(&old_info.members);
                new_members.push(
                    GroupMemberInfo { peer_id: peer_id.to_owned(), identity_key: String::new() },
                );
                let new_info = GroupInfo {
                    group_id: old_info.group_id.clone(),
                    group_name: old_info.group_name.clone(),
                    creator_peer_id: old_info.creator_peer_id.clone(),
                    members: new_members,
                    created_at: old_info.created_at,
                };
                self.put_group(group_id, new_info);
            },
            None => {},
        }
        self.message_store.add_group_member(group_id, peer_id)?;
        self.distribute_group_key(
            group_id,
            new_session_key.as_str(),
            RekeyReason::MemberAdded,
            member_addresses,
        )?;
        proof {
            assert(gkey_sid(new_session_key@) == self.outbound()[group_id@].sid);
        }
        Ok(())
    }

    /// Remove a member from a group: drop it from the member list, rekey,
    /// and distribute the fresh key to the remaining members only.  The
    /// removed member never receives the new key, so everything encrypted
    /// after the rekey stays closed to it.
    pub fn remove_group_member(
        &mut self,
        group_id: &str,
        peer_id: &str,
        member_addresses: &Vec<(String, String)>,
    ) -> (r: Result<(), ArchivistError>)
        requires
            old(self).wf(),
        ensures
            final(self).wf(),
            final(self).peer() == old(self).peer(),
            r is Ok,
            r is Ok ==> {
                &&& final(self).outbound().contains_key(group_id@)
                &&& final(self).outbound()[group_id@].index == 0
                &&& (old(self).groups().contains_key(group_id@) ==> final(self).groups().contains_key(group_id@) && (forall|i: int|
                    0 <= i < final(self).groups()[group_id@].members.len() ==> (#[trigger] final(self).groups()[group_id@].members[i]).peer_id != peer_id@))
                &&& queue_extended(old(self).queue(), final(self).queue())
                &&& (exists|k: Seq<char>| {
                    &&& #[trigger] gkey_sid(k) == final(self).outbound()[group_id@].sid
                    &&& gkey_first(k) == 0
                    &&& (forall|t: int|
                        old(self).queue().len() <= t < final(self).queue().len() ==> {
                            let d = #[trigger] final(self).queue()[t];
                            &&& d.endpoint == "chat/group/rekey"@
                            &&& d.max_retries == 50
                            &&& d.conversation_id == group_id@
                            &&& d.target_peer_id != peer_id@
                            &&& d.target_peer_id != old(self).peer()
                            &&& (d.payload matches WirePayloadModel::Rekey(rm) && rm.group_id
                                == group_id@ && owire_plain(rm.encrypted_session_key)
                                == vstd::utf8::encode_utf8(k))
                        })
                })
                &&& (final(self).groups().contains_key(group_id@) ==> (forall|i: int|
                    (0 <= i < final(self).groups()[group_id@].members.len() && (#[trigger] final(self).groups()[group_id@].members[i]).peer_id != old(self).peer() && address_listed(
                        member_addresses@,
                        final(self).groups()[group_id@].members[i].peer_id,
                    ) && session_servable(
                        old(self).sessions_model(),
                        old(self).key_store_contents(),
                        final(self).groups()[group_id@].members[i].peer_id,
                    )) ==> exists|t: int|
                        old(self).queue().len() <= t < final(self).queue().len() && (#[trigger] final(self).queue()[t]).target_peer_id == final(self).groups()[group_id@].members[i].peer_id))
            },
    {
        match self.find_group(group_id) {
            Some(gi) => {
                let old_info = &self.groups[gi].1;
                let old_members = &old_info.members;
                let mut kept: Vec<GroupMemberInfo> = Vec::new();
                let mut i: usize = 0;
                while i < old_members.len()
                    invariant
                        i <= old_members@.len(),
                        forall|n: int|
                            0 <= n < kept@.len() ==> (#[trigger] kept@[n])@.peer_id != peer_id@,
                    decreases old_members@.len() - i,
                {
                    if !str_eq(old_members[i].peer_id.as_str(), peer_id) {
                        kept.push(clone_member(&old_members[i]));
                    }
                    i = i + 1;
                }
                let new_info = GroupInfo {
                    group_id: old_info.group_id.clone(),
                    group_name: old_info.group_name.clone(),
                    creator_peer_id: old_info.creator_peer_id.clone(),
                    members: kept,
                    created_at: old_info.created_at,
                };
                let ghost kept_view = new_info@.members;
                proof {
                    assert forall|i: int| 0 <= i < kept_view.len() implies (
                    #[trigger] kept_view[i]).peer_id != peer_id@ by {
                        assert(kept_view[i] == new_info.members@[i]@);
                    }
                }
                self.put_group(group_id, new_info);
                proof {
                    assert(self.groups()[group_id@].members == kept_view);
                }
            },
            None => {},
        }
        self.message_store.remove_group_member(group_id, peer_id)?;
        let new_session_key = self.group_sessions.rekey_group(group_id, &mut self.key_store)?;
        self.distribute_group_key(
            group_id,
            new_session_key.as_str(),
            RekeyReason::MemberRemoved,
            member_addresses,
        )?;
        proof {
            assert(gkey_sid(new_session_key@) == self.outbound()[group_id@].sid);
        }
        Ok(())
    }


    // ── Queries ───────────────────────────────────────────────

    /// The conversation summaries, most recently active first.
    pub fn get_conversations(&self) -> (r: Vec<ConversationSummary>)
        requires
            self.wf(),
        ensures
            r@.len() == self.conv_count(),
            forall|t: int|
                0 <= t < r@.len() ==> summary_in_store((#[trigger] r@[t])@, self.conversations()),
            forall|t1: int, t2: int|
                0 <= t1 < t2 < r@.len() ==> (#[trigger] r@[t1])@.id != (#[trigger] r@[t2])@.id,
            forall|t1: int, t2: int|
                0 <= t1 < t2 < r@.len() ==> crate::services::chat_message_store::opt_time_ge(
                    (#[trigger] r@[t1])@.last_message_at,
                    (#[trigger] r@[t2])@.last_message_at,
                ),
    {
        self.message_store.get_conversation_summaries()
    }

    /// The messages of a conversation strictly older than `before`, at most
    /// `limit` of them, in chronological order.
    pub fn get_messages(&self, conversation_id: &str, limit: usize, before: Option<i64>) -> (r:
        Vec<StoredMessage>)
        requires
            self.wf(),
        ensures
            !self.conversations().contains_key(conversation_id@) ==> r@.len() == 0,
            self.conversations().contains_key(conversation_id@) ==> {
                let filtered = crate::services::chat_message_store::filter_older(
                    self.conversations()[conversation_id@].messages,
                    match before {
                        Some(b) => Some(b as int),
                        None => None,
                    },
                );
                let k = if limit < filtered.len() {
                    limit as int
                } else {
                    filtered.len() as int
                };
                Seq::new(r@.len(), |i: int| r@[i]@) =~= filtered.subrange(
                    filtered.len() - k,
                    filtered.len() as int,
                )
            },
    {
        self.message_store.get_messages(conversation_id, limit, before)
    }

    /// Zero a conversation's unread counter.
    pub fn mark_read(&mut self, conversation_id: &str) -> (r: Result<(), ArchivistError>)
        requires
            old(self).wf(),
        ensures
            final(self).wf(),
            r is Ok,
            old(self).conversations().contains_key(conversation_id@) ==> final(self).conversations()[conversation_id@].unread_count == 0,
    {
        self.message_store.mark_read(conversation_id)
    }

    /// Remove a conversation.  Its backing file is the host's to delete.
    pub fn delete_conversation(&mut self, conversation_id: &str) -> (r: Result<
        (),
        ArchivistError,
    >)
        requires
            old(self).wf(),
        ensures
            final(self).wf(),
            r is Ok,
            final(self).conversations() == old(self).conversations().remove(conversation_id@),
    {
        self.message_store.delete_conversation(conversation_id)
    }

    /// The local identity as shown to the user.
    pub fn get_identity_info(&self) -> (r: ChatIdentityInfo)
        requires
            self.wf(),
        ensures
            r.peer_id@ == self.peer(),
            r.identity_key@ == self.ik(),
            r.signing_key@ == self.sk(),
            r.cert_fingerprint@ == self.fingerprint(),
    {
        ChatIdentityInfo {
            peer_id: self.our_peer_id.clone(),
            identity_key: self.identity.curve25519_key(),
            signing_key: self.identity.ed25519_key(),
            cert_fingerprint: self.our_cert_fingerprint.clone(),
        }
    }

    /// What a peer's safety number is computed against: its recorded
    /// identity key, else its pinned certificate fingerprint, else a fixed
    /// placeholder.
    pub open spec fn safety_number_partner(&self, peer_id: Seq<char>) -> Seq<char> {
        if self.peer_keys().contains_key(peer_id) {
            self.peer_keys()[peer_id]
        } else if self.ledger().contains_key(peer_id) {
            self.ledger()[peer_id].cert_fingerprint
        } else {
            "unknown"@
        }
    }

    /// The safety number shared with a peer, with its display groups and
    /// whether the peer was verified out of band.
    pub fn get_safety_number(&self, peer_id: &str) -> (r: Result<SafetyNumberInfo, ArchivistError>)
        requires
            self.wf(),
        ensures
            r is Ok,
            r->Ok_0.peer_id@ == peer_id@,
            r->Ok_0.safety_number@ == safety_number_spec(
                self.ik(),
                self.safety_number_partner(peer_id@),
            ),
            r->Ok_0.verified == (self.ledger().contains_key(peer_id@) && self.ledger()[
                peer_id@
            ].trust_level is Verified),
            r->Ok_0.groups.deep_view() == crate::crypto::safety_numbers::split_ws(
                r->Ok_0.safety_number@,
            ),
    {
        let our_ik = self.identity.curve25519_key();
        let their_ik: String = match self.find_peer_key(peer_id) {
            Some(i) => self.peer_identity_keys[i].1.clone(),
            None => {
                match self.tofu_store.get_fingerprint(peer_id) {
                    Some(fp) => fp.to_owned(),
                    None => String::from_str("unknown"),
                }
            },
        };
        let safety_number = compute_safety_number(our_ik.as_str(), their_ik.as_str());
        let groups = format_safety_number(safety_number.as_str());
        let verified = match self.tofu_store.get_entry(peer_id) {
            Some(entry) => matches!(entry.trust_level, TrustLevel::Verified),
            None => false,
        };
        Ok(
            SafetyNumberInfo {
                peer_id: peer_id.to_owned(),
                safety_number,
                groups,
                verified,
            },
        )
    }

    /// Promote a peer to `Verified` after an out-of-band comparison.
    pub fn verify_peer(&mut self, peer_id: &str) -> (r: Result<(), ArchivistError>)
        requires
            old(self).wf(),
        ensures
            final(self).wf(),
            r is Ok,
            old(self).ledger().contains_key(peer_id@) ==> final(self).ledger()[
                peer_id@
            ].trust_level is Verified,
            !old(self).ledger().contains_key(peer_id@) ==> final(self).ledger() == old(self).ledger(),
    {
        self.tofu_store.verify_peer(peer_id)
    }

    /// Clear a `Changed` pinning flag after the user accepted the new
    /// fingerprint.
    pub fn accept_changed(&mut self, peer_id: &str) -> (r: Result<(), ArchivistError>)
        requires
            old(self).wf(),
        ensures
            final(self).wf(),
            r is Ok,
            (old(self).ledger().contains_key(peer_id@) && old(self).ledger()[peer_id@].trust_level
                is Changed) ==> final(self).ledger()[peer_id@].trust_level is FirstUse,
    {
        self.tofu_store.accept_changed(peer_id)
    }

    /// The pinning record of a peer, if one exists.
    pub fn tofu_entry(&self, peer_id: &str) -> (r: Option<&TofuEntry>)
        requires
            self.wf(),
        ensures
            r is Some <==> self.ledger().contains_key(peer_id@),
            r is Some ==> r->Some_0@ == self.ledger()[peer_id@],
    {
        self.tofu_store.get_entry(peer_id)
    }

    /// The server-facing status: the configured port and the store's
    /// unread and conversation counters.
    pub fn get_server_status(&self, running: bool) -> (r: ChatServerStatus)
        requires
            self.wf(),
        ensures
            r.running == running,
            r.port == self.port(),
            r.total_unread == crate::services::chat_message_store::sum_unread(
                self.unread_counts(),
            ),
            r.conversation_count == (if self.conv_count() <= 0xffff_ffff {
                self.conv_count() as int
            } else {
                0xffff_ffff
            }),
    {
        ChatServerStatus {
            running,
            port: self.chat_port,
            total_unread: self.message_store.total_unread(),
            conversation_count: self.message_store.conversation_count(),
        }
    }

    /// The metadata of a group, if it is known.
    pub fn get_group_info(&self, group_id: &str) -> (r: Option<GroupInfo>)
        requires
            self.wf(),
        ensures
            r is Some <==> self.groups().contains_key(group_id@),
            r is Some ==> r->0@ == self.groups()[group_id@],
    {
        match self.find_group(group_id) {
            Some(i) => Some(clone_group_info(&self.groups[i].1)),
            None => None,
        }
    }

    // ── Delivery queue driving ────────────────────────────────

    /// How many deliveries are pending.
    pub fn delivery_count(&self) -> (r: usize)
        ensures
            r == self.queue().len(),
    {
        self.delivery_queue.pending_count()
    }

    /// The pending delivery at an index, for the host to attempt.
    pub fn delivery_at(&self, i: usize) -> (r: &PendingDelivery)
        requires
            i < self.queue().len(),
        ensures
            r@ == self.queue()[i as int],
    {
        self.delivery_queue.get(i)
    }

    /// Whether the delivery at an index is due for an attempt at `now_ms`.
    pub fn is_delivery_ready(&self, i: usize, now_ms: i64) -> (r: bool)
        requires
            i < self.queue().len(),
        ensures
            r == ready_spec(self.queue()[i as int], now_ms as int),
    {
        is_ready_for_retry(self.delivery_queue.get(i), now_ms)
    }

    /// Record the outcome of one transport attempt: bookkeeping in the
    /// queue, and the stored message moves to `Delivered` on success or to
    /// `Failed` when the retries are exhausted, each reported exactly once.
    pub fn record_delivery_outcome(&mut self, i: usize, success: bool, now_ms: i64) -> (r:
        AttemptOutcome)
        requires
            old(self).wf(),
            i < old(self).queue().len(),
        ensures
            final(self).wf(),
            final(self).peer() == old(self).peer(),
            success ==> r is Delivered && final(self).queue() =~= old(self).queue().remove(
                i as int,
            ),
            !success ==> ((r is Failed) <==> old(self).queue()[i as int].retry_count + 1 >= old(self).queue()[i as int].max_retries),
            !success && old(self).queue()[i as int].retry_count + 1 >= old(self).queue()[
                i as int
            ].max_retries ==> final(self).queue() =~= old(self).queue().remove(i as int),
            !success && old(self).queue()[i as int].retry_count + 1 < old(self).queue()[
                i as int
            ].max_retries ==> r is Scheduled && final(self).queue() =~= old(self).queue().update(
                i as int,
                PendingDeliveryModel {
                    retry_count: (old(self).queue()[i as int].retry_count + 1) as u32,
                    last_attempt: Some(now_ms as int),
                    ..old(self).queue()[i as int]
                },
            ),
            (r is Delivered && old(self).conversations().contains_key(
                old(self).queue()[i as int].conversation_id,
            )) ==> final(self).conversations()[
                old(self).queue()[i as int].conversation_id
            ].messages == update_status_spec(
                old(self).conversations()[old(self).queue()[i as int].conversation_id].messages,
                old(self).queue()[i as int].message_id,
                DeliveryStatus::Delivered,
            ),
            (r is Failed && old(self).conversations().contains_key(
                old(self).queue()[i as int].conversation_id,
            )) ==> final(self).conversations()[
                old(self).queue()[i as int].conversation_id
            ].messages == update_status_spec(
                old(self).conversations()[old(self).queue()[i as int].conversation_id].messages,
                old(self).queue()[i as int].message_id,
                DeliveryStatus::Failed,
            ),
    {
        let conv_id = self.delivery_queue.get(i).conversation_id.clone();
        let msg_id = self.delivery_queue.get(i).message_id.clone();
        let outcome = self.delivery_queue.record_attempt(i, success, now_ms);
        match outcome {
            AttemptOutcome::Delivered => {
                let _ = self.message_store.update_delivery_status(
                    conv_id.as_str(),
                    msg_id.as_str(),
                    DeliveryStatus::Delivered,
                );
            },
            AttemptOutcome::Failed => {
                let _ = self.message_store.update_delivery_status(
                    conv_id.as_str(),
                    msg_id.as_str(),
                    DeliveryStatus::Failed,
                );
            },
            AttemptOutcome::Scheduled => {},
        }
        outcome
    }

    /// Apply a delivery acknowledgment: in every conversation, the first
    /// message with the acknowledged id moves to the acknowledged status.
    pub fn handle_ack(&mut self, ack: &DeliveryAck) -> (r: Result<(), ArchivistError>)
        requires
            old(self).wf(),
        ensures
            final(self).wf(),
            final(self).peer() == old(self).peer(),
            r is Ok,
            final(self).queue() == old(self).queue(),
            final(self).sessions_model() == old(self).sessions_model(),
            final(self).key_store_contents() == old(self).key_store_contents(),
            forall|k: Seq<char>|
                #[trigger] final(self).conversations().contains_key(k) == old(self).conversations().contains_key(k),
            forall|k: Seq<char>|
                #[trigger] old(self).conversations().contains_key(k) ==> final(self).conversations()[k] == (ConversationModel {
                    messages: update_status_spec(
                        old(self).conversations()[k].messages,
                        ack@.message_id,
                        ack_status(ack.status),
                    ),
                    ..old(self).conversations()[k]
                }),
    {
        let status = match ack.status {
            DeliveryAckStatus::Delivered => DeliveryStatus::Delivered,
            DeliveryAckStatus::Read => DeliveryStatus::Read,
            DeliveryAckStatus::Failed => DeliveryStatus::Failed,
        };
        let ghost mid = ack@.message_id;
        let ghost st = ack_status(ack.status);
        let ids = self.message_store.conversation_ids();
        let ghost idsv = ids@;
        let mut i: usize = 0;
        while i < ids.len()
            invariant
                self.wf(),
                self.peer() == old(self).peer(),
                i <= ids@.len(),
                ids@ == idsv,
                st == ack_status(ack.status),
                mid == ack@.message_id,
                status == st,
                self.queue() == old(self).queue(),
                self.sessions_model() == old(self).sessions_model(),
                self.key_store_contents() == old(self).key_store_contents(),
                forall|t: int|
                    0 <= t < idsv.len() ==> #[trigger] old(self).conversations().contains_key(
                        idsv[t]@,
                    ),
                forall|k: Seq<char>|
                    #[trigger] old(self).conversations().contains_key(k) ==> exists|t: int|
                        0 <= t < idsv.len() && (#[trigger] idsv[t])@ == k,
                forall|t1: int, t2: int|
                    0 <= t1 < t2 < idsv.len() ==> (#[trigger] idsv[t1])@ != (
                    #[trigger] idsv[t2])@,
                forall|k: Seq<char>|
                    #[trigger] self.conversations().contains_key(k) == old(self).conversations().contains_key(k),
                forall|k: Seq<char>|
                    #[trigger] old(self).conversations().contains_key(k) ==> self.conversations()[k] == (if (exists|t: int|
                        0 <= t < i && (#[trigger] idsv[t])@ == k) {
                        ConversationModel {
                            messages: update_status_spec(
                                old(self).conversations()[k].messages,
                                mid,
                                st,
                            ),
                            ..old(self).conversations()[k]
                        }
                    } else {
                        old(self).conversations()[k]
                    }),
            decreases ids@.len() - i,
        {
            let ghost key = idsv[i as int]@;
            proof {
                assert(old(self).conversations().contains_key(key));
                assert(!(exists|t: int| 0 <= t < i && (#[trigger] idsv[t])@ == key));
                assert(self.conversations()[key] == old(self).conversations()[key]);
            }
            let _ = self.message_store.update_delivery_status(
                ids[i].as_str(),
                ack.message_id.as_str(),
                status,
            );
            proof {
                assert forall|k: Seq<char>|
                    #[trigger] old(self).conversations().contains_key(k) implies self.conversations()[k] == (if (exists|t: int|
                        0 <= t < i + 1 && (#[trigger] idsv[t])@ == k) {
                        ConversationModel {
                            messages: update_status_spec(
                                old(self).conversations()[k].messages,
                                mid,
                                st,
                            ),
                            ..old(self).conversations()[k]
                        }
                    } else {
                        old(self).conversations()[k]
                    }) by {
                    if k == key {
                        assert(idsv[i as int]@ == k);
                    } else {
                        if exists|t: int| 0 <= t < i + 1 && (#[trigger] idsv[t])@ == k {
                            let t = choose|t: int|
                                0 <= t < i + 1 && (#[trigger] idsv[t])@ == k;
                            assert(t < i);
                            assert(exists|t2: int| 0 <= t2 < i && (#[trigger] idsv[t2])@ == k);
                        }
                    }
                }
            }
            i = i + 1;
        }
        proof {
            assert forall|k: Seq<char>|
                #[trigger] old(self).conversations().contains_key(k) implies self.conversations()[k] == (ConversationModel {
                messages: update_status_spec(
                    old(self).conversations()[k].messages,
                    mid,
                    st,
                ),
                ..old(self).conversations()[k]
            }) by {
                let t = choose|t: int| 0 <= t < idsv.len() && (#[trigger] idsv[t])@ == k;
                assert(exists|t2: int| 0 <= t2 < i && (#[trigger] idsv[t2])@ == k);
            }
        }
        Ok(())
    }

    // ── Durability bridging ───────────────────────────────────

    /// Install a sealed key-store blob read back from durable storage.
    pub fn hydrate_key_slot(&mut self, slot: crate::crypto::key_store::Slot, sealed: Vec<u8>)
        -> (r: Result<(), ArchivistError>)
        requires
            old(self).wf(),
        ensures
            final(self).wf(),
    {
        self.key_store.hydrate_slot(slot, sealed)
    }

    /// The sealed bytes stored under a key-store slot, for persistence.
    pub fn export_key_slot(&self, slot: &crate::crypto::key_store::Slot) -> (r: Option<Vec<u8>>)
        requires
            self.wf(),
        ensures
            r is Some <==> self.key_store_contents().contains_key(slot@),
    {
        self.key_store.export_slot(slot)
    }

    /// Install a pinning record read back from durable storage.
    pub fn hydrate_tofu_entry(&mut self, peer_id: &str, entry: TofuEntry)
        requires
            old(self).wf(),
        ensures
            final(self).wf(),
            final(self).ledger() == old(self).ledger().insert(peer_id@, entry@),
    {
        self.tofu_store.hydrate_entry(peer_id, entry)
    }

    /// A copy of the pinning ledger, for persistence.
    pub fn export_tofu_entries(&self) -> (r: Vec<(String, TofuEntry)>)
        requires
            self.wf(),
        ensures
            forall|i: int|
                0 <= i < r@.len() ==> self.ledger().contains_key((#[trigger] r@[i]).0@),
    {
        self.tofu_store.export_entries()
    }

    /// Install a conversation record read back from durable storage.
    pub fn hydrate_conversation(
        &mut self,
        conversation: crate::services::chat_message_store::Conversation,
    )
        requires
            old(self).wf(),
        ensures
            final(self).wf(),
            final(self).conversations() == old(self).conversations().insert(
                conversation.id@,
                conversation@,
            ),
    {
        self.message_store.hydrate_conversation(conversation)
    }

    /// A copy of a conversation record, for persistence.
    pub fn export_conversation(&self, conversation_id: &str) -> (r: Option<
        crate::services::chat_message_store::Conversation,
    >)
        requires
            self.wf(),
        ensures
            r is Some <==> self.conversations().contains_key(conversation_id@),
            r is Some ==> r->0@ == self.conversations()[conversation_id@],
    {
        self.message_store.export_conversation(conversation_id)
    }

    /// The ids of all conversations.
    pub fn conversation_ids(&self) -> (r: Vec<String>)
        requires
            self.wf(),
        ensures
            forall|t: int|
                0 <= t < r@.len() ==> #[trigger] self.conversations().contains_key(r@[t]@),
    {
        self.message_store.conversation_ids()
    }

}

} // verus!
