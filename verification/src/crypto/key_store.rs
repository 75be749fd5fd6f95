use vstd::prelude::*;
use vstd::pervasive::VecAdditionalExecFns;
use vstd::string::StrSliceExecFns;
use crate::error::ArchivistError;
use crate::text::str_eq;

verus! {

// ── Trusted AEAD primitives ────────────────────────────────────

/// Authenticated decryption as a mathematical function of key, nonce and
/// ciphertext: `Some(plaintext)` when the tag verifies, `None` otherwise.
pub uninterp spec fn aead_open_spec(key: Seq<u8>, nonce: Seq<u8>, ct: Seq<u8>) -> Option<Seq<u8>>;

/// Relies on aes_gcm::Aes256Gcm through the Aead trait: encryption produces a
/// ciphertext that authenticated decryption with the same key and nonce maps
/// back to the plaintext, and it declines only plaintexts beyond the AES-GCM
/// message limit, far above the stated bound.
#[verifier::external_body]
fn aes256_gcm_seal(key: &[u8], nonce: &[u8], plaintext: &[u8]) -> (r: Result<
    Vec<u8>,
    ArchivistError,
>)
    requires
        key@.len() == 32,
        nonce@.len() == 12,
    ensures
        plaintext@.len() < 0x1_0000_0000 ==> r is Ok,
        r is Ok ==> aead_open_spec(key@, nonce@, r->Ok_0@) == Some(plaintext@),
        r is Err ==> r->Err_0 is CryptoError,
{
    let cipher = <aes_gcm::Aes256Gcm as aes_gcm::aead::KeyInit>::new_from_slice(key)
        .map_err(|e| ArchivistError::CryptoError(format!("AES init: {}", e)))?;
    let nonce = aes_gcm::Nonce::try_from(nonce)
        .map_err(|_| ArchivistError::CryptoError("AES nonce length".to_string()))?;
    aes_gcm::aead::Aead::encrypt(&cipher, &nonce, plaintext)
        .map_err(|e| ArchivistError::CryptoError(format!("AES encrypt: {}", e)))
}

/// Relies on aes_gcm::Aes256Gcm through the Aead trait: authenticated
/// decryption is a function of key, nonce and ciphertext, and fails closed
/// on any tag or length mismatch.
#[verifier::external_body]
fn aes256_gcm_open(key: &[u8], nonce: &[u8], ciphertext: &[u8]) -> (r: Result<
    Vec<u8>,
    ArchivistError,
>)
    requires
        key@.len() == 32,
        nonce@.len() == 12,
    ensures
        r is Ok <==> aead_open_spec(key@, nonce@, ciphertext@) is Some,
        r is Ok ==> Some(r->Ok_0@) == aead_open_spec(key@, nonce@, ciphertext@),
        r is Err ==> r->Err_0 is CryptoError,
{
    let cipher = <aes_gcm::Aes256Gcm as aes_gcm::aead::KeyInit>::new_from_slice(key)
        .map_err(|e| ArchivistError::CryptoError(format!("AES init: {}", e)))?;
    let nonce = aes_gcm::Nonce::try_from(nonce)
        .map_err(|_| ArchivistError::CryptoError("AES nonce length".to_string()))?;
    aes_gcm::aead::Aead::decrypt(&cipher, &nonce, ciphertext)
        .map_err(|e| ArchivistError::CryptoError(format!("AES decrypt: {}", e)))
}

/// Relies on rand::rng: fills a fresh 96-bit nonce.  Nothing is assumed
/// about its value.
#[verifier::external_body]
fn random_nonce() -> (r: Vec<u8>)
    ensures
        r@.len() == 12,
{
    let mut bytes = [0u8; 12];
    let mut rng = rand::rng();
    rand::Rng::fill_bytes(&mut rng, &mut bytes);
    bytes.to_vec()
}

/// Relies on rand::rng: draws a fresh 256-bit master key.  Nothing is
/// assumed about its value.
#[verifier::external_body]
pub fn random_master_key() -> (r: Vec<u8>)
    ensures
        r@.len() == 32,
{
    let mut bytes = [0u8; 32];
    let mut rng = rand::rng();
    rand::Rng::fill_bytes(&mut rng, &mut bytes);
    bytes.to_vec()
}

// ── Slots ──────────────────────────────────────────────────────

/// A logical storage slot of the key store.
#[derive(Debug, Clone)]
pub enum Slot {
    /// The identity pickle.
    Identity,
    /// The per-peer pairwise session pickle.
    Session(String),
    /// The outbound group-session pickle of a group.
    GroupOutbound(String),
    /// The inbound group-session pickle of a (group, sender) pair.
    GroupInbound(String, String),
}

pub enum SlotKey {
    Identity,
    Session(Seq<char>),
    GroupOutbound(Seq<char>),
    GroupInbound(Seq<char>, Seq<char>),
}

impl View for Slot {
    type V = SlotKey;

    open spec fn view(&self) -> SlotKey {
        match self {
            Slot::Identity => SlotKey::Identity,
            Slot::Session(p) => SlotKey::Session(p@),
            Slot::GroupOutbound(g) => SlotKey::GroupOutbound(g@),
            Slot::GroupInbound(g, s) => SlotKey::GroupInbound(g@, s@),
        }
    }
}

/// Whether two slots name the same storage location.
fn slot_eq(a: &Slot, b: &Slot) -> (r: bool)
    ensures
        r == (a@ == b@),
{
    match (a, b) {
        (Slot::Identity, Slot::Identity) => true,
        (Slot::Session(x), Slot::Session(y)) => {
            let r = str_eq(x.as_str(), y.as_str());
            assert(a@ == b@ <==> x@ == y@);
            r
        },
        (Slot::GroupOutbound(x), Slot::GroupOutbound(y)) => {
            let r = str_eq(x.as_str(), y.as_str());
            assert(a@ == b@ <==> x@ == y@);
            r
        },
        (Slot::GroupInbound(x1, x2), Slot::GroupInbound(y1, y2)) => {
            let r = str_eq(x1.as_str(), y1.as_str()) && str_eq(x2.as_str(), y2.as_str());
            assert(a@ == b@ <==> (x1@ == y1@ && x2@ == y2@));
            r
        },
        _ => {
            assert(a@ != b@);
            false
        },
    }
}

/// A slot name copied field by field, preserving its view.
fn clone_slot(s: &Slot) -> (r: Slot)
    ensures
        r@ == s@,
{
    match s {
        Slot::Identity => Slot::Identity,
        Slot::Session(p) => Slot::Session(p.as_str().to_owned()),
        Slot::GroupOutbound(g) => Slot::GroupOutbound(g.as_str().to_owned()),
        Slot::GroupInbound(g, p) => Slot::GroupInbound(
            g.as_str().to_owned(),
            p.as_str().to_owned(),
        ),
    }
}

// ── The key store ──────────────────────────────────────────────

/// The encoding of a stored blob: a random 96-bit nonce followed by the
/// AES-256-GCM ciphertext.  `plain` is what decrypting it yields.
pub open spec fn sealed_opens_to(key: Seq<u8>, data: Seq<u8>, plain: Seq<u8>) -> bool {
    &&& data.len() >= 12
    &&& aead_open_spec(key, data.subrange(0, 12), data.skip(12)) == Some(plain)
}

/// Encrypted-at-rest byte storage keyed by logical slot names.
///
/// Every payload is sealed with AES-256-GCM under a single 256-bit master
/// secret; a slot holds `nonce || ciphertext`.  The store keeps no knowledge
/// of the cryptographic meaning of its payloads.  Durability is layered on
/// top: a host hydrates slots from disk at startup and exports them after
/// each save.
pub struct KeyStore {
    master_key: Vec<u8>,
    slots: Vec<(Slot, Vec<u8>)>,
    plain: Ghost<Map<SlotKey, Seq<u8>>>,
}

impl KeyStore {
    /// The master secret, visible only to specifications.
    pub closed spec fn master(&self) -> Seq<u8> {
        self.master_key@
    }

    /// The logical contents: slot name to stored plaintext.
    pub closed spec fn contents(&self) -> Map<SlotKey, Seq<u8>> {
        self.plain@
    }

    pub closed spec fn wf(&self) -> bool {
        &&& self.master_key@.len() == 32
        &&& forall|i: int, j: int|
            0 <= i < j < self.slots@.len() ==> (#[trigger] self.slots@[i]).0@ != (
            #[trigger] self.slots@[j]).0@
        &&& forall|k: SlotKey|
            self.plain@.contains_key(k) <==> exists|i: int|
                0 <= i < self.slots@.len() && (#[trigger] self.slots@[i]).0@ == k
        &&& forall|i: int|
            0 <= i < self.slots@.len() ==> sealed_opens_to(
                self.master_key@,
                (#[trigger] self.slots@[i]).1@,
                self.plain@[self.slots@[i].0@],
            )
    }

    /// The name of every occupied slot, one for each stored entry.
    ///
    /// A host that persists the store walks this list and exports each
    /// slot's sealed bytes; nothing stored can be missed, since every key
    /// of the contents appears in the result.
    pub fn slot_names(&self) -> (r: Vec<Slot>)
        requires
            self.wf(),
        ensures
            forall|i: int|
                0 <= i < r@.len() ==> self.contents().contains_key((#[trigger] r@[i])@),
            forall|k: SlotKey|
                #[trigger] self.contents().contains_key(k) ==> exists|i: int|
                    0 <= i < r@.len() && (#[trigger] r@[i])@ == k,
    {
        let mut out: Vec<Slot> = Vec::new();
        let mut i: usize = 0;
        while i < self.slots.len()
            invariant
                self.wf(),
                i <= self.slots@.len(),
                out@.len() == i,
                forall|n: int|
                    0 <= n < i ==> (#[trigger] out@[n])@ == self.slots@[n].0@,
            decreases self.slots@.len() - i,
        {
            out.push(clone_slot(&self.slots[i].0));
            i = i + 1;
        }
        proof {
            assert forall|i: int|
                0 <= i < out@.len() implies self.contents().contains_key((
            #[trigger] out@[i])@) by {
                assert((#[trigger] self.slots@[i]).0@ == out@[i]@);
            }
            assert forall|k: SlotKey|
                #[trigger] self.contents().contains_key(k) implies exists|i: int|
                0 <= i < out@.len() && (#[trigger] out@[i])@ == k by {
                let i = choose|i: int|
                    0 <= i < self.slots@.len() && (#[trigger] self.slots@[i]).0@ == k;
                assert(out@[i]@ == k);
            }
        }
        out
    }

    /// Initialise the key store from the 32-byte master secret.
    ///
    /// A master key of any other length is rejected as corrupt: silently
    /// regenerating one would orphan every existing encrypted slot.
    pub fn new(master_key: Vec<u8>) -> (r: Result<KeyStore, ArchivistError>)
        ensures
            r is Ok <==> master_key@.len() == 32,
            r is Ok ==> r->Ok_0.wf() && r->Ok_0.contents() == Map::<SlotKey, Seq<u8>>::empty()
                && r->Ok_0.master() == master_key@,
            r is Err ==> r->Err_0 is CryptoError,
    {
        if master_key.len() != 32 {
            return Err(ArchivistError::CryptoError("Corrupt master key".to_string()));
        }
        Ok(KeyStore { master_key, slots: Vec::new(), plain: Ghost(Map::empty()) })
    }

    /// Seal a payload: random nonce, then AES-256-GCM ciphertext.
    pub fn encrypt(&self, plaintext: &[u8]) -> (r: Result<Vec<u8>, ArchivistError>)
        requires
            self.wf(),
        ensures
            plaintext@.len() < 0x1_0000_0000 ==> r is Ok,
            r is Ok ==> sealed_opens_to(self.master(), r->Ok_0@, plaintext@),
            r is Err ==> r->Err_0 is CryptoError,
    {
        let nonce = random_nonce();
        let ct = aes256_gcm_seal(self.master_key.as_slice(), nonce.as_slice(), plaintext)?;
        let mut out: Vec<u8> = Vec::new();
        let mut i: usize = 0;
        while i < nonce.len()
            invariant
                i <= nonce.len(),
                out@ =~= nonce@.subrange(0, i as int),
            decreases nonce.len() - i,
        {
            out.push(nonce[i]);
            i = i + 1;
        }
        let mut j: usize = 0;
        while j < ct.len()
            invariant
                j <= ct.len(),
                out@ =~= nonce@ + ct@.subrange(0, j as int),
            decreases ct.len() - j,
        {
            out.push(ct[j]);
            j = j + 1;
        }
        proof {
            assert(out@ =~= nonce@ + ct@);
            assert(out@.subrange(0, 12) =~= nonce@);
            assert(out@.skip(12) =~= ct@);
        }
        Ok(out)
    }

    /// Open a sealed payload; fails closed on any length or tag mismatch.
    pub fn decrypt(&self, data: &[u8]) -> (r: Result<Vec<u8>, ArchivistError>)
        requires
            self.wf(),
        ensures
            r is Ok <==> (data@.len() >= 12 && aead_open_spec(
                self.master(),
                data@.subrange(0, 12),
                data@.skip(12),
            ) is Some),
            r is Ok ==> sealed_opens_to(self.master(), data@, r->Ok_0@),
            r is Err ==> r->Err_0 is CryptoError,
    {
        if data.len() < 12 {
            return Err(ArchivistError::CryptoError("Ciphertext too short".to_string()));
        }
        let nonce = vstd::slice::slice_subrange(data, 0, 12);
        let ct = vstd::slice::slice_subrange(data, 12, data.len());
        let plain = aes256_gcm_open(self.master_key.as_slice(), nonce, ct)?;
        Ok(plain)
    }

    fn find_slot(&self, slot: &Slot) -> (r: Option<usize>)
        ensures
            match r {
                Some(i) => i < self.slots@.len() && self.slots@[i as int].0@ == slot@,
                None => forall|i: int|
                    0 <= i < self.slots@.len() ==> (#[trigger] self.slots@[i]).0@ != slot@,
            },
    {
        let mut i: usize = 0;
        while i < self.slots.len()
            invariant
                i <= self.slots@.len(),
                forall|k: int| 0 <= k < i ==> (#[trigger] self.slots@[k]).0@ != slot@,
            decreases self.slots@.len() - i,
        {
            if slot_eq(&self.slots[i].0, slot) {
                return Some(i);
            }
            i = i + 1;
        }
        None
    }

    /// Seal a payload and store it under the slot, replacing what was there.
    pub fn save_slot(&mut self, slot: Slot, plaintext: &[u8]) -> (r: Result<(), ArchivistError>)
        requires
            old(self).wf(),
        ensures
            final(self).wf(),
            final(self).master() == old(self).master(),
            plaintext@.len() < 0x1_0000_0000 ==> r is Ok,
            r is Ok ==> final(self).contents() == old(self).contents().insert(
                slot@,
                plaintext@,
            ),
            r is Err ==> final(self).contents() == old(self).contents() && r->Err_0
                is CryptoError,
    {
        let sealed = match self.encrypt(plaintext) {
            Ok(s) => s,
            Err(e) => {
                return Err(e);
            },
        };
        let ghost key = slot@;
        match self.find_slot(&slot) {
            Some(i) => {
                self.slots.set(i, (slot, sealed));
                proof {
                    self.plain@ = self.plain@.insert(key, plaintext@);
                    assert forall|k: SlotKey| self.plain@.contains_key(k) implies exists|n: int|
                        0 <= n < self.slots@.len() && (#[trigger] self.slots@[n]).0@ == k by {
                        if k == key {
                            assert(self.slots@[i as int].0@ == k);
                        } else {
                            let n = choose|n: int|
                                0 <= n < old(self).slots@.len() && (#[trigger] old(self).slots@[n]).0@ == k;
                            assert(self.slots@[n].0@ == k);
                        }
                    }
                }
                Ok(())
            },
            None => {
                self.slots.push((slot, sealed));
                proof {
                    self.plain@ = self.plain@.insert(key, plaintext@);
                    let len = self.slots@.len();
                    assert forall|k: SlotKey| self.plain@.contains_key(k) implies exists|n: int|
                        0 <= n < len && (#[trigger] self.slots@[n]).0@ == k by {
                        if k == key {
                            assert(self.slots@[len - 1].0@ == k);
                        } else {
                            let n = choose|n: int|
                                0 <= n < old(self).slots@.len() && (#[trigger] old(self).slots@[n]).0@ == k;
                            assert(self.slots@[n].0@ == k);
                        }
                    }
                }
                Ok(())
            },
        }
    }

    /// Load and open the payload stored under the slot.
    ///
    /// Always succeeds: every stored blob was sealed by this store or
    /// checked when it was hydrated from disk.
    pub fn load_slot(&self, slot: &Slot) -> (r: Result<Option<Vec<u8>>, ArchivistError>)
        requires
            self.wf(),
        ensures
            r is Ok,
            r->Ok_0 is Some <==> self.contents().contains_key(slot@),
            r->Ok_0 is Some ==> r->Ok_0->Some_0@ == self.contents()[slot@],
    {
        match self.find_slot(slot) {
            Some(i) => {
                let sealed = &self.slots[i].1;
                assert(sealed_opens_to(self.master(), sealed@, self.contents()[slot@]));
                match self.decrypt(sealed.as_slice()) {
                    Ok(plain) => Ok(Some(plain)),
                    Err(_) => {
                        proof {
                            assert(false);
                        }
                        Ok(None)
                    },
                }
            },
            None => Ok(None),
        }
    }

    /// Install a sealed blob read back from durable storage.  The blob is
    /// opened first; a corrupt one is rejected and the store is unchanged.
    pub fn hydrate_slot(&mut self, slot: Slot, sealed: Vec<u8>) -> (r: Result<(), ArchivistError>)
        requires
            old(self).wf(),
        ensures
            final(self).wf(),
            final(self).master() == old(self).master(),
            r is Ok <==> sealed@.len() >= 12 && aead_open_spec(
                old(self).master(),
                sealed@.subrange(0, 12),
                sealed@.skip(12),
            ) is Some,
            r is Ok ==> final(self).contents() == old(self).contents().insert(
                slot@,
                aead_open_spec(
                    old(self).master(),
                    sealed@.subrange(0, 12),
                    sealed@.skip(12),
                )->Some_0,
            ),
            r is Err ==> final(self).contents() == old(self).contents() && r->Err_0
                is CryptoError,
    {
        let plain = match self.decrypt(sealed.as_slice()) {
            Ok(p) => p,
            Err(e) => {
                return Err(e);
            },
        };
        let ghost key = slot@;
        let ghost plainv = plain@;
        match self.find_slot(&slot) {
            Some(i) => {
                self.slots.set(i, (slot, sealed));
                proof {
                    self.plain@ = self.plain@.insert(key, plainv);
                    assert forall|k: SlotKey| self.plain@.contains_key(k) implies exists|n: int|
                        0 <= n < self.slots@.len() && (#[trigger] self.slots@[n]).0@ == k by {
                        if k == key {
                            assert(self.slots@[i as int].0@ == k);
                        } else {
                            let n = choose|n: int|
                                0 <= n < old(self).slots@.len() && (#[trigger] old(self).slots@[n]).0@ == k;
                            assert(self.slots@[n].0@ == k);
                        }
                    }
                }
                Ok(())
            },
            None => {
                self.slots.push((slot, sealed));
                proof {
                    self.plain@ = self.plain@.insert(key, plainv);
                    let len = self.slots@.len();
                    assert forall|k: SlotKey| self.plain@.contains_key(k) implies exists|n: int|
                        0 <= n < len && (#[trigger] self.slots@[n]).0@ == k by {
                        if k == key {
                            assert(self.slots@[len - 1].0@ == k);
                        } else {
                            let n = choose|n: int|
                                0 <= n < old(self).slots@.len() && (#[trigger] old(self).slots@[n]).0@ == k;
                            assert(self.slots@[n].0@ == k);
                        }
                    }
                }
                Ok(())
            },
        }
    }

    /// The sealed bytes stored under a slot, for a host to persist.
    pub fn export_slot(&self, slot: &Slot) -> (r: Option<Vec<u8>>)
        requires
            self.wf(),
        ensures
            r is Some <==> self.contents().contains_key(slot@),
            r is Some ==> sealed_opens_to(self.master(), r->Some_0@, self.contents()[slot@]),
    {
        match self.find_slot(slot) {
            Some(i) => Some(self.slots[i].1.clone()),
            None => None,
        }
    }

    // ── Named slots ────────────────────────────────────────────

    pub fn save_identity(&mut self, pickle: &[u8]) -> (r: Result<(), ArchivistError>)
        requires
            old(self).wf(),
        ensures
            final(self).wf(),
            final(self).master() == old(self).master(),
            pickle@.len() < 0x1_0000_0000 ==> r is Ok,
            r is Ok ==> final(self).contents() == old(self).contents().insert(
                SlotKey::Identity,
                pickle@,
            ),
            r is Err ==> final(self).contents() == old(self).contents() && r->Err_0
                is CryptoError,
    {
        self.save_slot(Slot::Identity, pickle)
    }

    pub fn load_identity(&self) -> (r: Result<Option<Vec<u8>>, ArchivistError>)
        requires
            self.wf(),
        ensures
            r is Ok,
            r->Ok_0 is Some <==> self.contents().contains_key(SlotKey::Identity),
            r->Ok_0 is Some ==> r->Ok_0->Some_0@ == self.contents()[SlotKey::Identity],
    {
        self.load_slot(&Slot::Identity)
    }

    pub fn save_session(&mut self, peer_id: &str, pickle: &[u8]) -> (r: Result<
        (),
        ArchivistError,
    >)
        requires
            old(self).wf(),
        ensures
            final(self).wf(),
            final(self).master() == old(self).master(),
            pickle@.len() < 0x1_0000_0000 ==> r is Ok,
            r is Ok ==> final(self).contents() == old(self).contents().insert(
                SlotKey::Session(peer_id@),
                pickle@,
            ),
            r is Err ==> final(self).contents() == old(self).contents() && r->Err_0
                is CryptoError,
    {
        self.save_slot(Slot::Session(peer_id.to_owned()), pickle)
    }

    pub fn load_session(&self, peer_id: &str) -> (r: Result<Option<Vec<u8>>, ArchivistError>)
        requires
            self.wf(),
        ensures
            r is Ok,
            r->Ok_0 is Some <==> self.contents().contains_key(SlotKey::Session(peer_id@)),
            r->Ok_0 is Some ==> r->Ok_0->Some_0@ == self.contents()[SlotKey::Session(peer_id@)],
    {
        self.load_slot(&Slot::Session(peer_id.to_owned()))
    }

    pub fn save_outbound_group_session(&mut self, group_id: &str, pickle: &[u8]) -> (r: Result<
        (),
        ArchivistError,
    >)
        requires
            old(self).wf(),
        ensures
            final(self).wf(),
            final(self).master() == old(self).master(),
            pickle@.len() < 0x1_0000_0000 ==> r is Ok,
            r is Ok ==> final(self).contents() == old(self).contents().insert(
                SlotKey::GroupOutbound(group_id@),
                pickle@,
            ),
            r is Err ==> final(self).contents() == old(self).contents() && r->Err_0
                is CryptoError,
    {
        self.save_slot(Slot::GroupOutbound(group_id.to_owned()), pickle)
    }

    pub fn load_outbound_group_session(&self, group_id: &str) -> (r: Result<
        Option<Vec<u8>>,
        ArchivistError,
    >)
        requires
            self.wf(),
        ensures
            r is Ok,
            r->Ok_0 is Some <==> self.contents().contains_key(SlotKey::GroupOutbound(group_id@)),
            r->Ok_0 is Some ==> r->Ok_0->Some_0@ == self.contents()[SlotKey::GroupOutbound(
                group_id@,
            )],
    {
        self.load_slot(&Slot::GroupOutbound(group_id.to_owned()))
    }

    pub fn save_inbound_group_session(
        &mut self,
        group_id: &str,
        sender: &str,
        pickle: &[u8],
    ) -> (r: Result<(), ArchivistError>)
        requires
            old(self).wf(),
        ensures
            final(self).wf(),
            final(self).master() == old(self).master(),
            pickle@.len() < 0x1_0000_0000 ==> r is Ok,
            r is Ok ==> final(self).contents() == old(self).contents().insert(
                SlotKey::GroupInbound(group_id@, sender@),
                pickle@,
            ),
            r is Err ==> final(self).contents() == old(self).contents() && r->Err_0
                is CryptoError,
    {
        self.save_slot(Slot::GroupInbound(group_id.to_owned(), sender.to_owned()), pickle)
    }

    pub fn load_inbound_group_session(&self, group_id: &str, sender: &str) -> (r: Result<
        Option<Vec<u8>>,
        ArchivistError,
    >)
        requires
            self.wf(),
        ensures
            r is Ok,
            r->Ok_0 is Some <==> self.contents().contains_key(
                SlotKey::GroupInbound(group_id@, sender@),
            ),
            r->Ok_0 is Some ==> r->Ok_0->Some_0@ == self.contents()[SlotKey::GroupInbound(
                group_id@,
                sender@,
            )],
    {
        self.load_slot(&Slot::GroupInbound(group_id.to_owned(), sender.to_owned()))
    }
}

} // verus!
