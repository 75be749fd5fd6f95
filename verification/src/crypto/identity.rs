use vstd::prelude::*;
use vstd::string::StrSliceExecFns;
use crate::error::ArchivistError;
use crate::crypto::key_store::{KeyStore, SlotKey};
use crate::crypto::olm::{
    account_new, account_identity_key_b64, account_signing_key_b64, account_otk_count,
    account_generate_one_time_keys, account_mark_keys_as_published,
    account_first_one_time_key_b64, account_pickle_json, account_from_pickle_json, acct_ik_b64,
    acct_sk_b64, acct_otk_count, account_pickle_of, valid_account_pickle, pickled_ik,
    pickled_sk, valid_curve25519_b64,
};
use crate::text::string_from_utf8;

verus! {

/// Pre-key bundle shared with peers during session establishment.
#[derive(Debug, Clone)]
pub struct PreKeyBundle {
    /// Curve25519 identity key, base64 (for key agreement).
    pub identity_key: String,
    /// Ed25519 signing key, base64 (for signatures).
    pub signing_key: String,
    /// One-time pre-key, consumed on use.
    pub one_time_key: Option<String>,
    /// This peer's id.
    pub peer_id: String,
}

/// The pool is topped up to this many one-time keys ...
pub const PREKEY_POOL_TARGET: usize = 10;

/// ... whenever it falls below this low-water mark.
pub const PREKEY_POOL_LOW_WATER: usize = 5;

/// A stored identity blob: the UTF-8 bytes of an account pickle that
/// restores.
pub open spec fn identity_blob_ok(b: Seq<u8>) -> bool {
    &&& vstd::utf8::valid_utf8(b)
    &&& valid_account_pickle(vstd::utf8::decode_utf8(b))
}

/// The Curve25519 identity key a stored identity blob carries.
pub open spec fn identity_blob_ik(b: Seq<u8>) -> Seq<char> {
    pickled_ik(vstd::utf8::decode_utf8(b))
}

/// The Ed25519 signing key a stored identity blob carries.
pub open spec fn identity_blob_sk(b: Seq<u8>) -> Seq<char> {
    pickled_sk(vstd::utf8::decode_utf8(b))
}

/// Owner of the local long-term identity: a key-agreement keypair, a
/// signing keypair, and a pool of one-time pre-keys, persisted through the
/// key store after every mutation.
pub struct IdentityManager {
    account: vodozemac::olm::Account,
    peer_id: String,
}

impl IdentityManager {
    /// The underlying account, visible only to specifications.
    pub closed spec fn spec_account(&self) -> vodozemac::olm::Account {
        self.account
    }

    /// The Curve25519 identity key, base64.
    pub open spec fn ik(&self) -> Seq<char> {
        acct_ik_b64(self.spec_account())
    }

    /// The Ed25519 signing key, base64.
    pub open spec fn sk(&self) -> Seq<char> {
        acct_sk_b64(self.spec_account())
    }

    /// How many unconsumed one-time keys the pool holds.
    pub open spec fn otk_count(&self) -> nat {
        acct_otk_count(self.spec_account())
    }

    /// The peer id this identity is visible under.
    pub closed spec fn peer(&self) -> Seq<char> {
        self.peer_id@
    }

    /// The pickled form of the identity, as it is persisted.
    pub open spec fn pickled(&self) -> Seq<u8> {
        vstd::utf8::encode_utf8(account_pickle_of(self.spec_account()))
    }

    /// Load the persisted identity, or create a fresh one and persist it
    /// immediately.
    pub fn load_or_create(key_store: &mut KeyStore, peer_id: &str) -> (r: Result<
        IdentityManager,
        ArchivistError,
    >)
        requires
            old(key_store).wf(),
        ensures
            final(key_store).wf(),
            final(key_store).master() == old(key_store).master(),
            r is Ok ==> r->Ok_0.peer() == peer_id@,
            !old(key_store).contents().contains_key(SlotKey::Identity) ==> r is Ok,
            old(key_store).contents().contains_key(SlotKey::Identity)
                ==> final(key_store).contents() == old(key_store).contents(),
            (old(key_store).contents().contains_key(SlotKey::Identity) && identity_blob_ok(
                old(key_store).contents()[SlotKey::Identity],
            )) ==> r is Ok && r->Ok_0.ik() == identity_blob_ik(
                old(key_store).contents()[SlotKey::Identity],
            ) && r->Ok_0.sk() == identity_blob_sk(
                old(key_store).contents()[SlotKey::Identity],
            ),
            (!old(key_store).contents().contains_key(SlotKey::Identity) && r is Ok)
                ==> (r->Ok_0.otk_count() == 0 && final(key_store).contents()
                == old(key_store).contents().insert(SlotKey::Identity, r->Ok_0.pickled())),
            r is Err ==> r->Err_0 is CryptoError,
    {
        let loaded = match key_store.load_identity() {
            Ok(l) => l,
            Err(e) => {
                proof {
                    assert(false);
                }
                return Err(e);
            },
        };
        match loaded {
            Some(pickle_bytes) => {
                let ghost blob = pickle_bytes@;
                let pickle_str = string_from_utf8(pickle_bytes)?;
                proof {
                    if identity_blob_ok(blob) {
                        vstd::utf8::encode_utf8_decode_utf8(pickle_str@);
                        assert(pickle_str@ == vstd::utf8::decode_utf8(blob));
                    }
                }
                let account = account_from_pickle_json(pickle_str.as_str())?;
                Ok(IdentityManager { account, peer_id: peer_id.to_owned() })
            },
            None => {
                let account = account_new();
                let mgr = IdentityManager { account, peer_id: peer_id.to_owned() };
                mgr.persist(key_store)?;
                Ok(mgr)
            },
        }
    }

    /// Persist the identity to encrypted storage.  Pickling the account and
    /// sealing the blob always go through.
    pub fn persist(&self, key_store: &mut KeyStore) -> (r: Result<(), ArchivistError>)
        requires
            old(key_store).wf(),
        ensures
            final(key_store).wf(),
            final(key_store).master() == old(key_store).master(),
            r is Ok,
            final(key_store).contents() == old(key_store).contents().insert(
                SlotKey::Identity,
                self.pickled(),
            ),
            identity_blob_ok(self.pickled()),
            identity_blob_ik(self.pickled()) == self.ik(),
            identity_blob_sk(self.pickled()) == self.sk(),
    {
        let pickle = account_pickle_json(&self.account)?;
        proof {
            vstd::utf8::encode_utf8_valid_utf8(pickle@);
            vstd::utf8::encode_utf8_decode_utf8(pickle@);
        }
        key_store.save_identity(pickle.as_str().as_bytes())?;
        Ok(())
    }

    /// Top the one-time-key pool up to ten keys whenever it has fallen
    /// below five, and persist the refreshed identity.
    pub fn generate_one_time_keys_if_needed(&mut self, key_store: &mut KeyStore) -> (r: Result<
        (),
        ArchivistError,
    >)
        requires
            old(key_store).wf(),
        ensures
            final(key_store).wf(),
            final(key_store).master() == old(key_store).master(),
            final(self).ik() == old(self).ik(),
            final(self).sk() == old(self).sk(),
            final(self).peer() == old(self).peer(),
            r is Ok,
            old(self).otk_count() >= 5 ==> *final(self) == *old(self)
                && final(key_store).contents() == old(key_store).contents(),
            old(self).otk_count() < 5 ==> final(self).otk_count() == 10,
            old(self).otk_count() < 5 ==> final(key_store).contents()
                == old(key_store).contents().insert(SlotKey::Identity, final(self).pickled()),
    {
        let count = account_otk_count(&self.account);
        if count < PREKEY_POOL_LOW_WATER {
            account_generate_one_time_keys(&mut self.account, PREKEY_POOL_TARGET - count);
            self.persist(key_store)?;
        }
        Ok(())
    }

    /// Export a pre-key bundle: the public keys plus one unconsumed
    /// one-time key, if any.  Side-effect free; consumption is explicit via
    /// `mark_keys_as_published` once the bundle was actually claimed.
    pub fn export_pre_key_bundle(&self) -> (r: PreKeyBundle)
        ensures
            r.identity_key@ == self.ik(),
            valid_curve25519_b64(r.identity_key@),
            r.signing_key@ == self.sk(),
            r.one_time_key is Some <==> self.otk_count() > 0,
            r.one_time_key is Some ==> valid_curve25519_b64(r.one_time_key->0@),
            r.peer_id@ == self.peer(),
    {
        PreKeyBundle {
            identity_key: account_identity_key_b64(&self.account),
            signing_key: account_signing_key_b64(&self.account),
            one_time_key: account_first_one_time_key_b64(&self.account),
            peer_id: self.peer_id.clone(),
        }
    }

    /// Mark the published one-time keys as consumed.
    pub fn mark_keys_as_published(&mut self)
        ensures
            final(self).otk_count() == 0,
            final(self).ik() == old(self).ik(),
            final(self).sk() == old(self).sk(),
            final(self).peer() == old(self).peer(),
    {
        account_mark_keys_as_published(&mut self.account);
    }

    /// The Curve25519 identity key, base64.
    pub fn curve25519_key(&self) -> (r: String)
        ensures
            r@ == self.ik(),
    {
        account_identity_key_b64(&self.account)
    }

    /// The Ed25519 signing key, base64.
    pub fn ed25519_key(&self) -> (r: String)
        ensures
            r@ == self.sk(),
    {
        account_signing_key_b64(&self.account)
    }

    /// Access the underlying account, for session creation.
    pub fn account_mut(&mut self) -> (r: &mut vodozemac::olm::Account)
        ensures
            *r == old(self).spec_account(),
            final(self).spec_account() == *final(r),
            final(self).peer() == old(self).peer(),
    {
        &mut self.account
    }

    /// Read access to the underlying account.
    pub fn account(&self) -> (r: &vodozemac::olm::Account)
        ensures
            *r == self.spec_account(),
    {
        &self.account
    }

    pub fn peer_id(&self) -> (r: &str)
        ensures
            r@ == self.peer(),
    {
        self.peer_id.as_str()
    }

    /// Late-bind the visible peer id once the network layer has assigned
    /// one.
    pub fn set_peer_id(&mut self, peer_id: &str)
        ensures
            final(self).peer() == peer_id@,
            final(self).spec_account() == old(self).spec_account(),
    {
        self.peer_id = peer_id.to_owned();
    }
}

} // verus!
