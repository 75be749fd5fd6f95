use vstd::prelude::*;
use crate::error::ArchivistError;

verus! {

// ── Declared outside types ─────────────────────────────────────

#[verifier::external_type_specification]
#[verifier::external_body]
pub struct ExAccount(vodozemac::olm::Account);

#[verifier::external_type_specification]
#[verifier::external_body]
pub struct ExSession(vodozemac::olm::Session);

// ── Names for the double-ratchet state ─────────────────────────
//
// A pairwise ratchet session and the local account are opaque to the
// verifier.  What the contracts speak of are these observers: the plaintext
// and session a serialized message cryptographically belongs to, and the
// session's identity, its set of already-decrypted messages, and whether it
// has ever decrypted one.

/// The plaintext that a base64-serialized ratchet message encrypts.
pub uninterp spec fn owire_plain(w: Seq<char>) -> Seq<u8>;

/// The session a base64-serialized ratchet message cryptographically
/// belongs to, as that session's id.
pub uninterp spec fn owire_sid(w: Seq<char>) -> Seq<char>;

/// The globally unique id of a session.
pub uninterp spec fn olm_session_id(s: vodozemac::olm::Session) -> Seq<char>;

/// The serialized messages this session object has already decrypted.
pub uninterp spec fn olm_received(s: vodozemac::olm::Session) -> Set<Seq<char>>;

/// Whether the session has ever decrypted a message from the other side;
/// only then do its own messages stop carrying the pre-key prelude.
pub uninterp spec fn olm_established(s: vodozemac::olm::Session) -> bool;

/// Whether the session can encrypt: its sending ratchet rests on a
/// contributory remote ratchet key.  Outbound creation yields a usable
/// session; an inbound session adopts the pre-key message's unvalidated
/// ratchet key, so nothing is assumed of it until it encrypts or ratchets
/// forward.
pub uninterp spec fn olm_usable(s: vodozemac::olm::Session) -> bool;

/// The pickled (serde-JSON) form of a session's state.
pub uninterp spec fn session_pickle_of(s: vodozemac::olm::Session) -> Seq<char>;

/// Whether a string is a session pickle that restores.
pub uninterp spec fn valid_session_pickle(p: Seq<char>) -> bool;

/// Whether a session pickle came from a usable session, so restoring it
/// yields a usable session again.
pub uninterp spec fn usable_session_pickle(p: Seq<char>) -> bool;

/// Whether a string parses as a Curve25519 public key that contributes to
/// a Diffie-Hellman exchange (well-formed base64 of a non-degenerate
/// point).  Keys exported from an account qualify.
pub uninterp spec fn valid_curve25519_b64(k: Seq<char>) -> bool;

/// Whether an inbound session can be created on this account from this
/// sender identity key and serialized pre-key message: everything parses,
/// the identity keys agree, the account holds the claimed one-time key,
/// and the first message decrypts.  A deterministic function of the three.
pub uninterp spec fn olm_inbound_ok(
    a: vodozemac::olm::Account,
    ik: Seq<char>,
    m: Seq<char>,
) -> bool;

/// Like `olm_inbound_ok`, for the path that takes the sender identity key
/// from the pre-key message itself.
pub uninterp spec fn olm_inbound_msg_ok(a: vodozemac::olm::Account, m: Seq<char>) -> bool;

/// Whether a string parses as a serialized pre-key message.
pub uninterp spec fn is_prekey_wire(w: Seq<char>) -> bool;

/// The account's Curve25519 identity key, base64.
pub uninterp spec fn acct_ik_b64(a: vodozemac::olm::Account) -> Seq<char>;

/// The account's Ed25519 signing key, base64.
pub uninterp spec fn acct_sk_b64(a: vodozemac::olm::Account) -> Seq<char>;

/// How many unpublished one-time keys the account currently holds.
pub uninterp spec fn acct_otk_count(a: vodozemac::olm::Account) -> nat;

/// The pickled (serde-JSON) form of an account's state.
pub uninterp spec fn account_pickle_of(a: vodozemac::olm::Account) -> Seq<char>;

/// Whether a string is an account pickle that restores.
pub uninterp spec fn valid_account_pickle(p: Seq<char>) -> bool;

/// The Curve25519 identity key an account pickle carries.
pub uninterp spec fn pickled_ik(p: Seq<char>) -> Seq<char>;

/// The Ed25519 signing key an account pickle carries.
pub uninterp spec fn pickled_sk(p: Seq<char>) -> Seq<char>;

// ── Account wrappers ───────────────────────────────────────────

/// Relies on vodozemac::olm::Account::new: a fresh account holds no
/// unpublished one-time keys.
#[verifier::external_body]
pub fn account_new() -> (r: vodozemac::olm::Account)
    ensures
        acct_otk_count(r) == 0,
{
    vodozemac::olm::Account::new()
}

/// Relies on Account::curve25519_key and Curve25519PublicKey::to_base64:
/// the identity key is a fixed function of the account.
#[verifier::external_body]
pub fn account_identity_key_b64(a: &vodozemac::olm::Account) -> (r: String)
    ensures
        r@ == acct_ik_b64(*a),
        valid_curve25519_b64(r@),
{
    a.curve25519_key().to_base64()
}

/// Relies on Account::ed25519_key and Ed25519PublicKey::to_base64: the
/// signing key is a fixed function of the account.
#[verifier::external_body]
pub fn account_signing_key_b64(a: &vodozemac::olm::Account) -> (r: String)
    ensures
        r@ == acct_sk_b64(*a),
{
    a.ed25519_key().to_base64()
}

/// Relies on Account::one_time_keys: the map of unpublished one-time keys.
#[verifier::external_body]
pub fn account_otk_count(a: &vodozemac::olm::Account) -> (r: usize)
    ensures
        r == acct_otk_count(*a),
{
    a.one_time_keys().len()
}

/// Relies on Account::generate_one_time_keys: below the store's capacity of
/// 5000 keys, exactly `count` unpublished keys are added; the identity does
/// not change.
#[verifier::external_body]
pub fn account_generate_one_time_keys(a: &mut vodozemac::olm::Account, count: usize)
    ensures
        acct_otk_count(*old(a)) + count <= 5000 ==> acct_otk_count(*final(a)) == acct_otk_count(
            *old(a),
        ) + count,
        acct_ik_b64(*final(a)) == acct_ik_b64(*old(a)),
        acct_sk_b64(*final(a)) == acct_sk_b64(*old(a)),
{
    a.generate_one_time_keys(count);
}

/// Relies on Account::mark_keys_as_published: every unpublished one-time
/// key is moved aside; the identity does not change.
#[verifier::external_body]
pub fn account_mark_keys_as_published(a: &mut vodozemac::olm::Account)
    ensures
        acct_otk_count(*final(a)) == 0,
        acct_ik_b64(*final(a)) == acct_ik_b64(*old(a)),
        acct_sk_b64(*final(a)) == acct_sk_b64(*old(a)),
{
    a.mark_keys_as_published();
}

/// Relies on Account::one_time_keys: some unpublished key exists exactly
/// when the count is positive.  Which one comes first is unspecified: the
/// map's iteration order is arbitrary.
#[verifier::external_body]
pub fn account_first_one_time_key_b64(a: &vodozemac::olm::Account) -> (r: Option<String>)
    ensures
        r is Some <==> acct_otk_count(*a) > 0,
        r is Some ==> valid_curve25519_b64(r->0@),
{
    match a.one_time_keys().into_iter().next() {
        Some((_, key)) => Some(key.to_base64()),
        None => None,
    }
}

/// Relies on Curve25519PublicKey::from_base64 and
/// Account::create_outbound_session: a freshly created outbound session has
/// decrypted nothing yet and starts with an active, contributory sending
/// ratchet; creation succeeds on well-formed contributory keys, the only
/// things the call checks.
#[verifier::external_body]
pub fn account_create_outbound_session(
    a: &vodozemac::olm::Account,
    identity_key_b64: &str,
    one_time_key_b64: &str,
) -> (r: Result<vodozemac::olm::Session, ArchivistError>)
    ensures
        r is Ok ==> olm_received(r->Ok_0) == Set::<Seq<char>>::empty() && !olm_established(
            r->Ok_0,
        ) && olm_usable(r->Ok_0),
        (valid_curve25519_b64(identity_key_b64@) && valid_curve25519_b64(one_time_key_b64@))
            ==> r is Ok,
        r is Err ==> r->Err_0 is CryptoError,
{
    let their_ik = vodozemac::Curve25519PublicKey::from_base64(identity_key_b64)
        .map_err(|e| ArchivistError::CryptoError(format!("Parse identity key: {}", e)))?;
    let their_otk = vodozemac::Curve25519PublicKey::from_base64(one_time_key_b64)
        .map_err(|e| ArchivistError::CryptoError(format!("Parse OTK: {}", e)))?;
    a.create_outbound_session(vodozemac::olm::SessionConfig::default(), their_ik, their_otk)
        .map_err(|e| ArchivistError::CryptoError(format!("Create outbound session: {}", e)))
}

/// Relies on Curve25519PublicKey::from_base64, PreKeyMessage::from_base64
/// and Account::create_inbound_session: on success the new session carries
/// the id the pre-key message belongs to, yields that message's plaintext,
/// counts it as received, and is established.  The message's ratchet key
/// is adopted unvalidated, so the session is not claimed usable.  Success
/// is a deterministic function of the account and the two strings.  The
/// identity keys of the account do not change.
#[verifier::external_body]
pub fn account_create_inbound_session(
    a: &mut vodozemac::olm::Account,
    their_identity_key_b64: &str,
    pre_key_message_b64: &str,
) -> (r: Result<(vodozemac::olm::Session, Vec<u8>), ArchivistError>)
    ensures
        r is Ok <==> olm_inbound_ok(*old(a), their_identity_key_b64@, pre_key_message_b64@),
        r is Ok ==> {
            &&& olm_session_id(r->Ok_0.0) == owire_sid(pre_key_message_b64@)
            &&& r->Ok_0.1@ == owire_plain(pre_key_message_b64@)
            &&& olm_established(r->Ok_0.0)
            &&& olm_received(r->Ok_0.0) == Set::<Seq<char>>::empty().insert(
                pre_key_message_b64@,
            )
        },
        acct_ik_b64(*final(a)) == acct_ik_b64(*old(a)),
        acct_sk_b64(*final(a)) == acct_sk_b64(*old(a)),
        r is Err ==> r->Err_0 is CryptoError,
{
    let their_ik = vodozemac::Curve25519PublicKey::from_base64(their_identity_key_b64)
        .map_err(|e| ArchivistError::CryptoError(format!("Parse sender identity key: {}", e)))?;
    let message = vodozemac::olm::PreKeyMessage::from_base64(pre_key_message_b64)
        .map_err(|e| ArchivistError::CryptoError(format!("Parse PreKey message: {}", e)))?;
    let result = a
        .create_inbound_session(vodozemac::olm::SessionConfig::default(), their_ik, &message)
        .map_err(|e| ArchivistError::CryptoError(format!("Create inbound session: {}", e)))?;
    Ok((result.session, result.plaintext))
}

/// Relies on PreKeyMessage::from_base64, its identity_key, and
/// Account::create_inbound_session: like creating an inbound session from
/// an explicit identity key, except that the sender's identity key is the
/// one the pre-key message itself carries.
#[verifier::external_body]
pub fn account_create_inbound_from_message(
    a: &mut vodozemac::olm::Account,
    pre_key_message_b64: &str,
) -> (r: Result<(vodozemac::olm::Session, Vec<u8>), ArchivistError>)
    ensures
        r is Ok <==> olm_inbound_msg_ok(*old(a), pre_key_message_b64@),
        r is Ok ==> {
            &&& olm_session_id(r->Ok_0.0) == owire_sid(pre_key_message_b64@)
            &&& r->Ok_0.1@ == owire_plain(pre_key_message_b64@)
            &&& olm_established(r->Ok_0.0)
            &&& olm_received(r->Ok_0.0) == Set::<Seq<char>>::empty().insert(
                pre_key_message_b64@,
            )
        },
        acct_ik_b64(*final(a)) == acct_ik_b64(*old(a)),
        acct_sk_b64(*final(a)) == acct_sk_b64(*old(a)),
        r is Err ==> r->Err_0 is CryptoError,
{
    let message = vodozemac::olm::PreKeyMessage::from_base64(pre_key_message_b64)
        .map_err(|e| ArchivistError::CryptoError(format!("Parse PreKey message: {}", e)))?;
    let their_ik = message.identity_key();
    let result = a
        .create_inbound_session(vodozemac::olm::SessionConfig::default(), their_ik, &message)
        .map_err(|e| ArchivistError::CryptoError(format!("Create inbound session: {}", e)))?;
    Ok((result.session, result.plaintext))
}

/// Relies on PreKeyMessage::from_base64 and Message::from_base64: which of
/// the two wire forms the string parses as, if either; the pre-key form is
/// tried first, so a pre-key wire is always recognised as one.
#[verifier::external_body]
pub fn classify_olm_b64(s: &str) -> (r: Option<bool>)
    ensures
        is_prekey_wire(s@) ==> r == Some(true),
{
    if vodozemac::olm::PreKeyMessage::from_base64(s).is_ok() {
        Some(true)
    } else if vodozemac::olm::Message::from_base64(s).is_ok() {
        Some(false)
    } else {
        None
    }
}

/// Relies on Account::pickle and serde_json::to_string: pickling a plain
/// struct of keys and integer-keyed maps cannot fail, the dump restores,
/// it carries the account's public keys, and the state is structurally
/// bounded far below the stated length.
#[verifier::external_body]
pub fn account_pickle_json(a: &vodozemac::olm::Account) -> (r: Result<String, ArchivistError>)
    ensures
        r is Ok,
        r->Ok_0@ == account_pickle_of(*a),
        valid_account_pickle(r->Ok_0@),
        pickled_ik(r->Ok_0@) == acct_ik_b64(*a),
        pickled_sk(r->Ok_0@) == acct_sk_b64(*a),
        vstd::utf8::encode_utf8(r->Ok_0@).len() < 0x1_0000_0000,
{
    serde_json::to_string(&a.pickle())
        .map_err(|e| ArchivistError::CryptoError(format!("Pickle serialize: {}", e)))
}

/// Relies on serde_json::from_str and Account::from_pickle: a pickle that
/// restores yields an account with the public keys the pickle carries.
#[verifier::external_body]
pub fn account_from_pickle_json(pickle: &str) -> (r: Result<
    vodozemac::olm::Account,
    ArchivistError,
>)
    ensures
        valid_account_pickle(pickle@) ==> r is Ok,
        r is Ok ==> acct_ik_b64(r->Ok_0) == pickled_ik(pickle@) && acct_sk_b64(r->Ok_0)
            == pickled_sk(pickle@),
        r is Err ==> r->Err_0 is CryptoError,
{
    let parsed = serde_json::from_str(pickle)
        .map_err(|e| ArchivistError::CryptoError(format!("Invalid pickle JSON: {}", e)))?;
    Ok(vodozemac::olm::Account::from_pickle(parsed))
}

// ── Session wrappers ───────────────────────────────────────────

/// Relies on Session::encrypt and the messages' to_base64: the produced
/// message encrypts exactly the given plaintext, belongs to this session,
/// and carries the pre-key prelude until the session is established.  What
/// the session has received does not change.  Encryption fails only when
/// the sending ratchet rests on a non-contributory remote key, which the
/// constructors and every successful decrypt exclude, so a usable session
/// always encrypts and stays usable.
#[verifier::external_body]
pub fn session_encrypt_b64(s: &mut vodozemac::olm::Session, plaintext: &[u8]) -> (r: Result<
    (bool, String),
    ArchivistError,
>)
    ensures
        olm_usable(*old(s)) ==> r is Ok,
        olm_usable(*final(s)) == olm_usable(*old(s)),
        olm_session_id(*final(s)) == olm_session_id(*old(s)),
        olm_received(*final(s)) == olm_received(*old(s)),
        olm_established(*final(s)) == olm_established(*old(s)),
        r is Ok ==> {
            &&& owire_plain(r->Ok_0.1@) == plaintext@
            &&& owire_sid(r->Ok_0.1@) == olm_session_id(*old(s))
            &&& (r->Ok_0.0 <==> !olm_established(*old(s)))
        },
        r is Err ==> r->Err_0 is CryptoError,
{
    let message = s
        .encrypt(plaintext)
        .map_err(|e| ArchivistError::CryptoError(format!("Olm encrypt: {}", e)))?;
    match message {
        vodozemac::olm::OlmMessage::PreKey(m) => Ok((true, m.to_base64())),
        vodozemac::olm::OlmMessage::Normal(m) => Ok((false, m.to_base64())),
    }
}

/// Relies on PreKeyMessage/Message::from_base64 and Session::decrypt: a
/// successful decrypt yields the message's plaintext, proves the message
/// belongs to this session, and consumes its message key, so decrypting the
/// same serialized message again with this session object fails.  A usable
/// session stays usable: the sending ratchet is either untouched or
/// re-derived from a ratchet key the advance checked contributory.
#[verifier::external_body]
pub fn session_decrypt_b64(
    s: &mut vodozemac::olm::Session,
    is_pre_key: bool,
    ciphertext_b64: &str,
) -> (r: Result<Vec<u8>, ArchivistError>)
    ensures
        olm_session_id(*final(s)) == olm_session_id(*old(s)),
        r is Ok ==> {
            &&& r->Ok_0@ == owire_plain(ciphertext_b64@)
            &&& owire_sid(ciphertext_b64@) == olm_session_id(*old(s))
            &&& !olm_received(*old(s)).contains(ciphertext_b64@)
            &&& olm_received(*final(s)) == olm_received(*old(s)).insert(ciphertext_b64@)
            &&& olm_established(*final(s))
            &&& (olm_usable(*old(s)) ==> olm_usable(*final(s)))
        },
        r is Err ==> {
            &&& olm_received(*final(s)) == olm_received(*old(s))
            &&& olm_established(*final(s)) == olm_established(*old(s))
            &&& olm_usable(*final(s)) == olm_usable(*old(s))
            &&& r->Err_0 is CryptoError
        },
        olm_received(*old(s)).contains(ciphertext_b64@) ==> r is Err,
        owire_sid(ciphertext_b64@) != olm_session_id(*old(s)) ==> r is Err,
{
    let message = if is_pre_key {
        vodozemac::olm::OlmMessage::PreKey(
            vodozemac::olm::PreKeyMessage::from_base64(ciphertext_b64)
                .map_err(|e| ArchivistError::CryptoError(format!("Parse PreKey message: {}", e)))?,
        )
    } else {
        vodozemac::olm::OlmMessage::Normal(
            vodozemac::olm::Message::from_base64(ciphertext_b64)
                .map_err(|e| ArchivistError::CryptoError(format!("Parse Normal message: {}", e)))?,
        )
    };
    s.decrypt(&message).map_err(|e| ArchivistError::CryptoError(format!("Olm decrypt: {}", e)))
}

/// Relies on Session::pickle and serde_json::to_string: pickling a plain
/// struct of keys and a bounded set of chains cannot fail, the dump
/// restores, a usable session's dump restores usable, and the state is
/// structurally bounded far below the stated length.
#[verifier::external_body]
pub fn session_pickle_json(s: &vodozemac::olm::Session) -> (r: Result<String, ArchivistError>)
    ensures
        r is Ok,
        r->Ok_0@ == session_pickle_of(*s),
        valid_session_pickle(r->Ok_0@),
        olm_usable(*s) ==> usable_session_pickle(r->Ok_0@),
        vstd::utf8::encode_utf8(r->Ok_0@).len() < 0x1_0000_0000,
{
    serde_json::to_string(&s.pickle())
        .map_err(|e| ArchivistError::CryptoError(format!("Session pickle serialize: {}", e)))
}

/// Relies on serde_json::from_str and Session::from_pickle: a pickle that
/// restores yields a session, usable when the pickle came from a usable
/// one.
#[verifier::external_body]
pub fn session_from_pickle_json(pickle: &str) -> (r: Result<
    vodozemac::olm::Session,
    ArchivistError,
>)
    ensures
        valid_session_pickle(pickle@) ==> r is Ok,
        (r is Ok && usable_session_pickle(pickle@)) ==> olm_usable(r->Ok_0),
        r is Err ==> r->Err_0 is CryptoError,
{
    let parsed = serde_json::from_str(pickle)
        .map_err(|e| ArchivistError::CryptoError(format!("Session pickle JSON: {}", e)))?;
    Ok(vodozemac::olm::Session::from_pickle(parsed))
}

} // verus!
