use vstd::prelude::*;
use crate::error::ArchivistError;

verus! {

// ── Declared outside types ─────────────────────────────────────

#[verifier::external_type_specification]
#[verifier::external_body]
pub struct ExGroupSession(vodozemac::megolm::GroupSession);

#[verifier::external_type_specification]
#[verifier::external_body]
pub struct ExInboundGroupSession(vodozemac::megolm::InboundGroupSession);

// ── Names for the sender-keyed ratchet state ───────────────────

/// The plaintext a base64-serialized group message encrypts.
pub uninterp spec fn gwire_plain(w: Seq<char>) -> Seq<u8>;

/// The group session a serialized group message cryptographically belongs
/// to, as that session's id.
pub uninterp spec fn gwire_sid(w: Seq<char>) -> Seq<char>;

/// The ratchet index at which a serialized group message was produced.
pub uninterp spec fn gwire_index(w: Seq<char>) -> nat;

/// Whether a string is a well-formed group message that its session really
/// produced (parseable, signed and MAC-ed by the session's keys).
pub uninterp spec fn gwire_genuine(w: Seq<char>) -> bool;

/// The session id that a base64-exported group session key carries.
pub uninterp spec fn gkey_sid(k: Seq<char>) -> Seq<char>;

/// The ratchet index at which a group session key was exported; an inbound
/// session built from it decrypts nothing earlier.
pub uninterp spec fn gkey_first(k: Seq<char>) -> nat;

/// Whether a string is an exported group session key that imports.  Keys
/// exported by an outbound session qualify.
pub uninterp spec fn valid_group_key_b64(k: Seq<char>) -> bool;

/// Whether a string is an outbound group-session pickle that restores.
pub uninterp spec fn valid_group_pickle(p: Seq<char>) -> bool;

/// Whether a string is an inbound group-session pickle that restores.
pub uninterp spec fn valid_inbound_group_pickle(p: Seq<char>) -> bool;

/// The id of an outbound group session.
pub uninterp spec fn ogs_sid(s: vodozemac::megolm::GroupSession) -> Seq<char>;

/// The current ratchet index of an outbound group session.
pub uninterp spec fn ogs_index(s: vodozemac::megolm::GroupSession) -> nat;

/// The pickled (serde-JSON) form of an outbound group session.
pub uninterp spec fn ogs_pickle_of(s: vodozemac::megolm::GroupSession) -> Seq<char>;

/// The id of an inbound group session.
pub uninterp spec fn igs_sid(s: vodozemac::megolm::InboundGroupSession) -> Seq<char>;

/// The first ratchet index an inbound group session knows; it never
/// regresses below it.
pub uninterp spec fn igs_first(s: vodozemac::megolm::InboundGroupSession) -> nat;

/// The pickled (serde-JSON) form of an inbound group session.
pub uninterp spec fn igs_pickle_of(s: vodozemac::megolm::InboundGroupSession) -> Seq<char>;

// ── Outbound session wrappers ──────────────────────────────────

/// Relies on vodozemac::megolm::GroupSession::new: a fresh outbound session
/// starts at ratchet index zero.
#[verifier::external_body]
pub fn group_session_new() -> (r: vodozemac::megolm::GroupSession)
    ensures
        ogs_index(r) == 0,
{
    vodozemac::megolm::GroupSession::new(vodozemac::megolm::SessionConfig::default())
}

/// Relies on GroupSession::session_id: the session's globally unique id.
#[verifier::external_body]
pub fn group_session_id(s: &vodozemac::megolm::GroupSession) -> (r: String)
    ensures
        r@ == ogs_sid(*s),
{
    s.session_id()
}

/// Relies on GroupSession::session_key and SessionKey::to_base64: the
/// exported key carries the session's id and its current ratchet index.
#[verifier::external_body]
pub fn group_session_key_b64(s: &vodozemac::megolm::GroupSession) -> (r: String)
    ensures
        gkey_sid(r@) == ogs_sid(*s),
        gkey_first(r@) == ogs_index(*s),
        valid_group_key_b64(r@),
{
    s.session_key().to_base64()
}

/// Relies on GroupSession::encrypt and MegolmMessage::to_base64: the
/// message encrypts exactly the given plaintext at the current index under
/// this session, and the ratchet advances by one.
#[verifier::external_body]
pub fn group_session_encrypt(s: &mut vodozemac::megolm::GroupSession, plaintext: &[u8]) -> (r: (
    String,
    u32,
))
    requires
        ogs_index(*old(s)) < 0xffff_ffff,
    ensures
        gwire_plain(r.0@) == plaintext@,
        gwire_sid(r.0@) == ogs_sid(*old(s)),
        gwire_index(r.0@) == ogs_index(*old(s)),
        gwire_genuine(r.0@),
        r.1 == ogs_index(*old(s)),
        ogs_sid(*final(s)) == ogs_sid(*old(s)),
        ogs_index(*final(s)) == ogs_index(*old(s)) + 1,
{
    let message = s.encrypt(plaintext);
    let index = message.message_index();
    (message.to_base64(), index)
}

/// Relies on GroupSession::message_index: the current ratchet index.
#[verifier::external_body]
pub fn group_session_message_index(s: &vodozemac::megolm::GroupSession) -> (r: u32)
    ensures
        r == ogs_index(*s),
{
    s.message_index()
}

/// Relies on GroupSession::pickle and serde_json::to_string: pickling the
/// plain ratchet struct cannot fail, the dump restores, and the state is
/// structurally bounded far below the stated length.
#[verifier::external_body]
pub fn group_session_pickle_json(s: &vodozemac::megolm::GroupSession) -> (r: Result<
    String,
    ArchivistError,
>)
    ensures
        r is Ok,
        r->Ok_0@ == ogs_pickle_of(*s),
        valid_group_pickle(r->Ok_0@),
        vstd::utf8::encode_utf8(r->Ok_0@).len() < 0x1_0000_0000,
{
    serde_json::to_string(&s.pickle())
        .map_err(|e| ArchivistError::CryptoError(format!("Group session pickle serialize: {}", e)))
}

/// Relies on serde_json::from_str and GroupSession::from_pickle: a pickle
/// that restores yields a session.
#[verifier::external_body]
pub fn group_session_from_pickle_json(pickle: &str) -> (r: Result<
    vodozemac::megolm::GroupSession,
    ArchivistError,
>)
    ensures
        valid_group_pickle(pickle@) ==> r is Ok,
        r is Err ==> r->Err_0 is CryptoError,
{
    let parsed: vodozemac::megolm::GroupSessionPickle = serde_json::from_str(pickle)
        .map_err(|e| ArchivistError::CryptoError(format!("Group session pickle JSON: {}", e)))?;
    Ok(vodozemac::megolm::GroupSession::from_pickle(parsed))
}

// ── Inbound session wrappers ───────────────────────────────────

/// Relies on SessionKey::from_base64 and InboundGroupSession::new: the new
/// inbound session carries the exported key's session id and starts at the
/// index the key was exported at.
#[verifier::external_body]
pub fn inbound_group_session_new(session_key_b64: &str) -> (r: Result<
    vodozemac::megolm::InboundGroupSession,
    ArchivistError,
>)
    ensures
        valid_group_key_b64(session_key_b64@) ==> r is Ok,
        r is Ok ==> igs_sid(r->Ok_0) == gkey_sid(session_key_b64@) && igs_first(r->Ok_0)
            == gkey_first(session_key_b64@),
        r is Err ==> r->Err_0 is CryptoError,
{
    let key = vodozemac::megolm::SessionKey::from_base64(session_key_b64)
        .map_err(|e| ArchivistError::CryptoError(format!("Parse Megolm session key: {}", e)))?;
    Ok(
        vodozemac::megolm::InboundGroupSession::new(
            &key,
            vodozemac::megolm::SessionConfig::default(),
        ),
    )
}

/// Relies on MegolmMessage::from_base64 and InboundGroupSession::decrypt: a
/// successful decrypt yields the message's plaintext and index and proves
/// the message belongs to this session; a genuine message of this session
/// at a known index decrypts; a message of another session is rejected by
/// its signature.  The session's id and first known index do not change.
#[verifier::external_body]
pub fn inbound_group_session_decrypt(
    s: &mut vodozemac::megolm::InboundGroupSession,
    ciphertext_b64: &str,
) -> (r: Result<(Vec<u8>, u32), ArchivistError>)
    ensures
        igs_sid(*final(s)) == igs_sid(*old(s)),
        igs_first(*final(s)) == igs_first(*old(s)),
        r is Ok ==> {
            &&& r->Ok_0.0@ == gwire_plain(ciphertext_b64@)
            &&& r->Ok_0.1 == gwire_index(ciphertext_b64@)
            &&& gwire_sid(ciphertext_b64@) == igs_sid(*old(s))
            &&& gwire_index(ciphertext_b64@) >= igs_first(*old(s))
        },
        (gwire_genuine(ciphertext_b64@) && gwire_sid(ciphertext_b64@) == igs_sid(*old(s))
            && gwire_index(ciphertext_b64@) >= igs_first(*old(s))) ==> r is Ok,
        gwire_sid(ciphertext_b64@) != igs_sid(*old(s)) ==> r is Err,
        r is Err ==> r->Err_0 is CryptoError,
{
    let message = vodozemac::megolm::MegolmMessage::from_base64(ciphertext_b64)
        .map_err(|e| ArchivistError::CryptoError(format!("Parse Megolm message: {}", e)))?;
    let decrypted = s
        .decrypt(&message)
        .map_err(|e| ArchivistError::CryptoError(format!("Megolm decrypt: {}", e)))?;
    Ok((decrypted.plaintext, decrypted.message_index))
}

/// Relies on InboundGroupSession::pickle and serde_json::to_string:
/// pickling the plain ratchet struct cannot fail, the dump restores, and
/// the state is structurally bounded far below the stated length.
#[verifier::external_body]
pub fn inbound_group_session_pickle_json(s: &vodozemac::megolm::InboundGroupSession) -> (r: Result<
    String,
    ArchivistError,
>)
    ensures
        r is Ok,
        r->Ok_0@ == igs_pickle_of(*s),
        valid_inbound_group_pickle(r->Ok_0@),
        vstd::utf8::encode_utf8(r->Ok_0@).len() < 0x1_0000_0000,
{
    serde_json::to_string(&s.pickle())
        .map_err(|e| ArchivistError::CryptoError(format!("Inbound group pickle serialize: {}", e)))
}

/// Relies on serde_json::from_str and InboundGroupSession::from_pickle: a
/// pickle that restores yields a session.
#[verifier::external_body]
pub fn inbound_group_session_from_pickle_json(pickle: &str) -> (r: Result<
    vodozemac::megolm::InboundGroupSession,
    ArchivistError,
>)
    ensures
        valid_inbound_group_pickle(pickle@) ==> r is Ok,
        r is Err ==> r->Err_0 is CryptoError,
{
    let parsed: vodozemac::megolm::InboundGroupSessionPickle = serde_json::from_str(pickle)
        .map_err(|e| ArchivistError::CryptoError(format!("Inbound group pickle JSON: {}", e)))?;
    Ok(vodozemac::megolm::InboundGroupSession::from_pickle(parsed))
}

} // verus!
