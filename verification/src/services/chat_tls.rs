use vstd::prelude::*;
use vstd::string::StrSliceExecFns;
use vstd::string::StringExecFns;
use crate::error::ArchivistError;
use crate::crypto::digest::{sha256, sha256_of};

verus! {

/// TLS identity of the local transport endpoint: a self-signed certificate,
/// its private key, and the certificate's fingerprint, which the peers pin.
#[derive(Debug, Clone)]
pub struct TlsIdentity {
    pub cert_pem: String,
    pub key_pem: String,
    /// SHA-256 of the DER-encoded certificate, upper-case hex pairs
    /// separated by colons.
    pub fingerprint: String,
}

/// The DER bytes of the first certificate in a PEM bundle; a function of
/// the text alone.
pub uninterp spec fn pem_der_of(pem: Seq<char>) -> Seq<u8>;

/// Relies on rustls_pemfile::certs: decode the first certificate of a PEM
/// bundle to its DER bytes.
#[verifier::external_body]
fn pem_first_cert_der(pem: &str) -> (r: Result<Vec<u8>, ArchivistError>)
    ensures
        r is Ok ==> r->Ok_0@ == pem_der_of(pem@),
        r is Err ==> r->Err_0 is TlsError,
{
    let mut cursor = std::io::Cursor::new(pem.as_bytes());
    let certs = rustls_pemfile::certs(&mut cursor)
        .collect::<std::result::Result<Vec<_>, _>>()
        .map_err(|e| ArchivistError::TlsError(format!("Parse PEM: {}", e)))?;
    certs
        .into_iter()
        .next()
        .map(|c| c.to_vec())
        .ok_or_else(|| ArchivistError::TlsError("No certificate in PEM".to_string()))
}

/// Whether a year is a leap year of the Gregorian calendar.
pub open spec fn leap_year(y: int) -> bool {
    (y % 4 == 0 && y % 100 != 0) || y % 400 == 0
}

/// How many days the month of a year has.
pub open spec fn days_in_month(y: int, m: int) -> int {
    if m == 4 || m == 6 || m == 9 || m == 11 {
        30
    } else if m == 2 {
        if leap_year(y) {
            29
        } else {
            28
        }
    } else {
        31
    }
}

/// A calendar date rcgen's date constructor accepts without panicking.
pub open spec fn valid_ymd(date: (i32, u8, u8)) -> bool {
    &&& -9999 <= date.0 <= 9999
    &&& 1 <= date.1 <= 12
    &&& 1 <= date.2 <= days_in_month(date.0 as int, date.1 as int)
}

/// Relies on rcgen (KeyPair::generate_for with PKCS_ED25519,
/// CertificateParams, self_signed): generate an Ed25519 key pair and a
/// certificate for the given subject, DNS names and validity dates.
/// Returns the certificate PEM, the key PEM and the certificate DER; the
/// PEM is the textual encoding of that very DER.  rcgen's date constructor
/// panics on an invalid calendar date, so the dates are constrained.
#[verifier::external_body]
fn rcgen_self_signed(
    common_name: &str,
    dns_names: Vec<String>,
    not_before: (i32, u8, u8),
    not_after: (i32, u8, u8),
) -> (r: Result<(String, String, Vec<u8>), ArchivistError>)
    requires
        valid_ymd(not_before),
        valid_ymd(not_after),
    ensures
        r is Ok ==> pem_der_of(r->Ok_0.0@) == r->Ok_0.2@,
        r is Err ==> r->Err_0 is TlsError,
{
    let key_pair = rcgen::KeyPair::generate_for(&rcgen::PKCS_ED25519)
        .map_err(|e| ArchivistError::TlsError(format!("Generate key pair: {}", e)))?;
    let mut params = rcgen::CertificateParams::new(dns_names)
        .map_err(|e| ArchivistError::TlsError(format!("Cert params: {}", e)))?;
    params.distinguished_name.push(
        rcgen::DnType::CommonName,
        rcgen::DnValue::Utf8String(common_name.to_string()),
    );
    params.not_before = rcgen::date_time_ymd(not_before.0, not_before.1, not_before.2);
    params.not_after = rcgen::date_time_ymd(not_after.0, not_after.1, not_after.2);
    let cert = params
        .self_signed(&key_pair)
        .map_err(|e| ArchivistError::TlsError(format!("Self-sign cert: {}", e)))?;
    Ok((cert.pem(), key_pair.serialize_pem(), cert.der().to_vec()))
}

// ── Fingerprint formatting ─────────────────────────────────────

pub open spec fn hex_digit_char(d: int) -> char {
    if d == 0 { '0' }
    else if d == 1 { '1' }
    else if d == 2 { '2' }
    else if d == 3 { '3' }
    else if d == 4 { '4' }
    else if d == 5 { '5' }
    else if d == 6 { '6' }
    else if d == 7 { '7' }
    else if d == 8 { '8' }
    else if d == 9 { '9' }
    else if d == 10 { 'A' }
    else if d == 11 { 'B' }
    else if d == 12 { 'C' }
    else if d == 13 { 'D' }
    else if d == 14 { 'E' }
    else { 'F' }
}

/// The first `k` digest bytes as colon-separated upper-case hex pairs.
pub open spec fn fp_text(h: Seq<u8>, k: int) -> Seq<char>
    decreases k,
{
    if k <= 0 {
        Seq::empty()
    } else if k == 1 {
        seq![hex_digit_char(h[0] as int / 16), hex_digit_char(h[0] as int % 16)]
    } else {
        fp_text(h, k - 1) + seq![':'] + seq![
            hex_digit_char(h[k - 1] as int / 16),
            hex_digit_char(h[k - 1] as int % 16),
        ]
    }
}

/// The displayed fingerprint of a DER-encoded certificate.
pub open spec fn fingerprint_spec(der: Seq<u8>) -> Seq<char> {
    fp_text(sha256_of(der), 32)
}

fn push_hex_digit(s: &mut String, d: u8)
    requires
        d < 16,
    ensures
        final(s)@ == old(s)@ + seq![hex_digit_char(d as int)],
{
    if d == 0 {
        proof { reveal_strlit("0"); }
        s.append("0");
        assert(final(s)@ =~= old(s)@ + seq!['0']);
    } else if d == 1 {
        proof { reveal_strlit("1"); }
        s.append("1");
        assert(final(s)@ =~= old(s)@ + seq!['1']);
    } else if d == 2 {
        proof { reveal_strlit("2"); }
        s.append("2");
        assert(final(s)@ =~= old(s)@ + seq!['2']);
    } else if d == 3 {
        proof { reveal_strlit("3"); }
        s.append("3");
        assert(final(s)@ =~= old(s)@ + seq!['3']);
    } else if d == 4 {
        proof { reveal_strlit("4"); }
        s.append("4");
        assert(final(s)@ =~= old(s)@ + seq!['4']);
    } else if d == 5 {
        proof { reveal_strlit("5"); }
        s.append("5");
        assert(final(s)@ =~= old(s)@ + seq!['5']);
    } else if d == 6 {
        proof { reveal_strlit("6"); }
        s.append("6");
        assert(final(s)@ =~= old(s)@ + seq!['6']);
    } else if d == 7 {
        proof { reveal_strlit("7"); }
        s.append("7");
        assert(final(s)@ =~= old(s)@ + seq!['7']);
    } else if d == 8 {
        proof { reveal_strlit("8"); }
        s.append("8");
        assert(final(s)@ =~= old(s)@ + seq!['8']);
    } else if d == 9 {
        proof { reveal_strlit("9"); }
        s.append("9");
        assert(final(s)@ =~= old(s)@ + seq!['9']);
    } else if d == 10 {
        proof { reveal_strlit("A"); }
        s.append("A");
        assert(final(s)@ =~= old(s)@ + seq!['A']);
    } else if d == 11 {
        proof { reveal_strlit("B"); }
        s.append("B");
        assert(final(s)@ =~= old(s)@ + seq!['B']);
    } else if d == 12 {
        proof { reveal_strlit("C"); }
        s.append("C");
        assert(final(s)@ =~= old(s)@ + seq!['C']);
    } else if d == 13 {
        proof { reveal_strlit("D"); }
        s.append("D");
        assert(final(s)@ =~= old(s)@ + seq!['D']);
    } else if d == 14 {
        proof { reveal_strlit("E"); }
        s.append("E");
        assert(final(s)@ =~= old(s)@ + seq!['E']);
    } else {
        proof { reveal_strlit("F"); }
        s.append("F");
        assert(final(s)@ =~= old(s)@ + seq!['F']);
    }
}

/// The fingerprint of a DER-encoded certificate, as it is pinned and
/// displayed.
pub fn fingerprint_from_der(der: &[u8]) -> (r: String)
    ensures
        r@ == fingerprint_spec(der@),
{
    let hash = sha256(der);
    let ghost h = hash@;
    let mut out = String::new();
    let mut i: usize = 0;
    while i < 32
        invariant
            i <= 32,
            h == sha256_of(der@),
            h.len() == 32,
            hash@ == h,
            out@ =~= fp_text(h, i as int),
        decreases 32 - i,
    {
        if i > 0 {
            proof { reveal_strlit(":"); }
            out.append(":");
            assert(out@ =~= fp_text(h, i as int) + seq![':']);
        }
        let b = hash[i];
        push_hex_digit(&mut out, b / 16);
        push_hex_digit(&mut out, b % 16);
        proof {
            if i == 0 {
                assert(out@ =~= fp_text(h, 1));
            } else {
                assert(out@ =~= fp_text(h, i as int) + seq![':'] + seq![
                    hex_digit_char(h[i as int] as int / 16),
                    hex_digit_char(h[i as int] as int % 16),
                ]);
                assert(out@ =~= fp_text(h, i + 1));
            }
        }
        i = i + 1;
    }
    out
}

/// Generate a self-signed Ed25519 TLS certificate for the chat endpoint,
/// valid for ten years, with the subject derived from a short prefix of
/// the peer id.
pub fn generate_self_signed_cert(peer_id: &str) -> (r: Result<TlsIdentity, ArchivistError>)
    ensures
        r is Ok ==> r->Ok_0.fingerprint@ == fingerprint_spec(pem_der_of(r->Ok_0.cert_pem@)),
        r is Err ==> r->Err_0 is TlsError,
{
    let n = peer_id.unicode_len();
    let take = if n < 8 {
        n
    } else {
        8
    };
    let prefix = peer_id.substring_char(0, take);
    proof {
        reveal_strlit("archivist-chat-");
    }
    let mut common_name = String::from_str("archivist-chat-");
    common_name.append(prefix);
    let mut dns_names: Vec<String> = Vec::new();
    dns_names.push(String::from_str("localhost"));
    dns_names.push(String::from_str("0.0.0.0"));
    let (cert_pem, key_pem, der) = rcgen_self_signed(
        common_name.as_str(),
        dns_names,
        (2024, 1, 1),
        (2034, 1, 1),
    )?;
    let fingerprint = fingerprint_from_der(der.as_slice());
    proof {
        assert(fingerprint@ == fingerprint_spec(der@));
    }
    Ok(TlsIdentity { cert_pem, key_pem, fingerprint })
}

/// Rebuild a TLS identity from certificate and key PEM text read back from
/// storage, recomputing the fingerprint from the stored certificate.
pub fn tls_identity_from_pems(cert_pem: String, key_pem: String) -> (r: Result<
    TlsIdentity,
    ArchivistError,
>)
    ensures
        r is Ok ==> {
            &&& r->Ok_0.cert_pem@ == cert_pem@
            &&& r->Ok_0.key_pem@ == key_pem@
            &&& r->Ok_0.fingerprint@ == fingerprint_spec(pem_der_of(cert_pem@))
        },
        r is Err ==> r->Err_0 is TlsError,
{
    let der = pem_first_cert_der(cert_pem.as_str())?;
    let fingerprint = fingerprint_from_der(der.as_slice());
    Ok(TlsIdentity { cert_pem, key_pem, fingerprint })
}

} // verus!
