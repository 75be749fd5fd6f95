use vstd::prelude::*;
use crate::error::ArchivistError;

verus! {

/// Relies on String::from_utf8: it succeeds exactly on valid UTF-8 and the
/// returned string keeps those very bytes.
#[verifier::external_body]
pub fn string_from_utf8(bytes: Vec<u8>) -> (r: Result<String, ArchivistError>)
    ensures
        r is Ok <==> vstd::utf8::valid_utf8(bytes@),
        r is Ok ==> vstd::utf8::encode_utf8(r->Ok_0@) == bytes@,
        r is Err ==> r->Err_0 is CryptoError,
{
    String::from_utf8(bytes).map_err(|e| ArchivistError::CryptoError(format!("UTF-8: {}", e)))
}

/// Relies on str's PartialEq: two string slices are equal exactly when their
/// character sequences are.
#[verifier::external_body]
pub fn str_eq(a: &str, b: &str) -> (r: bool)
    ensures
        r == (a@ == b@),
{
    a == b
}

/// Lexicographic order on character sequences, the order `str` comparison
/// uses (code-point wise).
pub open spec fn lex_le_chars(a: Seq<char>, b: Seq<char>) -> bool
    decreases a.len(),
{
    if a.len() == 0 {
        true
    } else if b.len() == 0 {
        false
    } else if a[0] != b[0] {
        a[0] < b[0]
    } else {
        lex_le_chars(a.drop_first(), b.drop_first())
    }
}

/// The order is total: of any two sequences, one is less or equal.
pub proof fn lemma_lex_chars_total(a: Seq<char>, b: Seq<char>)
    ensures
        lex_le_chars(a, b) || lex_le_chars(b, a),
    decreases a.len(),
{
    if a.len() == 0 || b.len() == 0 {
    } else if a[0] == b[0] {
        lemma_lex_chars_total(a.drop_first(), b.drop_first());
    }
}

/// The order is transitive.
pub proof fn lemma_lex_chars_transitive(a: Seq<char>, b: Seq<char>, c: Seq<char>)
    requires
        lex_le_chars(a, b),
        lex_le_chars(b, c),
    ensures
        lex_le_chars(a, c),
    decreases a.len(),
{
    if a.len() == 0 || b.len() == 0 || c.len() == 0 {
    } else if a[0] == b[0] && b[0] == c[0] {
        lemma_lex_chars_transitive(a.drop_first(), b.drop_first(), c.drop_first());
    }
}

/// Character-wise lexicographic comparison of two strings.
pub fn str_le(a: &str, b: &str) -> (r: bool)
    ensures
        r == lex_le_chars(a@, b@),
{
    let an = a.unicode_len();
    let bn = b.unicode_len();
    let mut i: usize = 0;
    proof {
        assert(a@.skip(0) =~= a@);
        assert(b@.skip(0) =~= b@);
    }
    loop
        invariant
            i <= an,
            i <= bn,
            an == a@.len(),
            bn == b@.len(),
            a@.subrange(0, i as int) =~= b@.subrange(0, i as int),
            lex_le_chars(a@, b@) == lex_le_chars(a@.skip(i as int), b@.skip(i as int)),
            lex_le_chars(b@, a@) == lex_le_chars(b@.skip(i as int), a@.skip(i as int)),
        decreases an - i,
    {
        if i >= an {
            return true;
        }
        if i >= bn {
            return false;
        }
        let x = a.get_char(i);
        let y = b.get_char(i);
        if x != y {
            return x < y;
        }
        proof {
            assert(a@.skip(i as int).drop_first() =~= a@.skip(i + 1));
            assert(b@.skip(i as int).drop_first() =~= b@.skip(i + 1));
            assert(a@.subrange(0, i + 1) =~= b@.subrange(0, i + 1));
        }
        i = i + 1;
    }
}

} // verus!
