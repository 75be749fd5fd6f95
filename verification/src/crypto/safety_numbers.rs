use vstd::prelude::*;
use crate::crypto::digest::{sha256, sha256_of};
use vstd::utf8::encode_utf8;
use vstd::string::StrSliceExecFns;
use vstd::string::StringExecFns;

verus! {

// ── Specification of the safety number ─────────────────────────

/// Byte-wise lexicographic order, the order `str` comparison uses.
pub open spec fn lex_le_bytes(a: Seq<u8>, b: Seq<u8>) -> bool
    decreases a.len(),
{
    if a.len() == 0 {
        true
    } else if b.len() == 0 {
        false
    } else if a[0] < b[0] {
        true
    } else if a[0] > b[0] {
        false
    } else {
        lex_le_bytes(a.drop_first(), b.drop_first())
    }
}

/// The bytes that are hashed: the two keys' UTF-8 bytes, smaller key first.
pub open spec fn sn_input(a: Seq<char>, b: Seq<char>) -> Seq<u8> {
    let ea = encode_utf8(a);
    let eb = encode_utf8(b);
    if lex_le_bytes(ea, eb) {
        ea + eb
    } else {
        eb + ea
    }
}

pub open spec fn dec_digit_char(d: int) -> char {
    if d == 0 { '0' }
    else if d == 1 { '1' }
    else if d == 2 { '2' }
    else if d == 3 { '3' }
    else if d == 4 { '4' }
    else if d == 5 { '5' }
    else if d == 6 { '6' }
    else if d == 7 { '7' }
    else if d == 8 { '8' }
    else { '9' }
}

/// Five decimal digits of `n`, most significant first, zero-padded.
pub open spec fn five_digits(n: int) -> Seq<char> {
    seq![
        dec_digit_char(n / 10000 % 10),
        dec_digit_char(n / 1000 % 10),
        dec_digit_char(n / 100 % 10),
        dec_digit_char(n / 10 % 10),
        dec_digit_char(n % 10),
    ]
}

/// The value of the i-th 16-bit big-endian chunk of the digest.
pub open spec fn chunk_value(h: Seq<u8>, i: int) -> int {
    h[2 * i] * 256 + h[2 * i + 1]
}

/// The i-th digit group: the chunk rescaled from [0, 65536) into [0, 100000).
pub open spec fn sn_group(h: Seq<u8>, i: int) -> Seq<char> {
    five_digits(chunk_value(h, i) * 100000 / 65536)
}

/// The first `k` digit groups, separated by single spaces.
pub open spec fn sn_text(h: Seq<u8>, k: int) -> Seq<char>
    decreases k,
{
    if k <= 0 {
        Seq::empty()
    } else if k == 1 {
        sn_group(h, 0)
    } else {
        sn_text(h, k - 1) + seq![' '] + sn_group(h, k - 1)
    }
}

/// The safety number of two identity keys: twelve groups of five decimal
/// digits taken from the SHA-256 digest of the sorted key pair.
pub open spec fn safety_number_spec(a: Seq<char>, b: Seq<char>) -> Seq<char> {
    sn_text(sha256_of(sn_input(a, b)), 12)
}

pub open spec fn is_dec_digit(c: char) -> bool {
    c == '0' || c == '1' || c == '2' || c == '3' || c == '4' || c == '5' || c == '6' || c == '7'
        || c == '8' || c == '9'
}

/// Shape of a displayed safety number: 71 characters, a space at every
/// sixth position and decimal digits everywhere else, i.e. twelve groups
/// of five digits.
pub open spec fn sn_wellformed(s: Seq<char>) -> bool {
    &&& s.len() == 71
    &&& forall|i: int| 0 <= i < 71 ==> (if i % 6 == 5 { s[i] == ' ' } else { is_dec_digit(s[i]) })
}

// ── Order lemmas ───────────────────────────────────────────────

pub proof fn lemma_lex_total(a: Seq<u8>, b: Seq<u8>)
    ensures
        lex_le_bytes(a, b) || lex_le_bytes(b, a),
    decreases a.len(),
{
    if a.len() == 0 || b.len() == 0 {
    } else if a[0] == b[0] {
        lemma_lex_total(a.drop_first(), b.drop_first());
    }
}

pub proof fn lemma_lex_antisymmetric(a: Seq<u8>, b: Seq<u8>)
    requires
        lex_le_bytes(a, b),
        lex_le_bytes(b, a),
    ensures
        a == b,
    decreases a.len(),
{
    if a.len() == 0 {
        assert(b.len() == 0);
        assert(a =~= b);
    } else {
        assert(b.len() > 0);
        assert(a[0] == b[0]);
        lemma_lex_antisymmetric(a.drop_first(), b.drop_first());
        assert(a =~= seq![a[0]] + a.drop_first());
        assert(b =~= seq![b[0]] + b.drop_first());
    }
}

/// The safety number does not depend on the order of the two keys:
/// `compute(A, B)` and `compute(B, A)` are one and the same string.
pub proof fn lemma_safety_number_symmetric(a: Seq<char>, b: Seq<char>)
    ensures
        safety_number_spec(a, b) == safety_number_spec(b, a),
{
    let ea = encode_utf8(a);
    let eb = encode_utf8(b);
    lemma_lex_total(ea, eb);
    if lex_le_bytes(ea, eb) && lex_le_bytes(eb, ea) {
        lemma_lex_antisymmetric(ea, eb);
    }
    assert(sn_input(a, b) == sn_input(b, a));
}

// ── Executable code ────────────────────────────────────────────

/// Byte-wise lexicographic comparison of two byte vectors.
fn bytes_le(a: &Vec<u8>, b: &Vec<u8>) -> (r: bool)
    ensures
        r == lex_le_bytes(a@, b@),
{
    let mut i: usize = 0;
    proof {
        assert(a@.skip(0) =~= a@);
        assert(b@.skip(0) =~= b@);
    }
    loop
        invariant
            i <= a.len(),
            i <= b.len(),
            a@.subrange(0, i as int) =~= b@.subrange(0, i as int),
            lex_le_bytes(a@, b@) == lex_le_bytes(a@.skip(i as int), b@.skip(i as int)),
            lex_le_bytes(b@, a@) == lex_le_bytes(b@.skip(i as int), a@.skip(i as int)),
        decreases a.len() - i,
    {
        if i >= a.len() {
            return true;
        }
        if i >= b.len() {
            return false;
        }
        let x = a[i];
        let y = b[i];
        if x < y {
            return true;
        }
        if x > y {
            return false;
        }
        proof {
            assert(a@.skip(i as int).drop_first() =~= a@.skip(i + 1));
            assert(b@.skip(i as int).drop_first() =~= b@.skip(i + 1));
            assert(a@.subrange(0, i + 1) =~= b@.subrange(0, i + 1));
        }
        i = i + 1;
    }
}

/// Append one decimal digit character to `s`.
fn push_digit(s: &mut String, d: u64)
    requires
        d < 10,
    ensures
        final(s)@ == old(s)@ + seq![dec_digit_char(d as int)],
{
    if d == 0 {
        proof { reveal_strlit("0"); }
        s.append("0");
        assert(final(s)@ =~= old(s)@ + seq!['0']);
    } else if d == 1 {
        proof { reveal_strlit("1"); }
        s.append("1");
        assert(final(s)@ =~= old(s)@ + seq!['1']);
    } else if d == 2 {
        proof { reveal_strlit("2"); }
        s.append("2");
        assert(final(s)@ =~= old(s)@ + seq!['2']);
    } else if d == 3 {
        proof { reveal_strlit("3"); }
        s.append("3");
        assert(final(s)@ =~= old(s)@ + seq!['3']);
    } else if d == 4 {
        proof { reveal_strlit("4"); }
        s.append("4");
        assert(final(s)@ =~= old(s)@ + seq!['4']);
    } else if d == 5 {
        proof { reveal_strlit("5"); }
        s.append("5");
        assert(final(s)@ =~= old(s)@ + seq!['5']);
    } else if d == 6 {
        proof { reveal_strlit("6"); }
        s.append("6");
        assert(final(s)@ =~= old(s)@ + seq!['6']);
    } else if d == 7 {
        proof { reveal_strlit("7"); }
        s.append("7");
        assert(final(s)@ =~= old(s)@ + seq!['7']);
    } else if d == 8 {
        proof { reveal_strlit("8"); }
        s.append("8");
        assert(final(s)@ =~= old(s)@ + seq!['8']);
    } else {
        proof { reveal_strlit("9"); }
        s.append("9");
        assert(final(s)@ =~= old(s)@ + seq!['9']);
    }
}

/// Append the five zero-padded decimal digits of `n` to `s`.
fn push_group(s: &mut String, n: u64)
    requires
        n < 100000,
    ensures
        final(s)@ == old(s)@ + five_digits(n as int),
{
    push_digit(s, n / 10000 % 10);
    push_digit(s, n / 1000 % 10);
    push_digit(s, n / 100 % 10);
    push_digit(s, n / 10 % 10);
    push_digit(s, n % 10);
    assert(final(s)@ =~= old(s)@ + five_digits(n as int));
}

/// Compute a 60-digit safety number from two identity keys.
///
/// The keys are sorted before hashing, so the result is deterministic and
/// symmetric: compute(A, B) == compute(B, A).  It is displayed as 12 groups
/// of 5 decimal digits.
pub fn compute_safety_number(our_identity_key: &str, their_identity_key: &str) -> (r: String)
    ensures
        r@ == safety_number_spec(our_identity_key@, their_identity_key@),
        sn_wellformed(r@),
{
    let a = our_identity_key.as_bytes_vec();
    let b = their_identity_key.as_bytes_vec();
    let le = bytes_le(&a, &b);
    let mut input: Vec<u8> = Vec::new();
    let (first, second) = if le { (a, b) } else { (b, a) };
    let mut j: usize = 0;
    while j < first.len()
        invariant
            j <= first.len(),
            input@ =~= first@.subrange(0, j as int),
        decreases first.len() - j,
    {
        input.push(first[j]);
        j = j + 1;
    }
    let mut k: usize = 0;
    while k < second.len()
        invariant
            k <= second.len(),
            input@ =~= first@ + second@.subrange(0, k as int),
        decreases second.len() - k,
    {
        input.push(second[k]);
        k = k + 1;
    }
    assert(input@ =~= first@ + second@);
    assert(input@ == sn_input(our_identity_key@, their_identity_key@));

    let hash = sha256(input.as_slice());
    let ghost h = hash@;

    let mut out = String::new();
    let mut i: usize = 0;
    while i < 12
        invariant
            i <= 12,
            h == sha256_of(sn_input(our_identity_key@, their_identity_key@)),
            h.len() == 32,
            hash@ == h,
            out@ =~= sn_text(h, i as int),
            sn_prefix_wellformed(out@, i as int),
        decreases 12 - i,
    {
        if i > 0 {
            proof { reveal_strlit(" "); }
            out.append(" ");
            assert(out@ =~= sn_text(h, i as int) + seq![' ']);
        }
        let hi = hash[2 * i];
        let lo = hash[2 * i + 1];
        let val: u64 = (hi as u64) * 256 + (lo as u64);
        let num: u64 = val * 100000 / 65536;
        assert(num < 100000) by (nonlinear_arith)
            requires val < 65536 && num == val * 100000 / 65536;
        assert(num == chunk_value(h, i as int) * 100000 / 65536);
        push_group(&mut out, num);
        proof {
            lemma_sn_prefix_step(h, i as int, out@);
        }
        i = i + 1;
    }
    assert(out@ == safety_number_spec(our_identity_key@, their_identity_key@));
    out
}

/// Shape of the first `k` groups of a safety number under construction.
pub open spec fn sn_prefix_wellformed(s: Seq<char>, k: int) -> bool {
    &&& s.len() == (if k <= 0 { 0int } else { 6 * k - 1 })
    &&& forall|i: int|
        0 <= i < s.len() ==> (if i % 6 == 5 {
            s[i] == ' '
        } else {
            is_dec_digit(s[i])
        })
}

proof fn lemma_sn_prefix_step(h: Seq<u8>, i: int, s: Seq<char>)
    requires
        0 <= i < 12,
        s == if i == 0 { sn_group(h, 0) } else { sn_text(h, i) + seq![' '] + sn_group(h, i) },
        sn_prefix_wellformed(if i == 0 { Seq::<char>::empty() } else { sn_text(h, i) }, i),
    ensures
        s == sn_text(h, i + 1),
        sn_prefix_wellformed(s, i + 1),
{
    if i == 0 {
        assert(s == sn_text(h, 1));
    } else {
        assert(sn_text(h, i + 1) == sn_text(h, i) + seq![' '] + sn_group(h, i));
    }
    let g = sn_group(h, i);
    assert(g.len() == 5);
    assert forall|j: int| 0 <= j < 5 implies is_dec_digit(g[j]) by {
        let n = chunk_value(h, i) * 100000 / 65536;
        assert(is_dec_digit(dec_digit_char(n / 10000 % 10)));
        assert(is_dec_digit(dec_digit_char(n / 1000 % 10)));
        assert(is_dec_digit(dec_digit_char(n / 100 % 10)));
        assert(is_dec_digit(dec_digit_char(n / 10 % 10)));
        assert(is_dec_digit(dec_digit_char(n % 10)));
    }
    assert(sn_prefix_wellformed(s, i + 1));
}

// ── Display helpers ────────────────────────────────────────────

pub open spec fn is_ws(c: char) -> bool {
    c == ' ' || c == '\t' || c == '\n' || c == '\r'
}

/// The longest whitespace-free prefix.
pub open spec fn take_word(s: Seq<char>) -> Seq<char>
    decreases s.len(),
{
    if s.len() == 0 || is_ws(s[0]) {
        Seq::empty()
    } else {
        seq![s[0]] + take_word(s.drop_first())
    }
}

/// The whitespace-separated words of `s`, in order, without empty words.
pub open spec fn split_ws(s: Seq<char>) -> Seq<Seq<char>>
    decreases s.len(),
{
    if s.len() == 0 {
        Seq::empty()
    } else if is_ws(s[0]) {
        split_ws(s.drop_first())
    } else {
        let rest = split_ws(s.drop_first());
        if s.len() > 1 && !is_ws(s[1]) {
            seq![seq![s[0]] + rest[0]] + rest.drop_first()
        } else {
            seq![seq![s[0]]] + rest
        }
    }
}

proof fn lemma_split_word(s: Seq<char>, i: int, j: int)
    requires
        0 <= i <= j <= s.len(),
        forall|k: int| i <= k < j ==> !is_ws(#[trigger] s[k]),
        j == s.len() || is_ws(s[j]),
        i < j,
    ensures
        split_ws(s.skip(i)) == seq![s.subrange(i, j)] + split_ws(s.skip(j)),
    decreases j - i,
{
    let t = s.skip(i);
    assert(t[0] == s[i]);
    assert(!is_ws(t[0]));
    if i + 1 == j {
        if j == s.len() {
            assert(t.len() == 1);
            assert(split_ws(t) == seq![seq![t[0]]] + split_ws(t.drop_first()));
            assert(t.drop_first() =~= s.skip(j));
            assert(t.drop_first().len() == 0);
            assert(seq![t[0]] =~= s.subrange(i, j));
        } else {
            assert(is_ws(s[j]));
            assert(t.len() > 1 && t[1] == s[j]);
            assert(split_ws(t) == seq![seq![t[0]]] + split_ws(t.drop_first()));
            assert(t.drop_first() =~= s.skip(i + 1));
            assert(seq![t[0]] =~= s.subrange(i, j));
        }
    } else {
        lemma_split_word(s, i + 1, j);
        assert(t.drop_first() =~= s.skip(i + 1));
        assert(t.len() > 1 && t[1] == s[i + 1]);
        assert(!is_ws(t[1]));
        let rest = split_ws(s.skip(i + 1));
        assert(rest == seq![s.subrange(i + 1, j)] + split_ws(s.skip(j)));
        assert(rest.len() > 0 && rest[0] == s.subrange(i + 1, j));
        assert(split_ws(t) == seq![seq![t[0]] + rest[0]] + rest.drop_first());
        assert(seq![t[0]] + rest[0] =~= s.subrange(i, j));
        assert(rest.drop_first() =~= split_ws(s.skip(j)));
        assert(split_ws(t) =~= seq![s.subrange(i, j)] + split_ws(s.skip(j)));
    }
}

/// Split a displayed safety number into its digit groups.
pub fn format_safety_number(safety_number: &str) -> (r: Vec<String>)
    ensures
        r.deep_view() == split_ws(safety_number@),
{
    let n = safety_number.unicode_len();
    let mut out: Vec<String> = Vec::new();
    let mut i: usize = 0;
    proof {
        assert(safety_number@.skip(0) =~= safety_number@);
    }
    while i < n
        invariant
            n == safety_number@.len(),
            i <= n,
            out.deep_view() + split_ws(safety_number@.skip(i as int)) =~= split_ws(
                safety_number@,
            ),
        decreases n - i,
    {
        let c = safety_number.get_char(i);
        if c == ' ' || c == '\t' || c == '\n' || c == '\r' {
            proof {
                assert(safety_number@.skip(i as int).drop_first() =~= safety_number@.skip(
                    i + 1,
                ));
            }
            i = i + 1;
        } else {
            let start = i;
            let mut j = i + 1;
            loop
                invariant
                    n == safety_number@.len(),
                    start < j <= n,
                    forall|k: int| start <= k < j ==> !is_ws(#[trigger] safety_number@[k]),
                ensures
                    start < j <= n,
                    forall|k: int| start <= k < j ==> !is_ws(#[trigger] safety_number@[k]),
                    j == n || is_ws(safety_number@[j as int]),
                decreases n - j,
            {
                if j >= n {
                    break;
                }
                let c2 = safety_number.get_char(j);
                if c2 == ' ' || c2 == '\t' || c2 == '\n' || c2 == '\r' {
                    break;
                }
                j = j + 1;
            }
            let word = safety_number.substring_char(start, j);
            let owned = String::from_str(word);
            proof {
                lemma_split_word(safety_number@, start as int, j as int);
            }
            out.push(owned);
            proof {
                assert(out.deep_view() =~= out.deep_view().subrange(
                    0,
                    out.deep_view().len() - 1,
                ) + seq![owned@]);
            }
            i = j;
        }
    }
    proof {
        assert(safety_number@.skip(n as int).len() == 0);
        assert(out.deep_view() + split_ws(safety_number@.skip(n as int)) =~= out.deep_view());
    }
    out
}

} // verus!
