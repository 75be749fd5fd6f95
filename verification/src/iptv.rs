use vstd::prelude::*;
use vstd::string::StrSliceExecFns;
use vstd::string::StringExecFns;
use crate::text::{str_eq, str_le, lex_le_chars, lemma_lex_chars_total};

verus! {

/// One channel of an M3U playlist.
#[derive(Debug, Clone)]
pub struct IptvChannel {
    pub id: String,
    pub name: String,
    pub url: String,
    pub logo: Option<String>,
    pub group: Option<String>,
    pub country: Option<String>,
    pub language: Option<String>,
    pub tvg_id: Option<String>,
    pub tvg_name: Option<String>,
}

/// A playlist: its channels and the sorted distinct group titles.
#[derive(Debug, Clone)]
pub struct IptvPlaylist {
    pub id: String,
    pub name: String,
    pub url: Option<String>,
    pub channels: Vec<IptvChannel>,
    pub groups: Vec<String>,
    pub last_updated: Option<String>,
}

/// A playlist reduced to its listing line.
#[derive(Debug, Clone)]
pub struct IptvPlaylistSummary {
    pub id: String,
    pub name: String,
    pub channel_count: usize,
    pub group_count: usize,
    pub url: Option<String>,
    pub last_updated: Option<String>,
}

impl IptvPlaylist {
    /// Reduce the playlist to its listing line.
    pub fn to_summary(&self) -> (r: IptvPlaylistSummary)
        ensures
            r.id@ == self.id@,
            r.name@ == self.name@,
            r.channel_count == self.channels@.len(),
            r.group_count == self.groups@.len(),
            r.url is Some <==> self.url is Some,
            r.url is Some ==> r.url->0@ == self.url->0@,
            r.last_updated is Some <==> self.last_updated is Some,
            r.last_updated is Some ==> r.last_updated->0@ == self.last_updated->0@,
    {
        IptvPlaylistSummary {
            id: self.id.clone(),
            name: self.name.clone(),
            channel_count: self.channels.len(),
            group_count: self.groups.len(),
            url: match &self.url {
                Some(u) => Some(u.clone()),
                None => None,
            },
            last_updated: match &self.last_updated {
                Some(u) => Some(u.clone()),
                None => None,
            },
        }
    }
}

// ── EXTINF attribute extraction ────────────────────────────────

/// The characters before the next double quote, or nothing when the quote
/// never comes.
pub open spec fn until_quote(s: Seq<char>) -> Option<Seq<char>>
    decreases s.len(),
{
    if s.len() == 0 {
        None
    } else if s[0] == '"' {
        Some(Seq::empty())
    } else {
        match until_quote(s.drop_first()) {
            None => None,
            Some(rest) => Some(seq![s[0]] + rest),
        }
    }
}

/// The value of the first `name="value"` occurrence whose pattern is `pat`
/// (the attribute name followed by `="`): the quoted value when it is
/// closed and non-empty, nothing otherwise.
pub open spec fn extract_attr_spec(s: Seq<char>, pat: Seq<char>) -> Option<Seq<char>>
    decreases s.len(),
{
    if pat.len() == 0 || s.len() < pat.len() {
        None
    } else if s.subrange(0, pat.len() as int) == pat {
        match until_quote(s.skip(pat.len() as int)) {
            None => None,
            Some(v) => if v.len() == 0 {
                None
            } else {
                Some(v)
            },
        }
    } else {
        extract_attr_spec(s.drop_first(), pat)
    }
}

proof fn lemma_until_quote_found(s: Seq<char>, start: int, q: int)
    requires
        0 <= start <= q < s.len(),
        forall|k: int| start <= k < q ==> #[trigger] s[k] != '"',
        s[q] == '"',
    ensures
        until_quote(s.skip(start)) == Some(s.subrange(start, q)),
    decreases q - start,
{
    let t = s.skip(start);
    if start == q {
        assert(t[0] == '"');
        assert(s.subrange(start, q) =~= Seq::<char>::empty());
    } else {
        assert(t[0] == s[start] && s[start] != '"');
        lemma_until_quote_found(s, start + 1, q);
        assert(t.drop_first() =~= s.skip(start + 1));
        assert(seq![s[start]] + s.subrange(start + 1, q) =~= s.subrange(start, q));
    }
}

proof fn lemma_until_quote_missing(s: Seq<char>, start: int)
    requires
        0 <= start <= s.len(),
        forall|k: int| start <= k < s.len() ==> #[trigger] s[k] != '"',
    ensures
        until_quote(s.skip(start)) is None,
    decreases s.len() - start,
{
    let t = s.skip(start);
    if start < s.len() {
        assert(t[0] == s[start] && s[start] != '"');
        lemma_until_quote_missing(s, start + 1);
        assert(t.drop_first() =~= s.skip(start + 1));
    }
}

/// Extract an attribute value from an EXTINF line: the text between the
/// quotes of the first `attr="..."`, when it is closed and non-empty.
pub fn extract_attribute(line: &str, attr: &str) -> (r: Option<String>)
    ensures
        ({
            let v = extract_attr_spec(line@, attr@ + seq!['=', '"']);
            &&& (r is Some <==> v is Some)
            &&& (r is Some ==> r->0@ == v->0)
        }),
{
    let ghost pat = attr@ + seq!['=', '"'];
    let n = line.unicode_len();
    let alen = attr.unicode_len();
    if alen >= n || n - alen < 2 {
        proof {
            assert(line@.len() < pat.len());
        }
        return None;
    }
    let patlen = alen + 2;
    let mut i: usize = 0;
    proof {
        assert(line@.skip(0) =~= line@);
    }
    loop
        invariant
            pat == attr@ + seq!['=', '"'],
            pat.len() == patlen == alen + 2,
            patlen <= n,
            alen == attr@.len(),
            n == line@.len(),
            i <= n,
            extract_attr_spec(line@, pat) == extract_attr_spec(line@.skip(i as int), pat),
        decreases n - i,
    {
        if i > n - patlen {
            proof {
                assert(line@.skip(i as int).len() < pat.len());
            }
            return None;
        }
        // does the pattern sit at position i?
        let mut matches_here = true;
        let mut k: usize = 0;
        while k < alen
            invariant
                alen == attr@.len(),
                n == line@.len(),
                i + alen + 2 <= n,
                k <= alen,
                matches_here == (forall|t: int|
                    0 <= t < k ==> line@[i + t] == #[trigger] attr@[t]),
            decreases alen - k,
        {
            if line.get_char(i + k) != attr.get_char(k) {
                matches_here = false;
                proof {
                    assert(line@[i + k] != attr@[k as int]);
                }
                k = alen;
            } else {
                proof {
                    assert(line@[i + k] == attr@[k as int]);
                }
                k = k + 1;
            }
        }
        let full_match = matches_here && line.get_char(i + alen) == '='
            && line.get_char(i + alen + 1) == '"';
        proof {
            let sub = line@.skip(i as int).subrange(0, pat.len() as int);
            if full_match {
                assert forall|t: int| 0 <= t < pat.len() implies sub[t] == pat[t] by {
                    if t < alen {
                        assert(line@[i + t] == attr@[t]);
                    }
                }
                assert(sub =~= pat);
            } else {
                if sub == pat {
                    assert forall|t: int| 0 <= t < alen implies line@[i + t] == #[trigger] attr@[
                        t
                    ] by {
                        assert(sub[t] == pat[t]);
                    }
                    assert(line@[i + alen] == pat[alen as int]);
                    assert(line@[i + alen + 1] == pat[alen + 1]);
                    assert(false);
                }
            }
        }
        if full_match {
            // scan for the closing quote
            let start = i + patlen;
            let mut q = start;
            loop
                invariant
                    start <= q <= n,
                    n == line@.len(),
                    forall|t: int| start <= t < q ==> #[trigger] line@[t] != '"',
                ensures
                    start <= q <= n,
                    forall|t: int| start <= t < q ==> #[trigger] line@[t] != '"',
                    q == n || line@[q as int] == '"',
                decreases n - q,
            {
                if q >= n {
                    break;
                }
                if line.get_char(q) == '"' {
                    break;
                }
                q = q + 1;
            }
            if q >= n {
                proof {
                    lemma_until_quote_missing(line@, start as int);
                    assert(line@.skip(i as int).skip(pat.len() as int) =~= line@.skip(
                        start as int,
                    ));
                }
                return None;
            }
            proof {
                lemma_until_quote_found(line@, start as int, q as int);
                assert(line@.skip(i as int).skip(pat.len() as int) =~= line@.skip(start as int));
            }
            if q == start {
                return None;
            }
            let value = line.substring_char(start, q);
            return Some(String::from_str(value));
        }
        proof {
            assert(line@.skip(i as int).drop_first() =~= line@.skip(i + 1));
        }
        i = i + 1;
    }
}

// ── Group collection ───────────────────────────────────────────

/// Insert a new group title at its sorted position.
fn insert_group_sorted(out: &mut Vec<String>, group: &String)
    requires
        forall|t1: int, t2: int|
            0 <= t1 < t2 < old(out)@.len() ==> (#[trigger] old(out)@[t1])@ != (#[trigger] old(
                out,
            )@[t2])@,
        forall|t1: int, t2: int|
            0 <= t1 < t2 < old(out)@.len() ==> lex_le_chars(
                (#[trigger] old(out)@[t1])@,
                (#[trigger] old(out)@[t2])@,
            ),
        forall|t: int| 0 <= t < old(out)@.len() ==> (#[trigger] old(out)@[t])@ != group@,
    ensures
        final(out)@.len() == old(out)@.len() + 1,
        forall|t1: int, t2: int|
            0 <= t1 < t2 < final(out)@.len() ==> (#[trigger] final(out)@[t1])@ != (
            #[trigger] final(out)@[t2])@,
        forall|t1: int, t2: int|
            0 <= t1 < t2 < final(out)@.len() ==> lex_le_chars(
                (#[trigger] final(out)@[t1])@,
                (#[trigger] final(out)@[t2])@,
            ),
        exists|t: int| 0 <= t < final(out)@.len() && (#[trigger] final(out)@[t])@ == group@,
        forall|t: int|
            0 <= t < final(out)@.len() ==> (#[trigger] final(out)@[t])@ == group@ || exists|
                n: int,
            | 0 <= n < old(out)@.len() && (#[trigger] old(out)@[n])@ == final(out)@[t]@,
        forall|n: int|
            0 <= n < old(out)@.len() ==> exists|t: int|
                0 <= t < final(out)@.len() && (#[trigger] final(out)@[t])@ == (#[trigger] old(
                    out,
                )@[n])@,
{
    let mut idx: usize = 0;
    loop
        invariant
            idx <= out@.len(),
            out@ == old(out)@,
            forall|n: int| 0 <= n < idx ==> lex_le_chars((#[trigger] out@[n])@, group@),
        ensures
            idx <= out@.len(),
            out@ == old(out)@,
            forall|n: int| 0 <= n < idx ==> lex_le_chars((#[trigger] out@[n])@, group@),
            idx < out@.len() ==> !lex_le_chars(out@[idx as int]@, group@),
        decreases out@.len() - idx,
    {
        if idx >= out.len() {
            break;
        }
        if !str_le(out[idx].as_str(), group.as_str()) {
            break;
        }
        idx = idx + 1;
    }
    let ghost prior = out@;
    out.insert(idx, group.clone());
    proof {
        assert(out@[idx as int]@ == group@);
        assert forall|t1: int, t2: int|
            0 <= t1 < t2 < out@.len() implies lex_le_chars(
            (#[trigger] out@[t1])@,
            (#[trigger] out@[t2])@,
        ) by {
            if t1 < idx && t2 == idx {
                assert(out@[t1] == prior[t1]);
            } else if t1 == idx && t2 > idx {
                assert(out@[t2] == prior[t2 - 1]);
                lemma_lex_chars_total(prior[t2 - 1]@, group@);
                if t2 - 1 > idx {
                    assert(lex_le_chars(prior[idx as int]@, prior[t2 - 1]@));
                    lemma_lex_chars_total(prior[idx as int]@, group@);
                    crate::text::lemma_lex_chars_transitive(
                        group@,
                        prior[idx as int]@,
                        prior[t2 - 1]@,
                    );
                } else {
                    lemma_lex_chars_total(prior[idx as int]@, group@);
                }
            } else if t1 < idx && t2 > idx {
                assert(out@[t1] == prior[t1]);
                assert(out@[t2] == prior[t2 - 1]);
            } else if t1 != idx && t2 != idx {
                assert(out@[t1] == prior[if t1 < idx { t1 } else { t1 - 1 }]);
                assert(out@[t2] == prior[if t2 < idx { t2 } else { t2 - 1 }]);
            }
        }
        assert forall|t1: int, t2: int|
            0 <= t1 < t2 < out@.len() implies (#[trigger] out@[t1])@ != (#[trigger] out@[t2])@ by {
            if t1 == idx {
                assert(out@[t2] == prior[t2 - 1]);
            } else if t2 == idx {
                assert(out@[t1] == prior[t1]);
            } else {
                assert(out@[t1] == prior[if t1 < idx { t1 } else { t1 - 1 }]);
                assert(out@[t2] == prior[if t2 < idx { t2 } else { t2 - 1 }]);
            }
        }
        assert forall|t: int|
            0 <= t < out@.len() implies (#[trigger] out@[t])@ == group@ || exists|n: int|
            0 <= n < prior.len() && (#[trigger] prior[n])@ == out@[t]@ by {
            if t != idx {
                let u = if t < idx {
                    t
                } else {
                    t - 1
                };
                assert(out@[t] == prior[u]);
                assert(prior[u]@ == out@[t]@);
            }
        }
        assert forall|n: int|
            0 <= n < prior.len() implies exists|t: int|
            0 <= t < out@.len() && (#[trigger] out@[t])@ == (#[trigger] prior[n])@ by {
            let t = if n < idx {
                n
            } else {
                n + 1
            };
            assert(out@[t] == prior[n]);
        }
    }
}

/// Collect the distinct group titles of a channel list, sorted.
#[verifier::rlimit(100)]
#[verifier::spinoff_prover]
pub fn collect_groups(channels: &Vec<IptvChannel>) -> (r: Vec<String>)
    ensures
        forall|i: int|
            0 <= i < channels@.len() && (#[trigger] channels@[i]).group is Some ==> exists|t: int|
                0 <= t < r@.len() && (#[trigger] r@[t])@ == channels@[i].group->0@,
        forall|t1: int, t2: int|
            0 <= t1 < t2 < r@.len() ==> (#[trigger] r@[t1])@ != (#[trigger] r@[t2])@,
        forall|t1: int, t2: int|
            0 <= t1 < t2 < r@.len() ==> lex_le_chars((#[trigger] r@[t1])@, (#[trigger] r@[t2])@),
{
    let mut out: Vec<String> = Vec::new();
    let mut i: usize = 0;
    while i < channels.len()
        invariant
            i <= channels@.len(),
            forall|n: int|
                0 <= n < i && (#[trigger] channels@[n]).group is Some ==> exists|t: int|
                    0 <= t < out@.len() && (#[trigger] out@[t])@ == channels@[n].group->0@,
            forall|t1: int, t2: int|
                0 <= t1 < t2 < out@.len() ==> (#[trigger] out@[t1])@ != (#[trigger] out@[t2])@,
            forall|t1: int, t2: int|
                0 <= t1 < t2 < out@.len() ==> lex_le_chars(
                    (#[trigger] out@[t1])@,
                    (#[trigger] out@[t2])@,
                ),
        decreases channels@.len() - i,
    {
        let ghost prev = out@;
        match &channels[i].group {
            None => {},
            Some(group) => {
                let mut present = false;
                let mut t: usize = 0;
                while t < out.len()
                    invariant
                        t <= out@.len(),
                        out@ == prev,
                        present == exists|n: int|
                            0 <= n < t && (#[trigger] out@[n])@ == group@,
                    decreases out@.len() - t,
                {
                    if str_eq(out[t].as_str(), group.as_str()) {
                        assert(out@[t as int]@ == group@);
                        present = true;
                    }
                    t = t + 1;
                }
                if !present {
                    insert_group_sorted(&mut out, group);
                }
                proof {
                    assert(exists|t2: int|
                        0 <= t2 < out@.len() && (#[trigger] out@[t2])@ == group@);
                }
            },
        }
        proof {
            assert forall|n: int|
                0 <= n < i + 1 && (#[trigger] channels@[n]).group is Some implies exists|t: int|
                0 <= t < out@.len() && (#[trigger] out@[t])@ == channels@[n].group->0@ by {
                if n < i {
                    let t0 = choose|t0: int|
                        0 <= t0 < prev.len() && (#[trigger] prev[t0])@ == channels@[n].group->0@;
                    if channels@[i as int].group is Some {
                        let t1 = choose|t1: int|
                            0 <= t1 < out@.len() && (#[trigger] out@[t1])@ == prev[t0]@;
                        assert(out@[t1]@ == channels@[n].group->0@);
                    } else {
                        assert(out@[t0]@ == channels@[n].group->0@);
                    }
                }
            }
        }
        i = i + 1;
    }
    out
}

} // verus!
