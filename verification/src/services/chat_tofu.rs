use vstd::prelude::*;
use vstd::pervasive::VecAdditionalExecFns;
use crate::error::ArchivistError;
use crate::services::runtime::now_ms;
use crate::text::str_eq;

verus! {

/// Trust level of a peer's transport certificate.
#[derive(Debug, Clone, Copy, PartialEq, Eq, Structural)]
pub enum TrustLevel {
    /// Accepted on first use (default).
    FirstUse,
    /// Manually verified by the user, e.g. via safety numbers.
    Verified,
    /// Certificate fingerprint changed: a potential man in the middle.
    Changed,
}

/// The pinning record of one peer.
#[derive(Debug, Clone)]
pub struct TofuEntry {
    pub cert_fingerprint: String,
    /// Milliseconds since the Unix epoch.
    pub first_seen: i64,
    pub last_seen: i64,
    pub trust_level: TrustLevel,
    /// The prior fingerprint, kept when a change was detected.
    pub previous_fingerprint: Option<String>,
}

pub struct TofuEntryModel {
    pub cert_fingerprint: Seq<char>,
    pub first_seen: int,
    pub last_seen: int,
    pub trust_level: TrustLevel,
    pub previous_fingerprint: Option<Seq<char>>,
}

impl View for TofuEntry {
    type V = TofuEntryModel;

    open spec fn view(&self) -> TofuEntryModel {
        TofuEntryModel {
            cert_fingerprint: self.cert_fingerprint@,
            first_seen: self.first_seen as int,
            last_seen: self.last_seen as int,
            trust_level: self.trust_level,
            previous_fingerprint: match self.previous_fingerprint {
                Some(ref p) => Some(p@),
                None => None,
            },
        }
    }
}

/// A copy of an optional string with the same character sequence.
fn clone_opt_string(s: &Option<String>) -> (r: Option<String>)
    ensures
        r is Some <==> s is Some,
        r is Some ==> r->0@ == s->0@,
{
    match s {
        Some(x) => Some(x.clone()),
        None => None,
    }
}

/// Trust-on-first-use ledger: peer id to pinned certificate fingerprint.
///
/// A fingerprint change always moves the entry to `Changed` and keeps the
/// prior value; it is never silently overwritten as trusted.  Durability is
/// layered on top: a host hydrates the ledger at startup and exports it
/// after each mutation.
pub struct TofuStore {
    entries: Vec<(String, TofuEntry)>,
    model: Ghost<Map<Seq<char>, TofuEntryModel>>,
}

impl TofuStore {
    /// The ledger: peer id to pinning record.
    pub closed spec fn ledger(&self) -> Map<Seq<char>, TofuEntryModel> {
        self.model@
    }

    pub closed spec fn wf(&self) -> bool {
        &&& forall|i: int, j: int|
            0 <= i < j < self.entries@.len() ==> (#[trigger] self.entries@[i]).0@ != (
            #[trigger] self.entries@[j]).0@
        &&& forall|k: Seq<char>|
            self.model@.contains_key(k) <==> exists|i: int|
                0 <= i < self.entries@.len() && (#[trigger] self.entries@[i]).0@ == k
        &&& forall|i: int|
            0 <= i < self.entries@.len() ==> (#[trigger] self.entries@[i]).1@ == self.model@[
                self.entries@[i].0@
            ]
    }

    /// An empty ledger.
    pub fn new() -> (r: TofuStore)
        ensures
            r.wf(),
            r.ledger() == Map::<Seq<char>, TofuEntryModel>::empty(),
    {
        TofuStore { entries: Vec::new(), model: Ghost(Map::empty()) }
    }

    fn find(&self, peer_id: &str) -> (r: Option<usize>)
        ensures
            match r {
                Some(i) => i < self.entries@.len() && self.entries@[i as int].0@ == peer_id@,
                None => forall|i: int|
                    0 <= i < self.entries@.len() ==> (#[trigger] self.entries@[i]).0@ != peer_id@,
            },
    {
        let mut i: usize = 0;
        while i < self.entries.len()
            invariant
                i <= self.entries@.len(),
                forall|k: int| 0 <= k < i ==> (#[trigger] self.entries@[k]).0@ != peer_id@,
            decreases self.entries@.len() - i,
        {
            if str_eq(self.entries[i].0.as_str(), peer_id) {
                return Some(i);
            }
            i = i + 1;
        }
        None
    }

    /// Store an entry under a peer id, replacing what was there.
    fn put(&mut self, peer_id: &str, entry: TofuEntry)
        requires
            old(self).wf(),
        ensures
            final(self).wf(),
            final(self).ledger() == old(self).ledger().insert(peer_id@, entry@),
    {
        let ghost key = peer_id@;
        match self.find(peer_id) {
            Some(i) => {
                self.entries.set(i, (peer_id.to_owned(), entry));
                proof {
                    self.model@ = self.model@.insert(key, entry@);
                    assert forall|k: Seq<char>| self.model@.contains_key(k) implies exists|
                        n: int,
                    |
                        0 <= n < self.entries@.len() && (#[trigger] self.entries@[n]).0@ == k by {
                        if k == key {
                            assert(self.entries@[i as int].0@ == k);
                        } else {
                            let n = choose|n: int|
                                0 <= n < old(self).entries@.len() && (#[trigger] old(self).entries@[n]).0@ == k;
                            assert(self.entries@[n].0@ == k);
                        }
                    }
                }
            },
            None => {
                self.entries.push((peer_id.to_owned(), entry));
                proof {
                    self.model@ = self.model@.insert(key, entry@);
                    let len = self.entries@.len();
                    assert forall|k: Seq<char>| self.model@.contains_key(k) implies exists|
                        n: int,
                    |
                        0 <= n < len && (#[trigger] self.entries@[n]).0@ == k by {
                        if k == key {
                            assert(self.entries@[len - 1].0@ == k);
                        } else {
                            let n = choose|n: int|
                                0 <= n < old(self).entries@.len() && (#[trigger] old(self).entries@[n]).0@ == k;
                            assert(self.entries@[n].0@ == k);
                        }
                    }
                }
            },
        }
    }

    /// Check or store a peer's certificate fingerprint.
    ///
    /// First contact pins the fingerprint at `FirstUse` and trusts it.  A
    /// repeat of the pinned fingerprint refreshes `last_seen` and trusts.  A
    /// different fingerprint records the old value, moves the entry to
    /// `Changed`, and returns `Ok(false)`: the caller must not proceed
    /// silently.
    pub fn check_or_store(&mut self, peer_id: &str, fingerprint: &str) -> (r: Result<
        bool,
        ArchivistError,
    >)
        requires
            old(self).wf(),
        ensures
            final(self).wf(),
            r is Ok,
            r->Ok_0 == (!old(self).ledger().contains_key(peer_id@) || old(self).ledger()[
                peer_id@
            ].cert_fingerprint == fingerprint@),
            final(self).ledger().contains_key(peer_id@),
            forall|k: Seq<char>|
                k != peer_id@ ==> (#[trigger] final(self).ledger().contains_key(k) == old(self).ledger().contains_key(k) && (old(self).ledger().contains_key(k)
                    ==> final(self).ledger()[k] == old(self).ledger()[k])),
            ({
                let e = final(self).ledger()[peer_id@];
                if !old(self).ledger().contains_key(peer_id@) {
                    e.cert_fingerprint == fingerprint@ && e.trust_level is FirstUse
                        && e.previous_fingerprint is None && e.first_seen == e.last_seen
                } else if old(self).ledger()[peer_id@].cert_fingerprint == fingerprint@ {
                    e.cert_fingerprint == fingerprint@ && e.trust_level == old(self).ledger()[
                        peer_id@
                    ].trust_level && e.previous_fingerprint == old(self).ledger()[
                        peer_id@
                    ].previous_fingerprint && e.first_seen == old(self).ledger()[
                        peer_id@
                    ].first_seen
                } else {
                    e.cert_fingerprint == fingerprint@ && e.trust_level is Changed
                        && e.previous_fingerprint == Some(
                        old(self).ledger()[peer_id@].cert_fingerprint,
                    ) && e.first_seen == old(self).ledger()[peer_id@].first_seen
                }
            }),
    {
        let now = now_ms();
        match self.find(peer_id) {
            Some(i) => {
                let same = str_eq(self.entries[i].1.cert_fingerprint.as_str(), fingerprint);
                if same {
                    let entry = TofuEntry {
                        cert_fingerprint: self.entries[i].1.cert_fingerprint.clone(),
                        first_seen: self.entries[i].1.first_seen,
                        last_seen: now,
                        trust_level: self.entries[i].1.trust_level,
                        previous_fingerprint: clone_opt_string(
                            &self.entries[i].1.previous_fingerprint,
                        ),
                    };
                    self.put(peer_id, entry);
                    Ok(true)
                } else {
                    let entry = TofuEntry {
                        cert_fingerprint: fingerprint.to_owned(),
                        first_seen: self.entries[i].1.first_seen,
                        last_seen: now,
                        trust_level: TrustLevel::Changed,
                        previous_fingerprint: Some(
                            self.entries[i].1.cert_fingerprint.clone(),
                        ),
                    };
                    self.put(peer_id, entry);
                    Ok(false)
                }
            },
            None => {
                let entry = TofuEntry {
                    cert_fingerprint: fingerprint.to_owned(),
                    first_seen: now,
                    last_seen: now,
                    trust_level: TrustLevel::FirstUse,
                    previous_fingerprint: None,
                };
                self.put(peer_id, entry);
                Ok(true)
            },
        }
    }

    /// Promote a pinned peer to `Verified`, after an out-of-band comparison.
    /// A peer without an entry is left untouched.
    pub fn verify_peer(&mut self, peer_id: &str) -> (r: Result<(), ArchivistError>)
        requires
            old(self).wf(),
        ensures
            final(self).wf(),
            r is Ok,
            !old(self).ledger().contains_key(peer_id@) ==> final(self).ledger() == old(self).ledger(),
            old(self).ledger().contains_key(peer_id@) ==> final(self).ledger() == old(self).ledger().insert(
                peer_id@,
                TofuEntryModel {
                    trust_level: TrustLevel::Verified,
                    ..old(self).ledger()[peer_id@]
                },
            ),
    {
        match self.find(peer_id) {
            Some(i) => {
                let entry = TofuEntry {
                    cert_fingerprint: self.entries[i].1.cert_fingerprint.clone(),
                    first_seen: self.entries[i].1.first_seen,
                    last_seen: self.entries[i].1.last_seen,
                    trust_level: TrustLevel::Verified,
                    previous_fingerprint: clone_opt_string(
                        &self.entries[i].1.previous_fingerprint,
                    ),
                };
                self.put(peer_id, entry);
                Ok(())
            },
            None => Ok(()),
        }
    }

    /// Clear a `Changed` flag after the user explicitly accepted the new
    /// fingerprint.  Entries in any other state are left untouched.
    pub fn accept_changed(&mut self, peer_id: &str) -> (r: Result<(), ArchivistError>)
        requires
            old(self).wf(),
        ensures
            final(self).wf(),
            r is Ok,
            (!old(self).ledger().contains_key(peer_id@) || !(old(self).ledger()[
                peer_id@
            ].trust_level is Changed)) ==> final(self).ledger() == old(self).ledger(),
            (old(self).ledger().contains_key(peer_id@) && old(self).ledger()[peer_id@].trust_level
                is Changed) ==> final(self).ledger() == old(self).ledger().insert(
                peer_id@,
                TofuEntryModel {
                    trust_level: TrustLevel::FirstUse,
                    previous_fingerprint: None,
                    ..old(self).ledger()[peer_id@]
                },
            ),
    {
        match self.find(peer_id) {
            Some(i) => {
                if matches!(self.entries[i].1.trust_level, TrustLevel::Changed) {
                    let entry = TofuEntry {
                        cert_fingerprint: self.entries[i].1.cert_fingerprint.clone(),
                        first_seen: self.entries[i].1.first_seen,
                        last_seen: self.entries[i].1.last_seen,
                        trust_level: TrustLevel::FirstUse,
                        previous_fingerprint: None,
                    };
                    self.put(peer_id, entry);
                }
                Ok(())
            },
            None => Ok(()),
        }
    }

    /// The pinning record of a peer, if one exists.
    pub fn get_entry(&self, peer_id: &str) -> (r: Option<&TofuEntry>)
        requires
            self.wf(),
        ensures
            r is Some <==> self.ledger().contains_key(peer_id@),
            r is Some ==> r->Some_0@ == self.ledger()[peer_id@],
    {
        match self.find(peer_id) {
            Some(i) => Some(&self.entries[i].1),
            None => None,
        }
    }

    /// The pinned fingerprint of a peer, if one exists.
    pub fn get_fingerprint(&self, peer_id: &str) -> (r: Option<&str>)
        requires
            self.wf(),
        ensures
            r is Some <==> self.ledger().contains_key(peer_id@),
            r is Some ==> r->Some_0@ == self.ledger()[peer_id@].cert_fingerprint,
    {
        match self.find(peer_id) {
            Some(i) => Some(self.entries[i].1.cert_fingerprint.as_str()),
            None => None,
        }
    }

    /// Install an entry read back from durable storage.
    pub fn hydrate_entry(&mut self, peer_id: &str, entry: TofuEntry)
        requires
            old(self).wf(),
        ensures
            final(self).wf(),
            final(self).ledger() == old(self).ledger().insert(peer_id@, entry@),
    {
        self.put(peer_id, entry)
    }

    /// A copy of every entry, for a host to persist.
    pub fn export_entries(&self) -> (r: Vec<(String, TofuEntry)>)
        requires
            self.wf(),
        ensures
            forall|i: int|
                0 <= i < r@.len() ==> self.ledger().contains_key((#[trigger] r@[i]).0@)
                    && r@[i].1@ == self.ledger()[r@[i].0@],
            forall|k: Seq<char>|
                self.ledger().contains_key(k) ==> exists|i: int|
                    0 <= i < r@.len() && (#[trigger] r@[i]).0@ == k,
    {
        let mut out: Vec<(String, TofuEntry)> = Vec::new();
        let mut i: usize = 0;
        while i < self.entries.len()
            invariant
                self.wf(),
                i <= self.entries@.len(),
                out@.len() == i,
                forall|k: int|
                    0 <= k < i ==> (#[trigger] out@[k]).0@ == self.entries@[k].0@
                        && out@[k].1@ == self.entries@[k].1@,
            decreases self.entries@.len() - i,
        {
            let pair = (
                self.entries[i].0.clone(),
                TofuEntry {
                    cert_fingerprint: self.entries[i].1.cert_fingerprint.clone(),
                    first_seen: self.entries[i].1.first_seen,
                    last_seen: self.entries[i].1.last_seen,
                    trust_level: self.entries[i].1.trust_level,
                    previous_fingerprint: clone_opt_string(
                        &self.entries[i].1.previous_fingerprint,
                    ),
                },
            );
            out.push(pair);
            i = i + 1;
        }
        proof {
            assert forall|k: Seq<char>| self.ledger().contains_key(k) implies exists|n: int|
                0 <= n < out@.len() && (#[trigger] out@[n]).0@ == k by {
                let n = choose|n: int|
                    0 <= n < self.entries@.len() && (#[trigger] self.entries@[n]).0@ == k;
                assert(out@[n].0@ == k);
            }
        }
        out
    }
}

} // verus!
