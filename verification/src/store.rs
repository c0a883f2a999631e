//! The trust store: one pinned certificate fingerprint per hostname.
//!
//! The store is the in-memory record the trust-on-first-use policy works
//! on; a host application may load it from and save it to any persistent
//! medium.  At most one record exists per hostname, and only
//! [`TrustStore::insert_certificate`] and
//! [`TrustStore::update_certificate_timestamp`] ever change the store.

use vstd::prelude::*;

use crate::text::str_eq;

verus! {

/// A pinned certificate: hostname, fingerprint and the two sighting times,
/// as unix seconds.
#[derive(Debug)]
pub struct Certificate {
    pub hostname: String,
    pub fingerprint: String,
    pub first_seen: i64,
    pub last_seen: i64,
}

/// Mathematical model of [`Certificate`].
pub struct CertV {
    pub hostname: Seq<char>,
    pub fingerprint: Seq<char>,
    pub first_seen: int,
    pub last_seen: int,
}

impl View for Certificate {
    type V = CertV;

    open spec fn view(&self) -> CertV {
        CertV {
            hostname: self.hostname@,
            fingerprint: self.fingerprint@,
            first_seen: self.first_seen as int,
            last_seen: self.last_seen as int,
        }
    }
}

impl Clone for Certificate {
    fn clone(&self) -> (r: Self)
        ensures
            r@ == self@,
    {
        Certificate {
            hostname: self.hostname.clone(),
            fingerprint: self.fingerprint.clone(),
            first_seen: self.first_seen,
            last_seen: self.last_seen,
        }
    }
}

/// Index of the record pinned for `host`, if any.
pub open spec fn find_host(s: Seq<CertV>, host: Seq<char>) -> Option<int>
    decreases s.len(),
{
    if s.len() == 0 {
        None
    } else if s[0].hostname == host {
        Some(0int)
    } else {
        match find_host(s.skip(1), host) {
            Some(i) => Some(i + 1),
            None => None,
        }
    }
}

/// [`find_host`] finds the first matching index, or rules every index out.
pub proof fn lemma_find_host(s: Seq<CertV>, host: Seq<char>)
    ensures
        match find_host(s, host) {
            Some(i) => 0 <= i < s.len() && s[i].hostname == host && (forall|j: int|
                0 <= j < i ==> s[j].hostname != host),
            None => forall|j: int| 0 <= j < s.len() ==> s[j].hostname != host,
        },
    decreases s.len(),
{
    if s.len() > 0 && s[0].hostname != host {
        lemma_find_host(s.skip(1), host);
        match find_host(s.skip(1), host) {
            Some(i) => {
                assert(s[i + 1] == s.skip(1)[i]);
                assert forall|j: int| 0 <= j < i + 1 implies s[j].hostname != host by {
                    if j > 0 {
                        assert(s[j] == s.skip(1)[j - 1]);
                    }
                }
            },
            None => {
                assert forall|j: int| 0 <= j < s.len() implies s[j].hostname != host by {
                    if j > 0 {
                        assert(s[j] == s.skip(1)[j - 1]);
                    }
                }
            },
        }
    }
}

/// Any index with no match before it and a match (or the end) at it decides
/// [`find_host`].
pub proof fn lemma_find_host_at(s: Seq<CertV>, host: Seq<char>, k: int)
    requires
        0 <= k <= s.len(),
        forall|j: int| 0 <= j < k ==> s[j].hostname != host,
        k < s.len() ==> s[k].hostname == host,
    ensures
        find_host(s, host) == if k < s.len() {
            Some(k)
        } else {
            None::<int>
        },
    decreases k,
{
    if k > 0 {
        lemma_find_host_at(s.skip(1), host, k - 1);
    }
}

/// No two records pin the same hostname.
pub open spec fn store_wf(s: Seq<CertV>) -> bool {
    forall|i: int, j: int| 0 <= i < j < s.len() ==> s[i].hostname != s[j].hostname
}

/// Replacing a record with one for the same hostname keeps hostnames
/// unique.
proof fn lemma_wf_update_same_host(s: Seq<CertV>, i: int, c: CertV)
    requires
        store_wf(s),
        0 <= i < s.len(),
        c.hostname == s[i].hostname,
    ensures
        store_wf(s.update(i, c)),
{
    let t = s.update(i, c);
    assert forall|a: int, b: int| 0 <= a < b < t.len() implies t[a].hostname != t[b].hostname by {
        assert(t[a].hostname == s[a].hostname);
        assert(t[b].hostname == s[b].hostname);
        assert(s[a].hostname != s[b].hostname);
    }
}

/// What one trust-on-first-use decision does to the store: a fresh hostname
/// is pinned and is `New`; a matching fingerprint refreshes `last_seen` and
/// is `Matched`; a differing fingerprint is a `Conflict` and writes nothing.
pub open spec fn tofu_spec(s: Seq<CertV>, host: Seq<char>, fp: Seq<char>, now: int) -> (
    crate::verification::State,
    Seq<CertV>,
) {
    match find_host(s, host) {
        None => (
            crate::verification::State::New,
            s.push(CertV { hostname: host, fingerprint: fp, first_seen: now, last_seen: now }),
        ),
        Some(i) => if s[i].fingerprint == fp {
            (
                crate::verification::State::Matched,
                s.update(
                    i,
                    CertV {
                        hostname: s[i].hostname,
                        fingerprint: s[i].fingerprint,
                        first_seen: s[i].first_seen,
                        last_seen: now,
                    },
                ),
            )
        } else {
            (crate::verification::State::Conflict, s)
        },
    }
}

/// The in-memory set of pinned certificates, unique per hostname.
#[derive(Debug)]
pub struct TrustStore {
    records: Vec<Certificate>,
}

impl View for TrustStore {
    type V = Seq<CertV>;

    closed spec fn view(&self) -> Seq<CertV> {
        self.records@.map_values(|c: Certificate| c@)
    }
}

impl TrustStore {
    /// The store's invariant: hostnames are unique.
    pub open spec fn wf(&self) -> bool {
        store_wf(self@)
    }

    pub fn new() -> (r: Self)
        ensures
            r@ == Seq::<CertV>::empty(),
            r.wf(),
    {
        let r = TrustStore { records: Vec::new() };
        proof {
            assert(r@ =~= Seq::<CertV>::empty());
        }
        r
    }

    /// The number of pinned hostnames.
    pub fn len(&self) -> (r: usize)
        ensures
            r == self@.len(),
    {
        self.records.len()
    }

    /// A copy of the record at an index, for hosts that persist the store.
    pub fn record_at(&self, i: usize) -> (r: Certificate)
        requires
            i < self@.len(),
        ensures
            r@ == self@[i as int],
    {
        self.records[i].clone()
    }

    /// The record pinned for `hostname`, if any.
    pub fn get_certificate(&self, hostname: &str) -> (r: Option<Certificate>)
        ensures
            match r {
                Some(c) => find_host(self@, hostname@) matches Some(i) && c@ == self@[i],
                None => find_host(self@, hostname@) is None,
            },
    {
        let n = self.records.len();
        let mut i: usize = 0;
        while i < n
            invariant
                0 <= i <= n,
                n == self@.len(),
                n == self.records@.len(),
                forall|j: int| 0 <= j < i ==> self@[j].hostname != hostname@,
            decreases n - i,
        {
            if str_eq(self.records[i].hostname.as_str(), hostname) {
                proof {
                    lemma_find_host_at(self@, hostname@, i as int);
                }
                return Some(self.records[i].clone());
            }
            i = i + 1;
        }
        proof {
            lemma_find_host_at(self@, hostname@, n as int);
        }
        None
    }

    /// Pins a certificate for a hostname seen for the first time.  Returns
    /// the created record.
    pub fn insert_certificate(&mut self, hostname: &str, fingerprint: &str, now: i64) -> (r:
        Certificate)
        requires
            old(self).wf(),
            find_host(old(self)@, hostname@) is None,
        ensures
            final(self).wf(),
            final(self)@ == old(self)@.push(
                CertV {
                    hostname: hostname@,
                    fingerprint: fingerprint@,
                    first_seen: now as int,
                    last_seen: now as int,
                },
            ),
            r@ == (CertV {
                hostname: hostname@,
                fingerprint: fingerprint@,
                first_seen: now as int,
                last_seen: now as int,
            }),
    {
        let record = Certificate {
            hostname: hostname.to_owned(),
            fingerprint: fingerprint.to_owned(),
            first_seen: now,
            last_seen: now,
        };
        let copy = record.clone();
        self.records.push(record);
        proof {
            assert(self@ =~= old(self)@.push(copy@));
            lemma_find_host(old(self)@, hostname@);
        }
        copy
    }

    /// Refreshes `last_seen` on the record pinned for `hostname`; a store
    /// without such a record is left unchanged.
    pub fn update_certificate_timestamp(&mut self, hostname: &str, now: i64)
        requires
            old(self).wf(),
        ensures
            final(self).wf(),
            match find_host(old(self)@, hostname@) {
                Some(i) => final(self)@ == old(self)@.update(
                    i,
                    CertV {
                        hostname: old(self)@[i].hostname,
                        fingerprint: old(self)@[i].fingerprint,
                        first_seen: old(self)@[i].first_seen,
                        last_seen: now as int,
                    },
                ),
                None => final(self)@ == old(self)@,
            },
    {
        let n = self.records.len();
        let mut i: usize = 0;
        while i < n
            invariant
                0 <= i <= n,
                n == self@.len(),
                n == self.records@.len(),
                *self == *old(self),
                store_wf(old(self)@),
                forall|j: int| 0 <= j < i ==> self@[j].hostname != hostname@,
            decreases n - i,
        {
            if str_eq(self.records[i].hostname.as_str(), hostname) {
                proof {
                    lemma_find_host_at(self@, hostname@, i as int);
                }
                let record = &mut self.records[i];
                record.last_seen = now;
                proof {
                    assert(self@ =~= old(self)@.update(
                        i as int,
                        CertV {
                            hostname: old(self)@[i as int].hostname,
                            fingerprint: old(self)@[i as int].fingerprint,
                            first_seen: old(self)@[i as int].first_seen,
                            last_seen: now as int,
                        },
                    ));
                    lemma_wf_update_same_host(
                        old(self)@,
                        i as int,
                        CertV {
                            hostname: old(self)@[i as int].hostname,
                            fingerprint: old(self)@[i as int].fingerprint,
                            first_seen: old(self)@[i as int].first_seen,
                            last_seen: now as int,
                        },
                    );
                }
                return ;
            }
            i = i + 1;
        }
        proof {
            lemma_find_host_at(self@, hostname@, n as int);
        }
    }
}

/// First contact pins exactly one new record, stamped with the current time
/// on both sighting fields.
pub proof fn lemma_tofu_first_contact(s: Seq<CertV>, host: Seq<char>, fp: Seq<char>, now: int)
    requires
        find_host(s, host) is None,
    ensures
        tofu_spec(s, host, fp, now).0 == crate::verification::State::New,
        tofu_spec(s, host, fp, now).1 == s.push(
            CertV { hostname: host, fingerprint: fp, first_seen: now, last_seen: now },
        ),
        tofu_spec(s, host, fp, now).1.len() == s.len() + 1,
{
}

/// A repeated sighting of the pinned fingerprint only refreshes `last_seen`.
pub proof fn lemma_tofu_rematch(s: Seq<CertV>, host: Seq<char>, fp: Seq<char>, now: int, i: int)
    requires
        find_host(s, host) == Some(i),
        0 <= i < s.len(),
        s[i].fingerprint == fp,
    ensures
        tofu_spec(s, host, fp, now).0 == crate::verification::State::Matched,
        tofu_spec(s, host, fp, now).1.len() == s.len(),
        tofu_spec(s, host, fp, now).1[i].hostname == s[i].hostname,
        tofu_spec(s, host, fp, now).1[i].fingerprint == s[i].fingerprint,
        tofu_spec(s, host, fp, now).1[i].first_seen == s[i].first_seen,
        tofu_spec(s, host, fp, now).1[i].last_seen == now,
        forall|j: int| 0 <= j < s.len() && j != i ==> tofu_spec(s, host, fp, now).1[j] == s[j],
{
}

/// A differing fingerprint is a conflict and leaves the store unchanged.
pub proof fn lemma_tofu_conflict(s: Seq<CertV>, host: Seq<char>, fp: Seq<char>, now: int, i: int)
    requires
        find_host(s, host) == Some(i),
        0 <= i < s.len(),
        s[i].fingerprint != fp,
    ensures
        tofu_spec(s, host, fp, now).0 == crate::verification::State::Conflict,
        tofu_spec(s, host, fp, now).1 == s,
{
}

} // verus!
