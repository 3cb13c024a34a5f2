//! In-memory models of the three persistent stores the deletion protocol
//! mutates. Each store is an association list with unique keys, viewed as a
//! finite map, plus an injectable failure so that callers can be proved
//! correct for every outcome the store contract allows.

use vstd::prelude::*;
use crate::errors::StoreErrorKind;
use crate::kv::{map_of, distinct_keys, elems, lemma_map_of_key, lemma_map_of_index,
    lemma_insert_then_remove_keys_absorbed, lemma_insert_then_remove_keys_commutes};
use crate::types::{BatchDigest, Certificate, CertificateDigest, CertificateView,
    contains_certificate_digest, contains_header_digest, copy_certificate, copy_header, Header,
    HeaderDigest, HeaderView, PayloadToken, WorkerId};

verus! {

/// The key/value views of a header entry list.
pub open spec fn header_entry_views(s: Seq<(HeaderDigest, Header)>) -> Seq<
    (HeaderDigest, HeaderView),
> {
    s.map_values(|p: (HeaderDigest, Header)| (p.0, p.1@))
}

/// The key/value views of a certificate entry list.
pub open spec fn certificate_entry_views(s: Seq<(CertificateDigest, Certificate)>) -> Seq<
    (CertificateDigest, CertificateView),
> {
    s.map_values(|p: (CertificateDigest, Certificate)| (p.0, p.1@))
}

/// Does a key list hold this (batch, worker) pair?
pub fn contains_pair(keys: &Vec<(BatchDigest, WorkerId)>, k: (BatchDigest, WorkerId)) -> (b:
    bool)
    ensures
        b == keys@.contains(k),
{
    let mut i: usize = 0;
    while i < keys.len()
        invariant
            i <= keys.len(),
            forall|j: int| 0 <= j < i ==> keys@[j] != k,
        decreases keys.len() - i,
    {
        if keys[i].0 == k.0 && keys[i].1 == k.1 {
            return true;
        }
        i = i + 1;
    }
    false
}

/// Persistent marker store: one presence token per (batch digest, worker)
/// pair. Models the payload store's batched-removal contract, including its
/// storage-layer failure mode.
pub struct PayloadStore {
    pub entries: Vec<((BatchDigest, WorkerId), PayloadToken)>,
    pub fault: Option<StoreErrorKind>,
}

impl View for PayloadStore {
    type V = Map<(BatchDigest, WorkerId), PayloadToken>;

    open spec fn view(&self) -> Map<(BatchDigest, WorkerId), PayloadToken> {
        map_of(self.entries@)
    }
}

impl PayloadStore {
    /// Keys are unique.
    pub open spec fn wf(self) -> bool {
        distinct_keys(self.entries@)
    }

    pub open spec fn has_fault(self) -> bool {
        self.fault is Some
    }

    pub fn new() -> (s: Self)
        ensures
            s.wf(),
            s@ == Map::<(BatchDigest, WorkerId), PayloadToken>::empty(),
            !s.has_fault(),
    {
        PayloadStore { entries: Vec::new(), fault: None }
    }

    /// Makes every later removal fail with the given kind, as a real
    /// storage engine may start doing at any point.
    pub fn inject_fault(&mut self, kind: StoreErrorKind)
        ensures
            final(self).entries == old(self).entries,
            final(self).fault == Some(kind),
    {
        self.fault = Some(kind);
    }

    /// Records a presence marker.
    pub fn write(&mut self, batch: BatchDigest, worker: WorkerId, token: PayloadToken)
        requires
            old(self).wf(),
        ensures
            final(self).wf(),
            final(self)@ == old(self)@.insert((batch, worker), token),
            final(self).fault == old(self).fault,
    {
        let mut single: Vec<(BatchDigest, WorkerId)> = Vec::new();
        single.push((batch, worker));
        self.purge(&single);
        proof {
            assert(single@[0] == (batch, worker));
            assert(elems(single@).contains((batch, worker)));
            assert(!map_of(self.entries@).contains_key((batch, worker)));
            lemma_map_of_key(self.entries@, (batch, worker));
            assert(map_of(self.entries@.push(((batch, worker), token)))
                == map_of(self.entries@).insert((batch, worker), token)) by {
                assert(self.entries@.push(((batch, worker), token)).drop_last()
                    =~= self.entries@);
            }
            assert(old(self)@.remove_keys(elems(single@)).insert((batch, worker), token)
                =~= old(self)@.insert((batch, worker), token));
        }
        let ghost pre = self.entries@;
        self.entries.push(((batch, worker), token));
        proof {
            assert forall|i: int, j: int| 0 <= i < j < self.entries@.len() implies
                (#[trigger] self.entries@[i]).0 != (#[trigger] self.entries@[j]).0 by {
                if j == self.entries@.len() - 1 {
                    assert(!map_of(pre).contains_key((batch, worker)));
                    lemma_map_of_key(pre, (batch, worker));
                }
            }
        }
    }

    /// Does the store hold a marker for this pair?
    pub fn contains(&self, batch: BatchDigest, worker: WorkerId) -> (b: bool)
        requires
            self.wf(),
        ensures
            b == self@.contains_key((batch, worker)),
    {
        let k = (batch, worker);
        let mut i: usize = 0;
        while i < self.entries.len()
            invariant
                i <= self.entries.len(),
                forall|j: int| 0 <= j < i ==> (#[trigger] self.entries@[j]).0 != k,
                self.wf(),
                k == (batch, worker),
            decreases self.entries.len() - i,
        {
            if self.entries[i].0.0 == k.0 && self.entries[i].0.1 == k.1 {
                proof {
                    lemma_map_of_index(self.entries@, i as int);
                }
                return true;
            }
            i = i + 1;
        }
        proof {
            lemma_map_of_key(self.entries@, k);
        }
        false
    }

    /// Batched removal; idempotent on absent keys. Fails, mutating nothing,
    /// exactly when a fault is present.
    pub fn remove_all(&mut self, keys: &Vec<(BatchDigest, WorkerId)>) -> (r: Result<
        (),
        StoreErrorKind,
    >)
        requires
            old(self).wf(),
        ensures
            final(self).wf(),
            final(self).fault == old(self).fault,
            old(self).fault matches Some(k) ==> r == Err::<(), StoreErrorKind>(k) && *final(self)
                == *old(self),
            old(self).fault is None ==> r == Ok::<(), StoreErrorKind>(()) && final(self)@ == old(
                self,
            )@.remove_keys(elems(keys@)),
    {
        if let Some(kind) = self.fault {
            return Err(kind);
        }
        self.purge(keys);
        Ok(())
    }

    /// Rebuilds the entry list without the given keys.
    fn purge(&mut self, keys: &Vec<(BatchDigest, WorkerId)>)
        requires
            old(self).wf(),
        ensures
            final(self).wf(),
            final(self)@ == old(self)@.remove_keys(elems(keys@)),
            final(self).fault == old(self).fault,
    {
        let ghost orig = self.entries@;
        let ghost ks = elems(keys@);
        let mut kept: Vec<((BatchDigest, WorkerId), PayloadToken)> = Vec::new();
        let mut i: usize = 0;
        while i < self.entries.len()
            invariant
                i <= self.entries.len(),
                self.entries@ == orig,
                distinct_keys(orig),
                ks == elems(keys@),
                map_of(kept@) == map_of(orig.take(i as int)).remove_keys(ks),
                forall|a: int| 0 <= a < kept@.len() ==> exists|b: int|
                    0 <= b < i && (#[trigger] kept@[a]) == orig[b],
                distinct_keys(kept@),
            decreases self.entries.len() - i,
        {
            let e = self.entries[i];
            proof {
                assert(orig.take(i + 1).drop_last() =~= orig.take(i as int));
                assert(map_of(orig.take(i + 1)) == map_of(orig.take(i as int)).insert(
                    orig[i as int].0,
                    orig[i as int].1,
                ));
            }
            if contains_pair(keys, e.0) {
                proof {
                    lemma_insert_then_remove_keys_absorbed(
                        map_of(orig.take(i as int)),
                        orig[i as int].0,
                        orig[i as int].1,
                        ks,
                    );
                }
            } else {
                proof {
                    lemma_insert_then_remove_keys_commutes(
                        map_of(orig.take(i as int)),
                        orig[i as int].0,
                        orig[i as int].1,
                        ks,
                    );
                    assert(map_of(kept@.push(e)) == map_of(kept@).insert(e.0, e.1)) by {
                        assert(kept@.push(e).drop_last() =~= kept@);
                    }
                }
                let ghost pre = kept@;
                kept.push(e);
                proof {
                    assert forall|a: int, c: int| 0 <= a < c < kept@.len() implies
                        (#[trigger] kept@[a]).0 != (#[trigger] kept@[c]).0 by {
                        if c == kept@.len() - 1 {
                            let b = choose|b: int| 0 <= b < i && pre[a] == orig[b];
                            assert(orig[b].0 != orig[i as int].0);
                        }
                    }
                }
            }
            i = i + 1;
        }
        proof {
            assert(orig.take(orig.len() as int) =~= orig);
        }
        self.entries = kept;
    }
}

/// Header store: header digest to header. Models the header store's
/// batched-removal contract, including its storage-layer failure mode.
pub struct HeaderStore {
    pub entries: Vec<(HeaderDigest, Header)>,
    pub fault: Option<StoreErrorKind>,
}

impl View for HeaderStore {
    type V = Map<HeaderDigest, HeaderView>;

    open spec fn view(&self) -> Map<HeaderDigest, HeaderView> {
        map_of(header_entry_views(self.entries@))
    }
}

impl HeaderStore {
    /// Keys are unique and each entry is keyed by its header's digest.
    pub open spec fn wf(self) -> bool {
        &&& distinct_keys(header_entry_views(self.entries@))
        &&& forall|i: int| 0 <= i < self.entries@.len() ==> (#[trigger] self.entries@[i]).0
            == self.entries@[i].1.digest
    }

    pub open spec fn has_fault(self) -> bool {
        self.fault is Some
    }

    pub fn new() -> (s: Self)
        ensures
            s.wf(),
            s@ == Map::<HeaderDigest, HeaderView>::empty(),
            !s.has_fault(),
    {
        HeaderStore { entries: Vec::new(), fault: None }
    }

    /// Makes every later removal fail with the given kind.
    pub fn inject_fault(&mut self, kind: StoreErrorKind)
        ensures
            final(self).entries == old(self).entries,
            final(self).fault == Some(kind),
    {
        self.fault = Some(kind);
    }

    /// Stores a header under its own digest.
    pub fn write(&mut self, h: Header)
        requires
            old(self).wf(),
        ensures
            final(self).wf(),
            final(self)@ == old(self)@.insert(h.digest, h@),
            final(self).fault == old(self).fault,
    {
        let mut single: Vec<HeaderDigest> = Vec::new();
        single.push(h.digest);
        let d = h.digest;
        self.purge(&single);
        proof {
            assert(single@[0] == d);
            assert(elems(single@).contains(d));
            assert(!map_of(header_entry_views(self.entries@)).contains_key(d));
            lemma_map_of_key(header_entry_views(self.entries@), d);
            assert(header_entry_views(self.entries@.push((d, h)))
                =~= header_entry_views(self.entries@).push((d, h@)));
            assert(map_of(header_entry_views(self.entries@).push((d, h@)))
                == map_of(header_entry_views(self.entries@)).insert(d, h@)) by {
                assert(header_entry_views(self.entries@).push((d, h@)).drop_last()
                    =~= header_entry_views(self.entries@));
            }
            assert(old(self)@.remove_keys(elems(single@)).insert(d, h@)
                =~= old(self)@.insert(d, h@));
        }
        let ghost pre = self.entries@;
        self.entries.push((d, h));
        proof {
            assert forall|i: int, j: int| 0 <= i < j < header_entry_views(self.entries@).len()
                implies (#[trigger] header_entry_views(self.entries@)[i]).0
                != (#[trigger] header_entry_views(self.entries@)[j]).0 by {
                if j == self.entries@.len() - 1 {
                    assert(!map_of(header_entry_views(pre)).contains_key(d));
                    lemma_map_of_key(header_entry_views(pre), d);
                    assert(header_entry_views(self.entries@)[i]
                        == header_entry_views(pre)[i]);
                }
            }
        }
    }

    /// Does the store hold a header under this digest?
    pub fn contains(&self, d: HeaderDigest) -> (b: bool)
        requires
            self.wf(),
        ensures
            b == self@.contains_key(d),
    {
        let mut i: usize = 0;
        while i < self.entries.len()
            invariant
                i <= self.entries.len(),
                forall|j: int| 0 <= j < i ==> (#[trigger] self.entries@[j]).0 != d,
                self.wf(),
            decreases self.entries.len() - i,
        {
            if self.entries[i].0.0 == d.0 {
                proof {
                    lemma_map_of_index(header_entry_views(self.entries@), i as int);
                }
                return true;
            }
            i = i + 1;
        }
        proof {
            lemma_map_of_key(header_entry_views(self.entries@), d);
        }
        false
    }

    /// Batched removal; idempotent on absent keys. Fails, mutating nothing,
    /// exactly when a fault is present.
    pub fn remove_all(&mut self, keys: &Vec<HeaderDigest>) -> (r: Result<(), StoreErrorKind>)
        requires
            old(self).wf(),
        ensures
            final(self).wf(),
            final(self).fault == old(self).fault,
            old(self).fault matches Some(k) ==> r == Err::<(), StoreErrorKind>(k) && *final(self)
                == *old(self),
            old(self).fault is None ==> r == Ok::<(), StoreErrorKind>(()) && final(self)@ == old(
                self,
            )@.remove_keys(elems(keys@)),
    {
        if let Some(kind) = self.fault {
            return Err(kind);
        }
        self.purge(keys);
        Ok(())
    }

    /// Rebuilds the entry list without the given keys.
    fn purge(&mut self, keys: &Vec<HeaderDigest>)
        requires
            old(self).wf(),
        ensures
            final(self).wf(),
            final(self)@ == old(self)@.remove_keys(elems(keys@)),
            final(self).fault == old(self).fault,
    {
        let ghost orig = self.entries@;
        let ghost ks = elems(keys@);
        let mut kept: Vec<(HeaderDigest, Header)> = Vec::new();
        let mut i: usize = 0;
        while i < self.entries.len()
            invariant
                i <= self.entries.len(),
                self.entries@ == orig,
                distinct_keys(header_entry_views(orig)),
                forall|j: int| 0 <= j < orig.len() ==> (#[trigger] orig[j]).0 == orig[j].1.digest,
                ks == elems(keys@),
                map_of(header_entry_views(kept@)) == map_of(
                    header_entry_views(orig.take(i as int)),
                ).remove_keys(ks),
                forall|a: int| 0 <= a < kept@.len() ==> exists|b: int|
                    0 <= b < i && (#[trigger] kept@[a]).0 == orig[b].0,
                forall|a: int| 0 <= a < kept@.len() ==> (#[trigger] kept@[a]).0
                    == kept@[a].1.digest,
                distinct_keys(header_entry_views(kept@)),
            decreases self.entries.len() - i,
        {
            let key = self.entries[i].0;
            proof {
                assert(header_entry_views(orig.take(i + 1))
                    =~= header_entry_views(orig.take(i as int)).push((orig[i as int].0,
                    orig[i as int].1@)));
                assert(map_of(header_entry_views(orig.take(i + 1)))
                    == map_of(header_entry_views(orig.take(i as int))).insert(orig[i as int].0,
                    orig[i as int].1@)) by {
                    assert(header_entry_views(orig.take(i as int)).push((orig[i as int].0,
                        orig[i as int].1@)).drop_last()
                        =~= header_entry_views(orig.take(i as int)));
                }
            }
            if contains_header_digest(keys, key) {
                proof {
                    lemma_insert_then_remove_keys_absorbed(
                        map_of(header_entry_views(orig.take(i as int))),
                        orig[i as int].0,
                        orig[i as int].1@,
                        ks,
                    );
                }
            } else {
                let value = copy_header(&self.entries[i].1);
                proof {
                    lemma_insert_then_remove_keys_commutes(
                        map_of(header_entry_views(orig.take(i as int))),
                        orig[i as int].0,
                        orig[i as int].1@,
                        ks,
                    );
                    assert(header_entry_views(kept@.push((key, value)))
                        =~= header_entry_views(kept@).push((key, value@)));
                    assert(map_of(header_entry_views(kept@).push((key, value@)))
                        == map_of(header_entry_views(kept@)).insert(key, value@)) by {
                        assert(header_entry_views(kept@).push((key, value@)).drop_last()
                            =~= header_entry_views(kept@));
                    }
                    assert(value@ == orig[i as int].1@);
                }
                let ghost pre = kept@;
                kept.push((key, value));
                proof {
                    assert forall|a: int, c: int|
                        0 <= a < c < header_entry_views(kept@).len() implies
                        (#[trigger] header_entry_views(kept@)[a]).0
                        != (#[trigger] header_entry_views(kept@)[c]).0 by {
                        assert(header_entry_views(kept@)[a].0 == kept@[a].0);
                        assert(header_entry_views(kept@)[c].0 == kept@[c].0);
                        if c == kept@.len() - 1 {
                            let b = choose|b: int| 0 <= b < i && (#[trigger] pre[a]).0
                                == orig[b].0;
                            assert(header_entry_views(orig)[b].0 == orig[b].0);
                            assert(header_entry_views(orig)[i as int].0 == orig[i as int].0);
                            assert(orig[b].0 != orig[i as int].0);
                        } else {
                            assert(kept@[a] == pre[a]);
                            assert(kept@[c] == pre[c]);
                            assert(header_entry_views(pre)[a].0 == pre[a].0);
                            assert(header_entry_views(pre)[c].0 == pre[c].0);
                        }
                    }
                }
            }
            i = i + 1;
        }
        proof {
            assert(orig.take(orig.len() as int) =~= orig);
        }
        self.entries = kept;
    }
}

/// Certificate store: certificate digest to certificate. The authoritative
/// record of which certificates still exist; read at the start of a removal
/// and purged only as its very last step. Reads and deletions can each be
/// made to fail independently, as in a real storage engine.
pub struct CertificateStore {
    pub entries: Vec<(CertificateDigest, Certificate)>,
    pub read_fault: Option<StoreErrorKind>,
    pub delete_fault: Option<StoreErrorKind>,
}

impl View for CertificateStore {
    type V = Map<CertificateDigest, CertificateView>;

    open spec fn view(&self) -> Map<CertificateDigest, CertificateView> {
        map_of(certificate_entry_views(self.entries@))
    }
}

impl CertificateStore {
    /// Keys are unique and each entry is keyed by its certificate's digest.
    pub open spec fn wf(self) -> bool {
        &&& distinct_keys(certificate_entry_views(self.entries@))
        &&& forall|i: int| 0 <= i < self.entries@.len() ==> (#[trigger] self.entries@[i]).0
            == self.entries@[i].1.digest
    }

    pub open spec fn has_read_fault(self) -> bool {
        self.read_fault is Some
    }

    pub open spec fn has_delete_fault(self) -> bool {
        self.delete_fault is Some
    }

    pub fn new() -> (s: Self)
        ensures
            s.wf(),
            s@ == Map::<CertificateDigest, CertificateView>::empty(),
            !s.has_read_fault(),
            !s.has_delete_fault(),
    {
        CertificateStore { entries: Vec::new(), read_fault: None, delete_fault: None }
    }

    /// Makes every later read fail with the given kind.
    pub fn inject_read_fault(&mut self, kind: StoreErrorKind)
        ensures
            final(self).entries == old(self).entries,
            final(self).read_fault == Some(kind),
            final(self).delete_fault == old(self).delete_fault,
    {
        self.read_fault = Some(kind);
    }

    /// Makes every later deletion fail with the given kind.
    pub fn inject_delete_fault(&mut self, kind: StoreErrorKind)
        ensures
            final(self).entries == old(self).entries,
            final(self).delete_fault == Some(kind),
            final(self).read_fault == old(self).read_fault,
    {
        self.delete_fault = Some(kind);
    }

    /// Stores a certificate under its own digest.
    pub fn write(&mut self, c: Certificate)
        requires
            old(self).wf(),
        ensures
            final(self).wf(),
            final(self)@ == old(self)@.insert(c.digest, c@),
            final(self).read_fault == old(self).read_fault,
            final(self).delete_fault == old(self).delete_fault,
    {
        let mut single: Vec<CertificateDigest> = Vec::new();
        single.push(c.digest);
        let d = c.digest;
        self.purge(&single);
        proof {
            assert(single@[0] == d);
            assert(elems(single@).contains(d));
            assert(!map_of(certificate_entry_views(self.entries@)).contains_key(d));
            lemma_map_of_key(certificate_entry_views(self.entries@), d);
            assert(certificate_entry_views(self.entries@.push((d, c)))
                =~= certificate_entry_views(self.entries@).push((d, c@)));
            assert(map_of(certificate_entry_views(self.entries@).push((d, c@)))
                == map_of(certificate_entry_views(self.entries@)).insert(d, c@)) by {
                assert(certificate_entry_views(self.entries@).push((d, c@)).drop_last()
                    =~= certificate_entry_views(self.entries@));
            }
            assert(old(self)@.remove_keys(elems(single@)).insert(d, c@)
                =~= old(self)@.insert(d, c@));
        }
        let ghost pre = self.entries@;
        self.entries.push((d, c));
        proof {
            assert forall|i: int, j: int|
                0 <= i < j < certificate_entry_views(self.entries@).len() implies
                (#[trigger] certificate_entry_views(self.entries@)[i]).0
                != (#[trigger] certificate_entry_views(self.entries@)[j]).0 by {
                if j == self.entries@.len() - 1 {
                    assert(!map_of(certificate_entry_views(pre)).contains_key(d));
                    lemma_map_of_key(certificate_entry_views(pre), d);
                    assert(certificate_entry_views(self.entries@)[i]
                        == certificate_entry_views(pre)[i]);
                }
            }
        }
    }

    /// Does the store hold a certificate under this digest?
    pub fn contains(&self, d: CertificateDigest) -> (b: bool)
        requires
            self.wf(),
        ensures
            b == self@.contains_key(d),
    {
        let mut i: usize = 0;
        while i < self.entries.len()
            invariant
                i <= self.entries.len(),
                forall|j: int| 0 <= j < i ==> (#[trigger] self.entries@[j]).0 != d,
                self.wf(),
            decreases self.entries.len() - i,
        {
            if self.entries[i].0.0 == d.0 {
                proof {
                    lemma_map_of_index(certificate_entry_views(self.entries@), i as int);
                }
                return true;
            }
            i = i + 1;
        }
        proof {
            lemma_map_of_key(certificate_entry_views(self.entries@), d);
        }
        false
    }

    /// Reads one certificate; absence is not an error.
    fn read_one(&self, d: CertificateDigest) -> (r: Option<Certificate>)
        requires
            self.wf(),
        ensures
            self@.contains_key(d) ==> (r matches Some(c) && c@ == self@[d]),
            !self@.contains_key(d) ==> r is None,
    {
        let mut i: usize = 0;
        while i < self.entries.len()
            invariant
                i <= self.entries.len(),
                forall|j: int| 0 <= j < i ==> (#[trigger] self.entries@[j]).0 != d,
                self.wf(),
            decreases self.entries.len() - i,
        {
            if self.entries[i].0.0 == d.0 {
                proof {
                    lemma_map_of_index(certificate_entry_views(self.entries@), i as int);
                }
                return Some(copy_certificate(&self.entries[i].1));
            }
            i = i + 1;
        }
        proof {
            lemma_map_of_key(certificate_entry_views(self.entries@), d);
        }
        None
    }

    /// Batched point lookup: one slot per requested digest, in request
    /// order; a missing digest yields `None`, not an error. Fails exactly
    /// when a read fault is present.
    pub fn read_all(&self, ids: &Vec<CertificateDigest>) -> (r: Result<
        Vec<Option<Certificate>>,
        StoreErrorKind,
    >)
        requires
            self.wf(),
        ensures
            self.read_fault matches Some(k) ==> r == Err::<Vec<Option<Certificate>>,
                StoreErrorKind>(k),
            self.read_fault is None ==> (r matches Ok(found) && found@.len() == ids@.len()
                && forall|i: int| 0 <= i < ids@.len() ==> {
                    &&& self@.contains_key(ids@[i]) ==> ((#[trigger] found@[i]) matches Some(c)
                        && c@ == self@[ids@[i]])
                    &&& !self@.contains_key(ids@[i]) ==> found@[i] is None
                }),
    {
        if let Some(kind) = self.read_fault {
            return Err(kind);
        }
        let mut found: Vec<Option<Certificate>> = Vec::new();
        let mut i: usize = 0;
        while i < ids.len()
            invariant
                i <= ids.len(),
                self.wf(),
                self.read_fault is None,
                found@.len() == i,
                forall|j: int| 0 <= j < i ==> {
                    &&& self@.contains_key(ids@[j]) ==> ((#[trigger] found@[j]) matches Some(c)
                        && c@ == self@[ids@[j]])
                    &&& !self@.contains_key(ids@[j]) ==> found@[j] is None
                },
            decreases ids.len() - i,
        {
            found.push(self.read_one(ids[i]));
            i = i + 1;
        }
        Ok(found)
    }

    /// Batched removal, the synchronous variant used for the certificate
    /// store; idempotent on absent keys. Fails, mutating nothing, exactly
    /// when a delete fault is present.
    pub fn delete_all(&mut self, keys: &Vec<CertificateDigest>) -> (r: Result<
        (),
        StoreErrorKind,
    >)
        requires
            old(self).wf(),
        ensures
            final(self).wf(),
            final(self).read_fault == old(self).read_fault,
            final(self).delete_fault == old(self).delete_fault,
            old(self).delete_fault matches Some(k) ==> r == Err::<(), StoreErrorKind>(k)
                && *final(self) == *old(self),
            old(self).delete_fault is None ==> r == Ok::<(), StoreErrorKind>(()) && final(self)@
                == old(self)@.remove_keys(elems(keys@)),
    {
        if let Some(kind) = self.delete_fault {
            return Err(kind);
        }
        self.purge(keys);
        Ok(())
    }

    /// Rebuilds the entry list without the given keys.
    fn purge(&mut self, keys: &Vec<CertificateDigest>)
        requires
            old(self).wf(),
        ensures
            final(self).wf(),
            final(self)@ == old(self)@.remove_keys(elems(keys@)),
            final(self).read_fault == old(self).read_fault,
            final(self).delete_fault == old(self).delete_fault,
    {
        let ghost orig = self.entries@;
        let ghost ks = elems(keys@);
        let mut kept: Vec<(CertificateDigest, Certificate)> = Vec::new();
        let mut i: usize = 0;
        while i < self.entries.len()
            invariant
                i <= self.entries.len(),
                self.entries@ == orig,
                distinct_keys(certificate_entry_views(orig)),
                forall|j: int| 0 <= j < orig.len() ==> (#[trigger] orig[j]).0 == orig[j].1.digest,
                ks == elems(keys@),
                map_of(certificate_entry_views(kept@)) == map_of(
                    certificate_entry_views(orig.take(i as int)),
                ).remove_keys(ks),
                forall|a: int| 0 <= a < kept@.len() ==> exists|b: int|
                    0 <= b < i && (#[trigger] kept@[a]).0 == orig[b].0,
                forall|a: int| 0 <= a < kept@.len() ==> (#[trigger] kept@[a]).0
                    == kept@[a].1.digest,
                distinct_keys(certificate_entry_views(kept@)),
            decreases self.entries.len() - i,
        {
            let key = self.entries[i].0;
            proof {
                assert(certificate_entry_views(orig.take(i + 1))
                    =~= certificate_entry_views(orig.take(i as int)).push((orig[i as int].0,
                    orig[i as int].1@)));
                assert(map_of(certificate_entry_views(orig.take(i + 1)))
                    == map_of(certificate_entry_views(orig.take(i as int))).insert(
                    orig[i as int].0,
                    orig[i as int].1@,
                )) by {
                    assert(certificate_entry_views(orig.take(i as int)).push((orig[i as int].0,
                        orig[i as int].1@)).drop_last()
                        =~= certificate_entry_views(orig.take(i as int)));
                }
            }
            if contains_certificate_digest(keys, key) {
                proof {
                    lemma_insert_then_remove_keys_absorbed(
                        map_of(certificate_entry_views(orig.take(i as int))),
                        orig[i as int].0,
                        orig[i as int].1@,
                        ks,
                    );
                }
            } else {
                let value = copy_certificate(&self.entries[i].1);
                proof {
                    lemma_insert_then_remove_keys_commutes(
                        map_of(certificate_entry_views(orig.take(i as int))),
                        orig[i as int].0,
                        orig[i as int].1@,
                        ks,
                    );
                    assert(certificate_entry_views(kept@.push((key, value)))
                        =~= certificate_entry_views(kept@).push((key, value@)));
                    assert(map_of(certificate_entry_views(kept@).push((key, value@)))
                        == map_of(certificate_entry_views(kept@)).insert(key, value@)) by {
                        assert(certificate_entry_views(kept@).push((key, value@)).drop_last()
                            =~= certificate_entry_views(kept@));
                    }
                    assert(value@ == orig[i as int].1@);
                }
                let ghost pre = kept@;
                kept.push((key, value));
                proof {
                    assert forall|a: int, c: int|
                        0 <= a < c < certificate_entry_views(kept@).len() implies
                        (#[trigger] certificate_entry_views(kept@)[a]).0
                        != (#[trigger] certificate_entry_views(kept@)[c]).0 by {
                        assert(certificate_entry_views(kept@)[a].0 == kept@[a].0);
                        assert(certificate_entry_views(kept@)[c].0 == kept@[c].0);
                        if c == kept@.len() - 1 {
                            let b = choose|b: int| 0 <= b < i && (#[trigger] pre[a]).0
                                == orig[b].0;
                            assert(certificate_entry_views(orig)[b].0 == orig[b].0);
                            assert(certificate_entry_views(orig)[i as int].0
                                == orig[i as int].0);
                            assert(orig[b].0 != orig[i as int].0);
                        } else {
                            assert(kept@[a] == pre[a]);
                            assert(kept@[c] == pre[c]);
                            assert(certificate_entry_views(pre)[a].0 == pre[a].0);
                            assert(certificate_entry_views(pre)[c].0 == pre[c].0);
                        }
                    }
                }
            }
            i = i + 1;
        }
        proof {
            assert(orig.take(orig.len() as int) =~= orig);
        }
        self.entries = kept;
    }
}

} // verus!
