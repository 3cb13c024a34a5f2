//! Orchestrates the deletion of certificates across the worker fleet, the
//! two persistent stores and the DAG, in the fixed order that keeps every
//! partial failure retryable: headers first, then payload markers, then DAG
//! entries, and the certificates themselves last, so that an aborted
//! attempt always leaves the certificates discoverable for a repeat.

use vstd::prelude::*;
use crate::channel::CertificateSender;
use crate::dag::Dag;
use crate::errors::{BlockRemovalError, CleanupError, NetworkErrorKind};
use crate::kv::{elems, lemma_push_preserves_contains};
use crate::network::{WorkerCache, WorkerNetwork};
use crate::stores::{CertificateStore, HeaderStore, PayloadStore};
use crate::types::{BatchDigest, Certificate, CertificateDigest, CertificateView,
    copy_certificate, HeaderDigest, NetworkPublicKey, PublicKey, sat_add_u64, WorkerId};

verus! {

/// The views of a certificate list.
pub open spec fn cert_views(s: Seq<Certificate>) -> Seq<CertificateView> {
    s.map_values(|c: Certificate| c@)
}

/// The certificates a store holds among the requested digests, in request
/// order; missing digests contribute nothing.
pub open spec fn certs_found(
    m: Map<CertificateDigest, CertificateView>,
    ids: Seq<CertificateDigest>,
) -> Seq<CertificateView>
    decreases ids.len(),
{
    if ids.len() == 0 {
        Seq::empty()
    } else {
        let rest = certs_found(m, ids.drop_last());
        if m.contains_key(ids.last()) {
            rest.push(m[ids.last()])
        } else {
            rest
        }
    }
}

/// All (batch digest, worker) pairs referenced by these certificates, in
/// certificate order.
pub open spec fn payload_pairs(cs: Seq<CertificateView>) -> Seq<(BatchDigest, WorkerId)>
    decreases cs.len(),
{
    if cs.len() == 0 {
        Seq::empty()
    } else {
        payload_pairs(cs.drop_last()) + cs.last().header.payload
    }
}

/// The header digests referenced by these certificates, in order.
pub open spec fn header_ids(cs: Seq<CertificateView>) -> Seq<HeaderDigest> {
    cs.map_values(|c: CertificateView| c.header.digest)
}

/// The digests of these certificates, in order.
pub open spec fn cert_ids(cs: Seq<CertificateView>) -> Seq<CertificateDigest> {
    cs.map_values(|c: CertificateView| c.digest)
}

/// The workers owning at least one of these pairs, in first-appearance
/// order.
pub open spec fn worker_order(ps: Seq<(BatchDigest, WorkerId)>) -> Seq<WorkerId>
    decreases ps.len(),
{
    if ps.len() == 0 {
        Seq::empty()
    } else {
        let rest = worker_order(ps.drop_last());
        if rest.contains(ps.last().1) {
            rest
        } else {
            rest.push(ps.last().1)
        }
    }
}

/// The batch digests these pairs assign to one worker, in order.
pub open spec fn batches_for(ps: Seq<(BatchDigest, WorkerId)>, w: WorkerId) -> Seq<BatchDigest>
    decreases ps.len(),
{
    if ps.len() == 0 {
        Seq::empty()
    } else {
        let rest = batches_for(ps.drop_last(), w);
        if ps.last().1 == w {
            rest.push(ps.last().0)
        } else {
            rest
        }
    }
}

/// A worker is in the order exactly when it owns some pair.
pub proof fn lemma_worker_order_contains(ps: Seq<(BatchDigest, WorkerId)>, w: WorkerId)
    ensures
        worker_order(ps).contains(w) <==> exists|i: int|
            0 <= i < ps.len() && (#[trigger] ps[i]).1 == w,
    decreases ps.len(),
{
    if ps.len() > 0 {
        let rest = ps.drop_last();
        lemma_worker_order_contains(rest, w);
        lemma_push_preserves_contains(worker_order(rest), ps.last().1);
        if worker_order(ps).contains(w) {
            if worker_order(rest).contains(w) {
                let i = choose|i: int| 0 <= i < rest.len() && (#[trigger] rest[i]).1 == w;
                assert(ps[i].1 == w);
            } else {
                assert(!worker_order(rest).contains(ps.last().1));
                let j = choose|j: int|
                    0 <= j < worker_order(ps).len() && worker_order(ps)[j] == w;
                if j < worker_order(rest).len() {
                    assert(worker_order(rest)[j] == w);
                    assert(worker_order(rest).contains(w));
                    assert(false);
                } else {
                    assert(w == ps.last().1);
                    assert(ps[ps.len() - 1].1 == w);
                }
            }
        }
        if exists|i: int| 0 <= i < ps.len() && (#[trigger] ps[i]).1 == w {
            let i = choose|i: int| 0 <= i < ps.len() && (#[trigger] ps[i]).1 == w;
            if i < ps.len() - 1 {
                assert(rest[i].1 == w);
                assert(worker_order(rest).contains(w));
            } else {
                assert(ps.last().1 == w);
                if !worker_order(rest).contains(w) {
                    assert(worker_order(ps) == worker_order(rest).push(w));
                }
            }
        }
    }
}

/// Does a worker id list hold this id?
fn contains_worker_id(ws: &Vec<WorkerId>, w: WorkerId) -> (b: bool)
    ensures
        b == ws@.contains(w),
{
    let mut i: usize = 0;
    while i < ws.len()
        invariant
            i <= ws.len(),
            forall|j: int| 0 <= j < i ==> ws@[j] != w,
        decreases ws.len() - i,
    {
        if ws[i] == w {
            return true;
        }
        i = i + 1;
    }
    false
}

/// Flattens the batch references of a certificate list.
fn collect_payload_pairs(certs: &Vec<Certificate>) -> (ps: Vec<(BatchDigest, WorkerId)>)
    ensures
        ps@ == payload_pairs(cert_views(certs@)),
{
    let mut ps: Vec<(BatchDigest, WorkerId)> = Vec::new();
    let mut i: usize = 0;
    while i < certs.len()
        invariant
            i <= certs.len(),
            ps@ == payload_pairs(cert_views(certs@.take(i as int))),
        decreases certs.len() - i,
    {
        let ghost before = cert_views(certs@.take(i as int));
        let payload = &certs[i].header.payload;
        let mut j: usize = 0;
        while j < payload.len()
            invariant
                j <= payload.len(),
                payload == &certs@[i as int].header.payload,
                i < certs@.len(),
                ps@ == payload_pairs(before) + payload@.take(j as int),
                before == cert_views(certs@.take(i as int)),
            decreases payload.len() - j,
        {
            ps.push(payload[j]);
            proof {
                assert(payload@.take(j + 1) =~= payload@.take(j as int).push(payload@[j as int]));
                assert(payload_pairs(before) + payload@.take(j + 1) =~= (payload_pairs(before)
                    + payload@.take(j as int)).push(payload@[j as int]));
            }
            j = j + 1;
        }
        proof {
            let next = cert_views(certs@.take(i + 1));
            assert(next.drop_last() =~= before);
            assert(next.last() == certs@[i as int]@);
            assert(payload@.take(payload@.len() as int) =~= payload@);
            assert(payload_pairs(next) == payload_pairs(before) + certs@[i as int]@.header.payload);
        }
        i = i + 1;
    }
    proof {
        assert(certs@.take(certs@.len() as int) =~= certs@);
    }
    ps
}

/// Lists the header digests of a certificate list.
fn collect_header_ids(certs: &Vec<Certificate>) -> (r: Vec<HeaderDigest>)
    ensures
        r@ == header_ids(cert_views(certs@)),
{
    let mut r: Vec<HeaderDigest> = Vec::new();
    let mut i: usize = 0;
    while i < certs.len()
        invariant
            i <= certs.len(),
            r@ == header_ids(cert_views(certs@.take(i as int))),
        decreases certs.len() - i,
    {
        r.push(certs[i].header.digest);
        proof {
            assert(header_ids(cert_views(certs@.take(i + 1))) =~= header_ids(
                cert_views(certs@.take(i as int)),
            ).push(certs@[i as int]@.header.digest));
        }
        i = i + 1;
    }
    proof {
        assert(certs@.take(certs@.len() as int) =~= certs@);
    }
    r
}

/// Lists the digests of a certificate list.
fn collect_cert_ids(certs: &Vec<Certificate>) -> (r: Vec<CertificateDigest>)
    ensures
        r@ == cert_ids(cert_views(certs@)),
{
    let mut r: Vec<CertificateDigest> = Vec::new();
    let mut i: usize = 0;
    while i < certs.len()
        invariant
            i <= certs.len(),
            r@ == cert_ids(cert_views(certs@.take(i as int))),
        decreases certs.len() - i,
    {
        r.push(certs[i].digest);
        proof {
            assert(cert_ids(cert_views(certs@.take(i + 1))) =~= cert_ids(
                cert_views(certs@.take(i as int)),
            ).push(certs@[i as int]@.digest));
        }
        i = i + 1;
    }
    proof {
        assert(certs@.take(certs@.len() as int) =~= certs@);
    }
    r
}

/// The workers of a group list, in order.
pub open spec fn group_workers(gs: Seq<(WorkerId, Vec<BatchDigest>)>) -> Seq<WorkerId> {
    gs.map_values(|g: (WorkerId, Vec<BatchDigest>)| g.0)
}

/// Partitions the certificates' batch references by owning worker: one
/// group per implicated worker, in first-appearance order, carrying every
/// batch digest assigned to that worker.
pub fn group_batches_by_worker(certs: &Vec<Certificate>) -> (groups: Vec<
    (WorkerId, Vec<BatchDigest>),
>)
    ensures
        group_workers(groups@) == worker_order(payload_pairs(cert_views(certs@))),
        forall|k: int| 0 <= k < groups@.len() ==> (#[trigger] groups@[k]).1@ == batches_for(
            payload_pairs(cert_views(certs@)),
            groups@[k].0,
        ),
{
    let pairs = collect_payload_pairs(certs);
    let mut workers: Vec<WorkerId> = Vec::new();
    let mut j: usize = 0;
    while j < pairs.len()
        invariant
            j <= pairs.len(),
            workers@ == worker_order(pairs@.take(j as int)),
        decreases pairs.len() - j,
    {
        proof {
            assert(pairs@.take(j + 1).drop_last() =~= pairs@.take(j as int));
            assert(pairs@.take(j + 1).last() == pairs@[j as int]);
        }
        if !contains_worker_id(&workers, pairs[j].1) {
            workers.push(pairs[j].1);
        }
        j = j + 1;
    }
    proof {
        assert(pairs@.take(pairs@.len() as int) =~= pairs@);
    }
    let mut groups: Vec<(WorkerId, Vec<BatchDigest>)> = Vec::new();
    let mut k: usize = 0;
    while k < workers.len()
        invariant
            k <= workers.len(),
            workers@ == worker_order(pairs@),
            pairs@ == payload_pairs(cert_views(certs@)),
            group_workers(groups@) == workers@.take(k as int),
            forall|a: int| 0 <= a < groups@.len() ==> (#[trigger] groups@[a]).1@ == batches_for(
                pairs@,
                groups@[a].0,
            ),
        decreases workers.len() - k,
    {
        let w = workers[k];
        let mut bs: Vec<BatchDigest> = Vec::new();
        let mut j2: usize = 0;
        while j2 < pairs.len()
            invariant
                j2 <= pairs.len(),
                bs@ == batches_for(pairs@.take(j2 as int), w),
            decreases pairs.len() - j2,
        {
            proof {
                assert(pairs@.take(j2 + 1).drop_last() =~= pairs@.take(j2 as int));
                assert(pairs@.take(j2 + 1).last() == pairs@[j2 as int]);
            }
            if pairs[j2].1 == w {
                bs.push(pairs[j2].0);
            }
            j2 = j2 + 1;
        }
        proof {
            assert(pairs@.take(pairs@.len() as int) =~= pairs@);
        }
        let ghost pre = groups@;
        groups.push((w, bs));
        proof {
            assert(group_workers(groups@) =~= group_workers(pre).push(w));
            assert(workers@.take(k + 1) =~= workers@.take(k as int).push(workers@[k as int]));
            assert forall|a: int| 0 <= a < groups@.len() implies (#[trigger] groups@[a]).1@
                == batches_for(pairs@, groups@[a].0) by {
                if a < pre.len() {
                    assert(groups@[a] == pre[a]);
                }
            }
        }
        k = k + 1;
    }
    proof {
        assert(workers@.take(workers@.len() as int) =~= workers@);
    }
    groups
}

/// The delete-batches calls a removal of these certificates issues: one
/// call per implicated worker, in first-appearance order, carrying every
/// batch digest owned by that worker.
pub open spec fn delete_calls(
    cs: Seq<CertificateView>,
    cm: Map<WorkerId, NetworkPublicKey>,
) -> Seq<(NetworkPublicKey, Seq<BatchDigest>)> {
    worker_order(payload_pairs(cs)).map_values(
        |w: WorkerId| (cm[w], batches_for(payload_pairs(cs), w)),
    )
}

/// The certificate store's map after a successful removal of `ids`: what
/// `remove_blocks` leaves behind when every step goes through.
pub open spec fn after_removal(
    m: Map<CertificateDigest, CertificateView>,
    ids: Seq<CertificateDigest>,
) -> Map<CertificateDigest, CertificateView> {
    m.remove_keys(elems(cert_ids(certs_found(m, ids))))
}

/// A digest names a found certificate exactly when it was requested and
/// the store holds it (given that the store keys certificates by their own
/// digest).
pub proof fn lemma_found_members(
    m: Map<CertificateDigest, CertificateView>,
    ids: Seq<CertificateDigest>,
)
    requires
        forall|d: CertificateDigest| #[trigger] m.contains_key(d) ==> m[d].digest == d,
    ensures
        forall|d: CertificateDigest| #[trigger] cert_ids(certs_found(m, ids)).contains(d)
            <==> m.contains_key(d) && ids.contains(d),
    decreases ids.len(),
{
    if ids.len() == 0 {
        assert(certs_found(m, ids).len() == 0);
        assert forall|d: CertificateDigest| !(#[trigger] cert_ids(certs_found(m, ids)).contains(
            d,
        )) && !ids.contains(d) by {
            if cert_ids(certs_found(m, ids)).contains(d) {
                let j = choose|j: int|
                    0 <= j < cert_ids(certs_found(m, ids)).len() && cert_ids(certs_found(m, ids))[j]
                        == d;
            }
            if ids.contains(d) {
                let i = choose|i: int| 0 <= i < ids.len() && ids[i] == d;
            }
        }
    } else {
        let rest = ids.drop_last();
        let last = ids.last();
        lemma_found_members(m, rest);
        let csr = certs_found(m, rest);
        let cs = certs_found(m, ids);
        assert forall|d: CertificateDigest| #[trigger] cert_ids(cs).contains(d) implies
            m.contains_key(d) && ids.contains(d) by {
            let j = choose|j: int| 0 <= j < cert_ids(cs).len() && cert_ids(cs)[j] == d;
            assert(cs[j].digest == d);
            if m.contains_key(last) && j == csr.len() {
                assert(cs[j] == m[last]);
                assert(d == last);
                assert(ids[ids.len() - 1] == d);
            } else {
                assert(cs[j] == csr[j]);
                assert(cert_ids(csr)[j] == d);
                assert(cert_ids(csr).contains(d));
                let i = choose|i: int| 0 <= i < rest.len() && rest[i] == d;
                assert(ids[i] == d);
            }
        }
        assert forall|d: CertificateDigest| m.contains_key(d) && ids.contains(d) implies
            #[trigger] cert_ids(cs).contains(d) by {
            let i = choose|i: int| 0 <= i < ids.len() && ids[i] == d;
            if i < ids.len() - 1 {
                assert(rest[i] == d);
                assert(rest.contains(d));
                assert(cert_ids(csr).contains(d));
                let j = choose|j: int| 0 <= j < cert_ids(csr).len() && cert_ids(csr)[j] == d;
                assert(cs[j] == csr[j]);
                assert(cert_ids(cs)[j] == d);
            } else {
                assert(d == last);
                assert(m.contains_key(last));
                assert(cs[cs.len() - 1] == m[last]);
                assert(cert_ids(cs)[cs.len() - 1] == m[last].digest);
            }
        }
    }
}

/// A request none of whose digests the store holds finds nothing.
pub proof fn lemma_found_empty(
    m: Map<CertificateDigest, CertificateView>,
    ids: Seq<CertificateDigest>,
)
    requires
        forall|i: int| 0 <= i < ids.len() ==> !m.contains_key(#[trigger] ids[i]),
    ensures
        certs_found(m, ids).len() == 0,
    decreases ids.len(),
{
    if ids.len() > 0 {
        assert forall|i: int| 0 <= i < ids.drop_last().len() implies !m.contains_key(
            #[trigger] ids.drop_last()[i],
        ) by {
            assert(ids.drop_last()[i] == ids[i]);
        }
        lemma_found_empty(m, ids.drop_last());
        assert(!m.contains_key(ids[ids.len() - 1]));
    }
}

/// Removal is idempotent. After a successful removal of a digest list, a
/// second removal with the same list (or any list of already-removed or
/// never-existing digests) finds no certificate, and so removes nothing
/// further: the certificate store is left exactly as it was.
pub proof fn lemma_removal_idempotent(
    m: Map<CertificateDigest, CertificateView>,
    ids: Seq<CertificateDigest>,
)
    requires
        forall|d: CertificateDigest| #[trigger] m.contains_key(d) ==> m[d].digest == d,
    ensures
        certs_found(after_removal(m, ids), ids).len() == 0,
        after_removal(after_removal(m, ids), ids) == after_removal(m, ids),
{
    let m1 = after_removal(m, ids);
    lemma_found_members(m, ids);
    assert forall|i: int| 0 <= i < ids.len() implies !m1.contains_key(#[trigger] ids[i]) by {
        let d = ids[i];
        if m.contains_key(d) {
            assert(ids.contains(d));
            assert(cert_ids(certs_found(m, ids)).contains(d));
            assert(elems(cert_ids(certs_found(m, ids))).contains(d));
        }
    }
    lemma_found_empty(m1, ids);
    let empty_ids = cert_ids(certs_found(m1, ids));
    assert(empty_ids.len() == 0);
    assert forall|d: CertificateDigest| !(#[trigger] elems(empty_ids).contains(d)) by {
        if empty_ids.contains(d) {
            let j = choose|j: int| 0 <= j < empty_ids.len() && empty_ids[j] == d;
        }
    }
    assert(after_removal(m1, ids) =~= m1);
}

/// Orchestrator of certificate deletion across the worker fleet, the two
/// persistent stores, the optional DAG, and the removed-certificates
/// output channel.
pub struct BlockRemover {
    /// The public key of this primary.
    pub name: PublicKey,
    /// The worker information cache.
    pub worker_cache: WorkerCache,
    /// Storage that keeps the certificates by their digest.
    pub certificate_store: CertificateStore,
    /// Storage that keeps the headers by their digest.
    pub header_store: HeaderStore,
    /// The persistent storage for payload markers from workers.
    pub payload_store: PayloadStore,
    /// The DAG structure managing the stored certificates, when attached.
    pub dag: Option<Dag>,
    /// Network client for the delete-batches calls to workers.
    pub worker_network: WorkerNetwork,
    /// Outputs all the successfully deleted certificates.
    pub tx_removed_certificates: CertificateSender,
    /// How many requested digests were absent from the certificate store,
    /// over all removals so far; an operator-visible measure of repeated
    /// or stale requests.
    pub missing_digest_count: u64,
}

impl BlockRemover {
    /// The stores and the cache are well formed.
    pub open spec fn wf(self) -> bool {
        &&& self.certificate_store.wf()
        &&& self.header_store.wf()
        &&& self.payload_store.wf()
        &&& self.worker_cache.wf()
    }

    /// The certificates the store holds among the requested digests.
    pub open spec fn found_for(self, ids: Seq<CertificateDigest>) -> Seq<CertificateView> {
        certs_found(self.certificate_store@, ids)
    }

    /// Every worker implicated by the requested digests is in the cache.
    /// A miss would be a corrupted committee view: a fatal programming
    /// error, excluded here rather than handled.
    pub open spec fn workers_known(self, ids: Seq<CertificateDigest>) -> bool {
        forall|i: int| 0 <= i < payload_pairs(self.found_for(ids)).len()
            ==> self.worker_cache@.contains_key(
            (#[trigger] payload_pairs(self.found_for(ids))[i]).1,
        )
    }

    /// Does the attached DAG refuse removals?
    pub open spec fn dag_fault(self) -> bool {
        self.dag matches Some(g) && g.has_fault()
    }

    /// Would some implicated worker's delete-batches call fail?
    pub open spec fn remote_gate_fails(self, ids: Seq<CertificateDigest>) -> bool {
        exists|k: int| 0 <= k < worker_order(payload_pairs(self.found_for(ids))).len()
            && self.worker_network.is_unreachable(
            self.worker_cache@[worker_order(payload_pairs(self.found_for(ids)))[k]],
        )
    }

    pub fn new(
        name: PublicKey,
        worker_cache: WorkerCache,
        certificate_store: CertificateStore,
        header_store: HeaderStore,
        payload_store: PayloadStore,
        dag: Option<Dag>,
        worker_network: WorkerNetwork,
        tx_removed_certificates: CertificateSender,
    ) -> (r: BlockRemover)
        ensures
            r.name == name,
            r.worker_cache == worker_cache,
            r.certificate_store == certificate_store,
            r.header_store == header_store,
            r.payload_store == payload_store,
            r.dag == dag,
            r.worker_network == worker_network,
            r.tx_removed_certificates == tx_removed_certificates,
            r.missing_digest_count == 0,
    {
        BlockRemover {
            name,
            worker_cache,
            certificate_store,
            header_store,
            payload_store,
            dag,
            worker_network,
            tx_removed_certificates,
            missing_digest_count: 0,
        }
    }

    /// Deletes all batches held by workers for the given certificates,
    /// then purges all local bookkeeping. Digests absent from the
    /// certificate store are not an error: they are counted and skipped.
    /// All delete-batches calls are issued; if any worker's call fails,
    /// nothing local is mutated. Only then does local cleanup run, in the
    /// fixed order of `cleanup_internal_state`.
    pub fn remove_blocks(&mut self, ids: Vec<CertificateDigest>) -> (r: Result<
        (),
        BlockRemovalError,
    >)
        requires
            old(self).wf(),
            old(self).tx_removed_certificates.receiver_alive,
            old(self).workers_known(ids@),
        ensures
            final(self).wf(),
            final(self).name == old(self).name,
            final(self).worker_cache == old(self).worker_cache,
            final(self).worker_network.unreachable == old(self).worker_network.unreachable,
            final(self).certificate_store.read_fault == old(self).certificate_store.read_fault,
            final(self).certificate_store.delete_fault == old(
                self,
            ).certificate_store.delete_fault,
            final(self).header_store.fault == old(self).header_store.fault,
            final(self).payload_store.fault == old(self).payload_store.fault,
            old(self).dag is None ==> final(self).dag is None,
            // Reading the certificate store.
            old(self).certificate_store.read_fault matches Some(k) ==> r == Err::<
                (),
                BlockRemovalError,
            >(BlockRemovalError::Storage(k)) && *final(self) == *old(self),
            !old(self).certificate_store.has_read_fault() ==> final(self).missing_digest_count
                == sat_add_u64(
                old(self).missing_digest_count,
                ids@.len() - old(self).found_for(ids@).len(),
            ),
            !old(self).certificate_store.has_read_fault() ==> final(self).worker_network@ == old(
                self,
            ).worker_network@ + delete_calls(old(self).found_for(ids@), old(self).worker_cache@),
            // The all-or-nothing remote gate: any failed worker call
            // aborts the removal with nothing local mutated.
            !old(self).certificate_store.has_read_fault() && old(self).remote_gate_fails(ids@)
                ==> r == Err::<(), BlockRemovalError>(
                BlockRemovalError::Network(NetworkErrorKind::Unreachable),
            ) && final(self).certificate_store == old(self).certificate_store && final(self).header_store == old(self).header_store && final(self).payload_store == old(
                self,
            ).payload_store && final(self).dag == old(self).dag && final(self).tx_removed_certificates == old(self).tx_removed_certificates,
            // Local cleanup, reached only when every remote deletion
            // succeeded: headers first.
            !old(self).certificate_store.has_read_fault() && !old(self).remote_gate_fails(ids@)
                ==> (old(self).header_store.fault matches Some(k) ==> r == Err::<
                (),
                BlockRemovalError,
            >(BlockRemovalError::Storage(k)) && final(self).header_store == old(self).header_store
                && final(self).payload_store == old(self).payload_store && final(self).dag == old(
                self,
            ).dag && final(self).certificate_store == old(self).certificate_store && final(self).tx_removed_certificates == old(self).tx_removed_certificates),
            !old(self).certificate_store.has_read_fault() && !old(self).remote_gate_fails(ids@)
                && !old(self).header_store.has_fault() ==> final(self).header_store@ == old(
                self,
            ).header_store@.remove_keys(elems(header_ids(old(self).found_for(ids@)))),
            // Then payload markers.
            !old(self).certificate_store.has_read_fault() && !old(self).remote_gate_fails(ids@)
                && !old(self).header_store.has_fault() ==> (old(
                self,
            ).payload_store.fault matches Some(k) ==> r == Err::<(), BlockRemovalError>(
                BlockRemovalError::Storage(k),
            ) && final(self).payload_store == old(self).payload_store && final(self).dag == old(
                self,
            ).dag && final(self).certificate_store == old(self).certificate_store && final(self).tx_removed_certificates == old(self).tx_removed_certificates),
            !old(self).certificate_store.has_read_fault() && !old(self).remote_gate_fails(ids@)
                && !old(self).header_store.has_fault() && !old(self).payload_store.has_fault()
                ==> final(self).payload_store@ == old(self).payload_store@.remove_keys(
                elems(payload_pairs(old(self).found_for(ids@))),
            ),
            // Then the DAG, when attached.
            !old(self).certificate_store.has_read_fault() && !old(self).remote_gate_fails(ids@)
                && !old(self).header_store.has_fault() && !old(self).payload_store.has_fault()
                ==> (old(self).dag matches Some(g) ==> (g.fault matches Some(k) ==> r == Err::<
                (),
                BlockRemovalError,
            >(BlockRemovalError::Dag(k)) && final(self).dag == old(self).dag && final(self).certificate_store == old(self).certificate_store && final(self).tx_removed_certificates == old(self).tx_removed_certificates)),
            !old(self).certificate_store.has_read_fault() && !old(self).remote_gate_fails(ids@)
                && !old(self).header_store.has_fault() && !old(self).payload_store.has_fault()
                ==> (old(self).dag matches Some(g) ==> (g.fault is None ==> (final(self).dag matches Some(g2) && g2@ == g@.difference(
                elems(cert_ids(old(self).found_for(ids@))),
            ) && g2.fault is None))),
            // The certificates last, so a failed attempt stays retryable.
            !old(self).certificate_store.has_read_fault() && !old(self).remote_gate_fails(ids@)
                && !old(self).header_store.has_fault() && !old(self).payload_store.has_fault()
                && !old(self).dag_fault() ==> (old(
                self,
            ).certificate_store.delete_fault matches Some(k) ==> r == Err::<
                (),
                BlockRemovalError,
            >(BlockRemovalError::Storage(k)) && final(self).certificate_store == old(
                self,
            ).certificate_store && final(self).tx_removed_certificates == old(
                self,
            ).tx_removed_certificates),
            !old(self).certificate_store.has_read_fault() && !old(self).remote_gate_fails(ids@)
                && !old(self).header_store.has_fault() && !old(self).payload_store.has_fault()
                && !old(self).dag_fault() && !old(self).certificate_store.has_delete_fault()
                ==> final(self).certificate_store@ == old(self).certificate_store@.remove_keys(
                elems(cert_ids(old(self).found_for(ids@))),
            ) && final(self).tx_removed_certificates@ == old(self).tx_removed_certificates@
                + old(self).found_for(ids@) && final(self).tx_removed_certificates.receiver_alive,
            // Success exactly when nothing in the pipeline failed.
            r == Ok::<(), BlockRemovalError>(()) <==> !old(self).certificate_store.has_read_fault()
                && !old(self).remote_gate_fails(ids@) && !old(self).header_store.has_fault()
                && !old(self).payload_store.has_fault() && !old(self).dag_fault() && !old(
                self,
            ).certificate_store.has_delete_fault(),
    {
        let ghost m = self.certificate_store@;
        let ghost cs = certs_found(m, ids@);
        // Look up certificates requested for removal.
        let found_opts = match self.certificate_store.read_all(&ids) {
            Ok(v) => v,
            Err(k) => {
                return Err(BlockRemovalError::Storage(k));
            },
        };
        let mut found: Vec<Certificate> = Vec::new();
        let mut missing: u64 = 0;
        let mut i: usize = 0;
        while i < found_opts.len()
            invariant
                i <= found_opts.len(),
                found_opts@.len() == ids@.len(),
                m == self.certificate_store@,
                forall|j: int| 0 <= j < ids@.len() ==> {
                    &&& m.contains_key(ids@[j]) ==> ((#[trigger] found_opts@[j]) matches Some(c)
                        && c@ == m[ids@[j]])
                    &&& !m.contains_key(ids@[j]) ==> found_opts@[j] is None
                },
                cert_views(found@) == certs_found(m, ids@.take(i as int)),
                missing as int == i - certs_found(m, ids@.take(i as int)).len(),
            decreases found_opts.len() - i,
        {
            proof {
                assert(ids@.take(i + 1).drop_last() =~= ids@.take(i as int));
                assert(ids@.take(i + 1).last() == ids@[i as int]);
            }
            match &found_opts[i] {
                Some(c) => {
                    let copied = copy_certificate(c);
                    found.push(copied);
                    proof {
                        assert(cert_views(found@) =~= certs_found(m, ids@.take(i as int)).push(
                            m[ids@[i as int]],
                        ));
                    }
                },
                None => {
                    missing = missing + 1;
                },
            }
            i = i + 1;
        }
        proof {
            assert(ids@.take(ids@.len() as int) =~= ids@);
            assert(cert_views(found@) == cs);
        }
        if missing > 0 {
            if self.missing_digest_count <= u64::MAX - missing {
                self.missing_digest_count = self.missing_digest_count + missing;
            } else {
                self.missing_digest_count = u64::MAX;
            }
        }
        // Send delete requests to individual workers; all calls are
        // issued, and any failure aborts before local cleanup.
        let groups = group_batches_by_worker(&found);
        let ghost ps = payload_pairs(cs);
        let ghost ws = worker_order(ps);
        let ghost cache_m = old(self).worker_cache@;
        let ghost net0 = self.worker_network@;
        let ghost miss1 = self.missing_digest_count;
        let mut any_failed = false;
        let mut k: usize = 0;
        while k < groups.len()
            invariant
                k <= groups.len(),
                old(self).wf(),
                old(self).workers_known(ids@),
                self.name == old(self).name,
                self.worker_cache == old(self).worker_cache,
                self.certificate_store == old(self).certificate_store,
                self.header_store == old(self).header_store,
                self.payload_store == old(self).payload_store,
                self.dag == old(self).dag,
                self.tx_removed_certificates == old(self).tx_removed_certificates,
                self.missing_digest_count == miss1,
                self.worker_network.unreachable == old(self).worker_network.unreachable,
                cache_m == old(self).worker_cache@,
                group_workers(groups@) == ws,
                forall|a: int| 0 <= a < groups@.len() ==> (#[trigger] groups@[a]).1@
                    == batches_for(ps, groups@[a].0),
                ws == worker_order(ps),
                ps == payload_pairs(cs),
                cs == certs_found(old(self).certificate_store@, ids@),
                groups@.len() == ws.len(),
                self.worker_network@ == net0 + delete_calls(cs, cache_m).take(k as int),
                any_failed <==> exists|a: int| 0 <= a < k
                    && self.worker_network.is_unreachable(cache_m[ws[a]]),
            decreases groups.len() - k,
        {
            let wid = groups[k].0;
            proof {
                assert(self.worker_cache.wf());
                assert(group_workers(groups@)[k as int] == wid);
                assert(ws[k as int] == wid);
                assert(ws.contains(wid));
                lemma_worker_order_contains(ps, wid);
                let i0 = choose|i: int| 0 <= i < ps.len() && (#[trigger] ps[i]).1 == wid;
                assert(payload_pairs(old(self).found_for(ids@))[i0] == ps[i0]);
                assert(old(self).worker_cache@.contains_key(wid));
            }
            let wkey = match self.worker_cache.worker(wid) {
                Some(x) => x,
                None => {
                    proof {
                        assert(false);
                    }
                    NetworkPublicKey(0)
                },
            };
            let ghost failed_before = any_failed;
            let res = self.worker_network.delete_batches(wkey, &groups[k].1);
            if res.is_err() {
                any_failed = true;
            }
            proof {
                assert(delete_calls(cs, cache_m)[k as int] == (cache_m[ws[k as int]],
                    batches_for(ps, ws[k as int])));
                assert(delete_calls(cs, cache_m).take(k + 1) =~= delete_calls(cs, cache_m).take(
                    k as int,
                ).push(delete_calls(cs, cache_m)[k as int]));
                assert(self.worker_network@ =~= net0 + delete_calls(cs, cache_m).take(k + 1));
                if res is Err {
                    assert(self.worker_network.is_unreachable(cache_m[ws[k as int]]));
                    assert(exists|a: int| 0 <= a < k + 1
                        && self.worker_network.is_unreachable(cache_m[ws[a]]));
                } else {
                    assert(!self.worker_network.is_unreachable(cache_m[ws[k as int]]));
                    if failed_before {
                        let a0 = choose|a: int| 0 <= a < k
                            && self.worker_network.is_unreachable(cache_m[ws[a]]);
                        assert(exists|a: int| 0 <= a < k + 1
                            && self.worker_network.is_unreachable(cache_m[ws[a]]));
                    } else {
                        assert forall|a: int| 0 <= a < k + 1 implies
                            !self.worker_network.is_unreachable(cache_m[ws[a]]) by {
                            if a < k {
                                assert(!self.worker_network.is_unreachable(cache_m[ws[a]]));
                            }
                        }
                    }
                }
            }
            k = k + 1;
        }
        proof {
            assert(delete_calls(cs, cache_m).take(delete_calls(cs, cache_m).len() as int)
                =~= delete_calls(cs, cache_m));
            assert(old(self).found_for(ids@) == cs);
            if old(self).remote_gate_fails(ids@) {
                let a0 = choose|a: int| 0 <= a < worker_order(payload_pairs(old(self).found_for(
                    ids@,
                ))).len() && old(self).worker_network.is_unreachable(
                    old(self).worker_cache@[worker_order(payload_pairs(old(self).found_for(
                        ids@,
                    )))[a]],
                );
                assert(self.worker_network.is_unreachable(cache_m[ws[a0]]));
                assert(any_failed);
            }
            if any_failed {
                let a0 = choose|a: int| 0 <= a < groups@.len()
                    && self.worker_network.is_unreachable(cache_m[ws[a]]);
                assert(old(self).worker_network.is_unreachable(
                    old(self).worker_cache@[worker_order(payload_pairs(old(self).found_for(
                        ids@,
                    )))[a0]],
                ));
                assert(old(self).remote_gate_fails(ids@));
            }
        }
        if any_failed {
            return Err(BlockRemovalError::Network(NetworkErrorKind::Unreachable));
        }
        // If batch deletion on workers succeeded, clean up related state.
        match self.cleanup_internal_state(found) {
            Ok(()) => Ok(()),
            Err(CleanupError::Storage(k)) => Err(BlockRemovalError::Storage(k)),
            Err(CleanupError::Dag(k)) => Err(BlockRemovalError::Dag(k)),
        }
    }

    /// Local cleanup after all remote deletions succeeded, in the fixed
    /// order that keeps a failed attempt retryable: headers, payload
    /// markers, DAG entries, and the certificates last. A failing step
    /// aborts the remaining ones; already-committed steps stay committed.
    fn cleanup_internal_state(&mut self, certificates: Vec<Certificate>) -> (r: Result<
        (),
        CleanupError,
    >)
        requires
            old(self).wf(),
            old(self).tx_removed_certificates.receiver_alive,
        ensures
            final(self).wf(),
            final(self).name == old(self).name,
            final(self).worker_cache == old(self).worker_cache,
            final(self).worker_network == old(self).worker_network,
            final(self).missing_digest_count == old(self).missing_digest_count,
            final(self).certificate_store.read_fault == old(self).certificate_store.read_fault,
            final(self).certificate_store.delete_fault == old(
                self,
            ).certificate_store.delete_fault,
            final(self).header_store.fault == old(self).header_store.fault,
            final(self).payload_store.fault == old(self).payload_store.fault,
            // Step a: headers.
            old(self).header_store.fault matches Some(k) ==> r == Err::<(), CleanupError>(
                CleanupError::Storage(k),
            ) && final(self).header_store == old(self).header_store && final(self).payload_store
                == old(self).payload_store && final(self).dag == old(self).dag && final(self).certificate_store == old(self).certificate_store && final(self).tx_removed_certificates == old(self).tx_removed_certificates,
            !old(self).header_store.has_fault() ==> final(self).header_store@ == old(
                self,
            ).header_store@.remove_keys(elems(header_ids(cert_views(certificates@)))),
            // Step b: payload markers.
            !old(self).header_store.has_fault() ==> (old(self).payload_store.fault matches Some(
                k,
            ) ==> r == Err::<(), CleanupError>(CleanupError::Storage(k)) && final(self).payload_store == old(self).payload_store && final(self).dag == old(self).dag
                && final(self).certificate_store == old(self).certificate_store && final(self).tx_removed_certificates == old(self).tx_removed_certificates),
            !old(self).header_store.has_fault() && !old(self).payload_store.has_fault() ==> final(self).payload_store@ == old(self).payload_store@.remove_keys(
                elems(payload_pairs(cert_views(certificates@))),
            ),
            // Step c: the DAG, when attached.
            !old(self).header_store.has_fault() && !old(self).payload_store.has_fault() ==> (old(
                self,
            ).dag matches Some(g) ==> (g.fault matches Some(k) ==> r == Err::<(), CleanupError>(
                CleanupError::Dag(k),
            ) && final(self).dag == old(self).dag && final(self).certificate_store == old(
                self,
            ).certificate_store && final(self).tx_removed_certificates == old(
                self,
            ).tx_removed_certificates)),
            !old(self).header_store.has_fault() && !old(self).payload_store.has_fault() ==> (old(
                self,
            ).dag matches Some(g) ==> (g.fault is None ==> (final(self).dag matches Some(g2)
                && g2@ == g@.difference(elems(cert_ids(cert_views(certificates@)))) && g2.fault
                is None))),
            old(self).dag is None ==> final(self).dag is None,
            // Step d: the certificates, last.
            !old(self).header_store.has_fault() && !old(self).payload_store.has_fault() && !old(
                self,
            ).dag_fault() ==> (old(self).certificate_store.delete_fault matches Some(k) ==> r
                == Err::<(), CleanupError>(CleanupError::Storage(k)) && final(self).certificate_store == old(self).certificate_store && final(self).tx_removed_certificates == old(self).tx_removed_certificates),
            !old(self).header_store.has_fault() && !old(self).payload_store.has_fault() && !old(
                self,
            ).dag_fault() && !old(self).certificate_store.has_delete_fault() ==> final(self).certificate_store@ == old(self).certificate_store@.remove_keys(
                elems(cert_ids(cert_views(certificates@))),
            ) && final(self).tx_removed_certificates@ == old(self).tx_removed_certificates@
                + cert_views(certificates@) && final(self).tx_removed_certificates.receiver_alive
                && r == Ok::<(), CleanupError>(()),
            r == Ok::<(), CleanupError>(()) <==> !old(self).header_store.has_fault() && !old(
                self,
            ).payload_store.has_fault() && !old(self).dag_fault() && !old(
                self,
            ).certificate_store.has_delete_fault(),
    {
        let header_digests = collect_header_ids(&certificates);
        match self.header_store.remove_all(&header_digests) {
            Err(k) => {
                return Err(CleanupError::Storage(k));
            },
            Ok(()) => {},
        }
        let batches_to_cleanup = collect_payload_pairs(&certificates);
        match self.payload_store.remove_all(&batches_to_cleanup) {
            Err(k) => {
                return Err(CleanupError::Storage(k));
            },
            Ok(()) => {},
        }
        // Delete certificates at the end: a repeat of an aborted attempt
        // must still find them in storage.
        let certificate_digests = collect_cert_ids(&certificates);
        match &mut self.dag {
            Some(g) => {
                match g.remove(&certificate_digests) {
                    Err(k) => {
                        return Err(CleanupError::Dag(k));
                    },
                    Ok(()) => {},
                }
            },
            None => {},
        }
        match self.certificate_store.delete_all(&certificate_digests) {
            Err(k) => {
                return Err(CleanupError::Storage(k));
            },
            Ok(()) => {},
        }
        // Now output all the removed certificates, in input order.
        let ghost sent0 = self.tx_removed_certificates@;
        let ghost mid = *self;
        let mut i: usize = 0;
        while i < certificates.len()
            invariant
                i <= certificates.len(),
                self.name == mid.name,
                self.worker_cache == mid.worker_cache,
                self.certificate_store == mid.certificate_store,
                self.header_store == mid.header_store,
                self.payload_store == mid.payload_store,
                self.dag == mid.dag,
                self.worker_network == mid.worker_network,
                self.missing_digest_count == mid.missing_digest_count,
                self.tx_removed_certificates.receiver_alive,
                self.tx_removed_certificates@ == sent0 + cert_views(certificates@.take(i as int)),
            decreases certificates.len() - i,
        {
            let c = copy_certificate(&certificates[i]);
            self.tx_removed_certificates.send(c);
            proof {
                assert(cert_views(certificates@.take(i + 1)) =~= cert_views(
                    certificates@.take(i as int),
                ).push(certificates@[i as int]@));
                assert(sent0 + cert_views(certificates@.take(i + 1)) =~= (sent0 + cert_views(
                    certificates@.take(i as int),
                )).push(certificates@[i as int]@));
            }
            i = i + 1;
        }
        proof {
            assert(certificates@.take(certificates@.len() as int) =~= certificates@);
        }
        Ok(())
    }
}

} // verus!
