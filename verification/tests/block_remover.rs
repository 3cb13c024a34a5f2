use narwhal_gc::block_remover::BlockRemover;
use narwhal_gc::channel::CertificateSender;
use narwhal_gc::dag::Dag;
use narwhal_gc::errors::{BlockRemovalError, DagErrorKind, NetworkErrorKind, StoreErrorKind};
use narwhal_gc::network::{WorkerCache, WorkerNetwork};
use narwhal_gc::stores::{CertificateStore, HeaderStore, PayloadStore};
use narwhal_gc::types::{
    BatchDigest, Certificate, CertificateDigest, Header, HeaderDigest, NetworkPublicKey,
    PublicKey,
};

fn cert(cd: u64, hd: u64, payload: &[(u64, u32)]) -> Certificate {
    let payload = payload.iter().map(|&(b, w)| (BatchDigest(b), w)).collect();
    Certificate {
        digest: CertificateDigest(cd),
        header: Header { digest: HeaderDigest(hd), payload },
    }
}

/// Two certificates: C1 with batch 1 on worker 0, C2 with batch 2 on
/// worker 1; workers 0 and 1 resolve to network keys 100 and 101.
fn two_cert_remover(with_dag: bool) -> (BlockRemover, Certificate, Certificate) {
    let c1 = cert(11, 21, &[(1, 0)]);
    let c2 = cert(12, 22, &[(2, 1)]);
    let mut cache = WorkerCache::new();
    cache.add_worker(0, NetworkPublicKey(100));
    cache.add_worker(1, NetworkPublicKey(101));
    let mut certificate_store = CertificateStore::new();
    certificate_store.write(c1.clone());
    certificate_store.write(c2.clone());
    let mut header_store = HeaderStore::new();
    header_store.write(c1.header.clone());
    header_store.write(c2.header.clone());
    let mut payload_store = PayloadStore::new();
    payload_store.write(BatchDigest(1), 0, 0u8);
    payload_store.write(BatchDigest(2), 1, 0u8);
    let dag = if with_dag {
        let mut dag = Dag::new();
        dag.insert(CertificateDigest(11));
        dag.insert(CertificateDigest(12));
        Some(dag)
    } else {
        None
    };
    let remover = BlockRemover::new(
        PublicKey(1),
        cache,
        certificate_store,
        header_store,
        payload_store,
        dag,
        WorkerNetwork::new(),
        CertificateSender::new(),
    );
    (remover, c1, c2)
}

fn ids(v: &[u64]) -> Vec<CertificateDigest> {
    v.iter().map(|&d| CertificateDigest(d)).collect()
}

fn assert_all_present(r: &BlockRemover) {
    assert!(r.certificate_store.contains(CertificateDigest(11)));
    assert!(r.certificate_store.contains(CertificateDigest(12)));
    assert!(r.header_store.contains(HeaderDigest(21)));
    assert!(r.header_store.contains(HeaderDigest(22)));
    assert!(r.payload_store.contains(BatchDigest(1), 0));
    assert!(r.payload_store.contains(BatchDigest(2), 1));
}

#[test]
fn remove_two_certificates_end_to_end() {
    let (mut remover, c1, c2) = two_cert_remover(true);
    let result = remover.remove_blocks(ids(&[11, 12]));
    assert_eq!(result, Ok(()));
    // Exactly one delete-batches call per worker, with that worker's batches.
    assert_eq!(
        remover.worker_network.calls,
        vec![
            (NetworkPublicKey(100), vec![BatchDigest(1)]),
            (NetworkPublicKey(101), vec![BatchDigest(2)]),
        ]
    );
    // All local bookkeeping is gone.
    assert!(!remover.header_store.contains(HeaderDigest(21)));
    assert!(!remover.header_store.contains(HeaderDigest(22)));
    assert!(!remover.payload_store.contains(BatchDigest(1), 0));
    assert!(!remover.payload_store.contains(BatchDigest(2), 1));
    let dag = remover.dag.as_ref().unwrap();
    assert!(!dag.contains(CertificateDigest(11)));
    assert!(!dag.contains(CertificateDigest(12)));
    assert!(!remover.certificate_store.contains(CertificateDigest(11)));
    assert!(!remover.certificate_store.contains(CertificateDigest(12)));
    // The output channel received exactly C1 then C2, in input order.
    assert_eq!(remover.tx_removed_certificates.sent, vec![c1, c2]);
    assert_eq!(remover.missing_digest_count, 0);
}

#[test]
fn removal_is_idempotent() {
    let (mut remover, _c1, _c2) = two_cert_remover(true);
    assert_eq!(remover.remove_blocks(ids(&[11, 12])), Ok(()));
    let calls_after_first = remover.worker_network.calls.len();
    let sent_after_first = remover.tx_removed_certificates.sent.len();
    // Second removal of the same digests succeeds and removes nothing further.
    assert_eq!(remover.remove_blocks(ids(&[11, 12])), Ok(()));
    assert_eq!(remover.worker_network.calls.len(), calls_after_first);
    assert_eq!(remover.tx_removed_certificates.sent.len(), sent_after_first);
    assert_eq!(remover.missing_digest_count, 2);
}

#[test]
fn missing_digests_are_tolerated() {
    let (mut remover, c1, c2) = two_cert_remover(true);
    // Three requested, one absent: the other two are processed and emitted.
    let result = remover.remove_blocks(ids(&[11, 99, 12]));
    assert_eq!(result, Ok(()));
    assert_eq!(remover.tx_removed_certificates.sent, vec![c1, c2]);
    assert_eq!(remover.missing_digest_count, 1);
}

#[test]
fn remote_failure_mutates_nothing() {
    let (mut remover, _c1, _c2) = two_cert_remover(true);
    remover.worker_network.mark_unreachable(NetworkPublicKey(101));
    let result = remover.remove_blocks(ids(&[11, 12]));
    assert_eq!(
        result,
        Err(BlockRemovalError::Network(NetworkErrorKind::Unreachable))
    );
    // Both calls were still issued before the failure aborted the removal.
    assert_eq!(remover.worker_network.calls.len(), 2);
    // No local store, the DAG, nor the channel was touched, even for the
    // worker that would have succeeded.
    assert_all_present(&remover);
    let dag = remover.dag.as_ref().unwrap();
    assert!(dag.contains(CertificateDigest(11)));
    assert!(dag.contains(CertificateDigest(12)));
    assert!(remover.tx_removed_certificates.sent.is_empty());
}

#[test]
fn dag_failure_keeps_certificates() {
    let (mut remover, _c1, _c2) = two_cert_remover(true);
    remover
        .dag
        .as_mut()
        .unwrap()
        .inject_fault(DagErrorKind::InvariantViolated);
    let result = remover.remove_blocks(ids(&[11, 12]));
    assert_eq!(result, Err(BlockRemovalError::Dag(DagErrorKind::InvariantViolated)));
    // Earlier steps committed: headers and payload markers are gone.
    assert!(!remover.header_store.contains(HeaderDigest(21)));
    assert!(!remover.payload_store.contains(BatchDigest(1), 0));
    // The certificates are still in the store, so a retry can find them.
    assert!(remover.certificate_store.contains(CertificateDigest(11)));
    assert!(remover.certificate_store.contains(CertificateDigest(12)));
    assert!(remover.tx_removed_certificates.sent.is_empty());
}

#[test]
fn certificate_delete_failure_after_cleanup() {
    let (mut remover, _c1, _c2) = two_cert_remover(true);
    remover
        .certificate_store
        .inject_delete_fault(StoreErrorKind::Backend);
    let result = remover.remove_blocks(ids(&[11, 12]));
    assert_eq!(result, Err(BlockRemovalError::Storage(StoreErrorKind::Backend)));
    // Headers, payload markers and DAG entries are already gone...
    assert!(!remover.header_store.contains(HeaderDigest(21)));
    assert!(!remover.payload_store.contains(BatchDigest(2), 1));
    let dag = remover.dag.as_ref().unwrap();
    assert!(!dag.contains(CertificateDigest(11)));
    // ...but the certificates survived, and nothing was published.
    assert!(remover.certificate_store.contains(CertificateDigest(11)));
    assert!(remover.certificate_store.contains(CertificateDigest(12)));
    assert!(remover.tx_removed_certificates.sent.is_empty());
}

#[test]
fn read_failure_mutates_nothing() {
    let (mut remover, _c1, _c2) = two_cert_remover(true);
    remover
        .certificate_store
        .inject_read_fault(StoreErrorKind::Serialization);
    let result = remover.remove_blocks(ids(&[11, 12]));
    assert_eq!(
        result,
        Err(BlockRemovalError::Storage(StoreErrorKind::Serialization))
    );
    assert!(remover.worker_network.calls.is_empty());
    assert_all_present(&remover);
    assert!(remover.tx_removed_certificates.sent.is_empty());
    assert_eq!(remover.missing_digest_count, 0);
}

#[test]
fn header_store_failure_stops_before_the_rest() {
    let (mut remover, _c1, _c2) = two_cert_remover(true);
    remover.header_store.inject_fault(StoreErrorKind::Backend);
    let result = remover.remove_blocks(ids(&[11, 12]));
    assert_eq!(result, Err(BlockRemovalError::Storage(StoreErrorKind::Backend)));
    // The remote calls went out, but no local state changed.
    assert_eq!(remover.worker_network.calls.len(), 2);
    assert_all_present(&remover);
    assert!(remover.tx_removed_certificates.sent.is_empty());
}

#[test]
fn payload_store_failure_after_headers() {
    let (mut remover, _c1, _c2) = two_cert_remover(true);
    remover.payload_store.inject_fault(StoreErrorKind::Backend);
    let result = remover.remove_blocks(ids(&[11, 12]));
    assert_eq!(result, Err(BlockRemovalError::Storage(StoreErrorKind::Backend)));
    // Headers were removed before the failing step; the rest is intact.
    assert!(!remover.header_store.contains(HeaderDigest(21)));
    assert!(remover.payload_store.contains(BatchDigest(1), 0));
    let dag = remover.dag.as_ref().unwrap();
    assert!(dag.contains(CertificateDigest(11)));
    assert!(remover.certificate_store.contains(CertificateDigest(11)));
    assert!(remover.tx_removed_certificates.sent.is_empty());
}

#[test]
fn removal_without_dag_attached() {
    let (mut remover, c1, c2) = two_cert_remover(false);
    let result = remover.remove_blocks(ids(&[11, 12]));
    assert_eq!(result, Ok(()));
    assert!(remover.dag.is_none());
    assert!(!remover.certificate_store.contains(CertificateDigest(11)));
    assert!(!remover.certificate_store.contains(CertificateDigest(12)));
    assert_eq!(remover.tx_removed_certificates.sent, vec![c1, c2]);
}

#[test]
fn removing_nothing_succeeds() {
    let (mut remover, _c1, _c2) = two_cert_remover(true);
    assert_eq!(remover.remove_blocks(Vec::new()), Ok(()));
    assert!(remover.worker_network.calls.is_empty());
    assert_all_present(&remover);
    assert!(remover.tx_removed_certificates.sent.is_empty());
}

#[test]
fn shared_worker_batches_are_grouped() {
    // One certificate with two batches on the same worker: one call,
    // both batches in it.
    let c = cert(31, 41, &[(5, 0), (6, 0)]);
    let mut cache = WorkerCache::new();
    cache.add_worker(0, NetworkPublicKey(100));
    let mut certificate_store = CertificateStore::new();
    certificate_store.write(c.clone());
    let mut header_store = HeaderStore::new();
    header_store.write(c.header.clone());
    let mut payload_store = PayloadStore::new();
    payload_store.write(BatchDigest(5), 0, 0u8);
    payload_store.write(BatchDigest(6), 0, 0u8);
    let mut remover = BlockRemover::new(
        PublicKey(1),
        cache,
        certificate_store,
        header_store,
        payload_store,
        None,
        WorkerNetwork::new(),
        CertificateSender::new(),
    );
    assert_eq!(remover.remove_blocks(ids(&[31])), Ok(()));
    assert_eq!(
        remover.worker_network.calls,
        vec![(NetworkPublicKey(100), vec![BatchDigest(5), BatchDigest(6)])]
    );
    assert!(!remover.payload_store.contains(BatchDigest(5), 0));
    assert!(!remover.payload_store.contains(BatchDigest(6), 0));
}

#[test]
fn closing_the_output_channel_is_observable() {
    // A send on a channel whose receiver is gone is fatal for the owning
    // task, so the caller must be able to see the receiver go away.
    let mut sender = CertificateSender::new();
    assert!(sender.receiver_alive);
    sender.close();
    assert!(!sender.receiver_alive);
}
