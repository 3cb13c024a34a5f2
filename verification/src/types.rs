//! Plain data model: digests, identities, headers, certificates and the
//! messages exchanged between a worker and its primary.

use vstd::prelude::*;

verus! {

/// Identifier of a worker process owned by a validator.
pub type WorkerId = u32;

/// Opaque presence marker stored per (batch, worker) pair; carries no payload.
pub type PayloadToken = u8;

/// Content hash identifying a certificate.
#[derive(Clone, Copy, PartialEq, Eq, Hash, Debug, Structural)]
pub struct CertificateDigest(pub u64);

/// Content hash identifying a header.
#[derive(Clone, Copy, PartialEq, Eq, Hash, Debug, Structural)]
pub struct HeaderDigest(pub u64);

/// Content hash identifying a batch of transactions held by a worker.
#[derive(Clone, Copy, PartialEq, Eq, Hash, Debug, Structural)]
pub struct BatchDigest(pub u64);

/// Public identity of a validator's primary.
#[derive(Clone, Copy, PartialEq, Eq, Hash, Debug, Structural)]
pub struct PublicKey(pub u64);

/// Network identity of a worker or primary process.
#[derive(Clone, Copy, PartialEq, Eq, Hash, Debug, Structural)]
pub struct NetworkPublicKey(pub u64);

/// A validator's proposal: references the batches it includes, each by
/// batch digest and owning worker.
#[derive(Clone, PartialEq, Eq, Debug)]
pub struct Header {
    pub digest: HeaderDigest,
    pub payload: Vec<(BatchDigest, WorkerId)>,
}

/// Mathematical value of a [`Header`].
#[verifier::ext_equal]
pub struct HeaderView {
    pub digest: HeaderDigest,
    pub payload: Seq<(BatchDigest, WorkerId)>,
}

impl View for Header {
    type V = HeaderView;

    open spec fn view(&self) -> HeaderView {
        HeaderView { digest: self.digest, payload: self.payload@ }
    }
}

/// A header endorsed by a quorum of validators; the unit tracked in the DAG.
/// Its digest is computed upstream when the certificate is formed and is
/// carried here as plain data.
#[derive(Clone, PartialEq, Eq, Debug)]
pub struct Certificate {
    pub digest: CertificateDigest,
    pub header: Header,
}

/// Mathematical value of a [`Certificate`].
#[verifier::ext_equal]
pub struct CertificateView {
    pub digest: CertificateDigest,
    pub header: HeaderView,
}

impl View for Certificate {
    type V = CertificateView;

    open spec fn view(&self) -> CertificateView {
        CertificateView { digest: self.digest, header: self.header@ }
    }
}

/// Digest-bearing message a worker sends to its primary once a batch is
/// sealed.
#[derive(Clone, Copy, PartialEq, Eq, Debug, Structural)]
pub struct WorkerPrimaryMessage {
    pub digest: BatchDigest,
    pub worker_id: WorkerId,
}

/// Broadcast value indicating a committee/epoch change or shutdown.
#[derive(Clone, Copy, PartialEq, Eq, Debug, Structural)]
pub enum ReconfigureNotification {
    NewEpoch(u64),
    UpdateCommittee(u64),
    Shutdown,
}

/// Saturating add of a non-negative amount to a counter.
pub open spec fn sat_add_u64(a: u64, d: int) -> u64 {
    if a + d > u64::MAX {
        u64::MAX
    } else {
        (a + d) as u64
    }
}

/// Does a digest list hold this certificate digest?
pub fn contains_certificate_digest(keys: &Vec<CertificateDigest>, d: CertificateDigest) -> (b:
    bool)
    ensures
        b == keys@.contains(d),
{
    let mut i: usize = 0;
    while i < keys.len()
        invariant
            i <= keys.len(),
            forall|j: int| 0 <= j < i ==> keys@[j] != d,
        decreases keys.len() - i,
    {
        if keys[i].0 == d.0 {
            return true;
        }
        i = i + 1;
    }
    false
}

/// Does a digest list hold this header digest?
pub fn contains_header_digest(keys: &Vec<HeaderDigest>, d: HeaderDigest) -> (b: bool)
    ensures
        b == keys@.contains(d),
{
    let mut i: usize = 0;
    while i < keys.len()
        invariant
            i <= keys.len(),
            forall|j: int| 0 <= j < i ==> keys@[j] != d,
        decreases keys.len() - i,
    {
        if keys[i].0 == d.0 {
            return true;
        }
        i = i + 1;
    }
    false
}

/// Copies a batch reference list element by element.
pub fn copy_payload(src: &Vec<(BatchDigest, WorkerId)>) -> (r: Vec<(BatchDigest, WorkerId)>)
    ensures
        r@ == src@,
{
    let mut r: Vec<(BatchDigest, WorkerId)> = Vec::new();
    let mut i: usize = 0;
    while i < src.len()
        invariant
            i <= src.len(),
            r@ == src@.take(i as int),
        decreases src.len() - i,
    {
        r.push(src[i]);
        proof {
            assert(src@.take(i + 1) =~= src@.take(i as int).push(src@[i as int]));
        }
        i = i + 1;
    }
    proof {
        assert(src@.take(src@.len() as int) =~= src@);
    }
    r
}

/// Copies a header; the copy denotes the same mathematical value.
pub fn copy_header(h: &Header) -> (r: Header)
    ensures
        r@ == h@,
{
    Header { digest: h.digest, payload: copy_payload(&h.payload) }
}

/// Copies a certificate; the copy denotes the same mathematical value.
pub fn copy_certificate(c: &Certificate) -> (r: Certificate)
    ensures
        r@ == c@,
{
    Certificate { digest: c.digest, header: copy_header(&c.header) }
}

} // verus!
