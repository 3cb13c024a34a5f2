//! In-memory model of the certificate DAG's removal contract. The graph's
//! internal representation is out of scope here: only which certificate
//! digests it tracks, and the fact that a batched removal either removes
//! them all or refuses with a consistency error, leaving the DAG unchanged.

use vstd::prelude::*;
use crate::errors::DagErrorKind;
use crate::kv::elems;
use crate::types::{CertificateDigest, contains_certificate_digest};

verus! {

/// The DAG collaborator, seen through its removal contract: a set of
/// tracked certificate digests. Whether a removal would violate the graph's
/// internal invariants depends on edges that are not modelled here, so a
/// refusal is an injectable state, like a store fault.
pub struct Dag {
    pub nodes: Vec<CertificateDigest>,
    pub fault: Option<DagErrorKind>,
}

impl View for Dag {
    type V = Set<CertificateDigest>;

    open spec fn view(&self) -> Set<CertificateDigest> {
        elems(self.nodes@)
    }
}

impl Dag {
    pub open spec fn has_fault(self) -> bool {
        self.fault is Some
    }

    pub fn new() -> (d: Self)
        ensures
            d@ == Set::<CertificateDigest>::empty(),
            !d.has_fault(),
    {
        let d = Dag { nodes: Vec::new(), fault: None };
        proof {
            assert(d@ =~= Set::<CertificateDigest>::empty());
        }
        d
    }

    /// Makes every later removal refuse with the given kind, as the real
    /// DAG does when a requested certificate is still referenced.
    pub fn inject_fault(&mut self, kind: DagErrorKind)
        ensures
            final(self).nodes == old(self).nodes,
            final(self).fault == Some(kind),
    {
        self.fault = Some(kind);
    }

    /// Tracks one more certificate digest.
    pub fn insert(&mut self, d: CertificateDigest)
        ensures
            final(self)@ == old(self)@.insert(d),
            final(self).fault == old(self).fault,
    {
        let ghost pre = self.nodes@;
        self.nodes.push(d);
        proof {
            assert forall|x: CertificateDigest| self@.contains(x) implies elems(pre).insert(
                d,
            ).contains(x) by {
                let j = choose|j: int| 0 <= j < self.nodes@.len() && self.nodes@[j] == x;
                if j < pre.len() {
                    assert(pre[j] == x);
                }
            }
            assert forall|x: CertificateDigest| elems(pre).insert(d).contains(x) implies
                self@.contains(x) by {
                if x == d {
                    assert(self.nodes@[pre.len() as int] == x);
                } else {
                    let j = choose|j: int| 0 <= j < pre.len() && pre[j] == x;
                    assert(self.nodes@[j] == x);
                }
            }
            assert(self@ =~= elems(pre).insert(d));
        }
    }

    /// Is this certificate digest tracked?
    pub fn contains(&self, d: CertificateDigest) -> (b: bool)
        ensures
            b == self@.contains(d),
    {
        contains_certificate_digest(&self.nodes, d)
    }

    /// Batched removal of certificate digests; absent digests are ignored.
    /// Refuses, changing nothing, exactly when a fault is present.
    pub fn remove(&mut self, digests: &Vec<CertificateDigest>) -> (r: Result<(), DagErrorKind>)
        ensures
            final(self).fault == old(self).fault,
            old(self).fault matches Some(k) ==> r == Err::<(), DagErrorKind>(k) && *final(self)
                == *old(self),
            old(self).fault is None ==> r == Ok::<(), DagErrorKind>(()) && final(self)@ == old(
                self,
            )@.difference(elems(digests@)),
    {
        if let Some(kind) = self.fault {
            return Err(kind);
        }
        let ghost orig = self.nodes@;
        let mut kept: Vec<CertificateDigest> = Vec::new();
        let mut i: usize = 0;
        while i < self.nodes.len()
            invariant
                i <= self.nodes.len(),
                self.nodes@ == orig,
                forall|a: int| 0 <= a < kept@.len() ==> !digests@.contains(#[trigger] kept@[a])
                    && orig.contains(kept@[a]),
                forall|b: int| 0 <= b < i ==> digests@.contains(#[trigger] orig[b])
                    || kept@.contains(orig[b]),
            decreases self.nodes.len() - i,
        {
            let d = self.nodes[i];
            if !contains_certificate_digest(digests, d) {
                let ghost pre = kept@;
                kept.push(d);
                proof {
                    assert(orig.contains(orig[i as int]));
                    assert forall|b: int| 0 <= b < i + 1 implies digests@.contains(
                        #[trigger] orig[b],
                    ) || kept@.contains(orig[b]) by {
                        if b < i {
                            if !digests@.contains(orig[b]) {
                                let a = choose|a: int| 0 <= a < pre.len() && pre[a] == orig[b];
                                assert(kept@[a] == orig[b]);
                            }
                        } else {
                            assert(kept@[pre.len() as int] == orig[b]);
                        }
                    }
                }
            }
            i = i + 1;
        }
        self.nodes = kept;
        proof {
            assert forall|x: CertificateDigest| self@.contains(x) implies elems(orig).contains(
                x,
            ) && !elems(digests@).contains(x) by {
                let a = choose|a: int| 0 <= a < self.nodes@.len() && self.nodes@[a] == x;
            }
            assert forall|x: CertificateDigest|
                elems(orig).contains(x) && !elems(digests@).contains(x) implies self@.contains(
                x,
            ) by {
                let b = choose|b: int| 0 <= b < orig.len() && orig[b] == x;
            }
            assert(self@ =~= elems(orig).difference(elems(digests@)));
        }
        Ok(())
    }
}

} // verus!
