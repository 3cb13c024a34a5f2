//! Models of the worker network client and of the worker-address cache.
//! The network model records every delete-batches call it is asked to make
//! and fails exactly for workers marked unreachable, so that callers are
//! proved correct for every outcome the network contract allows.

use vstd::prelude::*;
use crate::errors::NetworkErrorKind;
use crate::kv::{map_of, distinct_keys, lemma_map_of_key, lemma_map_of_index};
use crate::types::{BatchDigest, NetworkPublicKey, WorkerId};

verus! {

/// Does a key list hold this network identity?
pub fn contains_network_key(keys: &Vec<NetworkPublicKey>, k: NetworkPublicKey) -> (b: bool)
    ensures
        b == keys@.contains(k),
{
    let mut i: usize = 0;
    while i < keys.len()
        invariant
            i <= keys.len(),
            forall|j: int| 0 <= j < i ==> keys@[j] != k,
        decreases keys.len() - i,
    {
        if keys[i].0 == k.0 {
            return true;
        }
        i = i + 1;
    }
    false
}

/// Copies a batch digest list element by element.
pub fn copy_batch_digests(src: &Vec<BatchDigest>) -> (r: Vec<BatchDigest>)
    ensures
        r@ == src@,
{
    let mut r: Vec<BatchDigest> = Vec::new();
    let mut i: usize = 0;
    while i < src.len()
        invariant
            i <= src.len(),
            r@ == src@.take(i as int),
        decreases src.len() - i,
    {
        r.push(src[i]);
        proof {
            assert(src@.take(i + 1) =~= src@.take(i as int).push(src@[i as int]));
        }
        i = i + 1;
    }
    proof {
        assert(src@.take(src@.len() as int) =~= src@);
    }
    r
}

/// The worker network client, seen through the delete-batches contract.
/// Its view is the sequence of calls issued so far, each the addressed
/// worker and the batch digests asked to be deleted.
pub struct WorkerNetwork {
    pub calls: Vec<(NetworkPublicKey, Vec<BatchDigest>)>,
    pub unreachable: Vec<NetworkPublicKey>,
}

impl View for WorkerNetwork {
    type V = Seq<(NetworkPublicKey, Seq<BatchDigest>)>;

    open spec fn view(&self) -> Seq<(NetworkPublicKey, Seq<BatchDigest>)> {
        self.calls@.map_values(|c: (NetworkPublicKey, Vec<BatchDigest>)| (c.0, c.1@))
    }
}

impl WorkerNetwork {
    /// Does a call to this worker fail?
    pub open spec fn is_unreachable(self, k: NetworkPublicKey) -> bool {
        self.unreachable@.contains(k)
    }

    pub fn new() -> (n: Self)
        ensures
            n@ == Seq::<(NetworkPublicKey, Seq<BatchDigest>)>::empty(),
            forall|k: NetworkPublicKey| !n.is_unreachable(k),
    {
        let n = WorkerNetwork { calls: Vec::new(), unreachable: Vec::new() };
        proof {
            assert(n@ =~= Seq::<(NetworkPublicKey, Seq<BatchDigest>)>::empty());
        }
        n
    }

    /// Marks a worker as unreachable; its delete-batches calls then fail.
    pub fn mark_unreachable(&mut self, k: NetworkPublicKey)
        ensures
            final(self).calls == old(self).calls,
            final(self).unreachable@ == old(self).unreachable@.push(k),
            final(self).is_unreachable(k),
            forall|x: NetworkPublicKey| old(self).is_unreachable(x)
                ==> final(self).is_unreachable(x),
            forall|x: NetworkPublicKey| x != k && !old(self).is_unreachable(x)
                ==> !final(self).is_unreachable(x),
    {
        let ghost pre = self.unreachable@;
        self.unreachable.push(k);
        proof {
            assert(self.unreachable@[pre.len() as int] == k);
            assert forall|x: NetworkPublicKey| pre.contains(x) implies
                self.unreachable@.contains(x) by {
                let j = choose|j: int| 0 <= j < pre.len() && pre[j] == x;
                assert(self.unreachable@[j] == x);
            }
            assert forall|x: NetworkPublicKey| x != k && !pre.contains(x) implies
                !self.unreachable@.contains(x) by {
                if self.unreachable@.contains(x) {
                    let j = choose|j: int|
                        0 <= j < self.unreachable@.len() && self.unreachable@[j] == x;
                    assert(pre[j] == x);
                }
            }
        }
    }

    /// Issues a delete-batches call to one worker: the call is recorded
    /// whatever its outcome, and it succeeds exactly when the worker is
    /// reachable.
    pub fn delete_batches(&mut self, worker: NetworkPublicKey, batches: &Vec<BatchDigest>) -> (r:
        Result<(), NetworkErrorKind>)
        ensures
            final(self)@ == old(self)@.push((worker, batches@)),
            final(self).unreachable == old(self).unreachable,
            r == if old(self).is_unreachable(worker) {
                Err::<(), NetworkErrorKind>(NetworkErrorKind::Unreachable)
            } else {
                Ok::<(), NetworkErrorKind>(())
            },
    {
        let recorded = copy_batch_digests(batches);
        let ghost pre = self.calls@;
        self.calls.push((worker, recorded));
        proof {
            assert(self@ =~= pre.map_values(
                |c: (NetworkPublicKey, Vec<BatchDigest>)| (c.0, c.1@),
            ).push((worker, batches@)));
        }
        if contains_network_key(&self.unreachable, worker) {
            Err(NetworkErrorKind::Unreachable)
        } else {
            Ok(())
        }
    }
}

/// Read-mostly lookup table from a worker id to that worker's network
/// identity, for this validator's own workers. The committee view it is
/// built from is managed elsewhere; a missing entry during removal is a
/// programming error, which callers exclude by precondition.
pub struct WorkerCache {
    pub entries: Vec<(WorkerId, NetworkPublicKey)>,
}

impl View for WorkerCache {
    type V = Map<WorkerId, NetworkPublicKey>;

    open spec fn view(&self) -> Map<WorkerId, NetworkPublicKey> {
        map_of(self.entries@)
    }
}

impl WorkerCache {
    /// Worker ids are unique.
    pub open spec fn wf(self) -> bool {
        distinct_keys(self.entries@)
    }

    pub fn new() -> (c: Self)
        ensures
            c.wf(),
            c@ == Map::<WorkerId, NetworkPublicKey>::empty(),
    {
        WorkerCache { entries: Vec::new() }
    }

    /// Registers a worker's network identity.
    pub fn add_worker(&mut self, id: WorkerId, key: NetworkPublicKey)
        requires
            old(self).wf(),
            !old(self)@.contains_key(id),
        ensures
            final(self).wf(),
            final(self)@ == old(self)@.insert(id, key),
    {
        let ghost pre = self.entries@;
        self.entries.push((id, key));
        proof {
            assert(map_of(self.entries@) == map_of(pre).insert(id, key)) by {
                assert(self.entries@.drop_last() =~= pre);
            }
            lemma_map_of_key(pre, id);
            assert forall|i: int, j: int| 0 <= i < j < self.entries@.len() implies
                (#[trigger] self.entries@[i]).0 != (#[trigger] self.entries@[j]).0 by {
                if j == self.entries@.len() - 1 {
                    assert(pre[i] == self.entries@[i]);
                }
            }
        }
    }

    /// Resolves a worker id to its network identity.
    pub fn worker(&self, id: WorkerId) -> (r: Option<NetworkPublicKey>)
        requires
            self.wf(),
        ensures
            r == if self@.contains_key(id) {
                Some(self@[id])
            } else {
                None::<NetworkPublicKey>
            },
    {
        let mut i: usize = 0;
        while i < self.entries.len()
            invariant
                i <= self.entries.len(),
                forall|j: int| 0 <= j < i ==> (#[trigger] self.entries@[j]).0 != id,
                self.wf(),
            decreases self.entries.len() - i,
        {
            if self.entries[i].0 == id {
                proof {
                    lemma_map_of_index(self.entries@, i as int);
                }
                return Some(self.entries[i].1);
            }
            i = i + 1;
        }
        proof {
            lemma_map_of_key(self.entries@, id);
        }
        None
    }
}

} // verus!
