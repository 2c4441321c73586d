//! The connection registry and broadcast router.
//!
//! The registry is the one piece of shared state: a mapping from connection
//! identifier to that connection's FIFO outbound queue, plus the counter that
//! issues identifiers. Identifiers grow strictly and are never reused.
//! Broadcasting a response appends an equal copy of it to every registered
//! queue, preserving per-connection FIFO order; unregistering removes exactly
//! the one connection and leaves every other queue untouched.

use vstd::prelude::*;

verus! {

use crate::metrics::JaroScore;
use crate::metrics::Ratio;
use crate::metrics::hamming_distance;
use crate::metrics::jaro_distance;
use crate::metrics::jaro_score_wf;
use crate::metrics::levenshtein_distance;
use crate::metrics::spec_hamming;
use crate::metrics::spec_jaro;
use crate::metrics::spec_levenshtein;

/// A computed result: echoes the two input strings together with the three
/// exact scores. Immutable once constructed; broadcast fans equal copies of
/// the same value out to every connection.
pub struct DistanceResponse {
    pub string1: String,
    pub string2: String,
    pub hamming_distance: Ratio,
    pub levenshtein_distance: Ratio,
    pub jaro_distance: JaroScore,
}

impl DistanceResponse {
    /// The three scores are exactly the metrics of the two carried strings.
    pub open spec fn wf(self) -> bool {
        &&& self.hamming_distance == spec_hamming(self.string1@, self.string2@)
        &&& self.levenshtein_distance == spec_levenshtein(self.string1@, self.string2@)
        &&& self.jaro_distance == spec_jaro(self.string1@, self.string2@)
        &&& self.hamming_distance.wf()
        &&& self.levenshtein_distance.wf()
        &&& jaro_score_wf(self.jaro_distance)
    }

    /// Computes the three metrics for the pair and packs them with the
    /// strings. The length bounds keep the exact scores within machine
    /// integers and the memo table within address space.
    pub fn new(string1: String, string2: String) -> (r: DistanceResponse)
        requires
            string1@.len() <= 1000000,
            string2@.len() <= 1000000,
            (string1@.len() + 1) * (string2@.len() + 1) <= usize::MAX,
        ensures
            r.string1@ == string1@,
            r.string2@ == string2@,
            r.wf(),
    {
        let hamming = hamming_distance(string1.as_str(), string2.as_str());
        let levenshtein = levenshtein_distance(string1.as_str(), string2.as_str());
        let jaro = jaro_distance(string1.as_str(), string2.as_str());
        DistanceResponse {
            string1,
            string2,
            hamming_distance: hamming,
            levenshtein_distance: levenshtein,
            jaro_distance: jaro,
        }
    }

    /// An equal copy, so that one value can be delivered to every queue.
    pub fn duplicate(&self) -> (r: DistanceResponse)
        ensures
            r == *self,
    {
        DistanceResponse {
            string1: self.string1.clone(),
            string2: self.string2.clone(),
            hamming_distance: self.hamming_distance,
            levenshtein_distance: self.levenshtein_distance,
            jaro_distance: self.jaro_distance,
        }
    }
}

/// One registered connection: its identifier and its outbound queue, oldest
/// response first.
pub struct Connection {
    pub id: u64,
    pub queue: Vec<DistanceResponse>,
}

/// The registry: the identifier counter and the registered connections in
/// registration order.
pub struct ConnectionRegistry {
    pub next_id: u64,
    pub connections: Vec<Connection>,
}

impl ConnectionRegistry {
    /// Identifiers are pairwise distinct and strictly below the counter, so
    /// a freshly issued identifier can never collide with a registered one.
    pub open spec fn wf(self) -> bool {
        &&& 1 <= self.next_id
        &&& forall|k: int|
            0 <= k < self.connections@.len() ==> (#[trigger] self.connections@[k]).id
                < self.next_id
        &&& forall|k1: int, k2: int|
            0 <= k1 < k2 < self.connections@.len() ==> self.connections@[k1].id
                != self.connections@[k2].id
    }

    /// Whether a connection with this identifier is registered.
    pub open spec fn contains_id(self, id: u64) -> bool {
        exists|k: int|
            0 <= k < self.connections@.len() && (#[trigger] self.connections@[k]).id == id
    }

    /// The position of the connection with this identifier, when registered.
    pub open spec fn index_of(self, id: u64) -> int {
        choose|k: int|
            0 <= k < self.connections@.len() && (#[trigger] self.connections@[k]).id == id
    }

    /// In a well-formed registry identifiers are unique, so the position of
    /// a registered identifier is the one position that holds it.
    pub proof fn lemma_index_of_unique(self, id: u64, k: int)
        requires
            self.wf(),
            0 <= k < self.connections@.len(),
            self.connections@[k].id == id,
        ensures
            self.contains_id(id),
            self.index_of(id) == k,
    {
        assert(self.contains_id(id));
        let j = self.index_of(id);
        assert(0 <= j < self.connections@.len() && self.connections@[j].id == id);
        if j < k {
            assert(self.connections@[j].id != self.connections@[k].id);
        } else if k < j {
            assert(self.connections@[k].id != self.connections@[j].id);
        }
    }

    /// An empty registry; the first connection will get identifier `1`.
    pub fn new() -> (r: ConnectionRegistry)
        ensures
            r.wf(),
            r.connections@.len() == 0,
            r.next_id == 1,
    {
        ConnectionRegistry { next_id: 1, connections: Vec::new() }
    }

    /// Registers a new connection with a fresh identifier and an empty
    /// outbound queue. The identifier is the counter's current value, which
    /// is strictly greater than every identifier ever issued before, so
    /// identifiers are never reused.
    pub fn register(&mut self) -> (id: u64)
        requires
            old(self).wf(),
            old(self).next_id < u64::MAX,
        ensures
            final(self).wf(),
            id == old(self).next_id,
            final(self).next_id == old(self).next_id + 1,
            !old(self).contains_id(id),
            final(self).contains_id(id),
            final(self).connections@.len() == old(self).connections@.len() + 1,
            forall|k: int|
                0 <= k < old(self).connections@.len() ==> final(self).connections@[k] == old(self).connections@[k],
            final(self).connections@.last().id == id,
            final(self).connections@.last().queue@ == Seq::<DistanceResponse>::empty(),
            forall|k: int|
                0 <= k < old(self).connections@.len() ==> (#[trigger] old(self).connections@[k]).id < id,
    {
        let id = self.next_id;
        self.next_id = self.next_id + 1;
        self.connections.push(Connection { id, queue: Vec::new() });
        proof {
            assert(self.connections@.last().id == id);
        }
        id
    }

    /// Identifiers are never reused, even after disconnects. Suppose every
    /// identifier issued so far — to a live or a disconnected connection —
    /// lies strictly below the counter. [`ConnectionRegistry::register`]
    /// returns the counter and raises it past the returned value, and every
    /// other operation keeps the counter where it is. So the newly issued
    /// identifier is strictly greater than every earlier one, in particular
    /// never equal to one, and the premise holds again of the enlarged set:
    /// the argument carries over any sequence of operations.
    pub proof fn lemma_identifiers_never_reused(
        issued: Set<u64>,
        before: ConnectionRegistry,
        after: ConnectionRegistry,
        id: u64,
    )
        requires
            forall|x: u64| issued.contains(x) ==> x < before.next_id,
            id == before.next_id,
            after.next_id == before.next_id + 1,
        ensures
            forall|x: u64| issued.contains(x) ==> x < id,
            !issued.contains(id),
            forall|x: u64| issued.insert(id).contains(x) ==> x < after.next_id,
    {
    }

    /// Removes the connection with this identifier, if registered: that
    /// connection's queue is dropped, every other connection keeps its place
    /// and its queue, and the counter does not move.
    pub fn unregister(&mut self, id: u64)
        requires
            old(self).wf(),
        ensures
            final(self).wf(),
            final(self).next_id == old(self).next_id,
            !final(self).contains_id(id),
            !old(self).contains_id(id) ==> *final(self) == *old(self),
            old(self).contains_id(id) ==> final(self).connections@ == old(self).connections@.remove(old(self).index_of(id)),
    {
        let mut k: usize = 0;
        while k < self.connections.len()
            invariant
                old(self).wf(),
                *self == *old(self),
                k <= self.connections@.len(),
                forall|x: int| 0 <= x < k ==> (#[trigger] self.connections@[x]).id != id,
            decreases self.connections@.len() - k,
        {
            if self.connections[k].id == id {
                proof {
                    Self::lemma_index_of_unique(*old(self), id, k as int);
                }
                self.connections.remove(k);
                proof {
                    assert forall|x: int|
                        0 <= x < self.connections@.len() implies (#[trigger] self.connections@[x]).id
                        != id by {
                        if x < k {
                            assert(self.connections@[x] == old(self).connections@[x]);
                        } else {
                            assert(self.connections@[x] == old(self).connections@[x + 1]);
                            assert(old(self).connections@[k as int].id != old(
                                self,
                            ).connections@[x + 1].id);
                        }
                    }
                }
                return ;
            }
            k = k + 1;
        }
    }

    /// Pushes an equal copy of the response onto the end of every registered
    /// connection's queue: exactly one delivery per connection, after
    /// everything already queued, with identifiers and order unchanged.
    pub fn broadcast(&mut self, response: &DistanceResponse)
        requires
            old(self).wf(),
        ensures
            final(self).wf(),
            final(self).next_id == old(self).next_id,
            final(self).connections@.len() == old(self).connections@.len(),
            forall|k: int|
                0 <= k < old(self).connections@.len() ==> (#[trigger] final(self).connections@[k]).id == old(self).connections@[k].id && final(self).connections@[k].queue@ == old(self).connections@[k].queue@.push(*response),
    {
        let mut updated: Vec<Connection> = Vec::new();
        while self.connections.len() > 0
            invariant
                old(self).wf(),
                self.next_id == old(self).next_id,
                updated@.len() + self.connections@.len() == old(self).connections@.len(),
                forall|x: int|
                    0 <= x < self.connections@.len() ==> #[trigger] self.connections@[x] == old(self).connections@[updated@.len() + x],
                forall|x: int|
                    0 <= x < updated@.len() ==> (#[trigger] updated@[x]).id == old(self).connections@[x].id && updated@[x].queue@ == old(self).connections@[x].queue@.push(*response),
            decreases self.connections@.len(),
        {
            let mut conn = self.connections.remove(0);
            let item = response.duplicate();
            conn.queue.push(item);
            updated.push(conn);
        }
        self.connections = updated;
    }

    /// Removes and returns the oldest queued response of the connection with
    /// this identifier: `None` when the identifier is not registered or its
    /// queue is empty, in which case nothing changes.
    pub fn next_outbound(&mut self, id: u64) -> (r: Option<DistanceResponse>)
        requires
            old(self).wf(),
        ensures
            final(self).wf(),
            final(self).next_id == old(self).next_id,
            r.is_none() ==> *final(self) == *old(self),
            r.is_none() ==> !old(self).contains_id(id) || old(self).connections@[old(self).index_of(id)].queue@.len() == 0,
            r.is_some() ==> old(self).contains_id(id) && {
                let k = old(self).index_of(id);
                &&& old(self).connections@[k].queue@.len() > 0
                &&& r.unwrap() == old(self).connections@[k].queue@[0]
                &&& final(self).connections@.len() == old(self).connections@.len()
                &&& forall|x: int|
                    0 <= x < old(self).connections@.len() && x != k ==> final(self).connections@[x] == old(self).connections@[x]
                &&& final(self).connections@[k].id == id
                &&& final(self).connections@[k].queue@ == old(self).connections@[k].queue@.skip(1)
            },
    {
        let mut k: usize = 0;
        while k < self.connections.len()
            invariant
                old(self).wf(),
                *self == *old(self),
                k <= self.connections@.len(),
                forall|x: int| 0 <= x < k ==> (#[trigger] self.connections@[x]).id != id,
            decreases self.connections@.len() - k,
        {
            if self.connections[k].id == id {
                proof {
                    Self::lemma_index_of_unique(*old(self), id, k as int);
                }
                if self.connections[k].queue.len() == 0 {
                    return None;
                }
                let mut conn = self.connections.remove(k);
                let item = conn.queue.remove(0);
                self.connections.insert(k, conn);
                proof {
                    assert(final(self).connections@[k as int].queue@ =~= old(self).connections@[k as int].queue@.skip(1));
                    assert forall|x: int|
                        0 <= x < old(self).connections@.len() && x != k as int implies final(self).connections@[x] == old(self).connections@[x] by {
                        if x < k {
                        } else {
                            assert(self.connections@[x] == old(self).connections@.remove(
                                k as int,
                            )[x - 1]);
                        }
                    }
                }
                return Some(item);
            }
            k = k + 1;
        }
        None
    }

    /// The identifiers currently registered, in registration order.
    pub fn connection_ids(&self) -> (ids: Vec<u64>)
        ensures
            ids@.len() == self.connections@.len(),
            forall|k: int|
                0 <= k < ids@.len() ==> ids@[k] == (#[trigger] self.connections@[k]).id,
    {
        let mut ids: Vec<u64> = Vec::new();
        let mut k: usize = 0;
        while k < self.connections.len()
            invariant
                k <= self.connections@.len(),
                ids@.len() == k,
                forall|x: int|
                    0 <= x < k ==> ids@[x] == (#[trigger] self.connections@[x]).id,
            decreases self.connections@.len() - k,
        {
            ids.push(self.connections[k].id);
            k = k + 1;
        }
        ids
    }

    /// The broadcast router: computes the three metrics for one request and
    /// delivers the response to every registered connection's queue, the
    /// requester's included. Returns the response.
    pub fn handle_request(&mut self, string1: String, string2: String) -> (r: DistanceResponse)
        requires
            old(self).wf(),
            string1@.len() <= 1000000,
            string2@.len() <= 1000000,
            (string1@.len() + 1) * (string2@.len() + 1) <= usize::MAX,
        ensures
            final(self).wf(),
            r.string1@ == string1@,
            r.string2@ == string2@,
            r.wf(),
            final(self).next_id == old(self).next_id,
            final(self).connections@.len() == old(self).connections@.len(),
            forall|k: int|
                0 <= k < old(self).connections@.len() ==> (#[trigger] final(self).connections@[k]).id == old(self).connections@[k].id && final(self).connections@[k].queue@ == old(self).connections@[k].queue@.push(r),
    {
        let resp = DistanceResponse::new(string1, string2);
        self.broadcast(&resp);
        resp
    }
}

/// One event on a connection's inbound loop, after the transport layer has
/// framed and decoded it.
pub enum ConnectionEvent {
    /// A well-formed request: the two strings to compare.
    Request { string1: String, string2: String },
    /// A frame that did not decode to a request.
    Malformed,
    /// The transport errored or closed cleanly.
    Disconnected,
}

/// The per-connection decision step of the lifecycle's Active state: a
/// request is computed and broadcast, a malformed frame is rejected with no
/// effect on the registry or on any other connection, and a disconnect
/// unregisters exactly this connection. Returns whether the connection has
/// closed.
pub fn connection_step(registry: &mut ConnectionRegistry, id: u64, event: ConnectionEvent) -> (closed:
    bool)
    requires
        old(registry).wf(),
        event matches ConnectionEvent::Request { string1, string2 } ==> string1@.len() <= 1000000
            && string2@.len() <= 1000000 && (string1@.len() + 1) * (string2@.len() + 1)
            <= usize::MAX,
    ensures
        final(registry).wf(),
        final(registry).next_id == old(registry).next_id,
        event matches ConnectionEvent::Malformed ==> *final(registry) == *old(registry) && !closed,
        event matches ConnectionEvent::Disconnected ==> closed && !final(registry).contains_id(id)
            && (old(registry).contains_id(id) ==> final(registry).connections@ == old(
            registry,
        ).connections@.remove(old(registry).index_of(id))) && (!old(registry).contains_id(id)
            ==> *final(registry) == *old(registry)),
        event matches ConnectionEvent::Request { string1, string2 } ==> !closed && final(registry).connections@.len() == old(registry).connections@.len() && forall|k: int|
            0 <= k < old(registry).connections@.len() ==> (#[trigger] final(registry).connections@[k]).id == old(registry).connections@[k].id && final(registry).connections@[k].queue@.len() == old(registry).connections@[k].queue@.len() + 1
                && final(registry).connections@[k].queue@.take(
                old(registry).connections@[k].queue@.len() as int,
            ) == old(registry).connections@[k].queue@ && final(registry).connections@[k].queue@.last().wf() && final(registry).connections@[k].queue@.last().string1@ == string1@ && final(registry).connections@[k].queue@.last().string2@ == string2@,
    {
    match event {
        ConnectionEvent::Request { string1, string2 } => {
            let ghost s1 = string1@;
            let ghost s2 = string2@;
            let resp = registry.handle_request(string1, string2);
            proof {
                assert forall|k: int|
                    0 <= k < old(registry).connections@.len() implies (#[trigger] final(registry).connections@[k]).queue@.take(old(registry).connections@[k].queue@.len() as int)
                    == old(registry).connections@[k].queue@ by {
                    assert(final(registry).connections@[k].queue@ == old(registry).connections@[k].queue@.push(resp));
                    assert(final(registry).connections@[k].queue@.take(
                        old(registry).connections@[k].queue@.len() as int,
                    ) =~= old(registry).connections@[k].queue@);
                }
            }
            false
        },
        ConnectionEvent::Malformed => false,
        ConnectionEvent::Disconnected => {
            registry.unregister(id);
            true
        },
    }
}

} // verus!
