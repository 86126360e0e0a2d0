//! Staging of incoming hsmd requests, so that requests pushed by the
//! daemon can be pulled, possibly by several signing devices, and their
//! replies routed back to the requester.
//!
//! A [`Stage`] keeps the outstanding requests, keyed by request id, each
//! with the handle `R` through which its requester waits for the reply.
//! Delivery over channels is done by the caller: the stage says what to
//! broadcast, what to replay to a new stream and whom to answer.

use crate::pb::{HsmRequest, HsmResponse, spec_message_type};
use std::collections::HashMap;
use vstd::std_specs::iter::IteratorSpec;
use vstd::prelude::*;

verus! {

broadcast use vstd::std_specs::hash::group_hash_axioms;

/// An outstanding request together with the handle of its requester.
#[derive(Clone, Debug)]
pub struct Request<R> {
    pub request: HsmRequest,
    pub response: R,
}

/// `copy` carries the same request as `orig`, and a clone of its handle.
pub open spec fn is_copy_of<R: Clone>(copy: Request<R>, orig: Request<R>) -> bool {
    &&& copy.request@ == orig.request@
    &&& cloned::<R>(orig.response, copy.response)
}

impl<R: Clone> Request<R> {
    /// Copies the request and clones the requester's handle.
    pub fn duplicate(&self) -> (r: Self)
        ensures
            is_copy_of(r, *self),
    {
        Request { request: self.request.duplicate(), response: self.response.clone() }
    }
}

/// The count of attached streams after one more attaches (the counter wraps).
pub open spec fn connections_after_attach(n: usize) -> usize {
    if n == usize::MAX { 0 } else { (n + 1) as usize }
}

/// The count of attached streams after one detaches (the counter wraps).
pub open spec fn connections_after_detach(n: usize) -> usize {
    if n == 0 { usize::MAX } else { (n - 1) as usize }
}

/// Whether a request is sticky: its hsmd message starts with bytes `0, 5`.
pub open spec fn is_sticky(raw: Seq<u8>) -> bool {
    raw[0] == 0 && raw[1] == 5
}

/// The outstanding requests, keyed by request id, and the number of
/// streams attached to them.
pub struct Stage<R> {
    requests: HashMap<u32, Request<R>>,
    hsm_connections: usize,
    live: Ghost<Set<int>>,
    issued: Ghost<int>,
}

/// A count of `k` things held in a counter that wraps.
pub open spec fn wrapped_count(k: nat) -> usize {
    (k % (usize::MAX as nat + 1)) as usize
}

/// Counting one more thing moves a wrapped count on as one attach does.
pub(crate) proof fn lemma_wrapped_succ(k: nat)
    ensures
        wrapped_count(k + 1) == connections_after_attach(wrapped_count(k)),
{
    let m = usize::MAX as int + 1;
    let kk = k as int;
    assert((kk + 1) % m == (if kk % m + 1 == m { 0 } else { kk % m + 1 })) by (nonlinear_arith)
        requires
            m > 1,
            kk >= 0,
    ;
}

/// Counting one thing less moves a wrapped count back as one detach does.
pub(crate) proof fn lemma_wrapped_pred(k: nat)
    requires
        k > 0,
    ensures
        wrapped_count((k - 1) as nat) == connections_after_detach(wrapped_count(k)),
{
    let m = usize::MAX as int + 1;
    let kk = k as int;
    assert((kk - 1) % m == (if kk % m == 0 { m - 1 } else { kk % m - 1 })) by (nonlinear_arith)
        requires
            m > 1,
            kk > 0,
    ;
}

impl<R> Stage<R> {
    /// The outstanding requests, keyed by request id.
    pub closed spec fn staged(&self) -> Map<u32, Request<R>> {
        self.requests@
    }

    /// The number of attached request streams.
    pub closed spec fn connections(&self) -> usize {
        self.hsm_connections
    }

    /// The identities of the streams attached and not yet detached.
    pub closed spec fn live_streams(&self) -> Set<int> {
        self.live@
    }

    /// The identities handed out so far are below this bound.
    closed spec fn issued_bound(&self) -> int {
        self.issued@
    }

    /// Every outstanding request is filed under its own request id, and
    /// the count of attached streams is the number of live streams (in a
    /// counter that wraps).
    pub open spec fn wf(&self) -> bool {
        &&& forall|id: u32| #[trigger] self.staged().contains_key(id) ==> self.staged()[id].request.request_id == id
        &&& self.streams_counted()
    }

    /// The live streams are finitely many, and counted by the count of
    /// attached streams.
    pub closed spec fn streams_counted(&self) -> bool {
        &&& self.live@.finite()
        &&& self.issued@ >= 0
        &&& forall|i: int| #[trigger] self.live@.contains(i) ==> 0 <= i < self.issued@
        &&& self.hsm_connections == wrapped_count(self.live@.len())
    }

    /// An empty stage with no stream attached.
    pub fn new() -> (s: Self)
        ensures
            s.wf(),
            s.staged() == Map::<u32, Request<R>>::empty(),
            s.connections() == 0,
            s.live_streams() == Set::<int>::empty(),
    {
        Stage { requests: HashMap::new(), hsm_connections: 0, live: Ghost(Set::empty()), issued: Ghost(0) }
    }

    /// Removes the request that `response` answers and hands it back, so
    /// that the response can be delivered to its requester. A response to
    /// a request that is not outstanding (for instance a duplicate) changes
    /// nothing and yields `None`.
    pub fn respond(&mut self, response: &HsmResponse) -> (answered: Option<Request<R>>)
        requires
            old(self).wf(),
        ensures
            final(self).wf(),
            final(self).staged() == old(self).staged().remove(response.request_id),
            final(self).connections() == old(self).connections(),
            final(self).live_streams() == old(self).live_streams(),
            answered == (if old(self).staged().contains_key(response.request_id) {
                Some(old(self).staged()[response.request_id])
            } else {
                None::<Request<R>>
            }),
    {
        self.requests.remove(&response.request_id)
    }

    /// The number of attached request streams.
    pub fn connection_count(&self) -> (n: usize)
        ensures
            n == self.connections(),
    {
        self.hsm_connections
    }

    /// Takes back an attached stream that went away: it is no longer
    /// live, and the count of attached streams goes down by one.
    pub fn detach_stream(&mut self, stream: StageStream<R>)
        requires
            old(self).wf(),
            old(self).live_streams().contains(stream.id()),
        ensures
            final(self).wf(),
            final(self).staged() == old(self).staged(),
            final(self).live_streams() == old(self).live_streams().remove(stream.id()),
            final(self).connections() == connections_after_detach(old(self).connections()),
    {
        proof {
            let k = self.live@.len();
            assert(k > 0) by {
                if k == 0 {
                    assert(self.live@ =~= Set::<int>::empty());
                }
            }
            lemma_wrapped_pred(k);
            self.live@ = self.live@.remove(stream.id());
        }
        self.hsm_connections = self.hsm_connections.wrapping_sub(1);
    }

    /// Whether every outstanding request carries at least a message type,
    /// that is two bytes, which [`Stage::is_stuck`] reads.
    pub fn all_requests_typed(&self) -> (typed: bool)
        requires
            self.wf(),
        ensures
            typed == forall|id: u32| #[trigger] self.staged().contains_key(id) ==> self.staged()[id].request.raw@.len() >= 2,
    {
        let mut typed = true;
        let ghost m = self.requests@;
        let ghost all = vstd::std_specs::hash::spec_hash_map_iter(&self.requests).remaining();
        for entry in it: self.requests.iter()
            invariant
                m == self.requests@,
                it.seq() == all,
                typed == (forall|j: int| 0 <= j < it.index() ==> (*it.seq()[j].1).request.raw@.len() >= 2),
        {
            if entry.1.request.raw.len() < 2 {
                typed = false;
            }
        }
        proof {
            if typed {
                assert forall|id: u32| #[trigger] m.contains_key(id) implies m[id].request.raw@.len() >= 2 by {
                    assert(all.contains((&id, &m[id])));
                    let j = choose|j: int| 0 <= j < all.len() && all[j] == (&id, &m[id]);
                }
            } else {
                let j = choose|j: int| 0 <= j < all.len() && !((*all[j].1).request.raw@.len() >= 2);
                assert(m.contains_key(*all[j].0));
            }
        }
        typed
    }

    /// Whether some outstanding request is sticky.
    pub fn is_stuck(&self) -> (stuck: bool)
        requires
            self.wf(),
            forall|id: u32| #[trigger] self.staged().contains_key(id) ==> self.staged()[id].request.raw@.len() >= 2,
        ensures
            stuck == exists|id: u32| #[trigger] self.staged().contains_key(id) && is_sticky(self.staged()[id].request.raw@),
    {
        let mut sticky = false;
        let ghost m = self.requests@;
        let ghost all = vstd::std_specs::hash::spec_hash_map_iter(&self.requests).remaining();
        for entry in it: self.requests.iter()
            invariant
                m == self.requests@,
                forall|id: u32| #[trigger] m.contains_key(id) ==> m[id].request.raw@.len() >= 2,
                it.seq() == all,
                !sticky == (forall|j: int| 0 <= j < it.index() ==> !is_sticky((*it.seq()[j].1).request.raw@)),
        {
            let ghost k = it.index();
            assert(m.contains_key(*it.seq()[k].0));
            let raw = &entry.1.request.raw;
            if raw[0] == 0 && raw[1] == 5 {
                sticky = true;
            }
        }
        proof {
            if !sticky {
                assert forall|id: u32| #[trigger] m.contains_key(id) implies !is_sticky(m[id].request.raw@) by {
                    let v = all;
                    assert(v.contains((&id, &m[id])));
                    let j = choose|j: int| 0 <= j < v.len() && v[j] == (&id, &m[id]);
                }
            } else {
                let j = choose|j: int| 0 <= j < all.len() && is_sticky((*all[j].1).request.raw@);
                assert(m.contains_key(*all[j].0));
            }
        }
        sticky
    }
}

impl<R: Clone> Stage<R> {
    /// Stages `request`, with `response` as the handle of its requester,
    /// replacing any outstanding request with the same id. Returns a copy of
    /// the staged request, to be broadcast to the attached streams.
    pub fn send(&mut self, request: HsmRequest, response: R) -> (notice: Request<R>)
        requires
            old(self).wf(),
        ensures
            final(self).wf(),
            final(self).staged() == old(self).staged().insert(
                request.request_id,
                Request { request, response },
            ),
            final(self).connections() == old(self).connections(),
            final(self).live_streams() == old(self).live_streams(),
            is_copy_of(notice, Request { request, response }),
    {
        let id = request.request_id;
        let r = Request { request, response };
        let notice = r.duplicate();
        self.requests.insert(id, r);
        notice
    }

    /// Attaches a new stream: the stream first replays a copy of every
    /// outstanding request, each exactly once, and the count of attached
    /// streams goes up by one.
    pub fn mystream(&mut self) -> (stream: StageStream<R>)
        requires
            old(self).wf(),
        ensures
            final(self).wf(),
            final(self).staged() == old(self).staged(),
            final(self).connections() == connections_after_attach(old(self).connections()),
            !old(self).live_streams().contains(stream.id()),
            final(self).live_streams() == old(self).live_streams().insert(stream.id()),
            replays(stream.pending(), old(self).staged()),
    {
        let mut backlog: Vec<Request<R>> = Vec::new();
        let ghost m = self.requests@;
        let ghost all = vstd::std_specs::hash::spec_hash_map_iter(&self.requests).remaining();
        for entry in it: self.requests.iter()
            invariant
                m == self.requests@,
                self.streams_counted(),
                self.live@ == old(self).live@,
                self.issued@ == old(self).issued@,
                self.hsm_connections == old(self).hsm_connections,
                forall|id: u32| #[trigger] m.contains_key(id) ==> m[id].request.request_id == id,
                it.seq() == all,
                all.len() == m.dom().len(),
                all.no_duplicates(),
                forall|j: int| 0 <= j < all.len() ==> #[trigger] m.contains_key(*all[j].0) && m[*all[j].0] == *all[j].1,
                forall|k: u32| #[trigger] m.contains_key(k) ==> all.contains((&k, &m[k])),
                backlog@.len() == it.index(),
                forall|j: int| 0 <= j < it.index() ==> #[trigger] is_copy_of(backlog@[j], *all[j].1),
        {
            backlog.push(entry.1.duplicate());
        }
        let ghost id = self.issued@;
        proof {
            let before = self.live@;
            assert(!before.contains(id));
            lemma_wrapped_succ(before.len());
            self.live@ = before.insert(id);
            self.issued@ = id + 1;
            assert(self.live@.len() == before.len() + 1);
            assert forall|i: int| #[trigger] self.live@.contains(i) implies 0 <= i < self.issued@ by {
                if i != id {
                    assert(before.contains(i));
                }
            }
        }
        self.hsm_connections = self.hsm_connections.wrapping_add(1);
        proof {
            let b = backlog@;
            assert forall|i: int| 0 <= i < b.len() implies {
                &&& m.contains_key(#[trigger] b[i].request.request_id)
                &&& is_copy_of(b[i], m[b[i].request.request_id])
            } by {
                assert(is_copy_of(b[i], *all[i].1));
                assert(m.contains_key(*all[i].0));
                assert(b[i].request@.request_id == (*all[i].1).request@.request_id);
            }
            assert forall|i: int, j: int| 0 <= i < b.len() && 0 <= j < b.len() && i != j implies
                #[trigger] b[i].request.request_id != #[trigger] b[j].request.request_id by {
                assert(is_copy_of(b[i], *all[i].1));
                assert(is_copy_of(b[j], *all[j].1));
                assert(m.contains_key(*all[i].0));
                assert(m.contains_key(*all[j].0));
                assert(b[i].request@.request_id == (*all[i].1).request@.request_id);
                assert(b[j].request@.request_id == (*all[j].1).request@.request_id);
                if *all[i].0 == *all[j].0 {
                    assert(all[i] == all[j]);
                }
            }
            assert forall|id: u32| #[trigger] m.contains_key(id) implies exists|i: int|
                0 <= i < b.len() && #[trigger] b[i].request.request_id == id by {
                assert(all.contains((&id, &m[id])));
                let i = choose|i: int| 0 <= i < all.len() && all[i] == (&id, &m[id]);
                assert(is_copy_of(b[i], *all[i].1));
                assert(b[i].request@.request_id == (*all[i].1).request@.request_id);
            }
        }
        StageStream { backlog, id: Ghost(id) }
    }
}

/// `backlog` replays `staged`: one copy of each staged request, each
/// taken from the request filed under its own id, with no id twice.
pub open spec fn replays<R: Clone>(backlog: Seq<Request<R>>, staged: Map<u32, Request<R>>) -> bool {
    &&& backlog.len() == staged.dom().len()
    &&& forall|i: int| 0 <= i < backlog.len() ==> {
        &&& staged.contains_key(#[trigger] backlog[i].request.request_id)
        &&& is_copy_of(backlog[i], staged[backlog[i].request.request_id])
    }
    &&& forall|i: int, j: int| 0 <= i < backlog.len() && 0 <= j < backlog.len() && i != j ==>
        #[trigger] backlog[i].request.request_id != #[trigger] backlog[j].request.request_id
    &&& forall|id: u32| #[trigger] staged.contains_key(id) ==> exists|i: int|
        0 <= i < backlog.len() && #[trigger] backlog[i].request.request_id == id
}

/// Staging a request and then answering its id hands back exactly the
/// staged request with its requester's handle, and leaves the other
/// outstanding requests as they were before the staging.
pub proof fn law_respond_after_send<R>(before: Map<u32, Request<R>>, request: HsmRequest, response: R)
    ensures
        ({
            let id = request.request_id;
            let after = before.insert(id, Request { request, response });
            &&& after.contains_key(id)
            &&& after[id] == Request { request, response }
            &&& after.remove(id) == before.remove(id)
        }),
{
    let id = request.request_id;
    let after = before.insert(id, Request { request, response });
    assert(after.remove(id) =~= before.remove(id));
}

/// A second response to the same request finds nothing outstanding: the
/// duplicate is dropped and the stage is left unchanged.
pub proof fn law_duplicate_response_is_ignored<R>(staged: Map<u32, Request<R>>, id: u32)
    ensures
        !staged.remove(id).contains_key(id),
        staged.remove(id).remove(id) == staged.remove(id),
{
    assert(staged.remove(id).remove(id) =~= staged.remove(id));
}

/// The count of attached streams is the number of streams handed out by
/// [`Stage::mystream`] and not yet taken back by [`Stage::detach_stream`]
/// (in a counter that wraps).
pub proof fn law_connections_count_live_streams<R>(stage: &Stage<R>)
    requires
        stage.wf(),
    ensures
        stage.live_streams().finite(),
        stage.connections() == wrapped_count(stage.live_streams().len()),
{
}

/// A request is sticky exactly when its hsmd message type is 5: no other
/// message type makes the stage stuck.
pub proof fn law_sticky_is_message_type_five(raw: Seq<u8>)
    requires
        raw.len() >= 2,
    ensures
        is_sticky(raw) <==> spec_message_type(raw) == 5,
{
    let a = raw[0] as int;
    let b = raw[1] as int;
    assert(0 <= a * 256 + b < 0x10000) by (nonlinear_arith)
        requires
            0 <= a < 256,
            0 <= b < 256,
    ;
    assert((a * 256 + b == 5) <==> (a == 0 && b == 5)) by (nonlinear_arith)
        requires
            0 <= a < 256,
            0 <= b < 256,
    ;
}

/// Attaching a stream and detaching it again restores the count of
/// attached streams.
pub proof fn law_attach_then_detach(n: usize)
    ensures
        connections_after_detach(connections_after_attach(n)) == n,
{
}

/// A stream of staged requests for one signing device: first the
/// requests that were outstanding when it attached, then those broadcast
/// afterwards (which its owner receives from the broadcast channel).
pub struct StageStream<R> {
    backlog: Vec<Request<R>>,
    id: Ghost<int>,
}

impl<R> StageStream<R> {
    /// The identity of this stream among those of its stage.
    pub closed spec fn id(&self) -> int {
        self.id@
    }

    /// The replayed requests not yet handed out, in order.
    pub closed spec fn pending(&self) -> Seq<Request<R>> {
        self.backlog@
    }

    /// Hands out the next replayed request. `None` means the replay is
    /// over and the next request comes from the broadcast channel.
    pub fn next(&mut self) -> (next: Option<Request<R>>)
        ensures
            old(self).pending().len() == 0 ==> next is None && final(self).pending() == old(self).pending(),
            old(self).pending().len() > 0 ==> next == Some(old(self).pending()[0])
                && final(self).pending() == old(self).pending().drop_first(),
            final(self).id() == old(self).id(),
    {
        if self.backlog.len() > 0 {
            let req = self.backlog.remove(0);
            Some(req)
        } else {
            None
        }
    }
}

}
