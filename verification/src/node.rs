//! Decisions of the plugin's node service: which peers to reconnect to,
//! how requests streamed to signing devices are completed, and how the
//! signature headers of incoming calls are read.

use crate::pb::{HsmRequest, PendingRequest, SignerStateEntry, state_model, pending_model};
use crate::stager::{
    connections_after_attach, connections_after_detach, lemma_wrapped_pred, lemma_wrapped_succ, wrapped_count,
};
use base64::{engine::general_purpose, Engine as _};
use bytes::Buf;
use vls_protocol::msgs::SerBolt;
use lightning_signer::bitcoin::address::{Address, NetworkUnchecked};
use lightning_signer::bitcoin::Network;
use std::str::FromStr;
use vstd::prelude::*;

verus! {

// ---------------------------------------------------------------------
// Ordering of peer ids
// ---------------------------------------------------------------------

/// Lexicographic order on character sequences, comparing characters by
/// code point. On strings this is the order of their UTF-8 bytes, which
/// is how Rust orders `String`s.
pub open spec fn lex_lt(a: Seq<char>, b: Seq<char>) -> bool
    decreases a.len(),
{
    if a.len() == 0 {
        b.len() > 0
    } else if b.len() == 0 {
        false
    } else if a[0] != b[0] {
        (a[0] as int) < (b[0] as int)
    } else {
        lex_lt(a.drop_first(), b.drop_first())
    }
}

pub proof fn lemma_lex_irreflexive(a: Seq<char>)
    ensures
        !lex_lt(a, a),
    decreases a.len(),
{
    if a.len() > 0 {
        lemma_lex_irreflexive(a.drop_first());
    }
}

pub proof fn lemma_lex_transitive(a: Seq<char>, b: Seq<char>, c: Seq<char>)
    requires
        lex_lt(a, b),
        lex_lt(b, c),
    ensures
        lex_lt(a, c),
    decreases a.len(),
{
    if a.len() > 0 && b.len() > 0 && c.len() > 0 {
        if a[0] == b[0] && b[0] == c[0] {
            lemma_lex_transitive(a.drop_first(), b.drop_first(), c.drop_first());
        }
    }
}

pub proof fn lemma_lex_total(a: Seq<char>, b: Seq<char>)
    requires
        a != b,
    ensures
        lex_lt(a, b) || lex_lt(b, a),
    decreases a.len(),
{
    if a.len() == 0 && b.len() == 0 {
        assert(a =~= b);
    } else if a.len() > 0 && b.len() > 0 && a[0] == b[0] {
        if a.drop_first() == b.drop_first() {
            assert(a =~= seq![a[0]] + a.drop_first());
            assert(b =~= seq![b[0]] + b.drop_first());
        }
        lemma_lex_total(a.drop_first(), b.drop_first());
    } else if a.len() > 0 && b.len() > 0 {
        assert((a[0] as int) != (b[0] as int));
    }
}

/// The characters of a string.
fn chars_of(s: &str) -> (v: Vec<char>)
    ensures
        v@ == s@,
{
    broadcast use vstd::string::group_string_axioms;
    let mut v: Vec<char> = Vec::new();
    for c in it: s.chars()
        invariant
            it.seq() == s@,
            v@ == it.seq().take(it.index() as int),
    {
        assert(it.seq().take(it.index() + 1) =~= it.seq().take(it.index() as int).push(c));
        v.push(c);
    }
    assert(s@.take(s@.len() as int) =~= s@);
    v
}

/// Whether `a` sorts before `b`.
pub fn id_less(a: &str, b: &str) -> (lt: bool)
    ensures
        lt == lex_lt(a@, b@),
{
    let x = chars_of(a);
    let y = chars_of(b);
    let mut i: usize = 0;
    assert(x@.subrange(0, x@.len() as int) =~= x@);
    assert(y@.subrange(0, y@.len() as int) =~= y@);
    while i < x.len() && i < y.len()
        invariant
            x@ == a@,
            y@ == b@,
            i <= x@.len(),
            i <= y@.len(),
            x@.subrange(0, i as int) == y@.subrange(0, i as int),
            lex_lt(x@, y@) == lex_lt(x@.subrange(i as int, x@.len() as int), y@.subrange(i as int, y@.len() as int)),
        decreases x.len() - i,
    {
        let ghost xs = x@.subrange(i as int, x@.len() as int);
        let ghost ys = y@.subrange(i as int, y@.len() as int);
        assert(xs[0] == x@[i as int]);
        assert(ys[0] == y@[i as int]);
        if x[i] != y[i] {
            return x[i] < y[i];
        }
        assert(xs.drop_first() =~= x@.subrange(i + 1, x@.len() as int));
        assert(ys.drop_first() =~= y@.subrange(i + 1, y@.len() as int));
        assert(x@.subrange(0, i + 1) =~= x@.subrange(0, i as int).push(x@[i as int]));
        assert(y@.subrange(0, i + 1) =~= y@.subrange(0, i as int).push(y@[i as int]));
        i = i + 1;
    }
    i < y.len()
}


// ---------------------------------------------------------------------
// Reconnecting peers
// ---------------------------------------------------------------------

/// A peer as the node lists it: its id, and whether we have a channel
/// with it.
#[derive(Clone, Debug, PartialEq, Eq)]
pub struct ListedPeer {
    pub id: String,
    pub has_channel: bool,
}

/// A peer remembered in the datastore, with the address to reach it at.
#[derive(Clone, Debug, PartialEq, Eq)]
pub struct StoredPeer {
    pub id: String,
    pub addr: String,
}

/// A request to connect to a peer.
#[derive(Clone, Debug, PartialEq, Eq)]
pub struct ConnectRequest {
    pub id: String,
    pub host: Option<String>,
    pub port: Option<u16>,
}

/// Model of [`ConnectRequest`].
pub struct ConnectModel {
    pub id: Seq<char>,
    pub host: Option<Seq<char>>,
    pub port: Option<u16>,
}

impl View for ConnectRequest {
    type V = ConnectModel;

    open spec fn view(&self) -> ConnectModel {
        ConnectModel {
            id: self.id@,
            host: match self.host {
                Some(h) => Some(h@),
                None => None,
            },
            port: self.port,
        }
    }
}

impl ConnectRequest {
    pub fn duplicate(&self) -> (r: Self)
        ensures
            r@ == self@,
    {
        let host = match &self.host {
            Some(h) => Some(h.clone()),
            None => None,
        };
        ConnectRequest { id: self.id.clone(), host, port: self.port }
    }
}

/// Models of a list of connect requests.
pub open spec fn request_models(s: Seq<ConnectRequest>) -> Seq<ConnectModel> {
    s.map_values(|c: ConnectRequest| c@)
}

/// Connect requests for the listed peers we have a channel with, in order,
/// with no address.
pub open spec fn listed_requests(peers: Seq<ListedPeer>) -> Seq<ConnectModel>
    decreases peers.len(),
{
    if peers.len() == 0 {
        Seq::empty()
    } else {
        let rest = listed_requests(peers.drop_last());
        let p = peers.last();
        if p.has_channel {
            rest.push(ConnectModel { id: p.id@, host: None, port: None })
        } else {
            rest
        }
    }
}

/// Connect requests for the peers remembered in the datastore, in order,
/// with their stored address as host.
pub open spec fn stored_requests(stored: Seq<StoredPeer>) -> Seq<ConnectModel> {
    stored.map_values(|p: StoredPeer| ConnectModel { id: p.id@, host: Some(p.addr@), port: None })
}

/// All candidate requests: the listed ones, then the stored ones.
pub open spec fn reconnect_candidates(peers: Seq<ListedPeer>, stored: Seq<StoredPeer>) -> Seq<ConnectModel> {
    listed_requests(peers) + stored_requests(stored)
}

/// Whether `cand[m]` is the first candidate with its id.
pub open spec fn first_with_id(cand: Seq<ConnectModel>, m: int) -> bool {
    forall|q: int| 0 <= q < m ==> (#[trigger] cand[q]).id != cand[m].id
}

/// `plan[i]` is the first candidate with its id among the first `k`.
pub open spec fn taken_from(plan: Seq<ConnectModel>, cand: Seq<ConnectModel>, k: int, i: int) -> bool {
    exists|m: int| 0 <= m < k && #[trigger] cand[m] == plan[i] && first_with_id(cand, m)
}

/// Whether some entry of `plan` has id `id`.
pub open spec fn plan_has_id(plan: Seq<ConnectModel>, id: Seq<char>) -> bool {
    exists|i: int| 0 <= i < plan.len() && (#[trigger] plan[i]).id == id
}

/// `plan` is sorted by id with no id twice, holds for each candidate id
/// the first candidate with that id, and nothing else.
pub open spec fn is_reconnect_plan(plan: Seq<ConnectModel>, cand: Seq<ConnectModel>) -> bool {
    &&& forall|i: int, j: int| 0 <= i < j < plan.len() ==> lex_lt((#[trigger] plan[i]).id, (#[trigger] plan[j]).id)
    &&& forall|i: int| 0 <= i < plan.len() ==> #[trigger] taken_from(plan, cand, cand.len() as int, i)
    &&& forall|m: int| 0 <= m < cand.len() ==> plan_has_id(plan, (#[trigger] cand[m]).id)
}

/// `pm` is a reconnect plan for the first `k` candidates of `cm`.
pub open spec fn partial_plan(pm: Seq<ConnectModel>, cm: Seq<ConnectModel>, k: int) -> bool {
    &&& forall|i: int, j: int| 0 <= i < j < pm.len() ==> lex_lt((#[trigger] pm[i]).id, (#[trigger] pm[j]).id)
    &&& forall|i: int| 0 <= i < pm.len() ==> #[trigger] taken_from(pm, cm, k, i)
    &&& forall|m: int| 0 <= m < k ==> plan_has_id(pm, (#[trigger] cm[m]).id)
}

/// Every request for a listed peer carries no address.
proof fn lemma_listed_without_host(peers: Seq<ListedPeer>)
    ensures
        forall|k: int| 0 <= k < listed_requests(peers).len() ==> (#[trigger] listed_requests(peers)[k]).host is None,
    decreases peers.len(),
{
    if peers.len() > 0 {
        lemma_listed_without_host(peers.drop_last());
    }
}

/// A listed peer we have a channel with is reconnected without an
/// address, even when the datastore also remembers it with one: the
/// node's own record of the peer takes precedence.
pub proof fn law_listed_peer_wins(
    peers: Seq<ListedPeer>,
    stored: Seq<StoredPeer>,
    plan: Seq<ConnectModel>,
    i: int,
    k: int,
)
    requires
        is_reconnect_plan(plan, reconnect_candidates(peers, stored)),
        0 <= i < plan.len(),
        0 <= k < listed_requests(peers).len(),
        listed_requests(peers)[k].id == plan[i].id,
    ensures
        plan[i].host is None,
{
    let listed = listed_requests(peers);
    let cand = reconnect_candidates(peers, stored);
    lemma_listed_without_host(peers);
    assert(taken_from(plan, cand, cand.len() as int, i));
    let m = choose|m: int| 0 <= m < cand.len() && #[trigger] cand[m] == plan[i] && first_with_id(cand, m);
    assert(cand[k] == listed[k]);
    if m >= listed.len() {
        assert(cand[k].id == cand[m].id);
    }
    assert(cand[m] == listed[m]);
}

/// Every listed peer we have a channel with has a request among the
/// listed ones, with no address.
proof fn lemma_channel_peer_listed(peers: Seq<ListedPeer>, k: int)
    requires
        0 <= k < peers.len(),
        peers[k].has_channel,
    ensures
        listed_requests(peers).contains((ConnectModel { id: peers[k].id@, host: None, port: None })),
    decreases peers.len(),
{
    let rest = listed_requests(peers.drop_last());
    if k == peers.len() - 1 {
        assert(listed_requests(peers) == rest.push(ConnectModel { id: peers[k].id@, host: None, port: None }));
        assert(listed_requests(peers)[rest.len() as int] == ConnectModel { id: peers[k].id@, host: None, port: None });
    } else {
        assert(peers.drop_last()[k] == peers[k]);
        lemma_channel_peer_listed(peers.drop_last(), k);
        let j = choose|j: int| 0 <= j < rest.len() && rest[j] == ConnectModel { id: peers[k].id@, host: None, port: None };
        assert(listed_requests(peers)[j] == rest[j]);
    }
}

/// Every listed request is for a listed peer we have a channel with, and
/// carries no address.
proof fn lemma_listed_from_channel_peer(peers: Seq<ListedPeer>, j: int)
    requires
        0 <= j < listed_requests(peers).len(),
    ensures
        exists|k: int| 0 <= k < peers.len() && (#[trigger] peers[k]).has_channel
            && listed_requests(peers)[j] == (ConnectModel { id: peers[k].id@, host: None, port: None }),
    decreases peers.len(),
{
    let rest = listed_requests(peers.drop_last());
    if j < rest.len() {
        lemma_listed_from_channel_peer(peers.drop_last(), j);
        let k = choose|k: int| 0 <= k < peers.drop_last().len() && (#[trigger] peers.drop_last()[k]).has_channel
            && rest[j] == ConnectModel { id: peers.drop_last()[k].id@, host: None, port: None };
        assert(peers[k] == peers.drop_last()[k]);
    } else {
        let k = peers.len() - 1;
        assert(peers[k].has_channel);
    }
}

/// `c` is a request for a listed peer we have a channel with, without an
/// address, or for a peer remembered in the datastore, at its remembered
/// address.
pub open spec fn is_known_peer_request(peers: Seq<ListedPeer>, stored: Seq<StoredPeer>, c: ConnectModel) -> bool {
    ||| exists|k: int| 0 <= k < peers.len() && (#[trigger] peers[k]).has_channel
            && c == (ConnectModel { id: peers[k].id@, host: None, port: None })
    ||| exists|k: int| 0 <= k < stored.len()
            && c == (ConnectModel { id: (#[trigger] stored[k]).id@, host: Some(stored[k].addr@), port: None })
}

/// What is reconnected: every listed peer we have a channel with and
/// every peer remembered in the datastore gets a connect request, and
/// every connect request is for one of them: without an address for a
/// channel peer, with its remembered address for a datastore peer.
pub proof fn law_reconnects_channel_and_stored_peers(
    peers: Seq<ListedPeer>,
    stored: Seq<StoredPeer>,
    plan: Seq<ConnectModel>,
)
    requires
        is_reconnect_plan(plan, reconnect_candidates(peers, stored)),
    ensures
        forall|k: int| 0 <= k < peers.len() && (#[trigger] peers[k]).has_channel ==> plan_has_id(plan, peers[k].id@),
        forall|k: int| 0 <= k < stored.len() ==> plan_has_id(plan, (#[trigger] stored[k]).id@),
        forall|i: int| 0 <= i < plan.len() ==> is_known_peer_request(peers, stored, #[trigger] plan[i]),
{
    let listed = listed_requests(peers);
    let cand = reconnect_candidates(peers, stored);
    assert forall|k: int| 0 <= k < peers.len() && (#[trigger] peers[k]).has_channel implies plan_has_id(plan, peers[k].id@) by {
        lemma_channel_peer_listed(peers, k);
        let j = choose|j: int| 0 <= j < listed.len() && listed[j] == ConnectModel { id: peers[k].id@, host: None, port: None };
        assert(cand[j] == listed[j]);
    }
    assert forall|k: int| 0 <= k < stored.len() implies plan_has_id(plan, (#[trigger] stored[k]).id@) by {
        let m = listed.len() + k;
        assert(cand[m] == stored_requests(stored)[k]);
        assert(cand[m].id == stored[k].id@);
    }
    assert forall|i: int| 0 <= i < plan.len() implies is_known_peer_request(peers, stored, #[trigger] plan[i]) by {
        assert(taken_from(plan, cand, cand.len() as int, i));
        let m = choose|m: int| 0 <= m < cand.len() && #[trigger] cand[m] == plan[i] && first_with_id(cand, m);
        if m < listed.len() {
            assert(cand[m] == listed[m]);
            lemma_listed_from_channel_peer(peers, m);
        } else {
            let k = m - listed.len();
            assert(cand[m] == stored_requests(stored)[k]);
            assert(plan[i] == ConnectModel { id: stored[k].id@, host: Some(stored[k].addr@), port: None });
        }
    }
}

/// Two entries of a plan never share a peer id.
pub proof fn law_plan_has_no_duplicates(plan: Seq<ConnectModel>, cand: Seq<ConnectModel>, i: int, j: int)
    requires
        is_reconnect_plan(plan, cand),
        0 <= i < plan.len(),
        0 <= j < plan.len(),
        i != j,
    ensures
        plan[i].id != plan[j].id,
{
    if i < j {
        assert(lex_lt(plan[i].id, plan[j].id));
        lemma_lex_irreflexive(plan[i].id);
    } else {
        assert(lex_lt(plan[j].id, plan[i].id));
        lemma_lex_irreflexive(plan[j].id);
    }
}

/// Two strictly sorted plans holding the same ids hold them in the same
/// places.
proof fn lemma_sorted_same_ids(a: Seq<ConnectModel>, b: Seq<ConnectModel>)
    requires
        forall|i: int, j: int| 0 <= i < j < a.len() ==> lex_lt((#[trigger] a[i]).id, (#[trigger] a[j]).id),
        forall|i: int, j: int| 0 <= i < j < b.len() ==> lex_lt((#[trigger] b[i]).id, (#[trigger] b[j]).id),
        forall|i: int| 0 <= i < a.len() ==> plan_has_id(b, (#[trigger] a[i]).id),
        forall|j: int| 0 <= j < b.len() ==> plan_has_id(a, (#[trigger] b[j]).id),
    ensures
        a.len() == b.len(),
        forall|i: int| 0 <= i < a.len() ==> (#[trigger] a[i]).id == b[i].id,
    decreases a.len(),
{
    if a.len() == 0 {
        if b.len() > 0 {
            assert(plan_has_id(a, b[0].id));
        }
    } else if b.len() == 0 {
        assert(plan_has_id(b, a[0].id));
    } else {
        // the first ids agree
        assert(plan_has_id(b, a[0].id));
        let j = choose|j: int| 0 <= j < b.len() && (#[trigger] b[j]).id == a[0].id;
        assert(plan_has_id(a, b[0].id));
        let k = choose|k: int| 0 <= k < a.len() && (#[trigger] a[k]).id == b[0].id;
        if j > 0 {
            assert(lex_lt(b[0].id, b[j].id));
            if k == 0 {
                lemma_lex_irreflexive(a[0].id);
            } else {
                assert(lex_lt(a[0].id, a[k].id));
                lemma_lex_transitive(a[0].id, b[0].id, a[0].id);
                lemma_lex_irreflexive(a[0].id);
            }
        }
        assert(a[0].id == b[0].id);
        let ra = a.drop_first();
        let rb = b.drop_first();
        assert forall|i: int| 0 <= i < ra.len() implies plan_has_id(rb, (#[trigger] ra[i]).id) by {
            assert(ra[i] == a[i + 1]);
            assert(plan_has_id(b, a[i + 1].id));
            let q = choose|q: int| 0 <= q < b.len() && (#[trigger] b[q]).id == a[i + 1].id;
            if q == 0 {
                assert(lex_lt(a[0].id, a[i + 1].id));
                lemma_lex_irreflexive(a[0].id);
            }
            assert(rb[q - 1] == b[q]);
        }
        assert forall|i: int| 0 <= i < rb.len() implies plan_has_id(ra, (#[trigger] rb[i]).id) by {
            assert(rb[i] == b[i + 1]);
            assert(plan_has_id(a, b[i + 1].id));
            let q = choose|q: int| 0 <= q < a.len() && (#[trigger] a[q]).id == b[i + 1].id;
            if q == 0 {
                assert(lex_lt(b[0].id, b[i + 1].id));
                lemma_lex_irreflexive(b[0].id);
            }
            assert(ra[q - 1] == a[q]);
        }
        assert forall|i: int, j: int| 0 <= i < j < ra.len() implies lex_lt((#[trigger] ra[i]).id, (#[trigger] ra[j]).id) by {
            assert(ra[i] == a[i + 1] && ra[j] == a[j + 1]);
        }
        assert forall|i: int, j: int| 0 <= i < j < rb.len() implies lex_lt((#[trigger] rb[i]).id, (#[trigger] rb[j]).id) by {
            assert(rb[i] == b[i + 1] && rb[j] == b[j + 1]);
        }
        lemma_sorted_same_ids(ra, rb);
        assert forall|i: int| 0 <= i < a.len() implies (#[trigger] a[i]).id == b[i].id by {
            if i > 0 {
                assert(ra[i - 1] == a[i] && rb[i - 1] == b[i]);
            }
        }
    }
}

/// The reconnect plan for given candidates is unique: any two plans that
/// meet its description are the same, so the description fixes what is
/// reconnected and in which order.
pub proof fn law_reconnect_plan_unique(p1: Seq<ConnectModel>, p2: Seq<ConnectModel>, cand: Seq<ConnectModel>)
    requires
        is_reconnect_plan(p1, cand),
        is_reconnect_plan(p2, cand),
    ensures
        p1 == p2,
{
    assert forall|i: int| 0 <= i < p1.len() implies plan_has_id(p2, (#[trigger] p1[i]).id) by {
        assert(taken_from(p1, cand, cand.len() as int, i));
        let m = choose|m: int| 0 <= m < cand.len() && #[trigger] cand[m] == p1[i] && first_with_id(cand, m);
        assert(plan_has_id(p2, cand[m].id));
    }
    assert forall|i: int| 0 <= i < p2.len() implies plan_has_id(p1, (#[trigger] p2[i]).id) by {
        assert(taken_from(p2, cand, cand.len() as int, i));
        let m = choose|m: int| 0 <= m < cand.len() && #[trigger] cand[m] == p2[i] && first_with_id(cand, m);
        assert(plan_has_id(p1, cand[m].id));
    }
    lemma_sorted_same_ids(p1, p2);
    assert forall|i: int| 0 <= i < p1.len() implies #[trigger] p1[i] == p2[i] by {
        assert(taken_from(p1, cand, cand.len() as int, i));
        assert(taken_from(p2, cand, cand.len() as int, i));
        let m1 = choose|m: int| 0 <= m < cand.len() && #[trigger] cand[m] == p1[i] && first_with_id(cand, m);
        let m2 = choose|m: int| 0 <= m < cand.len() && #[trigger] cand[m] == p2[i] && first_with_id(cand, m);
        if m1 < m2 {
            assert(cand[m1].id != cand[m2].id);
        } else if m2 < m1 {
            assert(cand[m2].id != cand[m1].id);
        }
    }
    assert(p1 =~= p2);
}

/// A plan for all candidates is a reconnect plan.
proof fn lemma_complete_plan(pm: Seq<ConnectModel>, cm: Seq<ConnectModel>)
    requires
        partial_plan(pm, cm, cm.len() as int),
    ensures
        is_reconnect_plan(pm, cm),
{
}

/// Collects the connect requests for all candidates, in order.
fn collect_candidates(peers: &Vec<ListedPeer>, stored: &Vec<StoredPeer>) -> (cand: Vec<ConnectRequest>)
    ensures
        request_models(cand@) == reconnect_candidates(peers@, stored@),
{
    let mut cand: Vec<ConnectRequest> = Vec::new();
    let mut i: usize = 0;
    while i < peers.len()
        invariant
            i <= peers@.len(),
            request_models(cand@) == listed_requests(peers@.subrange(0, i as int)),
        decreases peers.len() - i,
    {
        assert(peers@.subrange(0, i + 1).drop_last() =~= peers@.subrange(0, i as int));
        if peers[i].has_channel {
            cand.push(ConnectRequest { id: peers[i].id.clone(), host: None, port: None });
        }
        proof {
            let sub = peers@.subrange(0, i + 1);
            assert(request_models(cand@) =~= listed_requests(sub));
        }
        i = i + 1;
    }
    assert(peers@.subrange(0, peers@.len() as int) =~= peers@);
    let ghost listed = request_models(cand@);
    let mut j: usize = 0;
    while j < stored.len()
        invariant
            j <= stored@.len(),
            listed == listed_requests(peers@),
            request_models(cand@) == listed + stored_requests(stored@.subrange(0, j as int)),
        decreases stored.len() - j,
    {
        let ghost before = cand@;
        let r = ConnectRequest { id: stored[j].id.clone(), host: Some(stored[j].addr.clone()), port: None };
        cand.push(r);
        proof {
            let m = ConnectModel { id: stored@[j as int].id@, host: Some(stored@[j as int].addr@), port: None };
            assert(cand@ =~= before.push(r));
            assert(request_models(cand@) =~= request_models(before).push(m));
            assert(stored_requests(stored@.subrange(0, j + 1)) =~= stored_requests(stored@.subrange(0, j as int)).push(m));
            assert(request_models(cand@) =~= listed + stored_requests(stored@.subrange(0, j + 1)));
        }
        j = j + 1;
    }
    assert(stored@.subrange(0, stored@.len() as int) =~= stored@);
    cand
}


/// Plans the reconnection of peers: a connect request for every listed
/// peer we have a channel with, whether or not it is connected now, and
/// for every peer remembered in the datastore, sorted by peer id, with
/// one request per id. Where an id comes up more than once, the first
/// candidate wins, so a listed peer (which carries no address) takes
/// precedence over a stored one.
pub fn reconnect_plan(peers: &Vec<ListedPeer>, stored: &Vec<StoredPeer>) -> (plan: Vec<ConnectRequest>)
    ensures
        is_reconnect_plan(request_models(plan@), reconnect_candidates(peers@, stored@)),
{
    let cand = collect_candidates(peers, stored);
    let ghost cm = request_models(cand@);
    let mut plan: Vec<ConnectRequest> = Vec::new();
    let mut k: usize = 0;
    while k < cand.len()
        invariant
            k <= cand@.len(),
            cm == request_models(cand@),
            cm == reconnect_candidates(peers@, stored@),
            partial_plan(request_models(plan@), cm, k as int),
        decreases cand.len() - k,
    {
        let ghost pm = request_models(plan@);
        let ghost xm = cm[k as int];
        assert(cand@[k as int]@ == xm);
        let mut p: usize = 0;
        loop
            invariant
                k < cand@.len(),
                p <= plan@.len(),
                pm == request_models(plan@),
                xm == cand@[k as int]@,
                forall|i: int| 0 <= i < p ==> lex_lt((#[trigger] pm[i]).id, xm.id),
            ensures
                p <= plan@.len(),
                forall|i: int| 0 <= i < p ==> lex_lt((#[trigger] pm[i]).id, xm.id),
                p < plan@.len() ==> !lex_lt(pm[p as int].id, xm.id),
            decreases plan@.len() - p,
        {
            if p >= plan.len() {
                break;
            }
            assert(pm[p as int] == plan@[p as int]@);
            if !id_less(plan[p].id.as_str(), cand[k].id.as_str()) {
                break;
            }
            p = p + 1;
        }
        let present = p < plan.len() && plan[p].id == cand[k].id;
        if present {
            proof {
                assert(pm[p as int] == plan@[p as int]@);
                assert(plan_has_id(pm, xm.id));
                assert forall|m: int| 0 <= m < k + 1 implies plan_has_id(pm, (#[trigger] cm[m]).id) by {
                }
                assert forall|i: int| 0 <= i < pm.len() implies #[trigger] taken_from(pm, cm, k + 1, i) by {
                    assert(taken_from(pm, cm, k as int, i));
                }
            }
        } else {
            proof {
                // everything from position p on sorts after the new id
                assert forall|j: int| p <= j < pm.len() implies lex_lt(xm.id, (#[trigger] pm[j]).id) by {
                    assert(pm[p as int] == plan@[p as int]@);
                    assert(pm[p as int].id != xm.id);
                    lemma_lex_total(pm[p as int].id, xm.id);
                    if j > p {
                        lemma_lex_transitive(xm.id, pm[p as int].id, pm[j].id);
                    }
                }
                // so the new id is not in the plan yet
                assert forall|i: int| 0 <= i < pm.len() implies (#[trigger] pm[i]).id != xm.id by {
                    lemma_lex_irreflexive(xm.id);
                }
                assert(first_with_id(cm, k as int)) by {
                    assert forall|q: int| 0 <= q < k implies (#[trigger] cm[q]).id != cm[k as int].id by {
                        assert(plan_has_id(pm, cm[q].id));
                        let i = choose|i: int| 0 <= i < pm.len() && (#[trigger] pm[i]).id == cm[q].id;
                    }
                }
            }
            let item = cand[k].duplicate();
            plan.insert(p, item);
            proof {
                let npm = request_models(plan@);
                assert(npm =~= pm.insert(p as int, xm));
                assert forall|i: int, j: int| 0 <= i < j < npm.len() implies lex_lt((#[trigger] npm[i]).id, (#[trigger] npm[j]).id) by {
                    if j < p {
                        assert(npm[i] == pm[i] && npm[j] == pm[j]);
                    } else if j == p {
                        assert(npm[i] == pm[i]);
                    } else if i < p {
                        assert(npm[i] == pm[i] && npm[j] == pm[j - 1]);
                        lemma_lex_transitive(pm[i].id, xm.id, pm[j - 1].id);
                    } else if i == p {
                        assert(npm[j] == pm[j - 1]);
                    } else {
                        assert(npm[i] == pm[i - 1] && npm[j] == pm[j - 1]);
                    }
                }
                assert forall|i: int| 0 <= i < npm.len() implies #[trigger] taken_from(npm, cm, k + 1, i) by {
                    if i == p {
                        assert(cm[k as int] == npm[i]);
                    } else {
                        let oi = if i < p { i } else { i - 1 };
                        assert(npm[i] == pm[oi]);
                        assert(taken_from(pm, cm, k as int, oi));
                        let m = choose|m: int| 0 <= m < k && #[trigger] cm[m] == pm[oi] && first_with_id(cm, m);
                        assert(cm[m] == npm[i]);
                    }
                }
                assert forall|m: int| 0 <= m < k + 1 implies plan_has_id(npm, (#[trigger] cm[m]).id) by {
                    if m == k {
                        assert(npm[p as int].id == cm[m].id);
                    } else {
                        assert(plan_has_id(pm, cm[m].id));
                        let i = choose|i: int| 0 <= i < pm.len() && (#[trigger] pm[i]).id == cm[m].id;
                        if i < p {
                            assert(npm[i] == pm[i]);
                        } else {
                            assert(npm[i + 1] == pm[i]);
                        }
                    }
                }
            }
        }
        k = k + 1;
    }
    proof {
        lemma_complete_plan(request_models(plan@), cm);
    }
    plan
}


/// The bytes of a datastore entry with every backslash removed.
pub open spec fn spec_strip_backslashes(s: Seq<u8>) -> Seq<u8>
    decreases s.len(),
{
    if s.len() == 0 {
        Seq::empty()
    } else if s.last() == 92u8 {
        spec_strip_backslashes(s.drop_last())
    } else {
        spec_strip_backslashes(s.drop_last()).push(s.last())
    }
}

/// Removes the escape characters the datastore adds to a stored peer
/// entry, so that it parses as JSON: every backslash goes. A backslash is
/// a single byte in UTF-8 and never part of another character, so this
/// works on the entry's bytes.
pub fn strip_backslashes(s: &[u8]) -> (r: Vec<u8>)
    ensures
        r@ == spec_strip_backslashes(s@),
{
    let mut r: Vec<u8> = Vec::new();
    let mut i: usize = 0;
    while i < s.len()
        invariant
            i <= s@.len(),
            r@ == spec_strip_backslashes(s@.subrange(0, i as int)),
        decreases s.len() - i,
    {
        assert(s@.subrange(0, i + 1).drop_last() =~= s@.subrange(0, i as int));
        if s[i] != 92u8 {
            r.push(s[i]);
        }
        i = i + 1;
    }
    assert(s@.subrange(0, s@.len() as int) =~= s@);
    r
}

/// Peers can only be reconnected while a signer is attached to complete
/// the handshake.
pub fn can_reconnect_peers(signer_count: usize) -> (ok: bool)
    ensures
        ok == (signer_count >= 1),
{
    signer_count >= 1
}

// ---------------------------------------------------------------------
// Attached signers
// ---------------------------------------------------------------------

/// The signers attached to the node: the next hsm id to hand out and the
/// number of signers currently streaming requests (both counters wrap).
pub struct SignerRegistry {
    next_hsm_id: usize,
    signers: usize,
    live: Ghost<Set<int>>,
    issued: Ghost<int>,
}

/// A signer attached to the node, with the hsm id it was given. It is
/// handed back to [`SignerRegistry::detach`] when its stream ends.
pub struct AttachedSigner {
    hsm_id: usize,
    ticket: Ghost<int>,
}

impl AttachedSigner {
    /// The hsm id this signer was given.
    pub closed spec fn id(&self) -> usize {
        self.hsm_id
    }

    /// The hsm id this signer was given.
    pub fn hsm_id(&self) -> (id: usize)
        ensures
            id == self.id(),
    {
        self.hsm_id
    }

    /// The identity of this signer among those of its registry.
    pub closed spec fn ticket(&self) -> int {
        self.ticket@
    }
}

impl SignerRegistry {
    /// The next hsm id to hand out.
    pub closed spec fn next_id(&self) -> usize {
        self.next_hsm_id
    }

    /// The number of attached signers.
    pub closed spec fn count(&self) -> usize {
        self.signers
    }

    /// The identities of the signers attached and not yet detached.
    pub closed spec fn live_signers(&self) -> Set<int> {
        self.live@
    }

    /// The attached signers are finitely many, their identities are those
    /// handed out so far, and the count is their number (in a counter that
    /// wraps).
    pub closed spec fn wf(&self) -> bool {
        &&& self.live@.finite()
        &&& self.issued@ >= 0
        &&& forall|i: int| #[trigger] self.live@.contains(i) ==> 0 <= i < self.issued@
        &&& self.signers == wrapped_count(self.live@.len())
    }

    /// No signer attached yet; hsm ids start at 0.
    pub fn new() -> (r: Self)
        ensures
            r.wf(),
            r.next_id() == 0,
            r.count() == 0,
            r.live_signers() == Set::<int>::empty(),
    {
        SignerRegistry { next_hsm_id: 0, signers: 0, live: Ghost(Set::empty()), issued: Ghost(0) }
    }

    /// A signer attaches: it gets the next hsm id, and one more signer is
    /// counted.
    pub fn attach(&mut self) -> (signer: AttachedSigner)
        requires
            old(self).wf(),
        ensures
            final(self).wf(),
            signer.id() == old(self).next_id(),
            final(self).next_id() == connections_after_attach(old(self).next_id()),
            final(self).count() == connections_after_attach(old(self).count()),
            !old(self).live_signers().contains(signer.ticket()),
            final(self).live_signers() == old(self).live_signers().insert(signer.ticket()),
    {
        let id = self.next_hsm_id;
        let ghost ticket = self.issued@;
        proof {
            let before = self.live@;
            assert(!before.contains(ticket));
            lemma_wrapped_succ(before.len());
            self.live@ = before.insert(ticket);
            self.issued@ = ticket + 1;
            assert(self.live@.len() == before.len() + 1);
            assert forall|i: int| #[trigger] self.live@.contains(i) implies 0 <= i < self.issued@ by {
                if i != ticket {
                    assert(before.contains(i));
                }
            }
        }
        self.next_hsm_id = self.next_hsm_id.wrapping_add(1);
        self.signers = self.signers.wrapping_add(1);
        AttachedSigner { hsm_id: id, ticket: Ghost(ticket) }
    }

    /// A signer's stream ended: it is no longer attached, and one signer
    /// less is counted.
    pub fn detach(&mut self, signer: AttachedSigner)
        requires
            old(self).wf(),
            old(self).live_signers().contains(signer.ticket()),
        ensures
            final(self).wf(),
            final(self).next_id() == old(self).next_id(),
            final(self).count() == connections_after_detach(old(self).count()),
            final(self).live_signers() == old(self).live_signers().remove(signer.ticket()),
    {
        proof {
            let k = self.live@.len();
            assert(k > 0) by {
                if k == 0 {
                    assert(self.live@ =~= Set::<int>::empty());
                }
            }
            lemma_wrapped_pred(k);
            self.live@ = self.live@.remove(signer.ticket());
        }
        self.signers = self.signers.wrapping_sub(1);
    }

    /// Whether a signer is attached to complete a peer handshake.
    pub fn can_reconnect_peers(&self) -> (ok: bool)
        ensures
            ok == (self.count() >= 1),
    {
        can_reconnect_peers(self.signers)
    }
}

/// The count of attached signers is the number of signers handed out by
/// [`SignerRegistry::attach`] and not yet taken back by
/// [`SignerRegistry::detach`] (in a counter that wraps).
pub proof fn law_signer_count_live_signers(registry: &SignerRegistry)
    requires
        registry.wf(),
    ensures
        registry.live_signers().finite(),
        registry.count() == wrapped_count(registry.live_signers().len()),
{
}

// ---------------------------------------------------------------------
// Node configuration
// ---------------------------------------------------------------------

/// The Bitcoin networks, numbered as [`spec_parse_network`] numbers them.
pub const NETWORK_BITCOIN: u32 = 0;
pub const NETWORK_TESTNET: u32 = 1;
pub const NETWORK_TESTNET4: u32 = 2;
pub const NETWORK_SIGNET: u32 = 3;
pub const NETWORK_REGTEST: u32 = 4;

/// The network a name denotes: `bitcoin`, `testnet`, `testnet4`, `signet`
/// or `regtest`, numbered in that order; `None` for any other name.
pub open spec fn spec_parse_network(s: Seq<char>) -> Option<u32> {
    if s == "bitcoin"@ {
        Some(NETWORK_BITCOIN)
    } else if s == "testnet"@ {
        Some(NETWORK_TESTNET)
    } else if s == "testnet4"@ {
        Some(NETWORK_TESTNET4)
    } else if s == "signet"@ {
        Some(NETWORK_SIGNET)
    } else if s == "regtest"@ {
        Some(NETWORK_REGTEST)
    } else {
        None
    }
}

/// The name of each network number: `bitcoin`, `testnet`, `testnet4`,
/// `signet`, `regtest` for 0 to 4.
pub open spec fn network_name(n: u32) -> Seq<char> {
    seq![
        "bitcoin"@, "testnet"@, "testnet4"@, "signet"@, "regtest"@,
    ][n as int]
}

/// Network names and numbers correspond one to one: the name of each of
/// the five networks parses to that network and no other, and any name
/// that parses is the name of the network it gives. In particular two
/// different names never give the same network.
pub proof fn law_network_names(s: Seq<char>, n: u32)
    ensures
        n <= NETWORK_REGTEST ==> spec_parse_network(network_name(n)) == Some(n),
        spec_parse_network(s) matches Some(m) ==> m <= NETWORK_REGTEST && network_name(m) == s,
{
    reveal_strlit("bitcoin");
    reveal_strlit("testnet");
    reveal_strlit("testnet4");
    reveal_strlit("signet");
    reveal_strlit("regtest");
    let names = seq!["bitcoin"@, "testnet"@, "testnet4"@, "signet"@, "regtest"@];
    assert(names[0] == "bitcoin"@ && names[1] == "testnet"@ && names[2] == "testnet4"@);
    assert(names[3] == "signet"@ && names[4] == "regtest"@);
    assert("testnet"@ != "bitcoin"@) by { assert("testnet"@[0] != "bitcoin"@[0]); }
    assert("testnet4"@ != "bitcoin"@) by { assert("testnet4"@[0] != "bitcoin"@[0]); }
    assert("testnet4"@ != "testnet"@) by { assert("testnet4"@.len() != "testnet"@.len()); }
    assert("signet"@ != "bitcoin"@) by { assert("signet"@[0] != "bitcoin"@[0]); }
    assert("signet"@ != "testnet"@) by { assert("signet"@[0] != "testnet"@[0]); }
    assert("signet"@ != "testnet4"@) by { assert("signet"@[0] != "testnet4"@[0]); }
    assert("regtest"@ != "bitcoin"@) by { assert("regtest"@[0] != "bitcoin"@[0]); }
    assert("regtest"@ != "testnet"@) by { assert("regtest"@[0] != "testnet"@[0]); }
    assert("regtest"@ != "testnet4"@) by { assert("regtest"@[0] != "testnet4"@[0]); }
    assert("regtest"@ != "signet"@) by { assert("regtest"@[0] != "signet"@[0]); }
}

/// Calls `bitcoin::Network::from_str`, which accepts exactly the names
/// `bitcoin`, `testnet`, `testnet4`, `signet` and `regtest`, and numbers
/// the network it gives.
#[verifier::external_body]
fn parse_network(s: &str) -> (n: Option<u32>)
    ensures
        n == spec_parse_network(s@),
{
    match Network::from_str(s) {
        Ok(Network::Bitcoin) => Some(NETWORK_BITCOIN),
        Ok(Network::Testnet) => Some(NETWORK_TESTNET),
        Ok(Network::Testnet4) => Some(NETWORK_TESTNET4),
        Ok(Network::Signet) => Some(NETWORK_SIGNET),
        Ok(Network::Regtest) => Some(NETWORK_REGTEST),
        Err(_) => None,
    }
}

/// Whether `addr` is a Bitcoin address valid on network `n`: `None` when
/// it is not an address at all.
pub uninterp spec fn spec_address_ok(addr: Seq<char>, n: u32) -> Option<bool>;

/// Calls `bitcoin::Address::<NetworkUnchecked>::from_str` on `addr` and,
/// when it parses, `is_valid_for_network` with network `n`. What parsing
/// and checking give is left to the name.
#[verifier::external_body]
fn address_for_network(addr: &str, n: u32) -> (r: Option<bool>)
    requires
        n <= NETWORK_REGTEST,
    ensures
        r == spec_address_ok(addr@, n),
{
    let network = match n {
        0 => Network::Bitcoin,
        1 => Network::Testnet,
        2 => Network::Testnet4,
        3 => Network::Signet,
        _ => Network::Regtest,
    };
    match Address::<NetworkUnchecked>::from_str(addr) {
        Ok(a) => Some(a.is_valid_for_network(network)),
        Err(_) => None,
    }
}

/// Why a close-to address is refused.
#[derive(Debug, PartialEq, Eq)]
pub enum ConfigureError {
    /// The node reports a network name that is not known.
    NetworkUnknown,
    /// The close-to address is not a Bitcoin address.
    AddressInvalid,
    /// The close-to address belongs to another network than the node's.
    NetworkMismatch,
}

/// Checks the close-to address of a configuration against the node's
/// network name: the name must denote a network, the address must parse,
/// and it must be valid on that network.
pub fn check_close_to_addr(network: &str, addr: &str) -> (r: Result<(), ConfigureError>)
    ensures
        match spec_parse_network(network@) {
            None => r == Err::<(), ConfigureError>(ConfigureError::NetworkUnknown),
            Some(n) => match spec_address_ok(addr@, n) {
                None => r == Err::<(), ConfigureError>(ConfigureError::AddressInvalid),
                Some(false) => r == Err::<(), ConfigureError>(ConfigureError::NetworkMismatch),
                Some(true) => r == Ok::<(), ConfigureError>(()),
            },
        },
{
    match parse_network(network) {
        None => Err(ConfigureError::NetworkUnknown),
        Some(n) => match address_for_network(addr, n) {
            None => Err(ConfigureError::AddressInvalid),
            Some(false) => Err(ConfigureError::NetworkMismatch),
            Some(true) => Ok(()),
        },
    }
}

/// The configuration request to store: the first pending call of the
/// snapshot, which is the configure call itself.
pub fn configure_request(snapshot: &Vec<PendingRequest>) -> (r: PendingRequest)
    requires
        snapshot@.len() > 0,
    ensures
        r@ == snapshot@[0]@,
{
    snapshot[0].duplicate()
}

/// The configuration request cached at startup: the string of the first
/// entry found under the configuration key of the datastore, if it has
/// one.
pub fn cached_configure_request(entries: &Vec<Option<String>>) -> (r: Option<String>)
    ensures
        entries@.len() == 0 ==> r is None,
        entries@.len() > 0 ==> (match entries@[0] {
            Some(s) => r matches Some(c) && c@ == s@,
            None => r is None,
        }),
{
    if entries.len() == 0 {
        return None;
    }
    match &entries[0] {
        Some(s) => Some(s.clone()),
        None => None,
    }
}

// ---------------------------------------------------------------------
// Requests streamed to signing devices
// ---------------------------------------------------------------------

/// The serialized heartbeat request: its message type, 2008, big-endian,
/// and no fields.
pub open spec fn heartbeat_message() -> Seq<u8> {
    seq![0x07u8, 0xd8u8]
}

/// Calls `vls_protocol::msgs::GetHeartbeat {}.as_vec()`. The message is
/// serialized as its message type, 2008, in two big-endian bytes followed
/// by its fields, of which it has none.
#[verifier::external_body]
fn serialized_heartbeat() -> (raw: Vec<u8>)
    ensures
        raw@ == heartbeat_message(),
{
    vls_protocol::msgs::GetHeartbeat {}.as_vec()
}

/// The request injected first into every new signer stream: a heartbeat
/// carrying the current signer state, with id 0, so that the signer gets
/// the state early and later requests need not carry all of it.
pub fn heartbeat_request(signer_state: Vec<SignerStateEntry>) -> (req: HsmRequest)
    ensures
        req@.request_id == 0,
        req@.context is None,
        req@.raw == heartbeat_message(),
        req@.signer_state == state_model(signer_state@),
        req@.requests.len() == 0,
{
    HsmRequest {
        request_id: 0,
        context: None,
        raw: serialized_heartbeat(),
        signer_state,
        requests: Vec::new(),
    }
}

/// Completes a staged request before it goes to a signing device: it
/// carries the current signer state and, for authorization, the pending
/// client calls followed by the stored configuration request if there is
/// one.
pub fn complete_request(
    req: &mut HsmRequest,
    signer_state: Vec<SignerStateEntry>,
    pending: Vec<PendingRequest>,
    configure: Option<PendingRequest>,
)
    ensures
        final(req)@.request_id == old(req)@.request_id,
        final(req)@.context == old(req)@.context,
        final(req)@.raw == old(req)@.raw,
        final(req)@.signer_state == state_model(signer_state@),
        final(req)@.requests == (match configure {
            Some(c) => pending_model(pending@).push(c@),
            None => pending_model(pending@),
        }),
{
    req.signer_state = signer_state;
    let mut requests = pending;
    let ghost before = requests@;
    match configure {
        Some(c) => {
            requests.push(c);
            assert(pending_model(requests@) =~= pending_model(before).push(c@));
        },
        None => {},
    }
    req.requests = requests;
}

// ---------------------------------------------------------------------
// Signature headers of incoming calls
// ---------------------------------------------------------------------

/// The largest request body that is buffered to be added to the
/// signature context.
pub const MAX_MESSAGE_SIZE: usize = 4000000;

/// Whether buffering one more chunk would take the body over the limit.
pub fn exceeds_message_limit(buffered: usize, chunk: usize) -> (over: bool)
    ensures
        over == (buffered + chunk > MAX_MESSAGE_SIZE),
{
    buffered > MAX_MESSAGE_SIZE || chunk > MAX_MESSAGE_SIZE - buffered
}

/// A request body that grew over [`MAX_MESSAGE_SIZE`].
#[derive(Debug, PartialEq, Eq)]
pub struct PayloadTooLarge;

/// Buffers one more chunk of a request body: refused, with the buffer
/// left as it was, when the body would grow over the limit.
pub fn buffer_chunk(buf: &mut Vec<u8>, chunk: &[u8]) -> (r: Result<(), PayloadTooLarge>)
    ensures
        old(buf)@.len() + chunk@.len() > MAX_MESSAGE_SIZE ==> r is Err && final(buf)@ == old(buf)@,
        old(buf)@.len() + chunk@.len() <= MAX_MESSAGE_SIZE ==> r is Ok && final(buf)@ == old(buf)@ + chunk@,
{
    if exceeds_message_limit(buf.len(), chunk.len()) {
        return Err(PayloadTooLarge);
    }
    let ghost before = buf@;
    buf.extend_from_slice(chunk);
    assert(buf@ =~= before + chunk@);
    Ok(())
}

/// What decoding `input` as standard base64 without padding yields, or
/// `None` when it is not valid such base64.
pub uninterp spec fn spec_base64_decode(input: Seq<u8>) -> Option<Seq<u8>>;

/// Calls `base64::engine::general_purpose::STANDARD_NO_PAD.decode`: the
/// decoded bytes when `input` is valid standard base64 without padding,
/// `None` otherwise. What the decoding is, is left to the name.
#[verifier::external_body]
fn base64_decode(input: &[u8]) -> (r: Option<Vec<u8>>)
    ensures
        match r {
            Some(v) => spec_base64_decode(input@) == Some(v@),
            None => spec_base64_decode(input@) is None,
        },
{
    general_purpose::STANDARD_NO_PAD.decode(input).ok()
}

/// The decoded value of an optional header: `None` when the header is
/// absent or not valid base64.
pub open spec fn spec_decode_header(header: Option<Seq<u8>>) -> Option<Seq<u8>> {
    match header {
        Some(h) => spec_base64_decode(h),
        None => None,
    }
}

/// Decodes an optional base64 header.
pub fn decode_header(header: Option<&[u8]>) -> (r: Option<Vec<u8>>)
    ensures
        match r {
            Some(v) => spec_decode_header(match header { Some(h) => Some(h@), None => None }) == Some(v@),
            None => spec_decode_header(match header { Some(h) => Some(h@), None => None }) is None,
        },
{
    match header {
        Some(h) => base64_decode(h),
        None => None,
    }
}

/// The signature headers of a call: the decoded public key and signature,
/// when both are present and valid; only then is the call's body buffered
/// and added to the signature context.
pub fn signature_headers(pubkey: Option<&[u8]>, sig: Option<&[u8]>) -> (r: Option<(Vec<u8>, Vec<u8>)>)
    ensures
        match r {
            Some((pk, s)) => spec_decode_header(match pubkey { Some(h) => Some(h@), None => None }) == Some(pk@)
                && spec_decode_header(match sig { Some(h) => Some(h@), None => None }) == Some(s@),
            None => spec_decode_header(match pubkey { Some(h) => Some(h@), None => None }) is None
                || spec_decode_header(match sig { Some(h) => Some(h@), None => None }) is None,
        },
{
    let pk = decode_header(pubkey);
    let s = decode_header(sig);
    match (pk, s) {
        (Some(pk), Some(s)) => Some((pk, s)),
        _ => None,
    }
}

/// The big-endian value of the first eight bytes of `b`.
pub open spec fn spec_be_u64(b: Seq<u8>) -> int {
    ((((((b[0] as int * 256 + b[1] as int) * 256 + b[2] as int) * 256 + b[3] as int) * 256
        + b[4] as int) * 256 + b[5] as int) * 256 + b[6] as int) * 256 + b[7] as int
}

/// The value of a byte string read as a big-endian number of any length.
pub open spec fn be_value(b: Seq<u8>) -> int
    decreases b.len(),
{
    if b.len() == 0 {
        0
    } else {
        be_value(b.drop_last()) * 256 + b.last() as int
    }
}

/// The eight big-endian bytes of `t`, most significant first.
pub open spec fn be_bytes(t: u64) -> Seq<u8> {
    seq![
        (t >> 56u64) as u8, (t >> 48u64) as u8, (t >> 40u64) as u8, (t >> 32u64) as u8,
        (t >> 24u64) as u8, (t >> 16u64) as u8, (t >> 8u64) as u8, t as u8,
    ]
}

/// A timestamp is read from all of the first eight bytes of its header,
/// most significant first, and nothing after them.
pub proof fn law_timestamp_reads_eight_bytes(b: Seq<u8>)
    requires
        b.len() >= 8,
    ensures
        spec_be_u64(b) == be_value(b.subrange(0, 8)),
{
    let c = b.subrange(0, 8);
    assert(c.drop_last() =~= b.subrange(0, 7));
    assert(b.subrange(0, 7).drop_last() =~= b.subrange(0, 6));
    assert(b.subrange(0, 6).drop_last() =~= b.subrange(0, 5));
    assert(b.subrange(0, 5).drop_last() =~= b.subrange(0, 4));
    assert(b.subrange(0, 4).drop_last() =~= b.subrange(0, 3));
    assert(b.subrange(0, 3).drop_last() =~= b.subrange(0, 2));
    assert(b.subrange(0, 2).drop_last() =~= b.subrange(0, 1));
    assert(b.subrange(0, 1).drop_last() =~= b.subrange(0, 0));
    assert(be_value(b.subrange(0, 0)) == 0);
    assert(be_value(b.subrange(0, 1)) == b[0] as int);
    assert(be_value(b.subrange(0, 2)) == be_value(b.subrange(0, 1)) * 256 + b[1] as int);
    assert(be_value(b.subrange(0, 3)) == be_value(b.subrange(0, 2)) * 256 + b[2] as int);
    assert(be_value(b.subrange(0, 4)) == be_value(b.subrange(0, 3)) * 256 + b[3] as int);
    assert(be_value(b.subrange(0, 5)) == be_value(b.subrange(0, 4)) * 256 + b[4] as int);
    assert(be_value(b.subrange(0, 6)) == be_value(b.subrange(0, 5)) * 256 + b[5] as int);
    assert(be_value(b.subrange(0, 7)) == be_value(b.subrange(0, 6)) * 256 + b[6] as int);
    assert(be_value(c) == be_value(b.subrange(0, 7)) * 256 + b[7] as int);
}

/// A timestamp written as its eight big-endian bytes is read back as
/// itself.
pub proof fn law_timestamp_round_trip(t: u64)
    ensures
        spec_be_u64(be_bytes(t)) == t,
{
    let b = be_bytes(t);
    let b0 = (t >> 56u64) as u8;
    let b1 = (t >> 48u64) as u8;
    let b2 = (t >> 40u64) as u8;
    let b3 = (t >> 32u64) as u8;
    let b4 = (t >> 24u64) as u8;
    let b5 = (t >> 16u64) as u8;
    let b6 = (t >> 8u64) as u8;
    let b7 = t as u8;
    assert(b[0] == b0 && b[1] == b1 && b[2] == b2 && b[3] == b3);
    assert(b[4] == b4 && b[5] == b5 && b[6] == b6 && b[7] == b7);
    assert(((((((b0 as u64 * 256 + b1 as u64) * 256 + b2 as u64) * 256 + b3 as u64) * 256
        + b4 as u64) * 256 + b5 as u64) * 256 + b6 as u64) * 256 + b7 as u64 == t) by (bit_vector)
        requires
            b0 == (t >> 56u64) as u8,
            b1 == (t >> 48u64) as u8,
            b2 == (t >> 40u64) as u8,
            b3 == (t >> 32u64) as u8,
            b4 == (t >> 24u64) as u8,
            b5 == (t >> 16u64) as u8,
            b6 == (t >> 8u64) as u8,
            b7 == t as u8,
    ;
}

/// Calls `bytes::Buf::get_u64` on a byte slice, which reads its first
/// eight bytes as a big-endian integer (and panics on fewer).
#[verifier::external_body]
fn buf_get_u64(data: &[u8]) -> (v: u64)
    requires
        data@.len() >= 8,
    ensures
        v as int == spec_be_u64(data@),
{
    let mut buf = data;
    buf.get_u64()
}

/// Reads a decoded timestamp header: its first eight bytes, big-endian.
pub fn timestamp_from_decoded(decoded: &[u8]) -> (ts: u64)
    requires
        decoded@.len() >= 8,
    ensures
        ts as int == spec_be_u64(decoded@),
{
    buf_get_u64(decoded)
}

/// The timestamp header of a call, when present and valid base64; its
/// decoded value must hold at least eight bytes.
pub fn header_timestamp(header: Option<&[u8]>) -> (ts: Option<u64>)
    requires
        spec_decode_header(match header { Some(h) => Some(h@), None => None }) matches Some(d) ==> d.len() >= 8,
    ensures
        match spec_decode_header(match header { Some(h) => Some(h@), None => None }) {
            Some(d) => ts matches Some(t) && t as int == spec_be_u64(d),
            None => ts is None,
        },
{
    match decode_header(header) {
        Some(d) => Some(timestamp_from_decoded(d.as_slice())),
        None => None,
    }
}

/// A timestamp header that decodes to fewer than eight bytes.
#[derive(Debug, PartialEq, Eq)]
pub struct ShortTimestamp;

/// The timestamp header of a call, checked: `Err` when it decodes to
/// fewer than eight bytes, which cannot be read as a timestamp.
pub fn checked_header_timestamp(header: Option<&[u8]>) -> (ts: Result<Option<u64>, ShortTimestamp>)
    ensures
        match spec_decode_header(match header { Some(h) => Some(h@), None => None }) {
            Some(d) => if d.len() >= 8 {
                ts matches Ok(Some(t)) && t as int == spec_be_u64(d)
            } else {
                ts is Err
            },
            None => ts matches Ok(None),
        },
{
    match decode_header(header) {
        Some(d) => {
            if d.len() < 8 {
                Err(ShortTimestamp)
            } else {
                Ok(header_timestamp(header))
            }
        },
        None => Ok(None),
    }
}

/// Wraps services so that every call with signature headers is recorded,
/// for the duration of the call, in the signature context `C`.
pub struct SignatureContextLayer<C> {
    ctx: C,
}

/// A service wrapped by a [`SignatureContextLayer`].
pub struct SignatureContextService<S, C> {
    pub inner: S,
    pub ctx: C,
}

impl<C: Clone> SignatureContextLayer<C> {
    pub closed spec fn context(&self) -> C {
        self.ctx
    }

    pub fn new(context: C) -> (l: Self)
        ensures
            l.context() == context,
    {
        SignatureContextLayer { ctx: context }
    }

    /// Wraps `service`, sharing this layer's context with it.
    pub fn layer<S>(&self, service: S) -> (s: SignatureContextService<S, C>)
        ensures
            s.inner == service,
            cloned::<C>(self.context(), s.ctx),
    {
        SignatureContextService { inner: service, ctx: self.ctx.clone() }
    }
}

}
