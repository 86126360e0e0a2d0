//! The hsmd-facing service of the plugin: answers the requests it can
//! answer from what it already knows, and stages the others for signing
//! devices.

use crate::pb::{HsmRequest, HsmResponse, NodeConfig, StartupMessage, spec_message_type, copy_bytes};
use vstd::prelude::*;

verus! {

/// What the node told us about itself at startup.
#[derive(Clone, Debug, PartialEq, Eq)]
pub struct NodeInfo {
    /// The signer's reply to the hsmd init message.
    pub initmsg: Vec<u8>,
}

/// The hsmd message type of the init request.
pub const HSMD_INIT: u16 = 11;

/// The hsmd message type of the dev-memleak request.
pub const HSMD_DEV_MEMLEAK: u16 = 33;

/// Receives the requests that the signer proxy forwards from the daemon
/// and stages them, through the stage handle `H`, for signing devices to
/// stream and reply to.
pub struct StagingHsmServer<H> {
    pub stage: H,
    pub hsmd_sock_path: String,
    pub node_info: NodeInfo,
    pub node_config: NodeConfig,
}

/// How a request from the daemon is answered.
pub enum Route {
    /// Answered at once with this reply.
    Reply(HsmResponse),
    /// Staged for a signing device.
    Stage,
}

/// The canned reply to `msg`: the response of the first startup message
/// whose request is `msg`.
pub open spec fn spec_canned_response(msgs: Seq<StartupMessage>, msg: Seq<u8>) -> Option<Seq<u8>>
    decreases msgs.len(),
{
    if msgs.len() == 0 {
        None
    } else if msgs[0].request@ == msg {
        Some(msgs[0].response@)
    } else {
        spec_canned_response(msgs.drop_first(), msg)
    }
}

/// The reply to a daemon request that the server gives without a signing
/// device, if any: a canned startup reply, the stashed init reply for an
/// init request, or the fixed dev-memleak reply.
pub open spec fn spec_local_reply(
    msgs: Seq<StartupMessage>,
    initmsg: Seq<u8>,
    raw: Seq<u8>,
) -> Option<Seq<u8>> {
    match spec_canned_response(msgs, raw) {
        Some(r) => Some(r),
        None => if spec_message_type(raw) == HSMD_INIT {
            Some(initmsg)
        } else if spec_message_type(raw) == HSMD_DEV_MEMLEAK {
            Some(seq![0u8, 133u8, 0u8])
        } else {
            None
        },
    }
}

impl<H> StagingHsmServer<H> {
    pub fn new(hsmd_sock_path: String, stage: H, node_info: NodeInfo, node_config: NodeConfig) -> (s: Self)
        ensures
            s.stage == stage,
            s.hsmd_sock_path == hsmd_sock_path,
            s.node_info == node_info,
            s.node_config == node_config,
    {
        StagingHsmServer { stage, hsmd_sock_path, node_info, node_config }
    }

    /// The canned response that the signer gave at startup to `msg`.
    pub fn find_canned_response(&self, msg: &Vec<u8>) -> (r: Option<Vec<u8>>)
        ensures
            match r {
                Some(v) => spec_canned_response(self.node_config.startupmsgs@, msg@) == Some(v@),
                None => spec_canned_response(self.node_config.startupmsgs@, msg@) is None,
            },
    {
        let msgs = &self.node_config.startupmsgs;
        let ghost all = msgs@;
        let mut i: usize = 0;
        assert(all.subrange(0, all.len() as int) =~= all);
        while i < msgs.len()
            invariant
                all == msgs@,
                all == self.node_config.startupmsgs@,
                i <= all.len(),
                spec_canned_response(all, msg@) == spec_canned_response(all.subrange(i as int, all.len() as int), msg@),
            decreases msgs.len() - i,
        {
            let ghost rest = all.subrange(i as int, all.len() as int);
            assert(rest[0] == all[i as int]);
            assert(rest.drop_first() =~= all.subrange(i + 1, all.len() as int));
            if bytes_equal(&msgs[i].request, msg) {
                return Some(copy_bytes(&msgs[i].response));
            }
            i = i + 1;
        }
        None
    }

    /// Decides how a request from the daemon is answered: with a canned
    /// startup reply if one matches, with the stashed init reply for an
    /// init request, with the fixed dev-memleak reply for a dev-memleak
    /// request, and otherwise by staging it for a signing device. Replies
    /// carry the request's id and no signer state.
    pub fn route_request(&self, req: &HsmRequest) -> (route: Route)
        requires
            spec_canned_response(self.node_config.startupmsgs@, req.raw@) is Some || req.raw@.len() >= 2,
        ensures
            match spec_local_reply(self.node_config.startupmsgs@, self.node_info.initmsg@, req.raw@) {
                Some(raw) => route matches Route::Reply(resp) && resp@.request_id == req.request_id
                    && resp@.raw == raw && resp@.signer_state.len() == 0,
                None => route is Stage,
            },
    {
        if let Some(response) = self.find_canned_response(&req.raw) {
            return Route::Reply(HsmResponse { request_id: req.request_id, raw: response, signer_state: Vec::new() });
        }
        let t = req.get_type();
        if t == HSMD_INIT {
            Route::Reply(HsmResponse {
                request_id: req.request_id,
                raw: copy_bytes(&self.node_info.initmsg),
                signer_state: Vec::new(),
            })
        } else if t == HSMD_DEV_MEMLEAK {
            let raw: Vec<u8> = vec![0u8, 133u8, 0u8];
            assert(raw@ =~= seq![0u8, 133u8, 0u8]);
            Route::Reply(HsmResponse { request_id: req.request_id, raw, signer_state: Vec::new() })
        } else {
            Route::Stage
        }
    }
}

/// Compares two byte vectors.
pub fn bytes_equal(a: &Vec<u8>, b: &Vec<u8>) -> (eq: bool)
    ensures
        eq == (a@ == b@),
{
    if a.len() != b.len() {
        return false;
    }
    let mut i: usize = 0;
    while i < a.len()
        invariant
            a@.len() == b@.len(),
            i <= a@.len(),
            forall|j: int| 0 <= j < i ==> a@[j] == b@[j],
        decreases a.len() - i,
    {
        if a[i] != b[i] {
            return false;
        }
        i = i + 1;
    }
    assert(a@ =~= b@);
    true
}


/// A request that the signer already answered at startup is answered with
/// that canned reply, whatever its message type.
pub proof fn law_canned_reply_first(msgs: Seq<StartupMessage>, initmsg: Seq<u8>, raw: Seq<u8>, reply: Seq<u8>)
    requires
        spec_canned_response(msgs, raw) == Some(reply),
    ensures
        spec_local_reply(msgs, initmsg, raw) == Some(reply),
{
}

}
