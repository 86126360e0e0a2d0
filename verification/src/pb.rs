//! Messages exchanged between the signer proxy, the plugin and the signing
//! devices, together with their mathematical models.

use vstd::prelude::*;

verus! {

/// Copies a byte vector.
pub fn copy_bytes(v: &Vec<u8>) -> (r: Vec<u8>)
    ensures
        r@ == v@,
{
    let r = v.clone();
    assert(r@ =~= v@);
    r
}

/// Identifies the daemon client a request originates from.
#[derive(Clone, Debug, PartialEq, Eq)]
pub struct HsmRequestContext {
    pub node_id: Vec<u8>,
    pub dbid: u64,
    pub capabilities: u64,
}

/// Model of [`HsmRequestContext`].
pub struct RequestContextModel {
    pub node_id: Seq<u8>,
    pub dbid: u64,
    pub capabilities: u64,
}

impl View for HsmRequestContext {
    type V = RequestContextModel;

    open spec fn view(&self) -> RequestContextModel {
        RequestContextModel { node_id: self.node_id@, dbid: self.dbid, capabilities: self.capabilities }
    }
}

impl HsmRequestContext {
    pub fn duplicate(&self) -> (r: Self)
        ensures
            r@ == self@,
    {
        HsmRequestContext {
            node_id: copy_bytes(&self.node_id),
            dbid: self.dbid,
            capabilities: self.capabilities,
        }
    }
}

/// One versioned key-value entry of the signer state.
#[derive(Clone, Debug, PartialEq, Eq)]
pub struct SignerStateEntry {
    pub version: u64,
    pub key: String,
    pub value: Vec<u8>,
}

/// Model of [`SignerStateEntry`].
pub struct StateEntryModel {
    pub version: u64,
    pub key: Seq<char>,
    pub value: Seq<u8>,
}

impl View for SignerStateEntry {
    type V = StateEntryModel;

    open spec fn view(&self) -> StateEntryModel {
        StateEntryModel { version: self.version, key: self.key@, value: self.value@ }
    }
}

impl SignerStateEntry {
    pub fn duplicate(&self) -> (r: Self)
        ensures
            r@ == self@,
    {
        SignerStateEntry { version: self.version, key: self.key.clone(), value: copy_bytes(&self.value) }
    }
}

/// A pending client RPC call, handed to the signer so that it can decide
/// whether to approve a signature.
#[derive(Clone, Debug, PartialEq, Eq)]
pub struct PendingRequest {
    pub request: Vec<u8>,
    pub uri: String,
    pub signature: Vec<u8>,
    pub pubkey: Vec<u8>,
    pub timestamp: u64,
}

/// Model of [`PendingRequest`].
pub struct PendingRequestModel {
    pub request: Seq<u8>,
    pub uri: Seq<char>,
    pub signature: Seq<u8>,
    pub pubkey: Seq<u8>,
    pub timestamp: u64,
}

impl View for PendingRequest {
    type V = PendingRequestModel;

    open spec fn view(&self) -> PendingRequestModel {
        PendingRequestModel {
            request: self.request@,
            uri: self.uri@,
            signature: self.signature@,
            pubkey: self.pubkey@,
            timestamp: self.timestamp,
        }
    }
}

impl PendingRequest {
    pub fn duplicate(&self) -> (r: Self)
        ensures
            r@ == self@,
    {
        PendingRequest {
            request: copy_bytes(&self.request),
            uri: self.uri.clone(),
            signature: copy_bytes(&self.signature),
            pubkey: copy_bytes(&self.pubkey),
            timestamp: self.timestamp,
        }
    }
}

/// Model of a list of signer state entries.
pub open spec fn state_model(s: Seq<SignerStateEntry>) -> Seq<StateEntryModel> {
    s.map_values(|e: SignerStateEntry| e@)
}

/// Model of a list of pending requests.
pub open spec fn pending_model(s: Seq<PendingRequest>) -> Seq<PendingRequestModel> {
    s.map_values(|e: PendingRequest| e@)
}

/// Model of an optional request context.
pub open spec fn context_model(c: Option<HsmRequestContext>) -> Option<RequestContextModel> {
    match c {
        Some(c) => Some(c@),
        None => None,
    }
}

/// Copies a list of signer state entries.
pub fn copy_state(s: &Vec<SignerStateEntry>) -> (r: Vec<SignerStateEntry>)
    ensures
        state_model(r@) == state_model(s@),
{
    let mut r: Vec<SignerStateEntry> = Vec::new();
    let mut i: usize = 0;
    while i < s.len()
        invariant
            i <= s.len(),
            r@.len() == i,
            forall|j: int| 0 <= j < i ==> #[trigger] r@[j]@ == s@[j]@,
        decreases s.len() - i,
    {
        r.push(s[i].duplicate());
        i = i + 1;
    }
    assert(state_model(r@) =~= state_model(s@));
    r
}

/// Copies a list of pending requests.
pub fn copy_pending(s: &Vec<PendingRequest>) -> (r: Vec<PendingRequest>)
    ensures
        pending_model(r@) == pending_model(s@),
{
    let mut r: Vec<PendingRequest> = Vec::new();
    let mut i: usize = 0;
    while i < s.len()
        invariant
            i <= s.len(),
            r@.len() == i,
            forall|j: int| 0 <= j < i ==> #[trigger] r@[j]@ == s@[j]@,
        decreases s.len() - i,
    {
        r.push(s[i].duplicate());
        i = i + 1;
    }
    assert(pending_model(r@) =~= pending_model(s@));
    r
}

/// A request from the daemon's hsmd, to be signed by a signing device.
#[derive(Clone, Debug, PartialEq, Eq)]
pub struct HsmRequest {
    pub request_id: u32,
    pub context: Option<HsmRequestContext>,
    pub raw: Vec<u8>,
    pub signer_state: Vec<SignerStateEntry>,
    pub requests: Vec<PendingRequest>,
}

/// Model of [`HsmRequest`].
pub struct HsmRequestModel {
    pub request_id: u32,
    pub context: Option<RequestContextModel>,
    pub raw: Seq<u8>,
    pub signer_state: Seq<StateEntryModel>,
    pub requests: Seq<PendingRequestModel>,
}

impl View for HsmRequest {
    type V = HsmRequestModel;

    open spec fn view(&self) -> HsmRequestModel {
        HsmRequestModel {
            request_id: self.request_id,
            context: context_model(self.context),
            raw: self.raw@,
            signer_state: state_model(self.signer_state@),
            requests: pending_model(self.requests@),
        }
    }
}

/// The message type of a daemon wire message: its first two bytes, big-endian.
pub open spec fn spec_message_type(body: Seq<u8>) -> u16 {
    (body[0] as int * 256 + body[1] as int) as u16
}

/// Reads the message type of a daemon wire message: its first two bytes,
/// big-endian.
pub fn message_type(body: &[u8]) -> (t: u16)
    requires
        body@.len() >= 2,
    ensures
        t == spec_message_type(body@),
{
    (body[0] as u16) * 256 + (body[1] as u16)
}

impl HsmRequest {
    pub fn duplicate(&self) -> (r: Self)
        ensures
            r@ == self@,
    {
        let context = match &self.context {
            Some(c) => Some(c.duplicate()),
            None => None,
        };
        HsmRequest {
            request_id: self.request_id,
            context,
            raw: copy_bytes(&self.raw),
            signer_state: copy_state(&self.signer_state),
            requests: copy_pending(&self.requests),
        }
    }

    /// The hsmd message type of this request.
    pub fn get_type(&self) -> (t: u16)
        requires
            self.raw@.len() >= 2,
        ensures
            t == spec_message_type(self.raw@),
    {
        message_type(self.raw.as_slice())
    }
}

/// A reply from a signing device to a staged request.
#[derive(Clone, Debug, PartialEq, Eq)]
pub struct HsmResponse {
    pub request_id: u32,
    pub raw: Vec<u8>,
    pub signer_state: Vec<SignerStateEntry>,
}

/// Model of [`HsmResponse`].
pub struct HsmResponseModel {
    pub request_id: u32,
    pub raw: Seq<u8>,
    pub signer_state: Seq<StateEntryModel>,
}

impl View for HsmResponse {
    type V = HsmResponseModel;

    open spec fn view(&self) -> HsmResponseModel {
        HsmResponseModel {
            request_id: self.request_id,
            raw: self.raw@,
            signer_state: state_model(self.signer_state@),
        }
    }
}

/// A request/response pair the signer answered at startup, replayed
/// without involving a signing device.
#[derive(Clone, Debug, PartialEq, Eq)]
pub struct StartupMessage {
    pub request: Vec<u8>,
    pub response: Vec<u8>,
}

/// The node configuration received from the scheduler.
#[derive(Clone, Debug, PartialEq, Eq)]
pub struct NodeConfig {
    pub startupmsgs: Vec<StartupMessage>,
}

}
