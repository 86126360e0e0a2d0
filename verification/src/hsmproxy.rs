//! Decisions of the signer proxy that sits between the daemon's hsmd
//! connection and the plugin's hsmd service.

use crate::pb::{HsmRequest, HsmRequestContext, message_type, spec_message_type, copy_bytes, context_model};
use vstd::prelude::*;

verus! {

/// The message type with which the daemon asks for a new client connection.
pub const WIRE_CLIENT_HSMFD: u16 = 9;

/// The socket path used when `HSMD_SOCK_PATH` is not set.
pub open spec fn default_sock_path() -> Seq<char> {
    "hsmd.sock"@
}

/// The socket path to the plugin's hsmd service: the value of
/// `HSMD_SOCK_PATH`, or `hsmd.sock` when it is not set.
pub fn get_sock_path(env_value: Option<String>) -> (path: String)
    ensures
        path@ == (match env_value {
            Some(v) => v@,
            None => default_sock_path(),
        }),
{
    match env_value {
        Some(v) => v,
        None => {
            proof { reveal_strlit("hsmd.sock"); }
            String::from_str("hsmd.sock")
        },
    }
}

/// Whether a path is absolute, that is starts with `/`.
pub open spec fn is_absolute(p: Seq<char>) -> bool {
    p.len() > 0 && p[0] == '/'
}

/// `base` with `p` appended as a further path component: a separator is
/// put between them unless `base` is empty or already ends with one.
pub open spec fn join_path(base: Seq<char>, p: Seq<char>) -> Seq<char> {
    if base.len() == 0 || base[base.len() - 1] == '/' {
        base + p
    } else {
        base + seq!['/'] + p
    }
}

/// The location of the socket: an absolute socket path as it is, a
/// relative one inside the working directory `cwd`.
pub open spec fn spec_socket_location(sock_path: Seq<char>, cwd: Seq<char>) -> Seq<char> {
    if is_absolute(sock_path) {
        sock_path
    } else {
        join_path(cwd, sock_path)
    }
}

/// Resolves the socket path against the working directory `cwd`.
pub fn socket_location(sock_path: &String, cwd: &String) -> (loc: String)
    ensures
        loc@ == spec_socket_location(sock_path@, cwd@),
{
    let s = sock_path.as_str();
    let absolute = s.unicode_len() > 0 && s.get_char(0) == '/';
    if absolute {
        return sock_path.clone();
    }
    let c = cwd.as_str();
    let n = c.unicode_len();
    let mut loc = cwd.clone();
    assert(!is_absolute(sock_path@));
    if n == 0 || c.get_char(n - 1) == '/' {
        loc.append(s);
        assert(loc@ == join_path(cwd@, sock_path@));
    } else {
        proof { reveal_strlit("/"); }
        assert("/"@ =~= seq!['/']);
        loc.append("/");
        loc.append(s);
        assert(loc@ =~= cwd@ + seq!['/'] + sock_path@);
        assert(loc@ == join_path(cwd@, sock_path@));
    }
    loc
}

/// What the proxy does with a message from the daemon.
pub enum Dispatch {
    /// Open a new client connection and hand its other end to the daemon.
    NewClient,
    /// Forward the message to the plugin as a request.
    Forward,
}

/// The proxy opens a new client connection for a `client_hsmfd` message
/// and forwards every other message.
pub fn dispatch(body: &[u8]) -> (d: Dispatch)
    requires
        body@.len() >= 2,
    ensures
        d is NewClient <==> spec_message_type(body@) == WIRE_CLIENT_HSMFD,
{
    if message_type(body) == WIRE_CLIENT_HSMFD {
        Dispatch::NewClient
    } else {
        Dispatch::Forward
    }
}

/// The reply body that hands the daemon its new client connection.
pub fn client_hsmfd_reply() -> (body: Vec<u8>)
    ensures
        body@ == seq![0u8, 109u8],
{
    let body: Vec<u8> = vec![0u8, 109u8];
    assert(body@ =~= seq![0u8, 109u8]);
    body
}

/// The first request id the proxy hands out, leaving room for requests
/// injected before the daemon's own.
pub const FIRST_REQUEST_ID: usize = 1000;

/// The request id for the current counter value: its low 32 bits.
pub open spec fn spec_request_id(counter: usize) -> u32 {
    (counter as int % 0x1_0000_0000) as u32
}

/// The counter after one id has been handed out (it wraps).
pub open spec fn spec_next_counter(counter: usize) -> usize {
    if counter == usize::MAX { 0 } else { (counter + 1) as usize }
}

/// Hands out a request id: the low 32 bits of the counter, which then
/// moves on by one.
pub fn next_request_id(counter: &mut usize) -> (id: u32)
    ensures
        id == spec_request_id(*old(counter)),
        *final(counter) == spec_next_counter(*old(counter)),
{
    let c = *counter;
    let id = ((c as u64) % 0x1_0000_0000u64) as u32;
    *counter = c.wrapping_add(1);
    id
}

/// The request that forwards a daemon message to the plugin: the body as
/// raw message, the connection's context, the given id, and no signer
/// state or pending requests.
pub fn forward_request(context: &Option<HsmRequestContext>, body: &Vec<u8>, request_id: u32) -> (req: HsmRequest)
    ensures
        req@.request_id == request_id,
        req@.context == context_model(*context),
        req@.raw == body@,
        req@.signer_state.len() == 0,
        req@.requests.len() == 0,
{
    let context = match context {
        Some(c) => Some(c.duplicate()),
        None => None,
    };
    HsmRequest {
        request_id,
        context,
        raw: copy_bytes(body),
        signer_state: Vec::new(),
        requests: Vec::new(),
    }
}

/// What the proxy does in answer to one message from a daemon connection.
pub enum ProxyAction {
    /// Open a new client connection, hand its other end to the daemon with
    /// this reply, and serve the new connection on its own.
    NewClient(Vec<u8>),
    /// Send this request to the plugin and write its reply back.
    Forward(HsmRequest),
}

/// Handles one message read from a daemon connection whose requests carry
/// `context`: a `client_hsmfd` message opens a new client, every other
/// message is forwarded with the next request id.
pub fn handle_message(context: &Option<HsmRequestContext>, counter: &mut usize, body: &Vec<u8>) -> (action: ProxyAction)
    requires
        body@.len() >= 2,
    ensures
        spec_message_type(body@) == WIRE_CLIENT_HSMFD ==> {
            &&& action matches ProxyAction::NewClient(reply) && reply@ == seq![0u8, 109u8]
            &&& *final(counter) == *old(counter)
        },
        spec_message_type(body@) != WIRE_CLIENT_HSMFD ==> {
            &&& action matches ProxyAction::Forward(req)
                && req@.request_id == spec_request_id(*old(counter))
                && req@.context == context_model(*context)
                && req@.raw == body@
                && req@.signer_state.len() == 0
                && req@.requests.len() == 0
            &&& *final(counter) == spec_next_counter(*old(counter))
        },
{
    match dispatch(body.as_slice()) {
        Dispatch::NewClient => ProxyAction::NewClient(client_hsmfd_reply()),
        Dispatch::Forward => {
            let id = next_request_id(counter);
            ProxyAction::Forward(forward_request(context, body, id))
        },
    }
}

/// Whether the command line asks only for the version: exactly one
/// argument, `--version`.
pub fn wants_version(args: &Vec<String>) -> (v: bool)
    ensures
        v == (args@.len() == 2 && args@[1]@ == "--version"@),
{
    if args.len() != 2 {
        return false;
    }
    let flag = String::from_str("--version");
    args[1] == flag
}

/// The signer proxy.
pub struct Proxy {}

impl Proxy {
    pub fn new() -> (p: Proxy)
        ensures
            p == (Proxy {}),
    {
        Proxy {}
    }
}

/// Each id handed out is the low 32 bits of the counter, and consecutive
/// ids differ by one until the 32-bit range wraps.
pub proof fn law_request_ids_increase(counter: usize)
    requires
        counter < usize::MAX,
        counter as int % 0x1_0000_0000 != 0xffff_ffff,
    ensures
        spec_request_id(spec_next_counter(counter)) == spec_request_id(counter) + 1,
{
}

}
