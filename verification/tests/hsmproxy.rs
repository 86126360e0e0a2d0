use greenlight::hsmproxy::{
    client_hsmfd_reply, dispatch, forward_request, handle_message, ProxyAction, get_sock_path, next_request_id, socket_location,
    wants_version, Dispatch, Proxy, FIRST_REQUEST_ID,
};
use greenlight::pb::HsmRequestContext;

#[test]
fn sock_path_defaults() {
    assert_eq!(get_sock_path(None), "hsmd.sock");
    assert_eq!(get_sock_path(Some("/run/x.sock".to_string())), "/run/x.sock");
}

#[test]
fn socket_location_joins_relative_paths() {
    let cwd = "/home/node".to_string();
    assert_eq!(socket_location(&"hsmd.sock".to_string(), &cwd), "/home/node/hsmd.sock");
    assert_eq!(socket_location(&"/tmp/hsmd.sock".to_string(), &cwd), "/tmp/hsmd.sock");
    assert_eq!(socket_location(&"a/b.sock".to_string(), &"/".to_string()), "/a/b.sock");
    assert_eq!(socket_location(&"x".to_string(), &"".to_string()), "x");
}

#[test]
fn client_hsmfd_opens_new_client() {
    assert!(matches!(dispatch(&[0, 9, 1, 2]), Dispatch::NewClient));
    assert!(matches!(dispatch(&[0, 10]), Dispatch::Forward));
    assert!(matches!(dispatch(&[1, 9]), Dispatch::Forward));
    assert_eq!(client_hsmfd_reply(), vec![0, 109]);
}

#[test]
fn request_ids_count_up_and_wrap() {
    let mut counter = FIRST_REQUEST_ID;
    assert_eq!(next_request_id(&mut counter), 1000);
    assert_eq!(next_request_id(&mut counter), 1001);
    assert_eq!(counter, 1002);
    let mut top = usize::MAX;
    assert_eq!(next_request_id(&mut top), u32::MAX);
    assert_eq!(top, 0);
    let mut big: usize = (u32::MAX as usize).wrapping_add(6);
    if usize::BITS > 32 {
        assert_eq!(next_request_id(&mut big), 5);
    }
}

#[test]
fn forwarded_request_carries_body_and_context() {
    let ctx = Some(HsmRequestContext { node_id: vec![2; 33], dbid: 4, capabilities: 8 });
    let r = forward_request(&ctx, &vec![0, 1, 2], 1234);
    assert_eq!(r.request_id, 1234);
    assert_eq!(r.context, ctx);
    assert_eq!(r.raw, vec![0, 1, 2]);
    assert!(r.signer_state.is_empty() && r.requests.is_empty());
}

#[test]
fn version_flag() {
    let args = |v: &[&str]| v.iter().map(|s| s.to_string()).collect::<Vec<_>>();
    assert!(wants_version(&args(&["hsmproxy", "--version"])));
    assert!(!wants_version(&args(&["hsmproxy"])));
    assert!(!wants_version(&args(&["hsmproxy", "--version", "x"])));
    assert!(!wants_version(&args(&["hsmproxy", "--help"])));
}

#[test]
fn proxy_is_constructed() {
    let _p: Proxy = Proxy::new();
}

#[test]
fn messages_are_handled_by_type() {
    let mut counter = 1000usize;
    match handle_message(&None, &mut counter, &vec![0, 9, 7]) {
        ProxyAction::NewClient(reply) => assert_eq!(reply, vec![0, 109]),
        ProxyAction::Forward(_) => panic!("client_hsmfd must open a new client"),
    }
    assert_eq!(counter, 1000);
    match handle_message(&None, &mut counter, &vec![0, 20, 1]) {
        ProxyAction::Forward(req) => {
            assert_eq!(req.request_id, 1000);
            assert_eq!(req.raw, vec![0, 20, 1]);
        }
        ProxyAction::NewClient(_) => panic!("other messages are forwarded"),
    }
    assert_eq!(counter, 1001);
}
