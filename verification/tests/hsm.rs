use greenlight::hsm::{NodeInfo, Route, StagingHsmServer};
use greenlight::pb::{HsmRequest, NodeConfig, StartupMessage};

fn server() -> StagingHsmServer<()> {
    StagingHsmServer::new(
        "hsmd.sock".to_string(),
        (),
        NodeInfo { initmsg: vec![0, 111, 1, 2, 3] },
        NodeConfig {
            startupmsgs: vec![
                StartupMessage { request: vec![0, 11, 7], response: vec![9, 9] },
                StartupMessage { request: vec![0, 20], response: vec![1] },
                StartupMessage { request: vec![0, 20], response: vec![2] },
            ],
        },
    )
}

fn req(raw: Vec<u8>) -> HsmRequest {
    HsmRequest { request_id: 77, context: None, raw, signer_state: vec![], requests: vec![] }
}

#[test]
fn canned_response_is_the_first_match() {
    let s = server();
    assert_eq!(s.find_canned_response(&vec![0, 20]), Some(vec![1]));
    assert_eq!(s.find_canned_response(&vec![0, 21]), None);
    assert_eq!(s.find_canned_response(&vec![]), None);
}

#[test]
fn canned_reply_takes_precedence_over_init() {
    match server().route_request(&req(vec![0, 11, 7])) {
        Route::Reply(r) => {
            assert_eq!(r.request_id, 77);
            assert_eq!(r.raw, vec![9, 9]);
            assert!(r.signer_state.is_empty());
        }
        Route::Stage => panic!("expected a canned reply"),
    }
}

#[test]
fn init_request_gets_stashed_init_message() {
    match server().route_request(&req(vec![0, 11, 8])) {
        Route::Reply(r) => assert_eq!(r.raw, vec![0, 111, 1, 2, 3]),
        Route::Stage => panic!("expected the init reply"),
    }
}

#[test]
fn dev_memleak_gets_fixed_reply() {
    match server().route_request(&req(vec![0, 33])) {
        Route::Reply(r) => assert_eq!(r.raw, vec![0, 133, 0]),
        Route::Stage => panic!("expected the memleak reply"),
    }
}

#[test]
fn other_requests_are_staged() {
    assert!(matches!(server().route_request(&req(vec![0, 5, 1])), Route::Stage));
    assert!(matches!(server().route_request(&req(vec![1, 11])), Route::Stage));
}

#[test]
fn request_type_is_big_endian() {
    assert_eq!(req(vec![1, 2, 3]).get_type(), 258);
    assert_eq!(greenlight::pb::message_type(&[0, 9]), 9);
}
