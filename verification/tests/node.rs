use greenlight::node::{
    buffer_chunk, can_reconnect_peers, checked_header_timestamp, PayloadTooLarge, complete_request, decode_header,
    exceeds_message_limit, header_timestamp, heartbeat_request, id_less, reconnect_plan,
    signature_headers, strip_backslashes, timestamp_from_decoded, ConnectRequest, ListedPeer,
    ShortTimestamp, SignatureContextLayer, StoredPeer, MAX_MESSAGE_SIZE, check_close_to_addr,
    configure_request, cached_configure_request, ConfigureError, SignerRegistry,
};
use greenlight::pb::{HsmRequest, PendingRequest, SignerStateEntry};

fn listed(id: &str, has_channel: bool) -> ListedPeer {
    ListedPeer { id: id.to_string(), has_channel }
}

fn stored(id: &str, addr: &str) -> StoredPeer {
    StoredPeer { id: id.to_string(), addr: addr.to_string() }
}

#[test]
fn ids_order_lexicographically() {
    assert!(id_less("02aa", "02ab"));
    assert!(id_less("02", "02aa"));
    assert!(!id_less("02aa", "02aa"));
    assert!(!id_less("03", "02ff"));
    assert!(id_less("", "0"));
}

#[test]
fn reconnect_plan_sorts_and_dedups() {
    let peers = vec![listed("03c", true), listed("02b", false), listed("02a", true)];
    let st = vec![stored("03c", "1.2.3.4:9735"), stored("01z", "5.6.7.8:9735"), stored("01z", "9.9.9.9:1")];
    let plan = reconnect_plan(&peers, &st);
    assert_eq!(
        plan,
        vec![
            ConnectRequest { id: "01z".to_string(), host: Some("5.6.7.8:9735".to_string()), port: None },
            ConnectRequest { id: "02a".to_string(), host: None, port: None },
            ConnectRequest { id: "03c".to_string(), host: None, port: None },
        ]
    );
}

#[test]
fn reconnect_plan_of_nothing_is_empty() {
    assert!(reconnect_plan(&vec![listed("02", false)], &vec![]).is_empty());
}

#[test]
fn backslashes_are_stripped() {
    let raw = br#"{\"id\":\"02ab\",\"addr\":\"1.2.3.4\"}"#;
    assert_eq!(strip_backslashes(raw), br#"{"id":"02ab","addr":"1.2.3.4"}"#.to_vec());
    assert_eq!(strip_backslashes(b""), Vec::<u8>::new());
}

#[test]
fn reconnecting_needs_a_signer() {
    assert!(!can_reconnect_peers(0));
    assert!(can_reconnect_peers(1));
    assert!(can_reconnect_peers(3));
}

#[test]
fn heartbeat_carries_state() {
    let state = vec![SignerStateEntry { version: 1, key: "k".to_string(), value: vec![5] }];
    let r = heartbeat_request(state.clone());
    assert_eq!(r.request_id, 0);
    assert_eq!(r.raw, vec![0x07, 0xd8]);
    assert_eq!(r.signer_state, state);
    assert!(r.context.is_none() && r.requests.is_empty());
}

#[test]
fn completed_request_lists_configure_last() {
    let pending = |n: u8| PendingRequest {
        request: vec![n],
        uri: format!("/call/{}", n),
        signature: vec![],
        pubkey: vec![],
        timestamp: n as u64,
    };
    let mut r = HsmRequest { request_id: 9, context: None, raw: vec![0, 1], signer_state: vec![], requests: vec![] };
    let state = vec![SignerStateEntry { version: 2, key: "a".to_string(), value: vec![] }];
    complete_request(&mut r, state.clone(), vec![pending(1), pending(2)], Some(pending(3)));
    assert_eq!(r.request_id, 9);
    assert_eq!(r.raw, vec![0, 1]);
    assert_eq!(r.signer_state, state);
    assert_eq!(r.requests, vec![pending(1), pending(2), pending(3)]);
    complete_request(&mut r, vec![], vec![pending(4)], None);
    assert_eq!(r.requests, vec![pending(4)]);
    assert!(r.signer_state.is_empty());
}

#[test]
fn message_limit() {
    assert!(!exceeds_message_limit(0, MAX_MESSAGE_SIZE));
    assert!(exceeds_message_limit(1, MAX_MESSAGE_SIZE));
    assert!(!exceeds_message_limit(3_999_000, 1000));
    assert!(exceeds_message_limit(usize::MAX, usize::MAX));
}

#[test]
fn headers_decode_as_base64_without_padding() {
    assert_eq!(decode_header(Some(b"aGVsbG8")), Some(b"hello".to_vec()));
    assert_eq!(decode_header(Some(b"aGVsbG8=")), None);
    assert_eq!(decode_header(Some(b"!!")), None);
    assert_eq!(decode_header(None), None);
}

#[test]
fn signature_headers_need_both() {
    assert_eq!(signature_headers(Some(b"AQI"), Some(b"AwQ")), Some((vec![1, 2], vec![3, 4])));
    assert_eq!(signature_headers(Some(b"AQI"), None), None);
    assert_eq!(signature_headers(None, Some(b"AwQ")), None);
    assert_eq!(signature_headers(Some(b"AQI"), Some(b"%")), None);
}

#[test]
fn timestamps_are_big_endian() {
    assert_eq!(timestamp_from_decoded(&[0, 0, 0, 0, 0, 0, 1, 2, 99]), 258);
    assert_eq!(header_timestamp(Some(b"AAAAAAAAAAE")), Some(1));
    assert_eq!(header_timestamp(None), None);
    assert_eq!(checked_header_timestamp(Some(b"AAAAAAAAAAE")), Ok(Some(1)));
    assert_eq!(checked_header_timestamp(Some(b"AQI")), Err(ShortTimestamp));
    assert_eq!(checked_header_timestamp(Some(b"=")), Ok(None));
}

#[test]
fn layer_shares_its_context() {
    let layer = SignatureContextLayer::new(vec![1u8, 2]);
    let svc = layer.layer("inner");
    assert_eq!(svc.inner, "inner");
    assert_eq!(svc.ctx, vec![1u8, 2]);
}

#[test]
fn chunks_are_buffered_up_to_the_limit() {
    let mut buf = vec![1u8, 2];
    assert_eq!(buffer_chunk(&mut buf, &[3, 4]), Ok(()));
    assert_eq!(buf, vec![1, 2, 3, 4]);
    let mut big = vec![0u8; MAX_MESSAGE_SIZE - 1];
    assert_eq!(buffer_chunk(&mut big, &[7]), Ok(()));
    assert_eq!(big.len(), MAX_MESSAGE_SIZE);
    assert_eq!(buffer_chunk(&mut big, &[8]), Err(PayloadTooLarge));
    assert_eq!(big.len(), MAX_MESSAGE_SIZE);
}

#[test]
fn reconnect_plan_takes_channel_peers_only() {
    let peers = vec![listed("02b", false), listed("02a", true)];
    let plan = reconnect_plan(&peers, &vec![]);
    assert_eq!(plan, vec![ConnectRequest { id: "02a".to_string(), host: None, port: None }]);
}

#[test]
fn signer_registry_counts_attached_signers() {
    let mut reg = SignerRegistry::new();
    assert!(!reg.can_reconnect_peers());
    let a = reg.attach();
    let b = reg.attach();
    assert_eq!((a.hsm_id(), b.hsm_id()), (0, 1));
    assert!(reg.can_reconnect_peers());
    reg.detach(a);
    assert!(reg.can_reconnect_peers());
    reg.detach(b);
    assert!(!reg.can_reconnect_peers());
    let c = reg.attach();
    assert_eq!(c.hsm_id(), 2);
    reg.detach(c);
    assert!(!reg.can_reconnect_peers());
}

#[test]
fn close_to_addr_must_match_the_network() {
    let main = "1BvBMSEYstWetqTFn5Au4m4GFg7xJaNVN2";
    let test = "mipcBbFg9gMiCh81Kj8tqqdgoZub1ZJRfn";
    assert_eq!(check_close_to_addr("bitcoin", main), Ok(()));
    assert_eq!(check_close_to_addr("testnet", test), Ok(()));
    assert_eq!(check_close_to_addr("regtest", test), Ok(()));
    assert_eq!(check_close_to_addr("bitcoin", test), Err(ConfigureError::NetworkMismatch));
    assert_eq!(check_close_to_addr("testnet", main), Err(ConfigureError::NetworkMismatch));
    assert_eq!(check_close_to_addr("bitcoin", "not an address"), Err(ConfigureError::AddressInvalid));
    assert_eq!(check_close_to_addr("mainnet", main), Err(ConfigureError::NetworkUnknown));
    assert_eq!(check_close_to_addr("", ""), Err(ConfigureError::NetworkUnknown));
}

#[test]
fn configure_stores_the_first_pending_call() {
    let pending = |n: u8| PendingRequest {
        request: vec![n],
        uri: format!("/greenlight.Node/Configure{}", n),
        signature: vec![n],
        pubkey: vec![n, n],
        timestamp: n as u64,
    };
    assert_eq!(configure_request(&vec![pending(1), pending(2)]), pending(1));
    assert_eq!(configure_request(&vec![pending(3)]), pending(3));
}

#[test]
fn cached_configure_request_is_the_first_entry() {
    assert_eq!(cached_configure_request(&vec![]), None);
    assert_eq!(cached_configure_request(&vec![None, Some("x".to_string())]), None);
    assert_eq!(
        cached_configure_request(&vec![Some("{}".to_string()), Some("x".to_string())]),
        Some("{}".to_string())
    );
}
