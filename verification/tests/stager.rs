use greenlight::pb::{HsmRequest, HsmResponse};
use greenlight::stager::Stage;

fn request(id: u32, raw: Vec<u8>) -> HsmRequest {
    HsmRequest { request_id: id, context: None, raw, signer_state: vec![], requests: vec![] }
}

fn response(id: u32) -> HsmResponse {
    HsmResponse { request_id: id, raw: vec![1, 2], signer_state: vec![] }
}

#[test]
fn new_stage_is_empty() {
    let mut stage: Stage<u64> = Stage::new();
    assert_eq!(stage.connection_count(), 0);
    assert!(!stage.is_stuck());
    let mut s = stage.mystream();
    assert!(s.next().is_none());
}

#[test]
fn respond_hands_back_the_staged_request() {
    let mut stage: Stage<u64> = Stage::new();
    let notice = stage.send(request(7, vec![0, 1]), 42);
    assert_eq!(notice.request.request_id, 7);
    assert_eq!(notice.response, 42);
    let answered = stage.respond(&response(7)).expect("request 7 is outstanding");
    assert_eq!(answered.request, request(7, vec![0, 1]));
    assert_eq!(answered.response, 42);
}

#[test]
fn duplicate_response_is_ignored() {
    let mut stage: Stage<u64> = Stage::new();
    stage.send(request(3, vec![0, 1]), 1);
    assert!(stage.respond(&response(3)).is_some());
    assert!(stage.respond(&response(3)).is_none());
    assert!(stage.respond(&response(99)).is_none());
}

#[test]
fn send_replaces_a_request_with_the_same_id() {
    let mut stage: Stage<u64> = Stage::new();
    stage.send(request(5, vec![0, 1]), 1);
    stage.send(request(5, vec![0, 2]), 2);
    let answered = stage.respond(&response(5)).unwrap();
    assert_eq!(answered.request.raw, vec![0, 2]);
    assert_eq!(answered.response, 2);
    assert!(stage.respond(&response(5)).is_none());
}

#[test]
fn stream_replays_each_outstanding_request_once() {
    let mut stage: Stage<u64> = Stage::new();
    for i in 0..10u32 {
        stage.send(request(i, vec![0, 1]), i as u64 * 10);
    }
    stage.respond(&response(4));
    let mut s = stage.mystream();
    let mut seen = vec![];
    while let Some(r) = s.next() {
        assert_eq!(r.response, r.request.request_id as u64 * 10);
        seen.push(r.request.request_id);
    }
    seen.sort();
    assert_eq!(seen, vec![0, 1, 2, 3, 5, 6, 7, 8, 9]);
    assert!(s.next().is_none());
}

#[test]
fn attach_then_detach_restores_count() {
    let mut stage: Stage<u64> = Stage::new();
    let s1 = stage.mystream();
    let s2 = stage.mystream();
    assert_eq!(stage.connection_count(), 2);
    stage.detach_stream(s1);
    assert_eq!(stage.connection_count(), 1);
    stage.detach_stream(s2);
    assert_eq!(stage.connection_count(), 0);
}

#[test]
fn sticky_requests_make_the_stage_stuck() {
    let mut stage: Stage<u64> = Stage::new();
    stage.send(request(1, vec![0, 4, 9]), 0);
    assert!(!stage.is_stuck());
    stage.send(request(2, vec![0, 5]), 0);
    assert!(stage.is_stuck());
    stage.respond(&response(2));
    assert!(!stage.is_stuck());
}

/// Many requests staged before and after two streams attach; each stream
/// replays what was outstanding when it attached, and every requester
/// gets back its own request.
#[test]
fn live_stream_replays_and_answers() {
    let mut stage: Stage<u32> = Stage::new();
    for i in 0..10u32 {
        stage.send(request(i, vec![]), i);
    }
    let mut s1 = stage.mystream();
    let mut s2 = stage.mystream();
    let mut later = vec![];
    for i in 10..100u32 {
        later.push(stage.send(request(i, vec![]), i));
    }
    let mut n1 = 0;
    while let Some(r) = s1.next() {
        assert_eq!(r.response, r.request.request_id);
        n1 += 1;
    }
    let mut n2 = 0;
    while let Some(_) = s2.next() {
        n2 += 1;
    }
    assert_eq!((n1, n2), (10, 10));
    assert_eq!(later.len(), 90);
    for i in 0..100u32 {
        let answered = stage.respond(&response(i)).unwrap();
        assert_eq!(answered.response, i);
    }
}

#[test]
fn connection_count_follows_live_streams() {
    let mut stage: Stage<u64> = Stage::new();
    let mut live = vec![];
    for n in 1..=5usize {
        live.push(stage.mystream());
        assert_eq!(stage.connection_count(), n);
    }
    while let Some(s) = live.pop() {
        stage.detach_stream(s);
        assert_eq!(stage.connection_count(), live.len());
    }
}
