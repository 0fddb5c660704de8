use deet::balancer::{
    health_of, on_unreadable, on_upstream_failure, status_of, ProxyState, RequestError, UpStream,
    UpstreamState, Verdict, BAD_GATEWAY, BAD_REQUEST, OK, PAYLOAD_TOO_LARGE, SERVICE_UNAVAILABLE,
    TOO_MANY_REQUESTS,
};

fn state(upstreams: &[&str], limit: usize) -> ProxyState {
    ProxyState::new(upstreams.iter().map(|a| a.to_string()).collect(), 10, "/".to_string(), limit)
}

fn upstreams(state: &ProxyState) -> Vec<String> {
    (0..state.upstream_count()).map(|i| state.upstream(i).unwrap().clone()).collect()
}

#[test]
fn status_codes_are_the_usual_ones() {
    assert_eq!(OK, 200);
    assert_eq!(BAD_REQUEST, 400);
    assert_eq!(PAYLOAD_TOO_LARGE, 413);
    assert_eq!(TOO_MANY_REQUESTS, 429);
    assert_eq!(BAD_GATEWAY, 502);
    assert_eq!(SERVICE_UNAVAILABLE, 503);
}

#[test]
fn only_status_200_is_healthy() {
    assert_eq!(health_of(200), UpstreamState::Health);
    assert_eq!(health_of(201), UpstreamState::Ill);
    assert_eq!(health_of(404), UpstreamState::Ill);
    assert_eq!(health_of(500), UpstreamState::Ill);
    assert_eq!(health_of(0), UpstreamState::Ill);
}

#[test]
fn each_error_has_its_status_code() {
    assert_eq!(status_of(RequestError::IncompleteRequest(0)), 400);
    assert_eq!(status_of(RequestError::IncompleteRequest(12)), 400);
    assert_eq!(status_of(RequestError::MalformedRequest), 400);
    assert_eq!(status_of(RequestError::InvalidContentLength), 400);
    assert_eq!(status_of(RequestError::ContentLengthMismatch), 400);
    assert_eq!(status_of(RequestError::RequestBodyTooLarge), 413);
    assert_eq!(status_of(RequestError::ConnectionError), 503);
}

#[test]
fn unreadable_requests_are_answered_or_let_go() {
    assert_eq!(on_unreadable(RequestError::IncompleteRequest(0)), Verdict::Close);
    assert_eq!(on_unreadable(RequestError::ConnectionError), Verdict::Close);
    assert_eq!(on_unreadable(RequestError::IncompleteRequest(1)), Verdict::Reply(400));
    assert_eq!(on_unreadable(RequestError::MalformedRequest), Verdict::Reply(400));
    assert_eq!(on_unreadable(RequestError::InvalidContentLength), Verdict::Reply(400));
    assert_eq!(on_unreadable(RequestError::ContentLengthMismatch), Verdict::Reply(400));
    assert_eq!(on_unreadable(RequestError::RequestBodyTooLarge), Verdict::Reply(413));
    assert_eq!(on_upstream_failure(), Verdict::ReplyAndClose(502));
}

#[test]
fn ill_servers_leave_and_healthy_ones_join() {
    let mut state = state(&["a:1", "b:2", "a:1", "c:3"], 0);
    assert_eq!(state.upstream_count(), 4);
    assert!(state.has_upstream(&"b:2".to_string()));
    assert!(!state.has_upstream(&"d:4".to_string()));
    state.note_health(&UpStream { address: "a:1".to_string(), state: UpstreamState::Ill });
    assert_eq!(upstreams(&state), vec!["b:2", "c:3"]);
    state.note_health(&UpStream { address: "a:1".to_string(), state: UpstreamState::Ill });
    assert_eq!(upstreams(&state), vec!["b:2", "c:3"]);
    state.note_health(&UpStream { address: "b:2".to_string(), state: UpstreamState::Health });
    assert_eq!(upstreams(&state), vec!["b:2", "c:3"]);
    state.note_health(&UpStream { address: "a:1".to_string(), state: UpstreamState::Health });
    assert_eq!(upstreams(&state), vec!["b:2", "c:3", "a:1"]);
    assert_eq!(state.upstream(3), None);
}

#[test]
fn failed_upstream_is_dropped() {
    let mut state = state(&["a:1", "b:2", "c:3"], 0);
    state.drop_upstream(1);
    assert_eq!(upstreams(&state), vec!["a:1", "c:3"]);
    state.drop_upstream(1);
    state.drop_upstream(0);
    assert_eq!(state.upstream_count(), 0);
    assert_eq!(state.pick_upstream(), None);
}

#[test]
fn picked_upstream_is_one_in_use() {
    let state = state(&["a:1", "b:2", "c:3"], 0);
    let mut seen = [false; 3];
    for _ in 0..300 {
        let index = state.pick_upstream().unwrap();
        assert!(index < 3);
        assert!(state.upstream(index).is_some());
        seen[index] = true;
    }
    assert_eq!(seen, [true; 3]);
    let single = self::state(&["only:1"], 0);
    for _ in 0..20 {
        assert_eq!(single.pick_upstream(), Some(0));
    }
}

#[test]
fn requests_pass_up_to_the_limit() {
    let mut state = state(&["a:1"], 3);
    let client = "10.0.0.1".to_string();
    let other = "10.0.0.2".to_string();
    assert!(state.allow(&client));
    assert!(state.allow(&client));
    assert!(state.allow(&other));
    assert!(state.allow(&client));
    assert!(!state.allow(&client));
    assert!(!state.allow(&client));
    assert!(state.allow(&other));
    assert!(state.allow(&other));
    assert!(!state.allow(&other));
    state.reset_traffic();
    assert!(state.allow(&client));
    assert_eq!(state.on_request(&client), Verdict::Forward);
    assert_eq!(state.on_request(&client), Verdict::Forward);
    assert_eq!(state.on_request(&client), Verdict::ReplyAndClose(429));
}

#[test]
fn without_a_limit_every_request_passes() {
    let mut state = state(&["a:1"], 0);
    let client = "10.0.0.1".to_string();
    for _ in 0..1000 {
        assert!(state.allow(&client));
        assert_eq!(state.on_request(&client), Verdict::Forward);
    }
    let mut strict = self::state(&["a:1"], 1);
    assert_eq!(strict.on_request(&client), Verdict::Forward);
    assert_eq!(strict.on_request(&client), Verdict::ReplyAndClose(TOO_MANY_REQUESTS));
}
