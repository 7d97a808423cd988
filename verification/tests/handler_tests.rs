use tachyon_proxy::handler::{
    action_is_timeout_bound, established_response, step, Action, ErrorKind, Event, HandlerState,
    Outcome, Route,
};

#[test]
fn forward_path_carries_bytes_verbatim() {
    let target = Some(b"127.0.0.1:9000".to_vec());
    let request = b"GET /test HTTP/1.1\r\nHost: example.com\r\n\r\n".to_vec();

    let (state, action) = step(HandlerState::Reading, Event::ClientData(request.clone()), &target);
    assert_eq!(action, Action::ConnectUpstream(b"127.0.0.1:9000".to_vec()));
    assert_eq!(
        state,
        HandlerState::Connecting { raw: request.clone(), route: Route::Forward }
    );

    let (state, action) = step(state, Event::Connected, &target);
    // the original raw request bytes go to the upstream, not a re-encoding
    assert_eq!(action, Action::SendUpstream(request));
    assert_eq!(state, HandlerState::SendingRequest);

    let (state, action) = step(state, Event::Wrote, &target);
    assert_eq!(action, Action::RecvUpstream);
    assert_eq!(state, HandlerState::AwaitingResponse);

    let response = b"HTTP/1.1 200 OK\r\nContent-Length: 21\r\n\r\nHello from mock server".to_vec();
    let (state, action) = step(state, Event::UpstreamData(response.clone()), &target);
    // the upstream bytes reach the client byte-for-byte
    assert_eq!(action, Action::SendClient(response));
    assert_eq!(state, HandlerState::SendingResponse);

    let (state, action) = step(state, Event::Wrote, &target);
    assert_eq!(action, Action::Shutdown);
    assert_eq!(state, HandlerState::Closed(Outcome::Responded));
}

#[test]
fn forward_path_uses_fallback_target_when_none_configured() {
    let request = b"GET / HTTP/1.1\r\n\r\n".to_vec();
    let (_, action) = step(HandlerState::Reading, Event::ClientData(request), &None);
    assert_eq!(action, Action::ConnectUpstream(b"httpbin.org:80".to_vec()));
}

#[test]
fn connect_path_answers_with_the_literal_handshake() {
    let target = None;
    let request = b"CONNECT example.com:443 HTTP/1.1\r\n\r\n".to_vec();

    let (state, action) = step(HandlerState::Reading, Event::ClientData(request), &target);
    // the tunnel connects to the request's own path, not the configured target
    assert_eq!(action, Action::ConnectUpstream(b"example.com:443".to_vec()));

    let (state, action) = step(state, Event::Connected, &target);
    assert_eq!(
        action,
        Action::SendClient(b"HTTP/1.1 200 Connection Established\r\n\r\n".to_vec())
    );
    assert_eq!(state, HandlerState::SendingEstablished);

    let (state, action) = step(state, Event::Wrote, &target);
    assert_eq!(action, Action::RelayTunnel);
    assert_eq!(state, HandlerState::Relaying);

    let (state, action) = step(state, Event::TunnelDone, &target);
    assert_eq!(action, Action::Shutdown);
    assert_eq!(state, HandlerState::Closed(Outcome::TunnelClosed));
}

#[test]
fn connect_method_is_matched_case_insensitively() {
    let request = b"connect example.com:443 HTTP/1.1\r\n\r\n".to_vec();
    let (state, _) = step(HandlerState::Reading, Event::ClientData(request.clone()), &None);
    assert_eq!(state, HandlerState::Connecting { raw: request, route: Route::Tunnel });
}

#[test]
fn established_response_is_the_exact_literal() {
    assert_eq!(
        established_response(),
        b"HTTP/1.1 200 Connection Established\r\n\r\n".to_vec()
    );
}

#[test]
fn empty_read_closes_cleanly() {
    let (state, action) = step(HandlerState::Reading, Event::ClientData(Vec::new()), &None);
    assert_eq!(state, HandlerState::Closed(Outcome::EmptyRequest));
    assert_eq!(action, Action::Shutdown);
}

#[test]
fn unparsable_bytes_close_with_a_parse_error() {
    let (state, action) =
        step(HandlerState::Reading, Event::ClientData(b"INVALID REQUEST\r\n\r\n".to_vec()), &None);
    assert_eq!(state, HandlerState::Closed(Outcome::Failed(ErrorKind::Parse)));
    assert_eq!(action, Action::Shutdown);
}

#[test]
fn timeouts_close_only_this_connection() {
    // a read timeout
    let (state, action) = step(HandlerState::Reading, Event::TimedOut, &None);
    assert_eq!(state, HandlerState::Closed(Outcome::Failed(ErrorKind::Timeout)));
    assert_eq!(action, Action::Shutdown);

    // a connect timeout
    let (state, action) = step(
        HandlerState::Connecting { raw: Vec::new(), route: Route::Forward },
        Event::TimedOut,
        &None,
    );
    assert_eq!(state, HandlerState::Closed(Outcome::Failed(ErrorKind::Timeout)));
    assert_eq!(action, Action::Shutdown);

    // an upstream-read timeout
    let (state, action) = step(HandlerState::AwaitingResponse, Event::TimedOut, &None);
    assert_eq!(state, HandlerState::Closed(Outcome::Failed(ErrorKind::Timeout)));
    assert_eq!(action, Action::Shutdown);
}

#[test]
fn unreachable_upstream_closes_with_a_connect_error() {
    let (state, action) = step(
        HandlerState::Connecting { raw: Vec::new(), route: Route::Tunnel },
        Event::Failed,
        &None,
    );
    assert_eq!(state, HandlerState::Closed(Outcome::Failed(ErrorKind::Connect)));
    assert_eq!(action, Action::Shutdown);
}

#[test]
fn failed_writes_close_with_an_io_error() {
    let (state, action) = step(HandlerState::SendingRequest, Event::Failed, &None);
    assert_eq!(state, HandlerState::Closed(Outcome::Failed(ErrorKind::Io)));
    assert_eq!(action, Action::Shutdown);
}

#[test]
fn empty_upstream_reply_forwards_nothing() {
    let (state, action) = step(HandlerState::AwaitingResponse, Event::UpstreamData(Vec::new()), &None);
    assert_eq!(state, HandlerState::Closed(Outcome::NoResponse));
    assert_eq!(action, Action::Shutdown);
}

#[test]
fn broken_relay_is_an_ordinary_tunnel_end() {
    let (state, action) = step(HandlerState::Relaying, Event::Failed, &None);
    assert_eq!(state, HandlerState::Closed(Outcome::TunnelClosed));
    assert_eq!(action, Action::Shutdown);
}

#[test]
fn only_the_relay_and_teardown_are_unbounded() {
    assert!(action_is_timeout_bound(&Action::ReadClient));
    assert!(action_is_timeout_bound(&Action::ConnectUpstream(Vec::new())));
    assert!(action_is_timeout_bound(&Action::SendUpstream(Vec::new())));
    assert!(action_is_timeout_bound(&Action::RecvUpstream));
    assert!(action_is_timeout_bound(&Action::SendClient(Vec::new())));
    assert!(!action_is_timeout_bound(&Action::RelayTunnel));
    assert!(!action_is_timeout_bound(&Action::Shutdown));
}
