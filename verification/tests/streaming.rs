use axum::http::StatusCode;
use mcp_local_router::http::{
    internal_server_response, message_event, not_found_response, SseEvent, Status, StreamError,
    MESSAGE_PATH, SSE_PATH, UPSTREAM_SSE_PATH,
};
use mcp_local_router::sessions::{
    delivery_status, session_to_close, RouterState, CHANNEL_CAPACITY,
};

#[test]
fn statuses_have_their_numbers() {
    for (status, code) in [
        (Status::Accepted, StatusCode::ACCEPTED),
        (Status::NotFound, StatusCode::NOT_FOUND),
        (Status::Gone, StatusCode::GONE),
        (Status::InternalServerError, StatusCode::INTERNAL_SERVER_ERROR),
    ] {
        assert_eq!(status.code(), code.as_u16());
    }
    assert_eq!(Status::Gone.code(), 410);
}

#[test]
fn responses_carry_status_and_message() {
    let response = not_found_response("gone fishing");
    assert_eq!(response.status, Status::NotFound);
    assert_eq!(response.body, "gone fishing");
    let response = internal_server_response("broken");
    assert_eq!(response.status, Status::InternalServerError);
    assert_eq!(response.body, "broken");
}

#[test]
fn paths_are_those_of_the_documentation() {
    assert_eq!(SSE_PATH, "/sse");
    assert_eq!(UPSTREAM_SSE_PATH, "/sse/{endpoint}");
    assert_eq!(MESSAGE_PATH, "/message");
    assert_eq!(CHANNEL_CAPACITY, 64);
}

#[test]
fn messages_become_events() {
    let payload: Result<String, u8> = Ok("{}".to_string());
    assert_eq!(
        message_event(payload),
        Ok(SseEvent {
            event: "message".to_string(),
            data: "{}".to_string()
        })
    );
    let failed: Result<String, u8> = Err(4);
    assert_eq!(message_event(failed), Err(StreamError::InvalidData(4)));
}

#[test]
fn a_new_stream_begins_with_its_endpoint() {
    let mut state = RouterState::new();
    let session = state.open_session('t');
    let first = state.complete_connection(&session, true).unwrap();
    assert_eq!(first.event, "endpoint");
    assert_eq!(first.data, format!("/message?sessionId={}", session));
    assert_eq!(state.post_event(&session), Ok('t'));
}

#[test]
fn the_endpoint_names_the_session() {
    let mut state = RouterState::new();
    state.register("00000000000000ab".to_string(), 1);
    let first = state.complete_connection("00000000000000ab", true).unwrap();
    assert_eq!(first.data, "/message?sessionId=00000000000000ab");
}

#[test]
fn a_connection_that_cannot_be_served_is_forgotten() {
    let mut state = RouterState::new();
    state.register("kept".to_string(), 'k');
    let session = state.open_session('t');
    let response = state.complete_connection(&session, false).unwrap_err();
    assert_eq!(response.status, Status::InternalServerError);
    assert_eq!(response.body, "Transport channel closed");
    assert_eq!(state.post_event(&session), Err(Status::NotFound));
    assert_eq!(state.post_event("kept"), Ok('k'));
}

#[test]
fn posts_are_accepted_gone_or_not_found() {
    let state: RouterState<char> = RouterState::new();
    assert_eq!(state.post_event("unknown"), Err(Status::NotFound));
    assert_eq!(delivery_status(true), Ok(Status::Accepted));
    assert_eq!(delivery_status(false), Err(Status::Gone));
}

#[test]
fn a_closed_session_is_not_found() {
    let mut state = RouterState::new();
    state.register("one".to_string(), 1);
    state.register("two".to_string(), 2);
    state.close_session("one");
    state.close_session("one");
    assert_eq!(state.post_event("one"), Err(Status::NotFound));
    assert_eq!(state.post_event("two"), Ok(2));
}

#[test]
fn a_session_registered_again_gets_the_new_receiver() {
    let mut state = RouterState::new();
    state.register("one".to_string(), 1);
    state.register("one".to_string(), 2);
    assert_eq!(state.post_event("one"), Ok(2));
}

#[test]
fn a_session_ends_with_its_connection() {
    assert_eq!(session_to_close("one", false), None);
    assert_eq!(session_to_close("one", true), Some("one".to_string()));
}

#[test]
fn sessions_do_not_meet() {
    let mut state = RouterState::new();
    state.register("mine".to_string(), 1);
    state.register("other".to_string(), 2);
    state.close_session("other");
    state.register("another".to_string(), 3);
    assert_eq!(state.post_event("mine"), Ok(1));
    let first = state.complete_connection("mine", true).unwrap();
    assert_eq!(first.data, "/message?sessionId=mine");
}

#[test]
fn a_stream_is_its_endpoint_and_then_every_message() {
    let mut state = RouterState::new();
    state.register("s".to_string(), ());
    let payloads = vec![Ok("one".to_string()), Err('x'), Ok("two".to_string())];
    let mut stream = vec![Ok(state.complete_connection("s", true).unwrap())];
    for payload in payloads {
        stream.push(message_event(payload));
    }
    let event = |event: &str, data: &str| SseEvent {
        event: event.to_string(),
        data: data.to_string(),
    };
    assert_eq!(
        stream,
        vec![
            Ok(event("endpoint", "/message?sessionId=s")),
            Ok(event("message", "one")),
            Err(StreamError::InvalidData('x')),
            Ok(event("message", "two")),
        ]
    );
}
