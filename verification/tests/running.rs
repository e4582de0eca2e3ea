use mcp_local_router::lifecycle::{
    fault_context, invalid_transport_message, parse_transport, ExitStatus, Fault, Lifecycle, Step,
    StepEvent, Transport, DEFAULT_ADDRESS, DEFAULT_TRANSPORT,
};

/// The steps that a run asks for while these events come, and the one after them.
fn steps(transport: Transport, events: &[StepEvent]) -> Vec<Step> {
    let mut run = Lifecycle::new(transport);
    let mut steps = vec![run.pending()];
    for event in events {
        run.advance(*event);
        steps.push(run.pending());
    }
    steps
}

fn last(transport: Transport, events: &[StepEvent]) -> Step {
    *steps(transport, events).last().unwrap()
}

fn failure(fault: Fault) -> Step {
    Step::Exit(ExitStatus::Failure(fault))
}

const SUCCESS: Step = Step::Exit(ExitStatus::Success);
const DONE: StepEvent = StepEvent::Done;
const FAILED: StepEvent = StepEvent::Failed;
const INTERRUPTED: StepEvent = StepEvent::Interrupted;

#[test]
fn transports_are_told_by_name() {
    assert_eq!(parse_transport("stdio"), Transport::Stdio);
    assert_eq!(parse_transport("sse"), Transport::Sse);
    assert_eq!(parse_transport("SSE"), Transport::Unknown);
    assert_eq!(parse_transport(""), Transport::Unknown);
    assert_eq!(parse_transport(DEFAULT_TRANSPORT), Transport::Stdio);
    assert_eq!(DEFAULT_ADDRESS, "127.0.0.1:8080");
    assert_eq!(
        invalid_transport_message("carrier pigeon"),
        "Invalid transport type: carrier pigeon"
    );
}

#[test]
fn exit_codes_tell_success_from_failure() {
    assert_eq!(ExitStatus::Success.code(), 0);
    assert_eq!(ExitStatus::Failure(Fault::BindFailed).code(), 1);
}

#[test]
fn a_stdio_session_that_ends_shuts_everything_down() {
    assert_eq!(
        steps(
            Transport::Stdio,
            &[DONE, DONE, DONE, DONE, StepEvent::ServerDone, DONE, DONE, DONE]
        ),
        vec![
            Step::ReadConfig,
            Step::ParseConfig,
            Step::StartUpstreams,
            Step::InitStdio,
            Step::ServeStdio,
            Step::CancelServing,
            Step::ShutdownClients,
            Step::JoinServer,
            SUCCESS,
        ]
    );
    assert_eq!(
        last(
            Transport::Stdio,
            &[DONE, DONE, DONE, DONE, INTERRUPTED, DONE, DONE, FAILED]
        ),
        SUCCESS
    );
}

#[test]
fn a_stdio_session_interrupted_before_it_began_is_a_success() {
    assert_eq!(
        steps(Transport::Stdio, &[DONE, DONE, DONE, INTERRUPTED, DONE, DONE])[4..],
        [Step::CancelServing, Step::ShutdownClients, SUCCESS]
    );
    assert_eq!(
        steps(
            Transport::Stdio,
            &[DONE, DONE, DONE, StepEvent::Cancelled, DONE]
        )[4..],
        [Step::ShutdownClients, SUCCESS]
    );
}

#[test]
fn a_stdio_session_that_cannot_begin_fails_after_the_shutdown() {
    assert_eq!(
        steps(Transport::Stdio, &[DONE, DONE, DONE, FAILED, DONE])[4..],
        [Step::ShutdownClients, failure(Fault::StdioInitFailed)]
    );
}

#[test]
fn an_interrupted_http_run_shuts_the_clients_down_last() {
    assert_eq!(
        steps(
            Transport::Sse,
            &[DONE, DONE, DONE, DONE, DONE, INTERRUPTED, DONE, DONE, DONE, FAILED, DONE]
        ),
        vec![
            Step::ReadConfig,
            Step::ParseConfig,
            Step::StartUpstreams,
            Step::ParseAddress,
            Step::Bind,
            Step::AwaitInterrupt,
            Step::CancelServing,
            Step::CloseQueue,
            Step::JoinServer,
            Step::JoinProcessor,
            Step::ShutdownClients,
            SUCCESS,
        ]
    );
}

#[test]
fn every_fault_ends_a_run() {
    let all = [
        (Transport::Stdio, 0, Fault::ConfigUnreadable),
        (Transport::Stdio, 1, Fault::ConfigInvalid),
        (Transport::Sse, 2, Fault::UpstreamFailed),
        (Transport::Sse, 3, Fault::InvalidAddress),
        (Transport::Sse, 4, Fault::BindFailed),
    ];
    for (transport, done, fault) in all {
        let mut events = vec![DONE; done];
        events.push(FAILED);
        assert_eq!(last(transport, &events), failure(fault));
    }
    assert_eq!(
        last(
            Transport::Sse,
            &[DONE, DONE, DONE, DONE, DONE, StepEvent::SignalFailed]
        ),
        failure(Fault::SignalFailed)
    );
}

#[test]
fn a_stdio_run_that_cannot_wait_for_an_interrupt_ends_in_success() {
    let signal_failed = StepEvent::SignalFailed;
    assert_eq!(
        last(Transport::Stdio, &[DONE, DONE, DONE, signal_failed, DONE, DONE]),
        SUCCESS
    );
    assert_eq!(
        last(
            Transport::Stdio,
            &[DONE, DONE, DONE, DONE, signal_failed, DONE, DONE, DONE]
        ),
        SUCCESS
    );
}

#[test]
fn an_unknown_transport_is_refused_after_the_upstreams_started() {
    assert_eq!(
        steps(Transport::Unknown, &[DONE, DONE, DONE]),
        vec![
            Step::ReadConfig,
            Step::ParseConfig,
            Step::StartUpstreams,
            failure(Fault::InvalidTransport),
        ]
    );
}

#[test]
fn an_exit_is_final() {
    assert_eq!(
        last(Transport::Stdio, &[FAILED, DONE, DONE, INTERRUPTED]),
        failure(Fault::ConfigUnreadable)
    );
}

#[test]
fn an_event_that_is_not_waited_for_changes_nothing() {
    assert_eq!(
        last(Transport::Stdio, &[StepEvent::ServerDone, INTERRUPTED]),
        Step::ReadConfig
    );
}

#[test]
fn configuration_faults_are_told_with_their_context() {
    assert_eq!(
        fault_context(Fault::ConfigUnreadable, "\"missing.json\""),
        Some("Failed to read config file: \"missing.json\"".to_string())
    );
    assert_eq!(
        fault_context(Fault::ConfigInvalid, "\"c.json\""),
        Some("Config is not valid JSON".to_string())
    );
    assert_eq!(fault_context(Fault::BindFailed, "\"c.json\""), None);
}

#[test]
fn the_configuration_is_judged_before_the_transport() {
    for transport in [Transport::Stdio, Transport::Sse, Transport::Unknown] {
        assert_eq!(last(transport, &[FAILED]), failure(Fault::ConfigUnreadable));
        assert_eq!(last(transport, &[DONE, FAILED]), failure(Fault::ConfigInvalid));
    }
}
