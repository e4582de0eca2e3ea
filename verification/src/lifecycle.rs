//! The course of a run of the router, from reading the configuration to its exit.

use vstd::prelude::*;

verus! {

/// The transport that is used where none is asked for.
pub const DEFAULT_TRANSPORT: &'static str = "stdio";

/// The address that is listened on where none is asked for.
pub const DEFAULT_ADDRESS: &'static str = "127.0.0.1:8080";

/// The transports by which the router can be reached.
#[derive(Clone, Copy, Debug, PartialEq, Eq, Structural)]
pub enum Transport {
    /// The standard input and output of the router.
    Stdio,
    /// Streams of server-sent events over HTTP.
    Sse,
    /// A transport that the router does not have.
    Unknown,
}

/// The transport of this name.
pub open spec fn transport_named(name: Seq<char>) -> Transport {
    if name == "stdio"@ {
        Transport::Stdio
    } else if name == "sse"@ {
        Transport::Sse
    } else {
        Transport::Unknown
    }
}

/// Finds the transport of this name. The name is taken letter for letter.
pub fn parse_transport(name: &str) -> (transport: Transport)
    ensures
        transport == transport_named(name@),
        transport == Transport::Stdio <==> name@ == "stdio"@,
        transport == Transport::Sse <==> name@ == "sse"@,
{
    proof {
        law_transports_have_their_names(name@);
    }
    let name: String = name.to_owned();
    if name == "stdio".to_owned() {
        Transport::Stdio
    } else if name == "sse".to_owned() {
        Transport::Sse
    } else {
        Transport::Unknown
    }
}

/// What is said about a transport that the router does not have.
pub fn invalid_transport_message(name: &str) -> (message: String)
    ensures
        message@ == "Invalid transport type: "@ + name@,
{
    let mut message: String = "Invalid transport type: ".to_owned();
    message.append(name);
    message
}

/// Why a run failed.
#[derive(Clone, Copy, Debug, PartialEq, Eq, Structural)]
pub enum Fault {
    /// The configuration file could not be read.
    ConfigUnreadable,
    /// The configuration is not valid.
    ConfigInvalid,
    /// An upstream could not be started.
    UpstreamFailed,
    /// The transport is one that the router does not have.
    InvalidTransport,
    /// The session over standard input and output could not be initialised.
    StdioInitFailed,
    /// The address to listen on is not an address.
    InvalidAddress,
    /// The address could not be listened on.
    BindFailed,
    /// The interrupt could not be waited for.
    SignalFailed,
}

/// What is said about the error that a run failed with, where the error alone does not
/// tell. `config_path` is the path of the configuration file as it is shown.
pub fn fault_context(fault: Fault, config_path: &str) -> (context: Option<String>)
    ensures
        match fault {
            Fault::ConfigUnreadable => context matches Some(c) && c@
                == "Failed to read config file: "@ + config_path@,
            Fault::ConfigInvalid => context matches Some(c) && c@ == "Config is not valid JSON"@,
            _ => context is None,
        },
{
    match fault {
        Fault::ConfigUnreadable => {
            let mut context: String = "Failed to read config file: ".to_owned();
            context.append(config_path);
            Some(context)
        },
        Fault::ConfigInvalid => Some("Config is not valid JSON".to_owned()),
        _ => None,
    }
}

/// How a run ends.
#[derive(Clone, Copy, Debug, PartialEq, Eq, Structural)]
pub enum ExitStatus {
    Success,
    Failure(Fault),
}

impl ExitStatus {
    /// The exit code of the process.
    pub fn code(self) -> (code: i32)
        ensures
            code == if self == ExitStatus::Success {
                0int
            } else {
                1int
            },
    {
        match self {
            ExitStatus::Success => 0,
            ExitStatus::Failure(_) => 1,
        }
    }
}

/// What a run asks for next.
#[derive(Clone, Copy, Debug, PartialEq, Eq, Structural)]
pub enum Step {
    /// Read the configuration file.
    ReadConfig,
    /// Turn the text of the configuration file into a configuration.
    ParseConfig,
    /// Start the configured upstreams.
    StartUpstreams,
    /// Initialise a session over standard input and output, until it is initialised or an
    /// interrupt comes.
    InitStdio,
    /// Serve that session, until it is over or an interrupt comes.
    ServeStdio,
    /// Turn the text of the address into an address.
    ParseAddress,
    /// Listen on the address, and start to serve connections.
    Bind,
    /// Wait for an interrupt.
    AwaitInterrupt,
    /// Tell what is being served to stop.
    CancelServing,
    /// Take no more connections to be served.
    CloseQueue,
    /// Wait until the serving has stopped.
    JoinServer,
    /// Wait until no connection waits to be served.
    JoinProcessor,
    /// Shut the upstream clients down.
    ShutdownClients,
    /// End the process.
    Exit(ExitStatus),
}

/// What the environment reports of a step.
#[derive(Clone, Copy, Debug, PartialEq, Eq, Structural)]
pub enum StepEvent {
    /// The step was done.
    Done,
    /// The step failed.
    Failed,
    /// The step was cancelled.
    Cancelled,
    /// An interrupt came.
    Interrupted,
    /// An interrupt could not be waited for.
    SignalFailed,
    /// What was served is over.
    ServerDone,
}

/// What follows the shutdown of the clients of a run over standard input and output.
#[derive(Clone, Copy, Debug, PartialEq, Eq, Structural)]
pub enum StdioEnd {
    /// The session was served: wait for it to stop.
    Join,
    /// The session was interrupted while it was being initialised: exit.
    Interrupted,
    /// The initialisation was cancelled: exit.
    InitCancelled,
    /// The initialisation failed: exit with that error.
    InitFailed,
}

/// Where a run stands.
#[derive(Clone, Copy, Debug, PartialEq, Eq, Structural)]
pub enum Phase {
    ReadConfig,
    ParseConfig,
    StartUpstreams,
    StdioInit,
    StdioServe,
    StdioCancelInit,
    StdioCancel,
    StdioShutdown(StdioEnd),
    StdioJoin,
    SseAddress,
    SseBind,
    SseWait,
    SseCancel,
    SseCloseQueue,
    SseJoinServer,
    SseJoinProcessor,
    SseShutdown,
    Exit(ExitStatus),
}

/// The exit of a run that failed.
pub open spec fn failure(fault: Fault) -> Phase {
    Phase::Exit(ExitStatus::Failure(fault))
}

/// The step that a run asks for in this phase.
pub open spec fn step_of(phase: Phase) -> Step {
    match phase {
        Phase::ReadConfig => Step::ReadConfig,
        Phase::ParseConfig => Step::ParseConfig,
        Phase::StartUpstreams => Step::StartUpstreams,
        Phase::StdioInit => Step::InitStdio,
        Phase::StdioServe => Step::ServeStdio,
        Phase::StdioCancelInit => Step::CancelServing,
        Phase::StdioCancel => Step::CancelServing,
        Phase::StdioShutdown(_) => Step::ShutdownClients,
        Phase::StdioJoin => Step::JoinServer,
        Phase::SseAddress => Step::ParseAddress,
        Phase::SseBind => Step::Bind,
        Phase::SseWait => Step::AwaitInterrupt,
        Phase::SseCancel => Step::CancelServing,
        Phase::SseCloseQueue => Step::CloseQueue,
        Phase::SseJoinServer => Step::JoinServer,
        Phase::SseJoinProcessor => Step::JoinProcessor,
        Phase::SseShutdown => Step::ShutdownClients,
        Phase::Exit(status) => Step::Exit(status),
    }
}

/// The phase after an event. The transport is looked at only when the upstreams are
/// started. An event that is not waited for changes nothing, and neither does any event
/// once the run is at its exit.
pub open spec fn phase_after(transport: Transport, phase: Phase, event: StepEvent) -> Phase {
    match (phase, event) {
        (Phase::ReadConfig, StepEvent::Done) => Phase::ParseConfig,
        (Phase::ReadConfig, StepEvent::Failed) => failure(Fault::ConfigUnreadable),
        (Phase::ParseConfig, StepEvent::Done) => Phase::StartUpstreams,
        (Phase::ParseConfig, StepEvent::Failed) => failure(Fault::ConfigInvalid),
        (Phase::StartUpstreams, StepEvent::Done) => match transport {
            Transport::Stdio => Phase::StdioInit,
            Transport::Sse => Phase::SseAddress,
            Transport::Unknown => failure(Fault::InvalidTransport),
        },
        (Phase::StartUpstreams, StepEvent::Failed) => failure(Fault::UpstreamFailed),
        (Phase::StdioInit, StepEvent::Done) => Phase::StdioServe,
        (Phase::StdioInit, StepEvent::Cancelled) => Phase::StdioShutdown(StdioEnd::InitCancelled),
        (Phase::StdioInit, StepEvent::Failed) => Phase::StdioShutdown(StdioEnd::InitFailed),
        (Phase::StdioInit, StepEvent::Interrupted) => Phase::StdioCancelInit,
        (Phase::StdioInit, StepEvent::SignalFailed) => Phase::StdioCancelInit,
        (Phase::StdioServe, StepEvent::Interrupted) => Phase::StdioCancel,
        (Phase::StdioServe, StepEvent::SignalFailed) => Phase::StdioCancel,
        (Phase::StdioServe, StepEvent::ServerDone) => Phase::StdioCancel,
        (Phase::StdioCancelInit, StepEvent::Done) => Phase::StdioShutdown(StdioEnd::Interrupted),
        (Phase::StdioCancel, StepEvent::Done) => Phase::StdioShutdown(StdioEnd::Join),
        (Phase::StdioShutdown(end), StepEvent::Done) => match end {
            StdioEnd::Join => Phase::StdioJoin,
            StdioEnd::Interrupted => Phase::Exit(ExitStatus::Success),
            StdioEnd::InitCancelled => Phase::Exit(ExitStatus::Success),
            StdioEnd::InitFailed => failure(Fault::StdioInitFailed),
        },
        (Phase::StdioJoin, StepEvent::Done) => Phase::Exit(ExitStatus::Success),
        (Phase::StdioJoin, StepEvent::Failed) => Phase::Exit(ExitStatus::Success),
        (Phase::SseAddress, StepEvent::Done) => Phase::SseBind,
        (Phase::SseAddress, StepEvent::Failed) => failure(Fault::InvalidAddress),
        (Phase::SseBind, StepEvent::Done) => Phase::SseWait,
        (Phase::SseBind, StepEvent::Failed) => failure(Fault::BindFailed),
        (Phase::SseWait, StepEvent::Interrupted) => Phase::SseCancel,
        (Phase::SseWait, StepEvent::SignalFailed) => failure(Fault::SignalFailed),
        (Phase::SseCancel, StepEvent::Done) => Phase::SseCloseQueue,
        (Phase::SseCloseQueue, StepEvent::Done) => Phase::SseJoinServer,
        (Phase::SseJoinServer, StepEvent::Done) => Phase::SseJoinProcessor,
        (Phase::SseJoinServer, StepEvent::Failed) => Phase::SseJoinProcessor,
        (Phase::SseJoinProcessor, StepEvent::Done) => Phase::SseShutdown,
        (Phase::SseJoinProcessor, StepEvent::Failed) => Phase::SseShutdown,
        (Phase::SseShutdown, StepEvent::Done) => Phase::Exit(ExitStatus::Success),
        _ => phase,
    }
}

/// A run of the router in progress.
pub struct Lifecycle {
    transport: Transport,
    phase: Phase,
}

impl Lifecycle {
    /// The transport that was asked for.
    pub closed spec fn transport(&self) -> Transport {
        self.transport
    }

    /// Where the run stands.
    pub closed spec fn phase(&self) -> Phase {
        self.phase
    }

    /// A run with this transport, before its first step.
    pub fn new(transport: Transport) -> (run: Self)
        ensures
            run.transport() == transport,
            run.phase() == Phase::ReadConfig,
    {
        Lifecycle { transport, phase: Phase::ReadConfig }
    }

    /// What to do next.
    pub fn pending(&self) -> (step: Step)
        ensures
            step == step_of(self.phase()),
    {
        match self.phase {
            Phase::ReadConfig => Step::ReadConfig,
            Phase::ParseConfig => Step::ParseConfig,
            Phase::StartUpstreams => Step::StartUpstreams,
            Phase::StdioInit => Step::InitStdio,
            Phase::StdioServe => Step::ServeStdio,
            Phase::StdioCancelInit => Step::CancelServing,
            Phase::StdioCancel => Step::CancelServing,
            Phase::StdioShutdown(_) => Step::ShutdownClients,
            Phase::StdioJoin => Step::JoinServer,
            Phase::SseAddress => Step::ParseAddress,
            Phase::SseBind => Step::Bind,
            Phase::SseWait => Step::AwaitInterrupt,
            Phase::SseCancel => Step::CancelServing,
            Phase::SseCloseQueue => Step::CloseQueue,
            Phase::SseJoinServer => Step::JoinServer,
            Phase::SseJoinProcessor => Step::JoinProcessor,
            Phase::SseShutdown => Step::ShutdownClients,
            Phase::Exit(status) => Step::Exit(status),
        }
    }

    /// Goes on with what the environment reports of the step.
    pub fn advance(&mut self, event: StepEvent)
        ensures
            final(self).transport() == old(self).transport(),
            final(self).phase() == phase_after(old(self).transport(), old(self).phase(), event),
    {
        let transport = self.transport;
        self.phase = match (self.phase, event) {
            (Phase::ReadConfig, StepEvent::Done) => Phase::ParseConfig,
            (Phase::ReadConfig, StepEvent::Failed) => fail(Fault::ConfigUnreadable),
            (Phase::ParseConfig, StepEvent::Done) => Phase::StartUpstreams,
            (Phase::ParseConfig, StepEvent::Failed) => fail(Fault::ConfigInvalid),
            (Phase::StartUpstreams, StepEvent::Done) => match transport {
                Transport::Stdio => Phase::StdioInit,
                Transport::Sse => Phase::SseAddress,
                Transport::Unknown => fail(Fault::InvalidTransport),
            },
            (Phase::StartUpstreams, StepEvent::Failed) => fail(Fault::UpstreamFailed),
            (Phase::StdioInit, StepEvent::Done) => Phase::StdioServe,
            (Phase::StdioInit, StepEvent::Cancelled) => Phase::StdioShutdown(
                StdioEnd::InitCancelled,
            ),
            (Phase::StdioInit, StepEvent::Failed) => Phase::StdioShutdown(StdioEnd::InitFailed),
            (Phase::StdioInit, StepEvent::Interrupted) => Phase::StdioCancelInit,
            (Phase::StdioInit, StepEvent::SignalFailed) => Phase::StdioCancelInit,
            (Phase::StdioServe, StepEvent::Interrupted) => Phase::StdioCancel,
            (Phase::StdioServe, StepEvent::SignalFailed) => Phase::StdioCancel,
            (Phase::StdioServe, StepEvent::ServerDone) => Phase::StdioCancel,
            (Phase::StdioCancelInit, StepEvent::Done) => Phase::StdioShutdown(
                StdioEnd::Interrupted,
            ),
            (Phase::StdioCancel, StepEvent::Done) => Phase::StdioShutdown(StdioEnd::Join),
            (Phase::StdioShutdown(end), StepEvent::Done) => match end {
                StdioEnd::Join => Phase::StdioJoin,
                StdioEnd::Interrupted => Phase::Exit(ExitStatus::Success),
                StdioEnd::InitCancelled => Phase::Exit(ExitStatus::Success),
                StdioEnd::InitFailed => fail(Fault::StdioInitFailed),
            },
            (Phase::StdioJoin, StepEvent::Done) => Phase::Exit(ExitStatus::Success),
            (Phase::StdioJoin, StepEvent::Failed) => Phase::Exit(ExitStatus::Success),
            (Phase::SseAddress, StepEvent::Done) => Phase::SseBind,
            (Phase::SseAddress, StepEvent::Failed) => fail(Fault::InvalidAddress),
            (Phase::SseBind, StepEvent::Done) => Phase::SseWait,
            (Phase::SseBind, StepEvent::Failed) => fail(Fault::BindFailed),
            (Phase::SseWait, StepEvent::Interrupted) => Phase::SseCancel,
            (Phase::SseWait, StepEvent::SignalFailed) => fail(Fault::SignalFailed),
            (Phase::SseCancel, StepEvent::Done) => Phase::SseCloseQueue,
            (Phase::SseCloseQueue, StepEvent::Done) => Phase::SseJoinServer,
            (Phase::SseJoinServer, StepEvent::Done) => Phase::SseJoinProcessor,
            (Phase::SseJoinServer, StepEvent::Failed) => Phase::SseJoinProcessor,
            (Phase::SseJoinProcessor, StepEvent::Done) => Phase::SseShutdown,
            (Phase::SseJoinProcessor, StepEvent::Failed) => Phase::SseShutdown,
            (Phase::SseShutdown, StepEvent::Done) => Phase::Exit(ExitStatus::Success),
            (phase, _) => phase,
        };
    }
}

/// The exit of a run that failed.
fn fail(fault: Fault) -> (phase: Phase)
    ensures
        phase == failure(fault),
{
    Phase::Exit(ExitStatus::Failure(fault))
}

/// Where a run stands after events, one after another.
pub open spec fn run(transport: Transport, events: Seq<StepEvent>) -> Phase
    decreases events.len(),
{
    if events.len() == 0 {
        Phase::ReadConfig
    } else {
        phase_after(transport, run(transport, events.drop_last()), events.last())
    }
}

/// The steps that a run has behind it after these events, in order.
pub open spec fn steps_taken(transport: Transport, events: Seq<StepEvent>) -> Seq<Step>
    decreases events.len(),
{
    if events.len() == 0 {
        Seq::empty()
    } else {
        let taken = steps_taken(transport, events.drop_last());
        let phase = run(transport, events.drop_last());
        if phase_after(transport, phase, events.last()) == phase {
            taken
        } else {
            taken.push(step_of(phase))
        }
    }
}

/// The steps before the transport is looked at.
pub open spec fn setup_steps() -> Seq<Step> {
    seq![Step::ReadConfig, Step::ParseConfig, Step::StartUpstreams]
}

/// The steps of a run over standard input and output, up to the end of its session.
pub open spec fn stdio_steps() -> Seq<Step> {
    setup_steps() + seq![Step::InitStdio, Step::ServeStdio, Step::CancelServing]
}

/// The steps of a run over HTTP, up to its interrupt.
pub open spec fn sse_steps() -> Seq<Step> {
    setup_steps() + seq![Step::ParseAddress, Step::Bind, Step::AwaitInterrupt]
}

/// The ways in which the session over standard input and output can go before the clients
/// are shut down.
pub open spec fn stdio_way(end: StdioEnd) -> Seq<Step> {
    match end {
        StdioEnd::Join => stdio_steps(),
        StdioEnd::Interrupted => setup_steps() + seq![Step::InitStdio, Step::CancelServing],
        StdioEnd::InitCancelled => setup_steps() + seq![Step::InitStdio],
        StdioEnd::InitFailed => setup_steps() + seq![Step::InitStdio],
    }
}

/// Whether a run with this transport that stands in `phase` can have just these steps
/// behind it.
pub open spec fn is_history(transport: Transport, phase: Phase, taken: Seq<Step>) -> bool {
    match phase {
        Phase::ReadConfig => taken =~= Seq::<Step>::empty(),
        Phase::ParseConfig => taken =~= seq![Step::ReadConfig],
        Phase::StartUpstreams => taken =~= seq![Step::ReadConfig, Step::ParseConfig],
        Phase::StdioInit => transport == Transport::Stdio && taken =~= setup_steps(),
        Phase::StdioServe => transport == Transport::Stdio && taken =~= setup_steps().push(
            Step::InitStdio,
        ),
        Phase::StdioCancelInit => transport == Transport::Stdio && taken =~= setup_steps().push(
            Step::InitStdio,
        ),
        Phase::StdioCancel => transport == Transport::Stdio && taken =~= setup_steps() + seq![
            Step::InitStdio,
            Step::ServeStdio,
        ],
        Phase::StdioShutdown(end) => transport == Transport::Stdio && taken =~= stdio_way(end),
        Phase::StdioJoin => transport == Transport::Stdio && taken =~= stdio_way(
            StdioEnd::Join,
        ).push(Step::ShutdownClients),
        Phase::SseAddress => transport == Transport::Sse && taken =~= setup_steps(),
        Phase::SseBind => transport == Transport::Sse && taken =~= setup_steps().push(
            Step::ParseAddress,
        ),
        Phase::SseWait => transport == Transport::Sse && taken =~= setup_steps() + seq![
            Step::ParseAddress,
            Step::Bind,
        ],
        Phase::SseCancel => transport == Transport::Sse && taken =~= sse_steps(),
        Phase::SseCloseQueue => transport == Transport::Sse && taken =~= sse_steps().push(
            Step::CancelServing,
        ),
        Phase::SseJoinServer => transport == Transport::Sse && taken =~= sse_steps() + seq![
            Step::CancelServing,
            Step::CloseQueue,
        ],
        Phase::SseJoinProcessor => transport == Transport::Sse && taken =~= sse_steps() + seq![
            Step::CancelServing,
            Step::CloseQueue,
            Step::JoinServer,
        ],
        Phase::SseShutdown => transport == Transport::Sse && taken =~= sse_steps() + seq![
            Step::CancelServing,
            Step::CloseQueue,
            Step::JoinServer,
            Step::JoinProcessor,
        ],
        Phase::Exit(ExitStatus::Success) => match transport {
            Transport::Stdio => {
                ||| taken =~= stdio_way(StdioEnd::Join) + seq![
                    Step::ShutdownClients,
                    Step::JoinServer,
                ]
                ||| taken =~= stdio_way(StdioEnd::Interrupted).push(Step::ShutdownClients)
                ||| taken =~= stdio_way(StdioEnd::InitCancelled).push(Step::ShutdownClients)
            },
            Transport::Sse => taken =~= sse_steps() + seq![
                Step::CancelServing,
                Step::CloseQueue,
                Step::JoinServer,
                Step::JoinProcessor,
                Step::ShutdownClients,
            ],
            Transport::Unknown => false,
        },
        Phase::Exit(ExitStatus::Failure(fault)) => match fault {
            Fault::ConfigUnreadable => taken =~= seq![Step::ReadConfig],
            Fault::ConfigInvalid => taken =~= seq![Step::ReadConfig, Step::ParseConfig],
            Fault::UpstreamFailed => taken =~= setup_steps(),
            Fault::InvalidTransport => transport == Transport::Unknown && taken =~= setup_steps(),
            Fault::StdioInitFailed => transport == Transport::Stdio && taken =~= stdio_way(
                StdioEnd::InitFailed,
            ).push(Step::ShutdownClients),
            Fault::InvalidAddress => transport == Transport::Sse && taken =~= setup_steps().push(
                Step::ParseAddress,
            ),
            Fault::BindFailed => transport == Transport::Sse && taken =~= setup_steps() + seq![
                Step::ParseAddress,
                Step::Bind,
            ],
            Fault::SignalFailed => transport == Transport::Sse && taken =~= sse_steps(),
        },
    }
}

/// Whatever happens, a run has just those steps behind it, in that order, which
/// [`is_history`] gives for the place where it stands.
pub proof fn law_runs_keep_their_order(transport: Transport, events: Seq<StepEvent>)
    ensures
        is_history(transport, run(transport, events), steps_taken(transport, events)),
    decreases events.len(),
{
    if events.len() > 0 {
        law_runs_keep_their_order(transport, events.drop_last());
        let phase = run(transport, events.drop_last());
        let next = run(transport, events);
        let taken = steps_taken(transport, events.drop_last());
        if next != phase {
            lemma_history_grows(transport, phase, events.last(), taken);
        }
    }
}

/// One more step keeps the history of a run.
proof fn lemma_history_grows(
    transport: Transport,
    phase: Phase,
    event: StepEvent,
    taken: Seq<Step>,
)
    requires
        is_history(transport, phase, taken),
        phase_after(transport, phase, event) != phase,
    ensures
        is_history(
            transport,
            phase_after(transport, phase, event),
            taken.push(step_of(phase)),
        ),
{
}

/// A configuration that cannot be read or is not valid ends a run before any upstream is
/// started and before the transport is looked at: the run fails the same with every
/// transport.
pub proof fn law_config_faults_come_first(transport: Transport, later: Seq<StepEvent>)
    ensures
        run(transport, seq![StepEvent::Failed] + later) == failure(Fault::ConfigUnreadable),
        run(transport, seq![StepEvent::Done, StepEvent::Failed] + later) == failure(
            Fault::ConfigInvalid,
        ),
        !steps_taken(transport, seq![StepEvent::Failed] + later).contains(Step::StartUpstreams),
        !steps_taken(transport, seq![StepEvent::Done, StepEvent::Failed] + later).contains(
            Step::StartUpstreams,
        ),
{
    let unreadable = seq![StepEvent::Failed];
    let invalid = seq![StepEvent::Done, StepEvent::Failed];
    reveal_with_fuel(run, 3);
    assert(invalid.drop_last() =~= seq![StepEvent::Done]);
    assert(seq![StepEvent::Done].drop_last() =~= Seq::empty());
    law_exit_is_final(transport, unreadable, later);
    law_exit_is_final(transport, invalid, later);
    law_runs_keep_their_order(transport, unreadable + later);
    law_runs_keep_their_order(transport, invalid + later);
}

/// A run over standard input and output that got its upstreams started does not exit before
/// it has shut their clients down.
pub proof fn law_stdio_runs_shut_clients_down(events: Seq<StepEvent>, status: ExitStatus)
    requires
        run(Transport::Stdio, events) == Phase::Exit(status),
        status != ExitStatus::Failure(Fault::ConfigUnreadable),
        status != ExitStatus::Failure(Fault::ConfigInvalid),
        status != ExitStatus::Failure(Fault::UpstreamFailed),
    ensures
        steps_taken(Transport::Stdio, events).contains(Step::ShutdownClients),
{
    law_runs_keep_their_order(Transport::Stdio, events);
    let taken = steps_taken(Transport::Stdio, events);
    if taken.last() != Step::ShutdownClients {
        assert(taken[taken.len() - 2] == Step::ShutdownClients);
    }
}

/// A run over HTTP exits with success only after an interrupt, and then the shutdown of the
/// clients is the last thing that it does.
pub proof fn law_sse_runs_shut_clients_down_last(events: Seq<StepEvent>)
    requires
        run(Transport::Sse, events) == Phase::Exit(ExitStatus::Success),
    ensures
        steps_taken(Transport::Sse, events).contains(Step::AwaitInterrupt),
        steps_taken(Transport::Sse, events).last() == Step::ShutdownClients,
{
    law_runs_keep_their_order(Transport::Sse, events);
    assert(steps_taken(Transport::Sse, events)[5] == Step::AwaitInterrupt);
}

/// A run with a transport that the router does not have always fails.
pub proof fn law_unknown_transports_fail(events: Seq<StepEvent>, status: ExitStatus)
    requires
        run(Transport::Unknown, events) == Phase::Exit(status),
    ensures
        status is Failure,
{
    law_runs_keep_their_order(Transport::Unknown, events);
}

/// A run that is at its exit stays there.
pub proof fn law_exit_is_final(
    transport: Transport,
    earlier: Seq<StepEvent>,
    later: Seq<StepEvent>,
)
    requires
        run(transport, earlier) is Exit,
    ensures
        run(transport, earlier + later) == run(transport, earlier),
    decreases later.len(),
{
    if later.len() == 0 {
        assert(earlier + later =~= earlier);
    } else {
        law_exit_is_final(transport, earlier, later.drop_last());
        assert((earlier + later).drop_last() =~= earlier + later.drop_last());
    }
}

/// Each transport is found by its own name and by no other.
pub proof fn law_transports_have_their_names(name: Seq<char>)
    ensures
        transport_named(name) == Transport::Stdio <==> name == "stdio"@,
        transport_named(name) == Transport::Sse <==> name == "sse"@,
        transport_named(name) == Transport::Unknown <==> name != "stdio"@ && name != "sse"@,
{
    reveal_strlit("stdio");
    reveal_strlit("sse");
    assert("stdio"@.len() != "sse"@.len());
}

/// The step that a run asks for after these events and one more.
pub open spec fn next_step(transport: Transport, events: Seq<StepEvent>, event: StepEvent) -> Step {
    step_of(run(transport, events.push(event)))
}

/// Whether a step waits for an event: whether the event can be reported of it.
pub open spec fn waits_for(step: Step, event: StepEvent) -> bool {
    match step {
        Step::InitStdio => event != StepEvent::ServerDone,
        Step::ServeStdio => event == StepEvent::Interrupted || event == StepEvent::SignalFailed
            || event == StepEvent::ServerDone,
        Step::AwaitInterrupt => event == StepEvent::Interrupted || event
            == StepEvent::SignalFailed,
        Step::CancelServing | Step::CloseQueue | Step::ShutdownClients => event == StepEvent::Done,
        Step::Exit(_) => false,
        _ => event == StepEvent::Done || event == StepEvent::Failed,
    }
}

/// Whether an event says that a step is over and went well.
pub open spec fn is_over(step: Step, event: StepEvent) -> bool {
    match step {
        Step::ServeStdio => event == StepEvent::Interrupted || event == StepEvent::ServerDone,
        Step::AwaitInterrupt => event == StepEvent::Interrupted,
        Step::Exit(_) => false,
        _ => event == StepEvent::Done,
    }
}

/// One more event leads on from where the run stands.
proof fn lemma_run_push(transport: Transport, events: Seq<StepEvent>, event: StepEvent)
    ensures
        run(transport, events.push(event)) == phase_after(
            transport,
            run(transport, events),
            event,
        ),
{
    assert(events.push(event).drop_last() =~= events);
}

/// A run goes on exactly where an event comes that its step waits for: such an event always
/// leads to another place, with another step or another end, and every other event changes
/// nothing.
pub proof fn law_runs_go_on_where_they_are_told(
    transport: Transport,
    events: Seq<StepEvent>,
    event: StepEvent,
)
    ensures
        ({
            let now = run(transport, events);
            let after = run(transport, events.push(event));
            &&& waits_for(step_of(now), event) <==> after != now
            &&& waits_for(step_of(now), event) ==> step_of(after) != step_of(now)
            &&& steps_taken(transport, events.push(event)) == if waits_for(step_of(now), event) {
                steps_taken(transport, events).push(step_of(now))
            } else {
                steps_taken(transport, events)
            }
        }),
{
    lemma_run_push(transport, events, event);
    assert(events.push(event).drop_last() =~= events);
}

/// Whatever happened before, a run that reads, then parses its configuration and starts its
/// upstreams goes on to the transport that was asked for, and a step of these that fails ends
/// it with the fault of that step.
pub proof fn law_setup_leads_to_the_transport(transport: Transport, events: Seq<StepEvent>)
    ensures
        step_of(run(transport, Seq::<StepEvent>::empty())) == Step::ReadConfig,
        step_of(run(transport, events)) == Step::ReadConfig ==> {
            &&& next_step(transport, events, StepEvent::Done) == Step::ParseConfig
            &&& next_step(transport, events, StepEvent::Failed) == Step::Exit(
                ExitStatus::Failure(Fault::ConfigUnreadable),
            )
        },
        step_of(run(transport, events)) == Step::ParseConfig ==> {
            &&& next_step(transport, events, StepEvent::Done) == Step::StartUpstreams
            &&& next_step(transport, events, StepEvent::Failed) == Step::Exit(
                ExitStatus::Failure(Fault::ConfigInvalid),
            )
        },
        step_of(run(transport, events)) == Step::StartUpstreams ==> {
            &&& next_step(transport, events, StepEvent::Done) == match transport {
                Transport::Stdio => Step::InitStdio,
                Transport::Sse => Step::ParseAddress,
                Transport::Unknown => Step::Exit(ExitStatus::Failure(Fault::InvalidTransport)),
            }
            &&& next_step(transport, events, StepEvent::Failed) == Step::Exit(
                ExitStatus::Failure(Fault::UpstreamFailed),
            )
        },
{
    lemma_run_push(transport, events, StepEvent::Done);
    lemma_run_push(transport, events, StepEvent::Failed);
}

/// Whatever happened before, a run over standard input and output that initialised its session
/// serves it, and every way out of the session leads over its end to the shutdown of the
/// clients. A session that was served is waited for after that, and whether the wait fails
/// does not matter.
pub proof fn law_stdio_leads_to_the_shutdown(events: Seq<StepEvent>)
    ensures
        step_of(run(Transport::Stdio, events)) == Step::InitStdio ==> {
            let next = |event: StepEvent| next_step(Transport::Stdio, events, event);
            &&& next(StepEvent::Done) == Step::ServeStdio
            &&& next(StepEvent::Cancelled) == Step::ShutdownClients
            &&& next(StepEvent::Failed) == Step::ShutdownClients
            &&& next(StepEvent::Interrupted) == Step::CancelServing
            &&& next(StepEvent::SignalFailed) == Step::CancelServing
        },
        step_of(run(Transport::Stdio, events)) == Step::ServeStdio ==> {
            let next = |event: StepEvent| next_step(Transport::Stdio, events, event);
            &&& next(StepEvent::Interrupted) == Step::CancelServing
            &&& next(StepEvent::SignalFailed) == Step::CancelServing
            &&& next(StepEvent::ServerDone) == Step::CancelServing
        },
        step_of(run(Transport::Stdio, events)) == Step::CancelServing ==> next_step(
            Transport::Stdio,
            events,
            StepEvent::Done,
        ) == Step::ShutdownClients,
        step_of(run(Transport::Stdio, events)) == Step::ShutdownClients ==> {
            let served = steps_taken(Transport::Stdio, events).contains(Step::ServeStdio);
            let next = next_step(Transport::Stdio, events, StepEvent::Done);
            &&& served ==> next == Step::JoinServer
            &&& !served ==> next is Exit
        },
        step_of(run(Transport::Stdio, events)) == Step::JoinServer ==> {
            &&& next_step(Transport::Stdio, events, StepEvent::Done) == Step::Exit(
                ExitStatus::Success,
            )
            &&& next_step(Transport::Stdio, events, StepEvent::Failed) == Step::Exit(
                ExitStatus::Success,
            )
        },
{
    let stdio = Transport::Stdio;
    lemma_run_push(stdio, events, StepEvent::Done);
    lemma_run_push(stdio, events, StepEvent::Cancelled);
    lemma_run_push(stdio, events, StepEvent::Failed);
    lemma_run_push(stdio, events, StepEvent::Interrupted);
    lemma_run_push(stdio, events, StepEvent::SignalFailed);
    lemma_run_push(stdio, events, StepEvent::ServerDone);
    law_runs_keep_their_order(stdio, events);
    if step_of(run(stdio, events)) == Step::ShutdownClients {
        let taken = steps_taken(stdio, events);
        if run(stdio, events) == Phase::StdioShutdown(StdioEnd::Join) {
            assert(taken[4] == Step::ServeStdio);
        }
    }
}

/// Whatever happened before, the way in which the initialisation of the session ended decides
/// how the run exits after the clients were shut down: with the fault of the session where it
/// failed, and with success where it was cancelled or interrupted.
pub proof fn law_stdio_exits_tell_how_it_began(events: Seq<StepEvent>)
    requires
        step_of(run(Transport::Stdio, events)) == Step::InitStdio,
    ensures
        next_step(
            Transport::Stdio,
            events.push(StepEvent::Failed),
            StepEvent::Done,
        ) == Step::Exit(ExitStatus::Failure(Fault::StdioInitFailed)),
        next_step(
            Transport::Stdio,
            events.push(StepEvent::Cancelled),
            StepEvent::Done,
        ) == Step::Exit(ExitStatus::Success),
        next_step(
            Transport::Stdio,
            events.push(StepEvent::Interrupted).push(StepEvent::Done),
            StepEvent::Done,
        ) == Step::Exit(ExitStatus::Success),
        next_step(
            Transport::Stdio,
            events.push(StepEvent::SignalFailed).push(StepEvent::Done),
            StepEvent::Done,
        ) == Step::Exit(ExitStatus::Success),
{
    let stdio = Transport::Stdio;
    lemma_run_push(stdio, events, StepEvent::Failed);
    lemma_run_push(stdio, events.push(StepEvent::Failed), StepEvent::Done);
    lemma_run_push(stdio, events, StepEvent::Cancelled);
    lemma_run_push(stdio, events.push(StepEvent::Cancelled), StepEvent::Done);
    let interrupted = events.push(StepEvent::Interrupted);
    lemma_run_push(stdio, events, StepEvent::Interrupted);
    lemma_run_push(stdio, interrupted, StepEvent::Done);
    lemma_run_push(stdio, interrupted.push(StepEvent::Done), StepEvent::Done);
    let signal = events.push(StepEvent::SignalFailed);
    lemma_run_push(stdio, events, StepEvent::SignalFailed);
    lemma_run_push(stdio, signal, StepEvent::Done);
    lemma_run_push(stdio, signal.push(StepEvent::Done), StepEvent::Done);
}

/// Whatever happened before, a run over HTTP parses its address, listens on it and waits for
/// an interrupt. After that it stops its serving, takes no more connections, waits for the
/// server and for the connections in this order, whether or not these waits fail, shuts the
/// clients down, and exits with success. A step before the interrupt that fails ends the run
/// with the fault of that step.
pub proof fn law_sse_leads_to_the_shutdown(events: Seq<StepEvent>)
    ensures
        ({
            let now = step_of(run(Transport::Sse, events));
            let next = |event: StepEvent| next_step(Transport::Sse, events, event);
            &&& now == Step::ParseAddress ==> {
                &&& next(StepEvent::Done) == Step::Bind
                &&& next(StepEvent::Failed) == Step::Exit(
                    ExitStatus::Failure(Fault::InvalidAddress),
                )
            }
            &&& now == Step::Bind ==> {
                &&& next(StepEvent::Done) == Step::AwaitInterrupt
                &&& next(StepEvent::Failed) == Step::Exit(ExitStatus::Failure(Fault::BindFailed))
            }
            &&& now == Step::AwaitInterrupt ==> {
                &&& next(StepEvent::Interrupted) == Step::CancelServing
                &&& next(StepEvent::SignalFailed) == Step::Exit(
                    ExitStatus::Failure(Fault::SignalFailed),
                )
            }
            &&& now == Step::CancelServing ==> next(StepEvent::Done) == Step::CloseQueue
            &&& now == Step::CloseQueue ==> next(StepEvent::Done) == Step::JoinServer
            &&& now == Step::JoinServer ==> {
                &&& next(StepEvent::Done) == Step::JoinProcessor
                &&& next(StepEvent::Failed) == Step::JoinProcessor
            }
            &&& now == Step::JoinProcessor ==> {
                &&& next(StepEvent::Done) == Step::ShutdownClients
                &&& next(StepEvent::Failed) == Step::ShutdownClients
            }
            &&& now == Step::ShutdownClients ==> next(StepEvent::Done) == Step::Exit(
                ExitStatus::Success,
            )
        }),
{
    let sse = Transport::Sse;
    lemma_run_push(sse, events, StepEvent::Done);
    lemma_run_push(sse, events, StepEvent::Failed);
    lemma_run_push(sse, events, StepEvent::Interrupted);
    lemma_run_push(sse, events, StepEvent::SignalFailed);
    law_runs_keep_their_order(sse, events);
}

/// Two runs with one transport that stand at one step go on alike: what came before does not
/// matter. Only over standard input and output, what follows the shutdown of the clients is
/// decided by how the session went.
pub proof fn law_steps_determine_what_follows(
    transport: Transport,
    one: Seq<StepEvent>,
    two: Seq<StepEvent>,
    event: StepEvent,
)
    requires
        step_of(run(transport, one)) == step_of(run(transport, two)),
        transport != Transport::Stdio || step_of(run(transport, one)) != Step::ShutdownClients,
    ensures
        next_step(transport, one, event) == next_step(transport, two, event),
{
    lemma_run_push(transport, one, event);
    lemma_run_push(transport, two, event);
    law_runs_keep_their_order(transport, one);
    law_runs_keep_their_order(transport, two);
}

/// A run whose steps all go well does not stand still: every report takes it one step on,
/// until it is at its exit after no more than eleven. It then exits with success, unless the
/// transport is one that the router does not have.
pub proof fn law_runs_that_go_well_come_to_their_exit(
    transport: Transport,
    events: Seq<StepEvent>,
)
    requires
        forall|i: int|
            0 <= i < events.len() ==> step_of(run(transport, #[trigger] events.take(i))) is Exit
                || is_over(step_of(run(transport, events.take(i))), events[i]),
    ensures
        run(transport, events) is Exit || steps_taken(transport, events).len() == events.len(),
        events.len() >= 11 ==> run(transport, events) is Exit,
        run(transport, events) is Exit ==> run(transport, events) == Phase::Exit(
            if transport == Transport::Unknown {
                ExitStatus::Failure(Fault::InvalidTransport)
            } else {
                ExitStatus::Success
            },
        ),
        forall|end: StdioEnd|
            run(transport, events) == Phase::StdioShutdown(end) ==> end == StdioEnd::Join,
        run(transport, events) != Phase::StdioCancelInit,
    decreases events.len(),
{
    if events.len() > 0 {
        let fewer = events.drop_last();
        let last = events.len() - 1;
        assert(fewer =~= events.take(last));
        assert forall|i: int| 0 <= i < fewer.len() implies step_of(
            run(transport, #[trigger] fewer.take(i)),
        ) is Exit || is_over(step_of(run(transport, fewer.take(i))), fewer[i]) by {
            assert(fewer.take(i) =~= events.take(i));
        }
        law_runs_that_go_well_come_to_their_exit(transport, fewer);
        law_runs_keep_their_order(transport, fewer);
        law_runs_keep_their_order(transport, events);
    }
}

/// A run over HTTP that started, was interrupted while it waited, and whose later steps were
/// done, exits with success and stays so, whether or not its two waits at the end fail.
pub proof fn law_interrupted_sse_runs_succeed(
    server: StepEvent,
    processor: StepEvent,
    later: Seq<StepEvent>,
)
    requires
        server == StepEvent::Done || server == StepEvent::Failed,
        processor == StepEvent::Done || processor == StepEvent::Failed,
    ensures
        ({
            let started = seq![
                StepEvent::Done,
                StepEvent::Done,
                StepEvent::Done,
                StepEvent::Done,
                StepEvent::Done,
            ];
            let stopped = started + seq![
                StepEvent::Interrupted,
                StepEvent::Done,
                StepEvent::Done,
                server,
                processor,
            ];
            let ended = stopped + seq![StepEvent::Done];
            &&& step_of(run(Transport::Sse, started)) == Step::AwaitInterrupt
            &&& step_of(run(Transport::Sse, stopped)) == Step::ShutdownClients
            &&& run(Transport::Sse, ended + later) == Phase::Exit(ExitStatus::Success)
        }),
{
    let sse = Transport::Sse;
    let done = StepEvent::Done;
    let e0 = Seq::<StepEvent>::empty();
    let e1 = e0.push(done);
    let e2 = e1.push(done);
    let e3 = e2.push(done);
    let e4 = e3.push(done);
    let e5 = e4.push(done);
    let e6 = e5.push(StepEvent::Interrupted);
    let e7 = e6.push(done);
    let e8 = e7.push(done);
    let e9 = e8.push(server);
    let e10 = e9.push(processor);
    let e11 = e10.push(done);
    lemma_run_push(sse, e0, done);
    lemma_run_push(sse, e1, done);
    lemma_run_push(sse, e2, done);
    lemma_run_push(sse, e3, done);
    lemma_run_push(sse, e4, done);
    lemma_run_push(sse, e5, StepEvent::Interrupted);
    lemma_run_push(sse, e6, done);
    lemma_run_push(sse, e7, done);
    lemma_run_push(sse, e8, server);
    lemma_run_push(sse, e9, processor);
    lemma_run_push(sse, e10, done);
    let started = seq![done, done, done, done, done];
    let stopped = started + seq![StepEvent::Interrupted, done, done, server, processor];
    assert(started =~= e5);
    assert(stopped =~= e10);
    assert(stopped + seq![done] =~= e11);
    law_exit_is_final(sse, e11, later);
}

/// A run over standard input and output that started, served its session until it was over or
/// an interrupt came, and whose later steps were done, exits with success and stays so,
/// whether or not the wait for the session fails.
pub proof fn law_served_stdio_runs_succeed(
    over: StepEvent,
    join: StepEvent,
    later: Seq<StepEvent>,
)
    requires
        over == StepEvent::Interrupted || over == StepEvent::SignalFailed || over
            == StepEvent::ServerDone,
        join == StepEvent::Done || join == StepEvent::Failed,
    ensures
        ({
            let started = seq![StepEvent::Done, StepEvent::Done, StepEvent::Done, StepEvent::Done];
            let stopped = started + seq![over, StepEvent::Done];
            let ended = stopped + seq![StepEvent::Done, join];
            &&& step_of(run(Transport::Stdio, started)) == Step::ServeStdio
            &&& step_of(run(Transport::Stdio, stopped)) == Step::ShutdownClients
            &&& run(Transport::Stdio, ended + later) == Phase::Exit(ExitStatus::Success)
        }),
{
    let stdio = Transport::Stdio;
    let done = StepEvent::Done;
    let e0 = Seq::<StepEvent>::empty();
    let e1 = e0.push(done);
    let e2 = e1.push(done);
    let e3 = e2.push(done);
    let e4 = e3.push(done);
    let e5 = e4.push(over);
    let e6 = e5.push(done);
    let e7 = e6.push(done);
    let e8 = e7.push(join);
    lemma_run_push(stdio, e0, done);
    lemma_run_push(stdio, e1, done);
    lemma_run_push(stdio, e2, done);
    lemma_run_push(stdio, e3, done);
    lemma_run_push(stdio, e4, over);
    lemma_run_push(stdio, e5, done);
    lemma_run_push(stdio, e6, done);
    lemma_run_push(stdio, e7, join);
    let started = seq![done, done, done, done];
    let stopped = started + seq![over, done];
    assert(started =~= e4);
    assert(stopped =~= e6);
    assert(stopped + seq![done, join] =~= e8);
    law_exit_is_final(stdio, e8, later);
}

} // verus!
