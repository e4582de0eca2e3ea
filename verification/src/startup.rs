//! Starting the configured upstreams, one after another.

use vstd::prelude::*;

use crate::aggregator::AggregatorService;
use crate::config::{AppConfig, ServerConfig};

verus! {

/// What a startup is waiting for.
#[derive(Clone, Copy, Debug, PartialEq, Eq, Structural)]
pub enum StartupPhase {
    /// The process of the next upstream is being created.
    Spawning,
    /// The client of the next upstream is being connected to its process.
    Serving,
    /// The tools of the next upstream, which is registered, are about to be asked for.
    Discovering,
    /// Every upstream is registered.
    Ready,
    /// The process of the next upstream could not be created.
    SpawnFailed,
    /// The client of the next upstream could not be connected.
    ServeFailed,
}

/// What the environment reports to a startup.
#[derive(Debug, PartialEq, Eq)]
pub enum StartupEvent<H> {
    /// The process was created.
    Spawned,
    /// The process could not be created.
    SpawnFailed,
    /// The client was connected; the handle leads to it.
    Served(H),
    /// The client could not be connected.
    ServeFailed,
    /// The discovery of tools was started. It goes on by itself.
    DiscoveryStarted,
}

/// What a startup asks for next.
pub enum StartupAction<'a> {
    /// Create the process of this upstream.
    Spawn { name: &'a String, config: &'a ServerConfig },
    /// Connect a client to the process of this upstream.
    Serve { name: &'a String },
    /// Start asking this upstream for its tools.
    Discover { name: &'a String },
    /// Nothing: every upstream is registered.
    Ready,
    /// Give up, with this said about the error that was met.
    Fail { context: String },
}

/// A startup of the configured upstreams in progress.
pub struct Startup {
    config: AppConfig,
    progress: Progress,
}

/// How many upstreams are done with, and what is going on with the next one.
struct Progress {
    next: usize,
    phase: StartupPhase,
}

/// A [`Startup`] as a mathematical value: the upstreams by name, how many are done with,
/// and what is going on with the next one.
pub struct StartupView {
    pub names: Seq<Seq<char>>,
    pub next: int,
    pub phase: StartupPhase,
}

impl StartupView {
    /// The startup of these upstreams, before its first step.
    pub open spec fn start(names: Seq<Seq<char>>) -> StartupView {
        StartupView { names, next: 0, phase: Self::phase_at(names, 0) }
    }

    /// What is to be done when `next` upstreams are done with.
    pub open spec fn phase_at(names: Seq<Seq<char>>, next: int) -> StartupPhase {
        if next < names.len() {
            StartupPhase::Spawning
        } else {
            StartupPhase::Ready
        }
    }

    /// The name of the next upstream.
    pub open spec fn name(self) -> Seq<char> {
        self.names[self.next]
    }

    /// Whether there is a next upstream unless the startup is through.
    pub open spec fn wf(self) -> bool {
        if self.phase == StartupPhase::Ready {
            self.next == self.names.len()
        } else {
            0 <= self.next < self.names.len()
        }
    }

    /// The state after an event. An event that is not waited for changes nothing, and
    /// neither does any event once the startup is through or has failed.
    pub open spec fn after<H>(self, event: StartupEvent<H>) -> StartupView {
        match (self.phase, event) {
            (StartupPhase::Spawning, StartupEvent::Spawned) => StartupView {
                phase: StartupPhase::Serving,
                ..self
            },
            (StartupPhase::Spawning, StartupEvent::SpawnFailed) => StartupView {
                phase: StartupPhase::SpawnFailed,
                ..self
            },
            (StartupPhase::Serving, StartupEvent::Served(_)) => StartupView {
                phase: StartupPhase::Discovering,
                ..self
            },
            (StartupPhase::Serving, StartupEvent::ServeFailed) => StartupView {
                phase: StartupPhase::ServeFailed,
                ..self
            },
            (StartupPhase::Discovering, StartupEvent::DiscoveryStarted) => StartupView {
                next: self.next + 1,
                phase: Self::phase_at(self.names, self.next + 1),
                ..self
            },
            _ => self,
        }
    }

    /// The registered clients after an event: a client that was connected is registered
    /// under the name of its upstream.
    pub open spec fn clients_after<H>(
        self,
        clients: Map<Seq<char>, H>,
        event: StartupEvent<H>,
    ) -> Map<Seq<char>, H> {
        match (self.phase, event) {
            (StartupPhase::Serving, StartupEvent::Served(handle)) => clients.insert(
                self.name(),
                handle,
            ),
            _ => clients,
        }
    }

    /// How many upstreams are registered.
    pub open spec fn registered(self) -> int {
        if self.phase == StartupPhase::Discovering {
            self.next + 1
        } else {
            self.next
        }
    }
}

/// What is said about an upstream whose process could not be created.
pub open spec fn spawn_failed_message(name: Seq<char>) -> Seq<char> {
    "Failed to create child process transport for "@ + name
}

/// What is said about an upstream whose client could not be connected.
pub open spec fn serve_failed_message(name: Seq<char>) -> Seq<char> {
    "Failed to create client service for "@ + name
}

/// The state and the registered clients after events, one after another.
pub open spec fn startup_run<H>(
    state: StartupView,
    clients: Map<Seq<char>, H>,
    events: Seq<StartupEvent<H>>,
) -> (StartupView, Map<Seq<char>, H>)
    decreases events.len(),
{
    if events.len() == 0 {
        (state, clients)
    } else {
        let (before, known) = startup_run(state, clients, events.drop_last());
        (before.after(events.last()), before.clients_after(known, events.last()))
    }
}

/// The clients that a startup has registered are those of the upstreams done with.
spec fn in_step<H>(
    names: Seq<Seq<char>>,
    state: StartupView,
    clients: Map<Seq<char>, H>,
) -> bool {
    &&& state.names == names
    &&& state.wf()
    &&& forall|name: Seq<char>|
        clients.contains_key(name) <==> #[trigger] names.take(state.registered()).contains(name)
}

/// A run keeps the registered clients in step with the upstreams done with.
proof fn lemma_in_step<H>(names: Seq<Seq<char>>, events: Seq<StartupEvent<H>>)
    ensures
        in_step(
            names,
            startup_run(StartupView::start(names), Map::<Seq<char>, H>::empty(), events).0,
            startup_run(StartupView::start(names), Map::<Seq<char>, H>::empty(), events).1,
        ),
    decreases events.len(),
{
    let start = StartupView::start(names);
    let none = Map::<Seq<char>, H>::empty();
    if events.len() == 0 {
        assert(names.take(0) =~= Seq::empty());
    } else {
        lemma_in_step(names, events.drop_last());
        let (before, known) = startup_run(start, none, events.drop_last());
        let (after, clients) = startup_run(start, none, events);
        assert(after == before.after(events.last()));
        assert(clients == before.clients_after(known, events.last()));
        if before.phase == StartupPhase::Serving && events.last() is Served {
            let fewer = names.take(before.registered());
            let more = names.take(after.registered());
            assert(more =~= fewer.push(before.name()));
            assert forall|name: Seq<char>| clients.contains_key(name) <==> #[trigger] more.contains(
                name,
            ) by {
                assert(known.contains_key(name) <==> names.take(before.registered()).contains(name));
                assert(more[before.next] == before.name());
                if fewer.contains(name) {
                    assert(more[fewer.index_of(name)] == name);
                }
                if more.contains(name) && name != before.name() {
                    assert(fewer[more.index_of(name)] == name);
                }
            }
        } else {
            assert(after.registered() == before.registered());
            assert forall|name: Seq<char>| clients.contains_key(name) <==> #[trigger] names.take(
                after.registered(),
            ).contains(name) by {
                assert(known.contains_key(name) <==> names.take(before.registered()).contains(name));
            }
        }
    }
}

/// A startup that is through has registered exactly the configured upstreams. One that
/// failed has registered exactly those before the upstream that failed, and no other was
/// tried.
pub proof fn law_startup_registers_configured_upstreams<H>(
    names: Seq<Seq<char>>,
    events: Seq<StartupEvent<H>>,
)
    ensures
        ({
            let (state, clients) = startup_run(
                StartupView::start(names),
                Map::<Seq<char>, H>::empty(),
                events,
            );
            &&& state.names == names
            &&& state.phase == StartupPhase::Ready ==> clients.dom() == names.to_set()
            &&& (state.phase == StartupPhase::SpawnFailed || state.phase
                == StartupPhase::ServeFailed) ==> {
                &&& 0 <= state.next < names.len()
                &&& clients.dom() == names.take(state.next).to_set()
            }
        }),
{
    lemma_in_step(names, events);
    let (state, clients) = startup_run(
        StartupView::start(names),
        Map::<Seq<char>, H>::empty(),
        events,
    );
    assert(clients.dom() =~= names.take(state.registered()).to_set()) by {
        assert forall|name: Seq<char>| clients.dom().contains(name) <==> names.take(
            state.registered(),
        ).to_set().contains(name) by {
            assert(clients.contains_key(name) <==> names.take(state.registered()).contains(name));
        }
    }
    if state.phase == StartupPhase::Ready {
        assert(names.take(state.next) =~= names);
    }
}

/// Once a startup is through, there is a client for a stream of an upstream exactly where
/// the configuration names that upstream.
pub proof fn law_streams_match_the_configuration<H>(
    config: AppConfig,
    events: Seq<StartupEvent<H>>,
    endpoint: Seq<char>,
)
    requires
        config.mcp_servers.wf(),
        startup_run(
            StartupView::start(config.mcp_servers.order()),
            Map::<Seq<char>, H>::empty(),
            events,
        ).0.phase == StartupPhase::Ready,
    ensures
        startup_run(
            StartupView::start(config.mcp_servers.order()),
            Map::<Seq<char>, H>::empty(),
            events,
        ).1.contains_key(endpoint) <==> config.mcp_servers@.contains_key(endpoint),
{
    let names = config.mcp_servers.order();
    law_startup_registers_configured_upstreams(names, events);
    config.mcp_servers.lemma_order();
    assert(names.to_set().contains(endpoint) <==> names.contains(endpoint));
}

/// An upstream is asked for its tools only once its client is registered.
pub proof fn law_discovery_follows_registration<H>(
    names: Seq<Seq<char>>,
    events: Seq<StartupEvent<H>>,
)
    ensures
        ({
            let (state, clients) = startup_run(
                StartupView::start(names),
                Map::<Seq<char>, H>::empty(),
                events,
            );
            state.phase == StartupPhase::Discovering ==> clients.contains_key(state.name())
        }),
{
    lemma_in_step(names, events);
    let state = startup_run(StartupView::start(names), Map::<Seq<char>, H>::empty(), events).0;
    if state.phase == StartupPhase::Discovering {
        assert(names.take(state.registered())[state.next] == state.name());
        assert(names.take(state.registered()).contains(state.name()));
    }
}

/// The handle that an upstream was registered with stays the upstream's handle, whatever
/// happens during the rest of the startup.
pub proof fn law_registered_handles_stay<H>(
    names: Seq<Seq<char>>,
    earlier: Seq<StartupEvent<H>>,
    handle: H,
    later: Seq<StartupEvent<H>>,
)
    requires
        names.no_duplicates(),
        startup_run(
            StartupView::start(names),
            Map::<Seq<char>, H>::empty(),
            earlier,
        ).0.phase == StartupPhase::Serving,
    ensures
        ({
            let start = StartupView::start(names);
            let none = Map::<Seq<char>, H>::empty();
            let name = startup_run(start, none, earlier).0.name();
            let clients = startup_run(
                start,
                none,
                earlier.push(StartupEvent::Served(handle)) + later,
            ).1;
            clients.contains_key(name) && clients[name] == handle
        }),
    decreases later.len(),
{
    let start = StartupView::start(names);
    let none = Map::<Seq<char>, H>::empty();
    let served = earlier.push(StartupEvent::Served(handle));
    let name = startup_run(start, none, earlier).0.name();
    assert(served.drop_last() =~= earlier);
    lemma_next_grows(names, served, later);
    if later.len() == 0 {
        assert(served + later =~= served);
    } else {
        let shorter = later.drop_last();
        law_registered_handles_stay(names, earlier, handle, shorter);
        assert((served + later).drop_last() =~= served + shorter);
        lemma_in_step(names, earlier);
        lemma_in_step(names, served + shorter);
        lemma_next_grows(names, served, shorter);
    }
}

/// During a run the upstreams registered only grow in number.
proof fn lemma_next_grows<H>(
    names: Seq<Seq<char>>,
    earlier: Seq<StartupEvent<H>>,
    later: Seq<StartupEvent<H>>,
)
    ensures
        ({
            let start = StartupView::start(names);
            let none = Map::<Seq<char>, H>::empty();
            startup_run(start, none, earlier).0.registered() <= startup_run(
                start,
                none,
                earlier + later,
            ).0.registered()
        }),
    decreases later.len(),
{
    if later.len() == 0 {
        assert(earlier + later =~= earlier);
    } else {
        lemma_next_grows(names, earlier, later.drop_last());
        assert((earlier + later).drop_last() =~= earlier + later.drop_last());
    }
}

impl View for Startup {
    type V = StartupView;

    closed spec fn view(&self) -> StartupView {
        StartupView {
            names: self.config.mcp_servers.order(),
            next: self.progress.next as int,
            phase: self.progress.phase,
        }
    }
}

impl Startup {
    /// The configuration of each upstream, under its name.
    pub closed spec fn servers(&self) -> Map<Seq<char>, ServerConfig> {
        self.config.mcp_servers@
    }

    /// There is a next upstream unless the startup is through.
    #[verifier::type_invariant]
    spec fn inv(self) -> bool {
        self@.wf()
    }

    /// The startup of the upstreams that `config` names.
    pub fn new(config: AppConfig) -> (startup: Self)
        ensures
            startup@ == StartupView::start(config.mcp_servers.order()),
            startup.servers() == config.mcp_servers@,
    {
        let phase = if config.mcp_servers.len() > 0 {
            StartupPhase::Spawning
        } else {
            StartupPhase::Ready
        };
        Startup { config, progress: Progress { next: 0, phase } }
    }

    /// What to do next.
    pub fn pending(&self) -> (action: StartupAction<'_>)
        ensures
            match self@.phase {
                StartupPhase::Spawning => action matches StartupAction::Spawn { name, config }
                    && name@ == self@.name() && *config == self.servers()[self@.name()],
                StartupPhase::Serving => action matches StartupAction::Serve { name } && name@
                    == self@.name(),
                StartupPhase::Discovering => action matches StartupAction::Discover { name }
                    && name@ == self@.name(),
                StartupPhase::Ready => action is Ready,
                StartupPhase::SpawnFailed => action matches StartupAction::Fail { context }
                    && context@ == spawn_failed_message(self@.name()),
                StartupPhase::ServeFailed => action matches StartupAction::Fail { context }
                    && context@ == serve_failed_message(self@.name()),
            },
            ({
                let next = self@.names[self@.next];
                match action {
                    StartupAction::Spawn { name, config } => name@ == next && *config
                        == self.servers()[next],
                    StartupAction::Serve { name } => name@ == next,
                    StartupAction::Discover { name } => name@ == next,
                    StartupAction::Ready => self@.next == self@.names.len(),
                    StartupAction::Fail { context } => context@ == if self@.phase
                        == StartupPhase::SpawnFailed {
                        "Failed to create child process transport for "@ + next
                    } else {
                        "Failed to create client service for "@ + next
                    },
                }
            }),
    {
        proof {
            use_type_invariant(self);
        }
        match self.progress.phase {
            StartupPhase::Spawning => StartupAction::Spawn {
                name: self.config.mcp_servers.name_at(self.progress.next),
                config: self.config.mcp_servers.value_at(self.progress.next),
            },
            StartupPhase::Serving => StartupAction::Serve {
                name: self.config.mcp_servers.name_at(self.progress.next),
            },
            StartupPhase::Discovering => StartupAction::Discover {
                name: self.config.mcp_servers.name_at(self.progress.next),
            },
            StartupPhase::Ready => StartupAction::Ready,
            StartupPhase::SpawnFailed => {
                let name = self.config.mcp_servers.name_at(self.progress.next);
                let mut context = "Failed to create child process transport for ".to_owned();
                context.append(name.as_str());
                StartupAction::Fail { context }
            },
            StartupPhase::ServeFailed => {
                let name = self.config.mcp_servers.name_at(self.progress.next);
                let mut context = "Failed to create client service for ".to_owned();
                context.append(name.as_str());
                StartupAction::Fail { context }
            },
        }
    }

    /// Goes on with what the environment reports. A client that was connected is registered
    /// with `service`.
    pub fn advance<H, P>(
        &mut self,
        service: &mut AggregatorService<H, P>,
        event: StartupEvent<H>,
    )
        ensures
            final(self)@ == old(self)@.after(event),
            final(self).servers() == old(self).servers(),
            match (old(self)@.phase, event) {
                (StartupPhase::Serving, StartupEvent::Served(handle)) => final(service)@
                    == old(service)@.with_client(old(self)@.name(), handle),
                _ => *final(service) == *old(service),
            },
            final(service)@.clients == old(self)@.clients_after(old(service)@.clients, event),
            final(self)@.names == old(self)@.names,
            old(self)@.phase == StartupPhase::Serving ==> (event matches StartupEvent::Served(handle)
                ==> final(service)@.clients == old(service)@.clients.insert(
                old(self)@.names[old(self)@.next],
                handle,
            )),
    {
        proof {
            use_type_invariant(&*self);
        }
        match (self.progress.phase, event) {
            (StartupPhase::Spawning, StartupEvent::Spawned) => {
                self.progress.phase = StartupPhase::Serving;
            },
            (StartupPhase::Spawning, StartupEvent::SpawnFailed) => {
                self.progress.phase = StartupPhase::SpawnFailed;
            },
            (StartupPhase::Serving, StartupEvent::Served(handle)) => {
                let name = self.config.mcp_servers.name_at(self.progress.next).clone();
                service.register_client(name, handle);
                self.progress.phase = StartupPhase::Discovering;
            },
            (StartupPhase::Serving, StartupEvent::ServeFailed) => {
                self.progress.phase = StartupPhase::ServeFailed;
            },
            (StartupPhase::Discovering, StartupEvent::DiscoveryStarted) => {
                let count: usize = self.config.mcp_servers.len();
                let next: usize = self.progress.next + 1;
                let phase = if next < count {
                    StartupPhase::Spawning
                } else {
                    StartupPhase::Ready
                };
                self.progress = Progress { next, phase };
            },
            _ => {},
        }
    }
}

/// A startup begins with the first upstream, and is through at once where there is none.
pub proof fn law_startup_begins_with_the_first(names: Seq<Seq<char>>)
    ensures
        StartupView::start(names).names == names,
        StartupView::start(names).next == 0,
        names.len() == 0 <==> StartupView::start(names).phase == StartupPhase::Ready,
        names.len() > 0 <==> StartupView::start(names).phase == StartupPhase::Spawning,
{
}

/// An upstream is spawned, then connected, then asked for its tools, and only then comes the
/// next one; after the last the startup is through. A step that fails ends the startup at its
/// upstream. No other report changes anything.
pub proof fn law_startup_goes_step_by_step<H>(state: StartupView, event: StartupEvent<H>)
    ensures
        ({
            let after = state.after(event);
            let spawning = state.phase == StartupPhase::Spawning;
            let serving = state.phase == StartupPhase::Serving;
            let discovering = state.phase == StartupPhase::Discovering;
            &&& after.names == state.names
            &&& spawning && event is Spawned ==> after.phase == StartupPhase::Serving
            &&& spawning && event is SpawnFailed ==> after.phase == StartupPhase::SpawnFailed
            &&& serving && event is Served ==> after.phase == StartupPhase::Discovering
            &&& serving && event is ServeFailed ==> after.phase == StartupPhase::ServeFailed
            &&& discovering && event is DiscoveryStarted ==> {
                &&& after.next == state.next + 1
                &&& after.next < state.names.len() ==> after.phase == StartupPhase::Spawning
                &&& after.next >= state.names.len() ==> after.phase == StartupPhase::Ready
            }
            &&& !(discovering && event is DiscoveryStarted) ==> after.next == state.next
            &&& after != state <==> {
                ||| spawning && (event is Spawned || event is SpawnFailed)
                ||| serving && (event is Served || event is ServeFailed)
                ||| discovering && event is DiscoveryStarted
            }
        }),
{
}

/// A client that was connected is registered under the name of the very upstream that it was
/// connected to, and no other report changes which clients are registered.
pub proof fn law_clients_get_the_name_of_their_upstream<H>(
    state: StartupView,
    clients: Map<Seq<char>, H>,
    event: StartupEvent<H>,
)
    ensures
        state.name() == state.names[state.next],
        ({
            let after = state.clients_after(clients, event);
            if state.phase == StartupPhase::Serving {
                match event {
                    StartupEvent::Served(handle) => after == clients.insert(
                        state.names[state.next],
                        handle,
                    ),
                    _ => after == clients,
                }
            } else {
                after == clients
            }
        }),
{
}

/// What is said about an upstream that could not be started ends with its name in whole, after
/// fixed words that tell which step failed.
pub proof fn law_startup_failures_name_their_upstream(one: Seq<char>, two: Seq<char>)
    ensures
        spawn_failed_message(one) == "Failed to create child process transport for "@ + one,
        serve_failed_message(one) == "Failed to create client service for "@ + one,
        spawn_failed_message(one) == spawn_failed_message(two) ==> one == two,
        serve_failed_message(one) == serve_failed_message(two) ==> one == two,
{
    let spawn = "Failed to create child process transport for "@;
    let serve = "Failed to create client service for "@;
    assert(spawn_failed_message(one).skip(spawn.len() as int) =~= one);
    assert(spawn_failed_message(two).skip(spawn.len() as int) =~= two);
    assert(serve_failed_message(one).skip(serve.len() as int) =~= one);
    assert(serve_failed_message(two).skip(serve.len() as int) =~= two);
}

/// What is reported while all upstreams start without a failure, the client of each being
/// connected with the handle at its place.
pub open spec fn reports_of_success<H>(handles: Seq<H>) -> Seq<StartupEvent<H>>
    decreases handles.len(),
{
    if handles.len() == 0 {
        Seq::empty()
    } else {
        reports_of_success(handles.drop_last()).push(StartupEvent::Spawned).push(
            StartupEvent::Served(handles.last()),
        ).push(StartupEvent::DiscoveryStarted)
    }
}

/// One more event leads on from where the startup stands.
proof fn lemma_startup_push<H>(
    state: StartupView,
    clients: Map<Seq<char>, H>,
    events: Seq<StartupEvent<H>>,
    event: StartupEvent<H>,
)
    ensures
        ({
            let (before, known) = startup_run(state, clients, events);
            startup_run(state, clients, events.push(event)) == (
                before.after(event),
                before.clients_after(known, event),
            )
        }),
{
    assert(events.push(event).drop_last() =~= events);
}

/// While every step goes well, a startup does not stand still: after the reports of the first
/// upstreams it is done with just these, and each is registered with its own handle. After
/// the reports of all it is through.
pub proof fn law_startup_that_goes_well_comes_through<H>(
    names: Seq<Seq<char>>,
    handles: Seq<H>,
    i: int,
)
    requires
        names.no_duplicates(),
        handles.len() <= names.len(),
    ensures
        ({
            let (state, clients) = startup_run(
                StartupView::start(names),
                Map::<Seq<char>, H>::empty(),
                reports_of_success(handles),
            );
            &&& state.names == names
            &&& state.next == handles.len()
            &&& handles.len() == names.len() ==> state.phase == StartupPhase::Ready
            &&& handles.len() < names.len() ==> state.phase == StartupPhase::Spawning
            &&& 0 <= i < handles.len() ==> {
                &&& clients.contains_key(names[i])
                &&& clients[names[i]] == handles[i]
            }
        }),
    decreases handles.len(),
{
    if handles.len() > 0 {
        let start = StartupView::start(names);
        let none = Map::<Seq<char>, H>::empty();
        let fewer = handles.drop_last();
        let last = handles.last();
        let e0 = reports_of_success(fewer);
        let e1 = e0.push(StartupEvent::Spawned);
        let e2 = e1.push(StartupEvent::Served(last));
        law_startup_that_goes_well_comes_through(names, fewer, i);
        lemma_startup_push(start, none, e0, StartupEvent::Spawned);
        lemma_startup_push(start, none, e1, StartupEvent::Served(last));
        lemma_startup_push(start, none, e2, StartupEvent::DiscoveryStarted);
    }
}

/// An upstream that cannot be spawned or connected ends the startup: it stands at that very
/// upstream, the ones before it are registered, and nothing that is reported later changes
/// that.
pub proof fn law_startup_stops_at_the_upstream_that_failed<H>(
    names: Seq<Seq<char>>,
    handles: Seq<H>,
    later: Seq<StartupEvent<H>>,
)
    requires
        names.no_duplicates(),
        handles.len() < names.len(),
    ensures
        ({
            let start = StartupView::start(names);
            let none = Map::<Seq<char>, H>::empty();
            let began = reports_of_success(handles);
            let unspawned = began.push(StartupEvent::SpawnFailed);
            let unserved = began.push(StartupEvent::Spawned).push(StartupEvent::ServeFailed);
            let known = startup_run(start, none, began).1;
            let (spawn, after_spawn) = startup_run(start, none, unspawned + later);
            let (serve, after_serve) = startup_run(start, none, unserved + later);
            &&& spawn.phase == StartupPhase::SpawnFailed
            &&& spawn.next == handles.len()
            &&& serve.phase == StartupPhase::ServeFailed
            &&& serve.next == handles.len()
            &&& after_spawn == known
            &&& after_serve == known
        }),
    decreases later.len(),
{
    let start = StartupView::start(names);
    let none = Map::<Seq<char>, H>::empty();
    let began = reports_of_success(handles);
    let spawned = began.push(StartupEvent::Spawned);
    let unspawned = began.push(StartupEvent::SpawnFailed);
    let unserved = spawned.push(StartupEvent::ServeFailed);
    law_startup_that_goes_well_comes_through(names, handles, 0);
    lemma_startup_push(start, none, began, StartupEvent::SpawnFailed);
    lemma_startup_push(start, none, began, StartupEvent::Spawned);
    lemma_startup_push(start, none, spawned, StartupEvent::ServeFailed);
    if later.len() == 0 {
        assert(unspawned + later =~= unspawned);
        assert(unserved + later =~= unserved);
    } else {
        let fewer = later.drop_last();
        law_startup_stops_at_the_upstream_that_failed(names, handles, fewer);
        assert((unspawned + later).drop_last() =~= unspawned + fewer);
        assert((unserved + later).drop_last() =~= unserved + fewer);
    }
}

} // verus!
