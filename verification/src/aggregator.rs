//! The service that offers the tools of all upstreams together.

use vstd::prelude::*;

use crate::http::{not_found_response, HttpResponse, Status};
use crate::names::{order_with, NameTable};
use crate::proxy::{passes_on, proxied_answer, UpstreamProxyService};
use crate::rpc::{
    internal, internal_error, not_found, outcome_text, reply_to, reply_view, resource_not_found,
    running_client, shut_down_message, CallToolRequest, ErrorReply, ErrorView,
};
use crate::shutdown::{
    law_shutdown_stops_every_client, sweep, Shutdown, ShutdownView, Target,
};
use crate::text::{
    enclose, join, joined, law_joined_texts_hold_every_part, law_one_text_is_joined_to_itself, texts,
};
use crate::tools::{
    all_pages, defines, discovered, discovery_of, law_definitions_are_as_listed,
    law_every_listed_tool_is_taken_in, law_latest_listing_wins, law_listings_take_in_every_page,
    law_other_tools_are_left_alone, listing_tools, lists, order_with_tools, page_lists,
    with_tools, Discovery, PageReply, Tool, ToolStore, ToolView,
};

verus! {

/// The upstream clients and the tools that they are known to offer. `H` is a handle that
/// leads to a client, `P` the definition of a tool.
pub struct AggregatorService<H, P> {
    clients: NameTable<H>,
    tools: ToolStore<P>,
}

/// An [`AggregatorService`] as a mathematical value.
#[verifier::reject_recursive_types(H)]
pub struct AggregatorView<H, P> {
    /// The handle of each upstream's client, under the upstream's name.
    pub clients: Map<Seq<char>, H>,
    /// The names of the upstreams, in the order in which they were registered.
    pub client_order: Seq<Seq<char>>,
    /// The known tools, each under its name.
    pub tools: Map<Seq<char>, ToolView<P>>,
    /// The names of the tools, in the order in which they became known.
    pub tool_order: Seq<Seq<char>>,
}

/// Where a call of a tool goes.
pub enum Route {
    /// No tool of that name is known.
    UnknownTool,
    /// The tool belongs to this upstream, which has no client.
    UnknownClient(Seq<char>),
    /// The tool belongs to this upstream, which has a client.
    Upstream(Seq<char>),
}

impl<H, P> AggregatorView<H, P> {
    /// The service before any upstream is registered.
    pub open spec fn empty() -> Self {
        AggregatorView {
            clients: Map::empty(),
            client_order: Seq::empty(),
            tools: Map::empty(),
            tool_order: Seq::empty(),
        }
    }

    /// The service after the upstream `name` was registered with this handle.
    pub open spec fn with_client(self, name: Seq<char>, handle: H) -> Self {
        AggregatorView {
            clients: self.clients.insert(name, handle),
            client_order: order_with(self.client_order, name),
            ..self
        }
    }

    /// The service after this came of asking the upstream `server` for its tools.
    pub open spec fn with_discovery(self, server: Seq<char>, discovery: Discovery<P>) -> Self {
        AggregatorView {
            tools: with_tools(self.tools, server, discovered(discovery)),
            tool_order: order_with_tools(self.tool_order, discovered(discovery)),
            ..self
        }
    }

    /// Where a call of the tool `tool_name` goes.
    pub open spec fn route(self, tool_name: Seq<char>) -> Route {
        if !self.tools.contains_key(tool_name) {
            Route::UnknownTool
        } else {
            let server = self.tools[tool_name].server;
            if self.clients.contains_key(server) {
                Route::Upstream(server)
            } else {
                Route::UnknownClient(server)
            }
        }
    }

    /// Every known tool belongs to an upstream that is registered.
    pub open spec fn coherent(self) -> bool {
        forall|name: Seq<char>| #[trigger]
            self.tools.contains_key(name) ==> self.clients.contains_key(self.tools[name].server)
    }

    /// The orders list what the maps hold, each name once.
    pub open spec fn ordered(self) -> bool {
        &&& self.client_order.no_duplicates()
        &&& self.tool_order.no_duplicates()
        &&& forall|name: Seq<char>|
            self.clients.contains_key(name) <==> #[trigger] self.client_order.contains(name)
        &&& forall|name: Seq<char>|
            self.tools.contains_key(name) <==> #[trigger] self.tool_order.contains(name)
    }
}

/// The message for a call of a tool that is not known.
pub open spec fn tool_not_found_message(tool_name: Seq<char>) -> Seq<char> {
    "Tool '"@ + tool_name + "' not found"@
}

/// The message for a call of a tool whose upstream has no client.
pub open spec fn client_not_found_message(client_name: Seq<char>) -> Seq<char> {
    "Client '"@ + client_name + "' not found"@
}

/// The message for a stream of an upstream that is not registered: it names the upstreams
/// that are, if there are any.
pub open spec fn unknown_upstream_message(
    endpoint: Seq<char>,
    available: Seq<Seq<char>>,
) -> Seq<char> {
    if available.len() == 0 {
        "Unknown upstream service '"@ + endpoint + "'"@
    } else {
        "Unknown upstream service '"@ + endpoint + "'. Available: "@ + joined(available, ", "@)
    }
}

/// A list of tools, complete in one page.
#[derive(Debug, PartialEq, Eq)]
pub struct ListToolsResult<'a, P> {
    pub tools: Vec<&'a P>,
    pub next_cursor: Option<String>,
}

/// A call on its way to the upstream that offers the tool.
#[derive(Debug, PartialEq, Eq)]
pub struct CallForward<H, A> {
    pub client_name: String,
    pub client: H,
    pub request: CallToolRequest<A>,
}

impl<H, A> CallForward<H, A> {
    /// Decides on the call once the client's slot is at hand: the call goes to the client
    /// as it came, unless the client was shut down.
    pub fn enter<'a, C>(self, slot: &'a Option<C>) -> (outcome: Result<
        (&'a C, CallToolRequest<A>),
        ErrorReply,
    >)
        ensures
            passes_on(self.client_name@, *slot, self.request, outcome),
            match *slot {
                Some(running) => outcome matches Ok(sent) && *sent.0 == running && sent.1
                    == self.request,
                None => outcome matches Err(e) && e.code == -32603 && e.message@ == "Client '"@
                    + self.client_name@ + "' already shut down"@,
            },
    {
        match running_client(self.client_name.as_str(), slot) {
            Ok(client) => Ok((client, self.request)),
            Err(error) => Err(error),
        }
    }
}

/// Whether `outcome` is what a service in this state makes of a call of a tool.
pub open spec fn is_routed<H: Clone, P, A>(
    state: AggregatorView<H, P>,
    params: CallToolRequest<A>,
    outcome: Result<CallForward<H, A>, ErrorReply>,
) -> bool {
    match state.route(params.name@) {
        Route::UnknownTool => outcome matches Err(e) && e@ == not_found(
            tool_not_found_message(params.name@),
        ),
        Route::UnknownClient(server) => outcome matches Err(e) && e@ == internal(
            client_not_found_message(server),
        ),
        Route::Upstream(server) => outcome matches Ok(forward) && {
            &&& forward.client_name@ == server
            &&& cloned(state.clients[server], forward.client)
            &&& forward.request == params
        },
    }
}

/// The answer to a call of the tool `tool_name`: `running` says whether the client of the
/// tool's upstream is still there, and `upstream` is what that client would answer.
pub open spec fn call_answer<H, P, R>(
    state: AggregatorView<H, P>,
    tool_name: Seq<char>,
    running: bool,
    upstream: Result<R, Seq<char>>,
) -> Result<R, ErrorView> {
    match state.route(tool_name) {
        Route::UnknownTool => Err(not_found(tool_not_found_message(tool_name))),
        Route::UnknownClient(server) => Err(internal(client_not_found_message(server))),
        Route::Upstream(server) => if running {
            reply_to(upstream)
        } else {
            Err(internal(shut_down_message(server)))
        },
    }
}

/// The service after discoveries, each of one upstream, one after another.
pub open spec fn after_discoveries<H, P>(
    state: AggregatorView<H, P>,
    discoveries: Seq<(Seq<char>, Discovery<P>)>,
) -> AggregatorView<H, P>
    decreases discoveries.len(),
{
    if discoveries.len() == 0 {
        state
    } else {
        after_discoveries(state, discoveries.drop_last()).with_discovery(
            discoveries.last().0,
            discoveries.last().1,
        )
    }
}

/// Whether the discovery at place `i` lists a tool of this name.
pub open spec fn lists_at<P>(
    discoveries: Seq<(Seq<char>, Discovery<P>)>,
    i: int,
    name: Seq<char>,
) -> bool {
    0 <= i < discoveries.len() && lists(discovered(discoveries[i].1), name)
}

/// What a streaming connection is served by.
#[derive(Debug, PartialEq, Eq)]
pub enum TargetService<H> {
    /// All upstreams together.
    Aggregator,
    /// One upstream.
    Upstream { name: String, client: H },
}

/// The service behind a streaming connection.
#[derive(Debug, PartialEq, Eq)]
pub enum ConnectionService<H> {
    Aggregator,
    Proxy(UpstreamProxyService<H>),
}

/// Whether `service` is what a connection with this target is given to.
pub open spec fn serves<H>(target: TargetService<H>, service: ConnectionService<H>) -> bool {
    match target {
        TargetService::Aggregator => service is Aggregator,
        TargetService::Upstream { name, client } => service matches ConnectionService::Proxy(proxy)
            && proxy.client_name == name && proxy.client == client,
    }
}

/// Whether `outcome` is what a service in this state makes of a stream of one upstream.
pub open spec fn is_upstream_target<H: Clone, P>(
    state: AggregatorView<H, P>,
    endpoint: String,
    outcome: Result<TargetService<H>, HttpResponse>,
) -> bool {
    if state.clients.contains_key(endpoint@) {
        outcome matches Ok(TargetService::Upstream { name, client }) && name == endpoint && cloned(
            state.clients[endpoint@],
            client,
        )
    } else {
        outcome matches Err(response) && response.status == Status::NotFound && response.body@
            == unknown_upstream_message(endpoint@, state.client_order)
    }
}

impl<H> TargetService<H> {
    /// The service that a connection with this target is given to.
    pub fn service(self) -> (service: ConnectionService<H>)
        ensures
            serves(self, service),
            match self {
                TargetService::Aggregator => service is Aggregator,
                TargetService::Upstream { name, client } => service matches ConnectionService::Proxy(
                    proxy,
                ) && proxy.client_name == name && proxy.client == client,
            },
    {
        match self {
            TargetService::Aggregator => ConnectionService::Aggregator,
            TargetService::Upstream { name, client } => ConnectionService::Proxy(
                UpstreamProxyService::new(name, client),
            ),
        }
    }
}

impl<H, P> View for AggregatorService<H, P> {
    type V = AggregatorView<H, P>;

    closed spec fn view(&self) -> AggregatorView<H, P> {
        AggregatorView {
            clients: self.clients@,
            client_order: self.clients.order(),
            tools: self.tools@,
            tool_order: self.tools.order(),
        }
    }
}

impl<H, P> AggregatorService<H, P> {
    /// A service with no upstream and no tool.
    pub fn empty() -> (service: Self)
        ensures
            service@ == AggregatorView::<H, P>::empty(),
    {
        AggregatorService { clients: NameTable::new(), tools: ToolStore::new() }
    }

    /// Registers the upstream `name`, whose client `handle` leads to.
    pub fn register_client(&mut self, name: String, handle: H)
        ensures
            final(self)@ == old(self)@.with_client(name@, handle),
            final(self)@.clients == old(self)@.clients.insert(name@, handle),
            final(self)@.client_order == if old(self)@.client_order.contains(name@) {
                old(self)@.client_order
            } else {
                old(self)@.client_order.push(name@)
            },
            final(self)@.tools == old(self)@.tools,
            final(self)@.tool_order == old(self)@.tool_order,
    {
        self.clients.insert(name, handle);
    }

    /// Takes in what came of asking the upstream `server` for its tools. Only a listing
    /// changes what is known.
    pub fn record_discovery(&mut self, server: &str, discovery: Discovery<P>)
        ensures
            final(self)@ == old(self)@.with_discovery(server@, discovery),
            final(self)@.clients == old(self)@.clients,
            final(self)@.client_order == old(self)@.client_order,
            discovery matches Discovery::Listed(tools) ==> forall|i: int|
                0 <= i < tools@.len() ==> {
                    &&& final(self)@.tools.contains_key((#[trigger] tools@[i]).name@)
                    &&& final(self)@.tools[tools@[i].name@].server == server@
                },
            !(discovery is Listed) ==> final(self)@ == old(self)@,
    {
        self.tools.record(server, discovery);
    }

    /// All known tools, each of them once, in one page.
    pub fn list_tools(&self) -> (result: ListToolsResult<'_, P>)
        ensures
            self@.tool_order.no_duplicates(),
            forall|name: Seq<char>|
                self@.tools.contains_key(name) <==> #[trigger] self@.tool_order.contains(name),
            result.tools@.len() == self@.tool_order.len(),
            forall|i: int|
                0 <= i < result.tools@.len() ==> *(#[trigger] result.tools@[i])
                    == self@.tools[self@.tool_order[i]].definition,
            result.next_cursor is None,
    {
        ListToolsResult { tools: self.tools.definitions(), next_cursor: None }
    }

    /// The names of the upstreams, in the order in which they were registered.
    pub fn upstream_names(&self) -> (names: Vec<String>)
        ensures
            texts(names@) == self@.client_order,
            self@.client_order.no_duplicates(),
            forall|name: Seq<char>|
                self@.clients.contains_key(name) <==> #[trigger] self@.client_order.contains(name),
    {
        proof {
            use_type_invariant(&self.clients);
            self.clients.lemma_order();
        }
        self.clients.names()
    }
}

impl<H: Clone, P> AggregatorService<H, P> {
    /// The handle of the upstream `name`.
    pub fn get_client_handle(&self, name: &str) -> (handle: Option<H>)
        ensures
            handle is Some <==> self@.clients.contains_key(name@),
            handle matches Some(h) ==> cloned(self@.clients[name@], h),
    {
        match self.clients.get(name) {
            Some(handle) => Some(handle.clone()),
            None => None,
        }
    }

    /// Decides where a call of a tool goes: to the upstream that offers the tool, with the
    /// request as it came. A tool that is not known and an upstream that has no client are
    /// answered with an error.
    pub fn call_tool<A>(&self, params: CallToolRequest<A>) -> (outcome: Result<
        CallForward<H, A>,
        ErrorReply,
    >)
        ensures
            is_routed(self@, params, outcome),
            ({
                let tool = params.name@;
                let server = self@.tools[tool].server;
                let known = self@.tools.contains_key(tool);
                let registered = self@.clients.contains_key(server);
                &&& outcome is Ok <==> known && registered
                &&& outcome matches Ok(forward) ==> {
                    &&& forward.client_name@ == server
                    &&& cloned(self@.clients[server], forward.client)
                    &&& forward.request == params
                }
                &&& !known ==> (outcome matches Err(e) && e.code == -32002 && e.message@
                    == "Tool '"@ + tool + "' not found"@)
                &&& known && !registered ==> (outcome matches Err(e) && e.code == -32603
                    && e.message@ == "Client '"@ + server + "' not found"@)
            }),
    {
        match self.tools.get(params.name.as_str()) {
            Some(record) => match self.clients.get(record.server.as_str()) {
                Some(client) => Ok(
                    CallForward {
                        client_name: record.server.clone(),
                        client: client.clone(),
                        request: params,
                    },
                ),
                None => Err(
                    internal_error(enclose("Client '", record.server.as_str(), "' not found")),
                ),
            },
            None => Err(resource_not_found(enclose("Tool '", params.name.as_str(), "' not found"))),
        }
    }

    /// Decides what a stream of the upstream `endpoint` is served by. An upstream that is
    /// not registered is answered with status 404 and a text that names those that are.
    pub fn upstream_target(&self, endpoint: String) -> (outcome: Result<
        TargetService<H>,
        HttpResponse,
    >)
        ensures
            is_upstream_target(self@, endpoint, outcome),
            outcome is Ok <==> self@.clients.contains_key(endpoint@),
            outcome matches Ok(target) ==> (target matches TargetService::Upstream { name, client }
                && name@ == endpoint@ && cloned(self@.clients[endpoint@], client)),
            outcome matches Err(response) ==> {
                &&& response.status == Status::NotFound
                &&& response.body@ == if self@.client_order.len() == 0 {
                    "Unknown upstream service '"@ + endpoint@ + "'"@
                } else {
                    "Unknown upstream service '"@ + endpoint@ + "'. Available: "@ + joined(
                        self@.client_order,
                        ", "@,
                    )
                }
            },
    {
        match self.get_client_handle(endpoint.as_str()) {
            Some(client) => Ok(TargetService::Upstream { name: endpoint, client }),
            None => {
                let available = self.upstream_names();
                assert(texts(available@).len() == available@.len());
                let detail = if available.len() == 0 {
                    enclose("Unknown upstream service '", endpoint.as_str(), "'")
                } else {
                    let mut detail = enclose(
                        "Unknown upstream service '",
                        endpoint.as_str(),
                        "'. Available: ",
                    );
                    detail.append(join(&available, ", ").as_str());
                    detail
                };
                Err(not_found_response(detail.as_str()))
            },
        }
    }

    /// The shutdown of all upstream clients, each of them once, in the order in which they
    /// were registered.
    pub fn shutdown(&self) -> (shutdown: Shutdown<H>)
        ensures
            self@.client_order.no_duplicates(),
            forall|name: Seq<char>|
                self@.clients.contains_key(name) <==> #[trigger] self@.client_order.contains(name),
            shutdown@ == ShutdownView::start(self@.client_order),
            forall|i: int|
                0 <= i < self@.client_order.len() ==> cloned(
                    self@.clients[self@.client_order[i]],
                    (#[trigger] shutdown.targets()[i]).handle,
                ),
    {
        let mut targets: Vec<Target<H>> = Vec::new();
        let count: usize = self.clients.len();
        let mut i: usize = 0;
        while i < count
            invariant
                i <= count,
                count == self@.client_order.len(),
                targets@.len() == i,
                forall|j: int|
                    0 <= j < i ==> {
                        &&& (#[trigger] targets@[j]).name@ == self@.client_order[j]
                        &&& cloned(self@.clients[self@.client_order[j]], targets@[j].handle)
                    },
            decreases count - i,
        {
            targets.push(
                Target {
                    name: self.clients.name_at(i).clone(),
                    handle: self.clients.value_at(i).clone(),
                },
            );
            i = i + 1;
        }
        proof {
            use_type_invariant(&self.clients);
            self.clients.lemma_order();
        }
        let shutdown = Shutdown::new(targets);
        assert(shutdown@.names =~= self@.client_order);
        shutdown
    }
}

/// The orders of a service list what it holds, each name once: at the start, and after
/// every registration and every discovery.
pub proof fn law_orders_are_kept<H, P>(
    state: AggregatorView<H, P>,
    name: Seq<char>,
    handle: H,
    discovery: Discovery<P>,
)
    ensures
        AggregatorView::<H, P>::empty().ordered(),
        state.ordered() ==> state.with_client(name, handle).ordered(),
        state.ordered() ==> state.with_discovery(name, discovery).ordered(),
{
    if state.ordered() {
        let after = state.with_client(name, handle);
        lemma_order_with(state.client_order, name);
        assert(after.ordered());
        lemma_order_with_tools(state.tools, state.tool_order, name, discovered(discovery));
    }
}

/// Inserting a name keeps an order free of duplicates and adds just that name.
proof fn lemma_order_with(order: Seq<Seq<char>>, name: Seq<char>)
    requires
        order.no_duplicates(),
    ensures
        order_with(order, name).no_duplicates(),
        forall|k: Seq<char>| #[trigger]
            order_with(order, name).contains(k) <==> order.contains(k) || k == name,
{
    if !order.contains(name) {
        let after = order.push(name);
        assert forall|k: Seq<char>| #[trigger] after.contains(k) <==> order.contains(k) || k
            == name by {
            if order.contains(k) {
                assert(after[order.index_of(k)] == k);
            }
            assert(after[order.len() as int] == name);
            if after.contains(k) && k != name {
                assert(order[after.index_of(k)] == k);
            }
        }
    }
}

/// Listing tools keeps their order in step with the tools that are known.
proof fn lemma_order_with_tools<P>(
    known: Map<Seq<char>, ToolView<P>>,
    order: Seq<Seq<char>>,
    server: Seq<char>,
    tools: Seq<Tool<P>>,
)
    requires
        order.no_duplicates(),
        forall|name: Seq<char>| known.contains_key(name) <==> #[trigger] order.contains(name),
    ensures
        order_with_tools(order, tools).no_duplicates(),
        forall|name: Seq<char>|
            with_tools(known, server, tools).contains_key(name) <==> #[trigger] order_with_tools(
                order,
                tools,
            ).contains(name),
    decreases tools.len(),
{
    if tools.len() > 0 {
        lemma_order_with_tools(known, order, server, tools.drop_last());
        lemma_order_with(order_with_tools(order, tools.drop_last()), tools.last().name@);
    }
}

/// Every known tool belongs to a registered upstream: at the start, after every
/// registration, and after every discovery of a registered upstream.
pub proof fn law_tools_belong_to_registered_upstreams<H, P>(
    state: AggregatorView<H, P>,
    name: Seq<char>,
    handle: H,
    discovery: Discovery<P>,
)
    ensures
        AggregatorView::<H, P>::empty().coherent(),
        state.coherent() ==> state.with_client(name, handle).coherent(),
        state.coherent() && state.clients.contains_key(name) ==> state.with_discovery(
            name,
            discovery,
        ).coherent(),
{
    if state.coherent() && state.clients.contains_key(name) {
        let after = state.with_discovery(name, discovery);
        assert forall|tool: Seq<char>| #[trigger]
            after.tools.contains_key(tool) implies after.clients.contains_key(
            after.tools[tool].server,
        ) by {
            law_latest_listing_wins(state.tools, name, discovered(discovery), tool);
        }
    }
}

/// Every tool that the service lists can be called: the call goes to the upstream that
/// the tool belongs to, and never ends in a tool or a client that is not found.
pub proof fn law_listed_tools_can_be_called<H, P>(state: AggregatorView<H, P>, i: int)
    requires
        state.ordered(),
        state.coherent(),
        0 <= i < state.tool_order.len(),
    ensures
        state.route(state.tool_order[i]) == Route::Upstream(
            state.tools[state.tool_order[i]].server,
        ),
{
    assert(state.tool_order.contains(state.tool_order[i]));
}

/// Who a name belongs to after one more discovery.
proof fn lemma_owner<H, P>(
    state: AggregatorView<H, P>,
    server: Seq<char>,
    discovery: Discovery<P>,
    name: Seq<char>,
)
    ensures
        ({
            let before = state.tools;
            let after = state.with_discovery(server, discovery).tools;
            let listed = lists(discovered(discovery), name);
            &&& after.contains_key(name) <==> before.contains_key(name) || listed
            &&& listed ==> after[name].server == server && defines(
                discovered(discovery),
                name,
                after[name].definition,
            )
            &&& !listed && before.contains_key(name) ==> after[name] == before[name]
        }),
{
    law_latest_listing_wins(state.tools, server, discovered(discovery), name);
    if lists(discovered(discovery), name) {
        law_definitions_are_as_listed(state.tools, server, discovered(discovery), name);
    }
}

/// A name is known after discoveries exactly where one of them listed it.
proof fn lemma_known_names<H, P>(
    state: AggregatorView<H, P>,
    discoveries: Seq<(Seq<char>, Discovery<P>)>,
    name: Seq<char>,
)
    requires
        !state.tools.contains_key(name),
    ensures
        after_discoveries(state, discoveries).tools.contains_key(name) <==> exists|i: int|
            lists_at(discoveries, i, name),
    decreases discoveries.len(),
{
    if discoveries.len() > 0 {
        let fewer = discoveries.drop_last();
        let last = discoveries.len() - 1;
        let before = after_discoveries(state, fewer);
        lemma_known_names(state, fewer, name);
        lemma_owner(before, discoveries[last].0, discoveries[last].1, name);
        if before.tools.contains_key(name) {
            let i = choose|i: int| lists_at(fewer, i, name);
            assert(lists_at(discoveries, i, name));
        } else if exists|i: int| lists_at(discoveries, i, name) {
            let i = choose|i: int| lists_at(discoveries, i, name);
            if i < last {
                assert(lists_at(fewer, i, name));
            }
        }
        if lists(discovered(discoveries[last].1), name) {
            assert(lists_at(discoveries, last, name));
        }
    }
}

/// The tools of the service are those of all upstreams together: a name is known exactly
/// where some discovery listed it, and it belongs to the upstream that listed it last.
pub proof fn law_tools_of_all_upstreams<H, P>(
    state: AggregatorView<H, P>,
    discoveries: Seq<(Seq<char>, Discovery<P>)>,
    name: Seq<char>,
    i: int,
)
    requires
        !state.tools.contains_key(name),
    ensures
        after_discoveries(state, discoveries).tools.contains_key(name) <==> exists|j: int|
            lists_at(discoveries, j, name),
        lists_at(discoveries, i, name) && (forall|j: int|
            i < j ==> !lists_at(discoveries, j, name)) ==> after_discoveries(
            state,
            discoveries,
        ).tools[name].server == discoveries[i].0,
    decreases discoveries.len(),
{
    lemma_known_names(state, discoveries, name);
    if lists_at(discoveries, i, name) && (forall|j: int|
        i < j ==> !lists_at(discoveries, j, name)) {
        let fewer = discoveries.drop_last();
        let last = discoveries.len() - 1;
        lemma_owner(
            after_discoveries(state, fewer),
            discoveries[last].0,
            discoveries[last].1,
            name,
        );
        if i < last {
            assert(!lists_at(discoveries, last, name));
            assert(lists_at(fewer, i, name));
            assert forall|j: int| i < j implies !lists_at(fewer, j, name) by {
                assert(!lists_at(discoveries, j, name));
            }
            law_tools_of_all_upstreams(state, fewer, name, i);
        }
    }
}

/// What can happen to a service.
pub enum ServiceChange<H, P> {
    /// This upstream was registered with this handle.
    Registered(Seq<char>, H),
    /// This came of asking this upstream for a page of its tools.
    Discovered(Seq<char>, Discovery<P>),
}

/// The service after changes, one after another.
pub open spec fn after_changes<H, P>(
    state: AggregatorView<H, P>,
    changes: Seq<ServiceChange<H, P>>,
) -> AggregatorView<H, P>
    decreases changes.len(),
{
    if changes.len() == 0 {
        state
    } else {
        let before = after_changes(state, changes.drop_last());
        match changes.last() {
            ServiceChange::Registered(name, handle) => before.with_client(name, handle),
            ServiceChange::Discovered(server, discovery) => before.with_discovery(
                server,
                discovery,
            ),
        }
    }
}

/// Whether the change at place `i` registers this upstream.
pub open spec fn registers_at<H, P>(
    changes: Seq<ServiceChange<H, P>>,
    i: int,
    name: Seq<char>,
) -> bool {
    0 <= i < changes.len() && (changes[i] matches ServiceChange::Registered(n, _) && n == name)
}

/// Whether the change at place `i` is a discovery in which this upstream lists a tool of
/// this name.
pub open spec fn offers_at<H, P>(
    changes: Seq<ServiceChange<H, P>>,
    i: int,
    server: Seq<char>,
    tool: Seq<char>,
) -> bool {
    0 <= i < changes.len() && (changes[i] matches ServiceChange::Discovered(s, discovery) && s
        == server && lists(discovered(discovery), tool))
}

/// Whether the change at place `i` is a discovery in which an upstream lists a tool of this
/// name with this definition, where `tool` is what is known of it.
pub open spec fn gives_at<H, P>(
    changes: Seq<ServiceChange<H, P>>,
    i: int,
    name: Seq<char>,
    tool: ToolView<P>,
) -> bool {
    0 <= i < changes.len() && (changes[i] matches ServiceChange::Discovered(s, discovery) && s
        == tool.server && defines(discovered(discovery), name, tool.definition))
}

/// Whether only upstreams that were registered before are asked for their tools.
pub open spec fn asks_registered<H, P>(changes: Seq<ServiceChange<H, P>>) -> bool {
    forall|i: int|
        0 <= i < changes.len() ==> ((#[trigger] changes[i]) matches ServiceChange::Discovered(
            server,
            _,
        ) ==> exists|j: int| j < i && registers_at(changes, j, server))
}

/// An upstream is registered after changes exactly where it was before or one of them
/// registered it.
proof fn lemma_registered<H, P>(
    state: AggregatorView<H, P>,
    changes: Seq<ServiceChange<H, P>>,
    name: Seq<char>,
)
    ensures
        after_changes(state, changes).clients.contains_key(name) <==> state.clients.contains_key(
            name,
        ) || exists|i: int| registers_at(changes, i, name),
    decreases changes.len(),
{
    if changes.len() > 0 {
        let fewer = changes.drop_last();
        let last = changes.len() - 1;
        lemma_registered(state, fewer, name);
        if exists|i: int| registers_at(fewer, i, name) {
            let i = choose|i: int| registers_at(fewer, i, name);
            assert(registers_at(changes, i, name));
        }
        if exists|i: int| registers_at(changes, i, name) {
            let i = choose|i: int| registers_at(changes, i, name);
            if i < last {
                assert(registers_at(fewer, i, name));
            }
        }
        match changes[last] {
            ServiceChange::Registered(n, _) => {
                if n == name {
                    assert(registers_at(changes, last, name));
                }
            },
            ServiceChange::Discovered(_, _) => {},
        }
    }
}

/// A tool is known after changes exactly where it was before or some upstream listed it, and
/// one that was not known before was listed, as it is known, by the upstream that it belongs
/// to.
proof fn lemma_offered<H, P>(
    state: AggregatorView<H, P>,
    changes: Seq<ServiceChange<H, P>>,
    tool: Seq<char>,
)
    ensures
        after_changes(state, changes).tools.contains_key(tool) <==> state.tools.contains_key(tool)
            || exists|i: int, server: Seq<char>| offers_at(changes, i, server, tool),
        !state.tools.contains_key(tool) && after_changes(state, changes).tools.contains_key(tool)
            ==> exists|i: int|
            gives_at(changes, i, tool, after_changes(state, changes).tools[tool]),
    decreases changes.len(),
{
    if changes.len() > 0 {
        let fewer = changes.drop_last();
        let last = changes.len() - 1;
        let before = after_changes(state, fewer);
        let after = after_changes(state, changes);
        lemma_offered(state, fewer, tool);
        if exists|i: int, server: Seq<char>| offers_at(fewer, i, server, tool) {
            let (i, server) = choose|i: int, server: Seq<char>| offers_at(fewer, i, server, tool);
            assert(offers_at(changes, i, server, tool));
        }
        if exists|i: int, server: Seq<char>| offers_at(changes, i, server, tool) {
            let (i, server) = choose|i: int, server: Seq<char>|
                offers_at(changes, i, server, tool);
            if i < last {
                assert(offers_at(fewer, i, server, tool));
            }
        }
        match changes[last] {
            ServiceChange::Registered(_, _) => {
                assert(after.tools == before.tools);
            },
            ServiceChange::Discovered(server, discovery) => {
                lemma_owner(before, server, discovery, tool);
                if lists(discovered(discovery), tool) {
                    assert(offers_at(changes, last, server, tool));
                    assert(gives_at(changes, last, tool, after.tools[tool]));
                }
            },
        }
        if !state.tools.contains_key(tool) && after.tools.contains_key(tool) && !gives_at(
            changes,
            last,
            tool,
            after.tools[tool],
        ) {
            let i = choose|i: int| gives_at(fewer, i, tool, before.tools[tool]);
            assert(gives_at(changes, i, tool, after.tools[tool]));
        }
    }
}

/// After any history of registrations, and of discoveries of registered upstreams, the
/// service lists each name once and every tool belongs to a registered upstream, so that
/// each listed tool can be called. Each tool was listed, with the definition under which it
/// is known, by the upstream that it belongs to.
pub proof fn law_every_history_keeps_tools_callable<H, P>(
    changes: Seq<ServiceChange<H, P>>,
    tool: Seq<char>,
)
    requires
        asks_registered(changes),
    ensures
        ({
            let after = after_changes(AggregatorView::<H, P>::empty(), changes);
            &&& after.ordered()
            &&& after.coherent()
            &&& after.tool_order.contains(tool) ==> {
                &&& after.route(tool) == Route::Upstream(after.tools[tool].server)
                &&& exists|i: int| gives_at(changes, i, tool, after.tools[tool])
            }
        }),
{
    let empty = AggregatorView::<H, P>::empty();
    let after = after_changes(empty, changes);
    lemma_history_ordered(changes);
    assert forall|name: Seq<char>| #[trigger]
        after.tools.contains_key(name) implies after.clients.contains_key(
        after.tools[name].server,
    ) by {
        lemma_offered(empty, changes, name);
        let server = after.tools[name].server;
        let i = choose|i: int| gives_at(changes, i, name, after.tools[name]);
        assert(changes[i] matches ServiceChange::Discovered(s, _) && s == server);
        let j = choose|j: int| j < i && registers_at(changes, j, server);
        assert(registers_at(changes, j, server));
        lemma_registered(empty, changes, server);
    }
    lemma_offered(empty, changes, tool);
}

/// Every history keeps the orders of a service.
proof fn lemma_history_ordered<H, P>(changes: Seq<ServiceChange<H, P>>)
    ensures
        after_changes(AggregatorView::<H, P>::empty(), changes).ordered(),
    decreases changes.len(),
{
    let empty = AggregatorView::<H, P>::empty();
    if changes.len() == 0 {
        assert(empty.ordered());
    } else {
        let before = after_changes(empty, changes.drop_last());
        lemma_history_ordered(changes.drop_last());
        match changes.last() {
            ServiceChange::Registered(name, handle) => {
                law_orders_are_kept(before, name, handle, Discovery::Failed);
            },
            ServiceChange::Discovered(server, discovery) => {
                lemma_order_with_tools(
                    before.tools,
                    before.tool_order,
                    server,
                    discovered(discovery),
                );
            },
        }
    }
}

/// A tool that is known and an upstream that is registered stay so, whatever happens.
pub proof fn law_names_never_leave<H, P>(
    state: AggregatorView<H, P>,
    changes: Seq<ServiceChange<H, P>>,
    name: Seq<char>,
)
    ensures
        state.tools.contains_key(name) ==> after_changes(state, changes).tools.contains_key(name),
        state.clients.contains_key(name) ==> after_changes(state, changes).clients.contains_key(
            name,
        ),
{
    lemma_offered(state, changes, name);
    lemma_registered(state, changes, name);
}

/// The service lists exactly what its upstreams offered: a name is listed exactly where some
/// upstream listed it.
pub proof fn law_listed_names_are_those_offered<H, P>(
    changes: Seq<ServiceChange<H, P>>,
    tool: Seq<char>,
)
    ensures
        after_changes(AggregatorView::<H, P>::empty(), changes).tool_order.contains(tool) <==> (
        exists|i: int, server: Seq<char>| offers_at(changes, i, server, tool)),
{
    let after = after_changes(AggregatorView::<H, P>::empty(), changes);
    lemma_history_ordered(changes);
    lemma_offered(AggregatorView::<H, P>::empty(), changes, tool);
    assert(after.tools.contains_key(tool) <==> after.tool_order.contains(tool));
}

/// Whether a change takes in what came of asking an upstream for a page.
pub open spec fn takes_in<H, P>(
    changes: Seq<ServiceChange<H, P>>,
    i: int,
    server: Seq<char>,
    reply: PageReply<P>,
) -> bool {
    0 <= i < changes.len() && changes[i] == ServiceChange::<H, P>::Discovered(
        server,
        discovery_of(reply),
    )
}

/// Where all pages of an upstream were taken in, the service lists every tool that one of
/// the pages lists, whatever else was taken in before, between and after them.
pub proof fn law_every_page_is_listed<H, P>(
    changes: Seq<ServiceChange<H, P>>,
    server: Seq<char>,
    replies: Seq<PageReply<P>>,
    tool: Seq<char>,
)
    requires
        all_pages(replies),
        forall|k: int|
            0 <= k < replies.len() ==> exists|i: int|
                takes_in(changes, i, server, #[trigger] replies[k]),
        lists(listing_tools(replies), tool),
    ensures
        after_changes(AggregatorView::<H, P>::empty(), changes).tool_order.contains(tool),
{
    law_listings_take_in_every_page(replies, 0, tool);
    let k = choose|k: int| page_lists(replies, k, tool);
    let i = choose|i: int| takes_in(changes, i, server, replies[k]);
    assert(takes_in(changes, i, server, replies[k]));
    assert(offers_at(changes, i, server, tool));
    law_listed_names_are_those_offered(changes, tool);
}

/// A call is answered as [`call_answer`] says, from what each step of it decides: the
/// route, the client's slot, and the upstream's outcome. Where the upstream is asked, it
/// is asked the very request that came in.
pub proof fn law_calls_are_answered<H: Clone, P, A, C, R>(
    state: AggregatorView<H, P>,
    params: CallToolRequest<A>,
    routed: Result<CallForward<H, A>, ErrorReply>,
    slot: Option<C>,
    entered: Result<(&C, CallToolRequest<A>), ErrorReply>,
    upstream: Result<R, String>,
    reply: Result<R, ErrorReply>,
)
    requires
        is_routed(state, params, routed),
        match routed {
            Ok(forward) => {
                &&& passes_on(forward.client_name@, slot, forward.request, entered)
                &&& match entered {
                    Ok(_) => reply_view(reply) == reply_to(outcome_text(upstream)),
                    Err(error) => reply == Err::<R, ErrorReply>(error),
                }
            },
            Err(error) => reply == Err::<R, ErrorReply>(error),
        },
    ensures
        reply_view(reply) == call_answer(
            state,
            params.name@,
            slot is Some,
            outcome_text(upstream),
        ),
        routed is Ok && slot is Some ==> entered is Ok && entered->Ok_0.1 == params,
{
}

/// A call of a tool is answered the same, whether it comes for all upstreams together or
/// for the one upstream that the tool belongs to.
pub proof fn law_both_ways_to_a_tool_agree<H, P, R>(
    state: AggregatorView<H, P>,
    tool_name: Seq<char>,
    server: Seq<char>,
    running: bool,
    upstream: Result<R, Seq<char>>,
)
    requires
        state.route(tool_name) == Route::Upstream(server),
    ensures
        call_answer(state, tool_name, running, upstream) == proxied_answer(
            server,
            running,
            upstream,
        ),
{
}

/// A stream of one upstream is served from that upstream's client and no other, and there
/// is one exactly where the upstream is registered.
pub proof fn law_upstream_streams_reach_their_upstream<H: Clone, P>(
    state: AggregatorView<H, P>,
    endpoint: String,
    outcome: Result<TargetService<H>, HttpResponse>,
    service: ConnectionService<H>,
)
    requires
        is_upstream_target(state, endpoint, outcome),
        outcome matches Ok(target) ==> serves(target, service),
    ensures
        outcome is Ok <==> state.clients.contains_key(endpoint@),
        outcome is Ok ==> (service matches ConnectionService::Proxy(proxy)
            && proxy.client_name@ == endpoint@ && cloned(
            state.clients[endpoint@],
            proxy.client,
        )),
{
}

/// After a shutdown, a call of any listed tool is answered with an error that names the
/// upstream whose client was shut down, and no upstream is asked.
pub proof fn law_calls_after_shutdown_are_refused<H, P, R>(
    state: AggregatorView<H, P>,
    running: Set<Seq<char>>,
    i: int,
    upstream: Result<R, Seq<char>>,
)
    requires
        state.ordered(),
        state.coherent(),
        0 <= i < state.tool_order.len(),
    ensures
        ({
            let tool = state.tool_order[i];
            let server = state.tools[tool].server;
            let left = sweep(ShutdownView::start(state.client_order), running).0;
            call_answer(state, tool, left.contains(server), upstream) == Err::<R, ErrorView>(
                internal(shut_down_message(server)),
            )
        }),
{
    law_listed_tools_can_be_called(state, i);
    law_shutdown_stops_every_client(state.client_order, running);
    let server = state.tools[state.tool_order[i]].server;
    assert(state.client_order.contains(server));
}

/// A call of a tool goes out through the client of the upstream that the tool belongs to and
/// of no other, whatever other upstreams there are: the handle is a clone of the one that is
/// held for that upstream, the name is the upstream's, and the request is the one that came.
/// A call that cannot go out is answered with an error that says why.
pub proof fn law_calls_go_out_through_their_own_upstream<H: Clone, P, A>(
    state: AggregatorView<H, P>,
    params: CallToolRequest<A>,
    outcome: Result<CallForward<H, A>, ErrorReply>,
)
    requires
        is_routed(state, params, outcome),
    ensures
        ({
            let tool = params.name@;
            let server = state.tools[tool].server;
            let known = state.tools.contains_key(tool);
            let registered = state.clients.contains_key(server);
            &&& outcome is Ok <==> known && registered
            &&& outcome matches Ok(forward) ==> {
                &&& forward.client_name@ == server
                &&& cloned(state.clients[server], forward.client)
                &&& forward.request == params
            }
            &&& !known ==> (outcome matches Err(e) && e.code == -32002 && e.message@ == "Tool '"@
                + tool + "' not found"@)
            &&& known && !registered ==> (outcome matches Err(e) && e.code == -32603 && e.message@
                == "Client '"@ + server + "' not found"@)
        }),
{
}

/// Where a call goes does not depend on the other upstreams: two services that know the same
/// of the tool, and hold the same handle for its upstream, accept the same outcomes of a
/// call.
pub proof fn law_other_upstreams_do_not_matter<H: Clone, P, A>(
    one: AggregatorView<H, P>,
    two: AggregatorView<H, P>,
    params: CallToolRequest<A>,
    outcome: Result<CallForward<H, A>, ErrorReply>,
)
    requires
        one.tools.contains_key(params.name@) == two.tools.contains_key(params.name@),
        one.tools.contains_key(params.name@) ==> ({
            let server = one.tools[params.name@].server;
            &&& two.tools[params.name@].server == server
            &&& one.clients.contains_key(server) == two.clients.contains_key(server)
            &&& one.clients.contains_key(server) ==> one.clients[server] == two.clients[server]
        }),
    ensures
        is_routed(one, params, outcome) == is_routed(two, params, outcome),
{
}

/// A registration gives an upstream its handle and changes nothing else: the other upstreams
/// keep theirs, and what is known of the tools stays. A new upstream comes last, and one that
/// was registered keeps its place.
pub proof fn law_registrations_set_one_handle<H, P>(
    state: AggregatorView<H, P>,
    name: Seq<char>,
    handle: H,
    other: Seq<char>,
)
    ensures
        ({
            let after = state.with_client(name, handle);
            &&& after.clients.contains_key(name) && after.clients[name] == handle
            &&& other != name ==> {
                &&& after.clients.contains_key(other) == state.clients.contains_key(other)
                &&& state.clients.contains_key(other) ==> after.clients[other]
                    == state.clients[other]
            }
            &&& after.tools == state.tools
            &&& after.tool_order == state.tool_order
            &&& state.client_order.contains(name) ==> after.client_order == state.client_order
            &&& !state.client_order.contains(name) ==> after.client_order
                == state.client_order.push(name)
        }),
{
}

/// A service begins with no upstream and no tool.
pub proof fn law_services_begin_empty<H, P>(name: Seq<char>)
    ensures
        ({
            let start = AggregatorView::<H, P>::empty();
            &&& !start.clients.contains_key(name)
            &&& !start.tools.contains_key(name)
            &&& start.client_order.len() == 0
            &&& start.tool_order.len() == 0
        }),
{
}

/// After a listing of an upstream was taken in, every tool of the listing is known and
/// listed, and belongs to that upstream, with the definition that the listing gives last
/// under its name. The upstreams stay as they were.
pub proof fn law_services_know_every_listed_tool<H, P>(
    state: AggregatorView<H, P>,
    server: Seq<char>,
    tools: Vec<Tool<P>>,
    i: int,
)
    requires
        0 <= i < tools@.len(),
    ensures
        ({
            let after = state.with_discovery(server, Discovery::Listed(tools));
            let name = tools@[i].name@;
            &&& after.tools.contains_key(name)
            &&& after.tools[name].server == server
            &&& (forall|k: int| i < k < tools@.len() ==> (#[trigger] tools@[k]).name@ != name)
                ==> after.tools[name].definition == tools@[i].definition
            &&& after.tool_order.contains(name)
            &&& after.clients == state.clients
            &&& after.client_order == state.client_order
        }),
{
    law_every_listed_tool_is_taken_in(state.tools, state.tool_order, server, tools, i);
}

/// The same holds of a page of a listing.
pub proof fn law_services_know_every_tool_of_a_page<H, P>(
    state: AggregatorView<H, P>,
    server: Seq<char>,
    tools: Vec<Tool<P>>,
    next_cursor: Option<String>,
    i: int,
)
    requires
        0 <= i < tools@.len(),
    ensures
        ({
            let after = state.with_discovery(
                server,
                discovery_of(PageReply::Page { tools, next_cursor }),
            );
            let name = tools@[i].name@;
            &&& after.tools.contains_key(name)
            &&& after.tools[name].server == server
            &&& (forall|k: int| i < k < tools@.len() ==> (#[trigger] tools@[k]).name@ != name)
                ==> after.tools[name].definition == tools@[i].definition
            &&& after.tool_order.contains(name)
        }),
{
    law_services_know_every_listed_tool(state, server, tools, i);
}

/// A discovery leaves alone what it does not name: a tool that no listing names stays as it
/// was, and a discovery that brought no listing changes nothing.
pub proof fn law_discoveries_leave_the_rest_alone<H, P>(
    state: AggregatorView<H, P>,
    server: Seq<char>,
    discovery: Discovery<P>,
    name: Seq<char>,
)
    ensures
        ({
            let after = state.with_discovery(server, discovery);
            match discovery {
                Discovery::Listed(tools) => (forall|i: int|
                    0 <= i < tools@.len() ==> (#[trigger] tools@[i]).name@ != name) ==> {
                    &&& after.tools.contains_key(name) == state.tools.contains_key(name)
                    &&& state.tools.contains_key(name) ==> after.tools[name] == state.tools[name]
                },
                _ => after == state,
            }
        }),
        state.with_discovery(server, discovery).clients == state.clients,
        state.with_discovery(server, discovery).client_order == state.client_order,
{
    match discovery {
        Discovery::Listed(tools) => {
            if forall|i: int| 0 <= i < tools@.len() ==> (#[trigger] tools@[i]).name@ != name {
                law_other_tools_are_left_alone(state.tools, server, tools, name);
            }
        },
        _ => {},
    }
}

/// After changes, an upstream has the handle that it was registered with last.
pub proof fn law_the_last_registration_counts<H, P>(
    state: AggregatorView<H, P>,
    changes: Seq<ServiceChange<H, P>>,
    j: int,
    name: Seq<char>,
    handle: H,
)
    requires
        0 <= j < changes.len(),
        changes[j] == ServiceChange::<H, P>::Registered(name, handle),
        forall|m: int|
            j < m < changes.len() ==> ((#[trigger] changes[m]) matches ServiceChange::Registered(
                n,
                _,
            ) ==> n != name),
    ensures
        after_changes(state, changes).clients.contains_key(name),
        after_changes(state, changes).clients[name] == handle,
    decreases changes.len(),
{
    let fewer = changes.drop_last();
    let last = changes.len() - 1;
    let before = after_changes(state, fewer);
    if j < last {
        assert forall|m: int| j < m < fewer.len() implies ((
        #[trigger] fewer[m]) matches ServiceChange::Registered(n, _) ==> n != name) by {
            assert(fewer[m] == changes[m]);
        }
        law_the_last_registration_counts(state, fewer, j, name, handle);
        match changes[last] {
            ServiceChange::Registered(n, h) => {
                law_registrations_set_one_handle(before, n, h, name);
            },
            ServiceChange::Discovered(s, d) => {
                law_discoveries_leave_the_rest_alone(before, s, d, name);
            },
        }
    }
}

/// After changes, a tool belongs to the upstream that listed it last, and has the definition
/// that was given last for it there.
pub proof fn law_the_last_listing_counts<H, P>(
    state: AggregatorView<H, P>,
    changes: Seq<ServiceChange<H, P>>,
    i: int,
    server: Seq<char>,
    tools: Vec<Tool<P>>,
    k: int,
)
    requires
        0 <= i < changes.len(),
        changes[i] == ServiceChange::<H, P>::Discovered(server, Discovery::Listed(tools)),
        0 <= k < tools@.len(),
        forall|m: int, s: Seq<char>|
            i < m < changes.len() ==> !offers_at(changes, m, s, tools@[k].name@),
    ensures
        ({
            let after = after_changes(state, changes);
            let name = tools@[k].name@;
            &&& after.tools.contains_key(name)
            &&& after.tools[name].server == server
            &&& (forall|l: int| k < l < tools@.len() ==> (#[trigger] tools@[l]).name@ != name)
                ==> after.tools[name].definition == tools@[k].definition
        }),
    decreases changes.len(),
{
    let fewer = changes.drop_last();
    let last = changes.len() - 1;
    let before = after_changes(state, fewer);
    let name = tools@[k].name@;
    if i == last {
        law_services_know_every_listed_tool(before, server, tools, k);
    } else {
        assert forall|m: int, s: Seq<char>| i < m < fewer.len() implies !offers_at(
            fewer,
            m,
            s,
            name,
        ) by {
            assert(!offers_at(changes, m, s, name));
        }
        law_the_last_listing_counts(state, fewer, i, server, tools, k);
        match changes[last] {
            ServiceChange::Registered(n, h) => {
                law_registrations_set_one_handle(before, n, h, name);
            },
            ServiceChange::Discovered(s, d) => {
                assert(!offers_at(changes, last, s, name));
                lemma_owner(before, s, d, name);
            },
        }
    }
}

/// After any history, a call of a tool goes out through the handle that the upstream which
/// listed the tool last was registered with last, under that upstream's name and with the
/// request as it came.
pub proof fn law_calls_follow_their_history<H: Clone, P, A>(
    changes: Seq<ServiceChange<H, P>>,
    i: int,
    server: Seq<char>,
    tools: Vec<Tool<P>>,
    k: int,
    j: int,
    handle: H,
    params: CallToolRequest<A>,
    outcome: Result<CallForward<H, A>, ErrorReply>,
)
    requires
        0 <= i < changes.len(),
        changes[i] == ServiceChange::<H, P>::Discovered(server, Discovery::Listed(tools)),
        0 <= k < tools@.len(),
        tools@[k].name@ == params.name@,
        forall|m: int, s: Seq<char>|
            i < m < changes.len() ==> !offers_at(changes, m, s, params.name@),
        0 <= j < changes.len(),
        changes[j] == ServiceChange::<H, P>::Registered(server, handle),
        forall|m: int|
            j < m < changes.len() ==> ((#[trigger] changes[m]) matches ServiceChange::Registered(
                n,
                _,
            ) ==> n != server),
        is_routed(after_changes(AggregatorView::<H, P>::empty(), changes), params, outcome),
    ensures
        outcome matches Ok(forward) && {
            &&& forward.client_name@ == server
            &&& cloned(handle, forward.client)
            &&& forward.request == params
        },
{
    let empty = AggregatorView::<H, P>::empty();
    let after = after_changes(empty, changes);
    law_the_last_listing_counts(empty, changes, i, server, tools, k);
    law_the_last_registration_counts(empty, changes, j, server, handle);
    law_calls_go_out_through_their_own_upstream(after, params, outcome);
}

/// After any history, a call of a tool that no upstream ever listed is answered with the
/// error that the tool is not found.
pub proof fn law_tools_never_listed_are_not_found<H: Clone, P, A>(
    changes: Seq<ServiceChange<H, P>>,
    params: CallToolRequest<A>,
    outcome: Result<CallForward<H, A>, ErrorReply>,
)
    requires
        forall|m: int, s: Seq<char>| !offers_at(changes, m, s, params.name@),
        is_routed(after_changes(AggregatorView::<H, P>::empty(), changes), params, outcome),
    ensures
        outcome matches Err(e) && e.code == -32002 && e.message@ == "Tool '"@ + params.name@
            + "' not found"@,
{
    lemma_offered(AggregatorView::<H, P>::empty(), changes, params.name@);
}

/// After any history, a stream of one upstream is served through the handle that the upstream
/// was registered with last.
pub proof fn law_streams_follow_their_history<H: Clone, P>(
    changes: Seq<ServiceChange<H, P>>,
    j: int,
    handle: H,
    endpoint: String,
    outcome: Result<TargetService<H>, HttpResponse>,
    service: ConnectionService<H>,
)
    requires
        0 <= j < changes.len(),
        changes[j] == ServiceChange::<H, P>::Registered(endpoint@, handle),
        forall|m: int|
            j < m < changes.len() ==> ((#[trigger] changes[m]) matches ServiceChange::Registered(
                n,
                _,
            ) ==> n != endpoint@),
        is_upstream_target(
            after_changes(AggregatorView::<H, P>::empty(), changes),
            endpoint,
            outcome,
        ),
        outcome matches Ok(target) ==> serves(target, service),
    ensures
        outcome is Ok,
        service matches ConnectionService::Proxy(proxy) && proxy.client_name@ == endpoint@
            && cloned(handle, proxy.client),
{
    law_the_last_registration_counts(
        AggregatorView::<H, P>::empty(),
        changes,
        j,
        endpoint@,
        handle,
    );
}

/// A stream of an upstream that is not registered is answered with status 404 and a text that
/// holds the name that was asked for and then, each in whole, the names of the upstreams that
/// are registered.
pub proof fn law_unknown_streams_are_told_the_upstreams<H: Clone, P>(
    state: AggregatorView<H, P>,
    endpoint: String,
    outcome: Result<TargetService<H>, HttpResponse>,
    i: int,
)
    requires
        is_upstream_target(state, endpoint, outcome),
        !state.clients.contains_key(endpoint@),
    ensures
        outcome matches Err(response) && {
            let front = "Unknown upstream service '"@ + endpoint@;
            &&& response.status == Status::NotFound
            &&& state.client_order.len() == 0 ==> response.body@ == front + "'"@
            &&& state.client_order.len() == 1 ==> response.body@ == front + "'. Available: "@
                + state.client_order[0]
            &&& front.is_prefix_of(response.body@)
            &&& 0 <= i < state.client_order.len() ==> exists|k: int|
                {
                    &&& front.len() <= k
                    &&& k + state.client_order[i].len() <= response.body@.len()
                    &&& #[trigger] response.body@.subrange(k, k + state.client_order[i].len())
                        == state.client_order[i]
                }
        },
{
    let available = state.client_order;
    let front = "Unknown upstream service '"@ + endpoint@;
    let body = outcome->Err_0.body@;
    assert(front.is_prefix_of(body));
    if available.len() == 1 {
        law_one_text_is_joined_to_itself(available[0], ", "@);
        assert(available =~= seq![available[0]]);
    }
    if 0 <= i < available.len() {
        let head = front + "'. Available: "@;
        let list = joined(available, ", "@);
        law_joined_texts_hold_every_part(available, ", "@, i);
        let at = choose|at: int|
            {
                &&& 0 <= at
                &&& at + available[i].len() <= list.len()
                &&& #[trigger] list.subrange(at, at + available[i].len()) == available[i]
            };
        let k = head.len() + at;
        assert(body == head + list);
        assert(body.subrange(k, k + available[i].len()) =~= list.subrange(
            at,
            at + available[i].len(),
        ));
    }
}

/// A call ends in one of four ways, and each is told in its own words: the tool is not known,
/// its upstream has no client, that client was shut down, or the client was asked and its
/// answer comes back, a result as it is and an error with its own text.
pub proof fn law_answers_say_what_happened<H, P, R>(
    state: AggregatorView<H, P>,
    tool_name: Seq<char>,
    running: bool,
    upstream: Result<R, Seq<char>>,
)
    ensures
        ({
            let answer = call_answer(state, tool_name, running, upstream);
            let server = state.tools[tool_name].server;
            if !state.tools.contains_key(tool_name) {
                answer matches Err(e) && e.code == -32002 && e.message == "Tool '"@ + tool_name
                    + "' not found"@
            } else if !state.clients.contains_key(server) {
                answer matches Err(e) && e.code == -32603 && e.message == "Client '"@ + server
                    + "' not found"@
            } else if !running {
                answer matches Err(e) && e.code == -32603 && e.message == "Client '"@ + server
                    + "' already shut down"@
            } else {
                match upstream {
                    Ok(result) => answer matches Ok(r) && r == result,
                    Err(text) => answer matches Err(e) && e.code == -32603 && e.message == text,
                }
            }
        }),
{
}

} // verus!
