//! The service that offers the tools of one upstream.

use vstd::prelude::*;

use crate::rpc::{
    internal, outcome_text, reply_to, reply_view, running_client, shut_down_message,
    CallToolRequest, ErrorReply, ErrorView,
};

verus! {

/// Offers what one upstream offers, through the handle of that upstream's client.
#[derive(Debug, PartialEq, Eq)]
pub struct UpstreamProxyService<H> {
    pub client_name: String,
    pub client: H,
}

/// A request that may go out, with the client to send it through, or the error to answer
/// it with: what becomes of `request` where `slot` is the client's slot.
pub open spec fn passes_on<C, Q>(
    client_name: Seq<char>,
    slot: Option<C>,
    request: Q,
    outcome: Result<(&C, Q), ErrorReply>,
) -> bool {
    match slot {
        Some(running) => outcome matches Ok(sent) && *sent.0 == running && sent.1 == request,
        None => outcome matches Err(e) && e@ == internal(shut_down_message(client_name)),
    }
}

impl<H> UpstreamProxyService<H> {
    /// The service for the upstream `client_name`.
    pub fn new(client_name: String, client: H) -> (service: Self)
        ensures
            service.client_name == client_name,
            service.client == client,
    {
        UpstreamProxyService { client_name, client }
    }

    /// Decides on a request for the list of tools: it goes to the upstream's client as it
    /// came, unless that client was shut down.
    pub fn list_tools<'a, C, Q>(&self, slot: &'a Option<C>, params: Q) -> (outcome: Result<
        (&'a C, Q),
        ErrorReply,
    >)
        ensures
            passes_on(self.client_name@, *slot, params, outcome),
            match *slot {
                Some(running) => outcome matches Ok(sent) && *sent.0 == running && sent.1
                    == params,
                None => outcome matches Err(e) && e.code == -32603 && e.message@ == "Client '"@
                    + self.client_name@ + "' already shut down"@,
            },
    {
        match running_client(self.client_name.as_str(), slot) {
            Ok(client) => Ok((client, params)),
            Err(error) => Err(error),
        }
    }

    /// Decides on a call of a tool: it goes to the upstream's client as it came, unless
    /// that client was shut down.
    pub fn call_tool<'a, C, A>(
        &self,
        slot: &'a Option<C>,
        params: CallToolRequest<A>,
    ) -> (outcome: Result<(&'a C, CallToolRequest<A>), ErrorReply>)
        ensures
            passes_on(self.client_name@, *slot, params, outcome),
            match *slot {
                Some(running) => outcome matches Ok(sent) && *sent.0 == running && sent.1
                    == params,
                None => outcome matches Err(e) && e.code == -32603 && e.message@ == "Client '"@
                    + self.client_name@ + "' already shut down"@,
            },
    {
        match running_client(self.client_name.as_str(), slot) {
            Ok(client) => Ok((client, params)),
            Err(error) => Err(error),
        }
    }
}

/// The answer to a request that came for one upstream: `running` says whether the client of
/// the upstream is still there, and `upstream` is what that client would answer.
pub open spec fn proxied_answer<R>(
    client_name: Seq<char>,
    running: bool,
    upstream: Result<R, Seq<char>>,
) -> Result<R, ErrorView> {
    if running {
        reply_to(upstream)
    } else {
        Err(internal(shut_down_message(client_name)))
    }
}

/// A request for one upstream is answered as [`proxied_answer`] says, from what the two
/// steps decide: whether it goes out, and what the upstream's outcome becomes. Where it goes
/// out, it goes to that upstream's client as it came.
pub proof fn law_proxied_requests_are_answered<C, Q, R>(
    client_name: Seq<char>,
    slot: Option<C>,
    request: Q,
    passed: Result<(&C, Q), ErrorReply>,
    upstream: Result<R, String>,
    reply: Result<R, ErrorReply>,
)
    requires
        passes_on(client_name, slot, request, passed),
        match passed {
            Ok(_) => reply_view(reply) == reply_to(outcome_text(upstream)),
            Err(error) => reply == Err::<R, ErrorReply>(error),
        },
    ensures
        reply_view(reply) == proxied_answer(client_name, slot is Some, outcome_text(upstream)),
        slot matches Some(client) ==> passed is Ok && *passed->Ok_0.0 == client
            && passed->Ok_0.1 == request,
{
}

/// A request goes out exactly where the client is there, through that client and as it came.
/// Else it is answered with an error that names the client that is gone.
pub proof fn law_requests_go_out_as_they_came<C, Q>(
    client_name: Seq<char>,
    slot: Option<C>,
    request: Q,
    outcome: Result<(&C, Q), ErrorReply>,
)
    requires
        passes_on(client_name, slot, request, outcome),
    ensures
        outcome is Ok <==> slot is Some,
        outcome matches Ok(sent) ==> slot == Some(*sent.0) && sent.1 == request,
        outcome matches Err(e) ==> e.code == -32603 && e.message@ == "Client '"@ + client_name
            + "' already shut down"@,
{
}

/// The answer to a request for one upstream is the upstream's own: its result as it is, and
/// its error with just the error's text. Where the client is gone, the answer says so.
pub proof fn law_proxied_answers_are_the_upstreams<R>(
    client_name: Seq<char>,
    running: bool,
    upstream: Result<R, Seq<char>>,
)
    ensures
        ({
            let answer = proxied_answer(client_name, running, upstream);
            if !running {
                answer matches Err(e) && e.code == -32603 && e.message == "Client '"@ + client_name
                    + "' already shut down"@
            } else {
                match upstream {
                    Ok(result) => answer matches Ok(r) && r == result,
                    Err(text) => answer matches Err(e) && e.code == -32603 && e.message == text,
                }
            }
        }),
{
}

} // verus!
