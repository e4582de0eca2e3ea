//! Error replies to MCP requests, and what an upstream's answer becomes.

use vstd::prelude::*;

use crate::text::enclose;

verus! {

/// The JSON-RPC code of an internal error.
pub const INTERNAL_ERROR: i32 = -32603;

/// The MCP code for something that was asked for and is not there.
pub const RESOURCE_NOT_FOUND: i32 = -32002;

/// An error reply to a request: a code and a message, with no further data.
#[derive(Debug, PartialEq, Eq)]
pub struct ErrorReply {
    pub code: i32,
    pub message: String,
}

/// An [`ErrorReply`] as a mathematical value.
pub struct ErrorView {
    pub code: int,
    pub message: Seq<char>,
}

impl View for ErrorReply {
    type V = ErrorView;

    open spec fn view(&self) -> ErrorView {
        ErrorView { code: self.code as int, message: self.message@ }
    }
}

/// An internal error with this message.
pub open spec fn internal(message: Seq<char>) -> ErrorView {
    ErrorView { code: INTERNAL_ERROR as int, message }
}

/// A not-found error with this message.
pub open spec fn not_found(message: Seq<char>) -> ErrorView {
    ErrorView { code: RESOURCE_NOT_FOUND as int, message }
}

/// Calls `rmcp::model::ErrorData::internal_error` with no data and takes the error apart.
/// Trusted: its code is the JSON-RPC code of an internal error, and its message is the
/// one that was handed in.
#[verifier::external_body]
pub(crate) fn internal_error(message: String) -> (reply: ErrorReply)
    ensures
        reply.code == INTERNAL_ERROR,
        reply.message@ == message@,
{
    let error = rmcp::model::ErrorData::internal_error(message, None);
    ErrorReply { code: error.code.0, message: error.message.into_owned() }
}

/// Calls `rmcp::model::ErrorData::resource_not_found` with no data and takes the error
/// apart. Trusted: its code is the MCP code of a missing resource, and its message is the
/// one that was handed in.
#[verifier::external_body]
pub(crate) fn resource_not_found(message: String) -> (reply: ErrorReply)
    ensures
        reply.code == RESOURCE_NOT_FOUND,
        reply.message@ == message@,
{
    let error = rmcp::model::ErrorData::resource_not_found(message, None);
    ErrorReply { code: error.code.0, message: error.message.into_owned() }
}

/// A `tools/call` request: the tool's name and its arguments.
#[derive(Debug, PartialEq, Eq)]
pub struct CallToolRequest<A> {
    pub name: String,
    pub arguments: A,
}

/// The message for a request to an upstream whose client is gone.
pub open spec fn shut_down_message(client_name: Seq<char>) -> Seq<char> {
    "Client '"@ + client_name + "' already shut down"@
}

/// The running client in `slot`. A slot that is empty, because its client was shut down,
/// is answered with an internal error that names the client.
pub fn running_client<'a, C>(client_name: &str, slot: &'a Option<C>) -> (client: Result<
    &'a C,
    ErrorReply,
>)
    ensures
        match *slot {
            Some(running) => client matches Ok(c) && *c == running,
            None => client matches Err(e) && e@ == internal(shut_down_message(client_name@)),
        },
        slot is None ==> (client matches Err(e) && e.code == -32603 && e.message@ == "Client '"@
            + client_name@ + "' already shut down"@),
{
    match slot {
        Some(running) => Ok(running),
        None => Err(internal_error(enclose("Client '", client_name, "' already shut down"))),
    }
}

/// What an upstream's outcome becomes for the one who asked, with the error as a text.
pub open spec fn reply_to<R>(outcome: Result<R, Seq<char>>) -> Result<R, ErrorView> {
    match outcome {
        Ok(result) => Ok(result),
        Err(text) => Err(internal(text)),
    }
}

/// An outcome with the error taken as a text.
pub open spec fn outcome_text<R>(outcome: Result<R, String>) -> Result<R, Seq<char>> {
    match outcome {
        Ok(result) => Ok(result),
        Err(error) => Err(error@),
    }
}

/// A reply with the error taken as a mathematical value.
pub open spec fn reply_view<R>(reply: Result<R, ErrorReply>) -> Result<R, ErrorView> {
    match reply {
        Ok(result) => Ok(result),
        Err(error) => Err(error@),
    }
}

/// Answers with an upstream's outcome: its result as it is, its error as an internal
/// error with the error's own text.
pub fn upstream_reply<R>(outcome: Result<R, String>) -> (reply: Result<R, ErrorReply>)
    ensures
        reply_view(reply) == reply_to(outcome_text(outcome)),
        match outcome {
            Ok(result) => reply matches Ok(r) && r == result,
            Err(text) => reply matches Err(e) && e.code == -32603 && e.message@ == text@,
        },
{
    match outcome {
        Ok(result) => Ok(result),
        Err(error) => Err(internal_error(error)),
    }
}

/// An error has the code of its kind and says just the message that it was made with, and is
/// taken as a mathematical value without loss.
pub proof fn law_errors_say_their_message(reply: ErrorReply, message: Seq<char>)
    ensures
        internal(message).code == -32603,
        internal(message).message == message,
        not_found(message).code == -32002,
        not_found(message).message == message,
        reply@.code == reply.code,
        reply@.message == reply.message@,
{
}

/// The message about a client that is gone holds the client's name in whole, between fixed
/// words, so that it tells any two clients apart.
pub proof fn law_shut_down_clients_are_named(one: Seq<char>, two: Seq<char>)
    ensures
        shut_down_message(one) == "Client '"@ + one + "' already shut down"@,
        shut_down_message(one) == shut_down_message(two) ==> one == two,
{
    let front = "Client '"@;
    let back = "' already shut down"@;
    let first = shut_down_message(one);
    let second = shut_down_message(two);
    assert(first.subrange(front.len() as int, first.len() - back.len()) =~= one);
    assert(second.subrange(front.len() as int, second.len() - back.len()) =~= two);
}

/// What an upstream answered comes back: its result as it is, and its error as an internal
/// error with just the text of the error.
pub proof fn law_upstream_outcomes_come_back<R>(
    outcome: Result<R, String>,
    reply: Result<R, ErrorReply>,
)
    requires
        reply_view(reply) == reply_to(outcome_text(outcome)),
    ensures
        match outcome {
            Ok(result) => reply matches Ok(r) && r == result,
            Err(text) => reply matches Err(e) && e.code == -32603 && e.message@ == text@,
        },
{
}

} // verus!
