//! HTTP statuses, plain responses and server-sent events.

use vstd::prelude::*;

verus! {

/// The path of the stream of all upstreams together.
pub const SSE_PATH: &'static str = "/sse";

/// The path of the stream of one upstream, with the upstream's name as its last segment.
pub const UPSTREAM_SSE_PATH: &'static str = "/sse/{endpoint}";

/// The path to which the clients of all streams post their messages.
pub const MESSAGE_PATH: &'static str = "/message";

/// The statuses that the router answers with.
#[derive(Clone, Copy, Debug, PartialEq, Eq, Structural)]
pub enum Status {
    Accepted,
    NotFound,
    Gone,
    InternalServerError,
}

/// The number of a status in HTTP.
pub open spec fn status_number(status: Status) -> int {
    match status {
        Status::Accepted => 202,
        Status::NotFound => 404,
        Status::Gone => 410,
        Status::InternalServerError => 500,
    }
}

impl Status {
    /// The number of this status in HTTP.
    pub fn code(self) -> (code: u16)
        ensures
            code == status_number(self),
            code == match self {
                Status::Accepted => 202int,
                Status::NotFound => 404int,
                Status::Gone => 410int,
                Status::InternalServerError => 500int,
            },
    {
        match self {
            Status::Accepted => 202,
            Status::NotFound => 404,
            Status::Gone => 410,
            Status::InternalServerError => 500,
        }
    }
}

/// A response that holds a status and a text.
#[derive(Debug, PartialEq, Eq)]
pub struct HttpResponse {
    pub status: Status,
    pub body: String,
}

/// A response with status 500 and `message` as its body.
pub fn internal_server_response(message: &str) -> (response: HttpResponse)
    ensures
        response.status == Status::InternalServerError,
        response.body@ == message@,
{
    HttpResponse { status: Status::InternalServerError, body: message.to_owned() }
}

/// A response with status 404 and `message` as its body.
pub fn not_found_response(message: &str) -> (response: HttpResponse)
    ensures
        response.status == Status::NotFound,
        response.body@ == message@,
{
    HttpResponse { status: Status::NotFound, body: message.to_owned() }
}

/// An event of a stream of server-sent events.
#[derive(Debug, PartialEq, Eq)]
pub struct SseEvent {
    pub event: String,
    pub data: String,
}

/// An [`SseEvent`] as a mathematical value.
pub struct EventView {
    pub event: Seq<char>,
    pub data: Seq<char>,
}

impl View for SseEvent {
    type V = EventView;

    open spec fn view(&self) -> EventView {
        EventView { event: self.event@, data: self.data@ }
    }
}

/// Why an item of a stream is not an event.
#[derive(Debug, PartialEq, Eq)]
pub enum StreamError<E> {
    /// The message could not be serialised.
    InvalidData(E),
}

/// The item of a stream that carries one message, given as the text of the message or the
/// error that its serialisation met.
pub open spec fn message_item<E>(payload: Result<Seq<char>, E>) -> Result<
    EventView,
    StreamError<E>,
> {
    match payload {
        Ok(text) => Ok(EventView { event: "message"@, data: text }),
        Err(error) => Err(StreamError::InvalidData(error)),
    }
}

/// A payload with its text taken as a mathematical value.
pub open spec fn payload_text<E>(payload: Result<String, E>) -> Result<Seq<char>, E> {
    match payload {
        Ok(text) => Ok(text@),
        Err(error) => Err(error),
    }
}

/// An item of a stream with its event taken as a mathematical value.
pub open spec fn item_view<E>(item: Result<SseEvent, StreamError<E>>) -> Result<
    EventView,
    StreamError<E>,
> {
    match item {
        Ok(event) => Ok(event@),
        Err(error) => Err(error),
    }
}

/// The event that carries one message to a client. In the place of a message that could
/// not be serialised stands the error that was met.
pub fn message_event<E>(payload: Result<String, E>) -> (item: Result<SseEvent, StreamError<E>>)
    ensures
        item_view(item) == message_item(payload_text(payload)),
        match payload {
            Ok(text) => item matches Ok(event) && event.event@ == "message"@ && event.data@ == text@,
            Err(error) => item == Err::<SseEvent, StreamError<E>>(StreamError::InvalidData(error)),
        },
{
    match payload {
        Ok(data) => Ok(SseEvent { event: "message".to_owned(), data }),
        Err(error) => Err(StreamError::InvalidData(error)),
    }
}

/// The items of a stream: the event that the stream begins with, then one item for each
/// message, in the order of the messages.
pub open spec fn stream_items<E>(first: EventView, payloads: Seq<Result<Seq<char>, E>>) -> Seq<
    Result<EventView, StreamError<E>>,
> {
    seq![Ok(first)] + Seq::new(payloads.len(), |i: int| message_item(payloads[i]))
}

/// The views of the items of a stream.
pub open spec fn item_views<E>(items: Seq<Result<SseEvent, StreamError<E>>>) -> Seq<
    Result<EventView, StreamError<E>>,
> {
    Seq::new(items.len(), |i: int| item_view(items[i]))
}

/// The texts of the payloads of a stream.
pub open spec fn payload_texts<E>(payloads: Seq<Result<String, E>>) -> Seq<Result<Seq<char>, E>> {
    Seq::new(payloads.len(), |i: int| payload_text(payloads[i]))
}

/// A stream that begins with `first` and goes on with what [`message_event`] makes of each
/// message in turn holds exactly the items that [`stream_items`] gives: no message is lost,
/// doubled or moved.
pub proof fn law_streams_carry_every_message<E>(
    first: SseEvent,
    payloads: Seq<Result<String, E>>,
    items: Seq<Result<SseEvent, StreamError<E>>>,
)
    requires
        items.len() == payloads.len(),
        forall|i: int|
            0 <= i < items.len() ==> item_view(#[trigger] items[i]) == message_item(
                payload_text(payloads[i]),
            ),
    ensures
        item_views(seq![Ok(first)] + items) == stream_items(first@, payload_texts(payloads)),
{
    let stream: Seq<Result<SseEvent, StreamError<E>>> = seq![Ok(first)] + items;
    let wanted = stream_items(first@, payload_texts(payloads));
    assert forall|i: int| 0 <= i < stream.len() implies item_views(stream)[i] == wanted[i] by {
        if i > 0 {
            assert(stream[i] == items[i - 1]);
        }
    }
    assert(item_views(stream) =~= wanted);
}

/// A stream begins with its endpoint event and has no other: every later event is named
/// `message`.
pub proof fn law_only_the_first_event_is_an_endpoint<E>(
    first: EventView,
    payloads: Seq<Result<Seq<char>, E>>,
    i: int,
)
    requires
        1 <= i <= payloads.len(),
    ensures
        stream_items(first, payloads).len() == payloads.len() + 1,
        stream_items(first, payloads)[0] == Ok::<EventView, StreamError<E>>(first),
        stream_items(first, payloads)[i] matches Ok(event) ==> event.event == "message"@
            && event.event != "endpoint"@,
{
    reveal_strlit("message");
    reveal_strlit("endpoint");
    assert("message"@.len() != "endpoint"@.len());
}

/// A message arrives whole: the item made of a text is an event named `message` whose data
/// is that text, of whatever length, and the item made of an error is that error.
pub proof fn law_messages_arrive_whole<E>(
    payload: Result<String, E>,
    item: Result<SseEvent, StreamError<E>>,
)
    requires
        item_view(item) == message_item(payload_text(payload)),
    ensures
        payload matches Ok(text) ==> (item matches Ok(event) && event.event@ == "message"@
            && event.data@ == text@ && event.data@.len() == text@.len()),
        payload matches Err(error) ==> (item matches Err(StreamError::InvalidData(met)) && met
            == error),
{
}

/// Two messages arrive alike exactly where they are alike: no two texts are told as one.
pub proof fn law_different_messages_arrive_different<E>(
    one: Result<Seq<char>, E>,
    two: Result<Seq<char>, E>,
)
    requires
        one != two,
    ensures
        message_item(one) != message_item(two),
{
    match (message_item(one), message_item(two)) {
        (Ok(first), Ok(second)) => {
            assert(first.data == one->Ok_0);
            assert(second.data == two->Ok_0);
        },
        _ => {},
    }
}

/// In a stream, the item after the first that stands for a message carries exactly the text
/// of that message, or exactly the error that was met, whatever the other messages are.
pub proof fn law_each_item_is_its_message<E>(
    first: EventView,
    payloads: Seq<Result<Seq<char>, E>>,
    i: int,
)
    requires
        0 <= i < payloads.len(),
    ensures
        payloads[i] matches Ok(text) ==> (stream_items(first, payloads)[i + 1] matches Ok(event)
            && event.event == "message"@ && event.data == text),
        payloads[i] matches Err(error) ==> (stream_items(first, payloads)[i + 1] matches Err(
            StreamError::InvalidData(met),
        ) && met == error),
{
}

/// What was said of a stream so far is never taken back: with more messages it begins with
/// the items that it had before, and has one item more for each message more.
pub proof fn law_streams_only_grow<E>(
    first: EventView,
    payloads: Seq<Result<Seq<char>, E>>,
    more: Seq<Result<Seq<char>, E>>,
)
    ensures
        stream_items(first, payloads + more).len() == 1 + payloads.len() + more.len(),
        stream_items(first, payloads + more).take(1 + payloads.len() as int) == stream_items(
            first,
            payloads,
        ),
{
    assert(stream_items(first, payloads + more).take(1 + payloads.len() as int) =~= stream_items(
        first,
        payloads,
    ));
}

/// Events, items and payloads are taken as mathematical values without loss, and so are the
/// streams that they make up.
pub proof fn law_stream_views_are_faithful<E>(
    event: SseEvent,
    items: Seq<Result<SseEvent, StreamError<E>>>,
    payloads: Seq<Result<String, E>>,
    i: int,
)
    ensures
        event@.event == event.event@,
        event@.data == event.data@,
        item_views(items).len() == items.len(),
        payload_texts(payloads).len() == payloads.len(),
        0 <= i < items.len() ==> match items[i] {
            Ok(e) => item_views(items)[i] matches Ok(v) && v.event == e.event@ && v.data == e.data@,
            Err(e) => item_views(items)[i] matches Err(v) && v == e,
        },
        0 <= i < payloads.len() ==> match payloads[i] {
            Ok(text) => payload_texts(payloads)[i] matches Ok(t) && t == text@,
            Err(e) => payload_texts(payloads)[i] matches Err(v) && v == e,
        },
{
}

/// The statuses have the numbers that HTTP gives them: only the first is one of success, and
/// no two have one number.
pub proof fn law_statuses_have_their_numbers(one: Status, two: Status)
    ensures
        status_number(one) == 202 <==> one == Status::Accepted,
        status_number(one) == 404 <==> one == Status::NotFound,
        status_number(one) == 410 <==> one == Status::Gone,
        status_number(one) == 500 <==> one == Status::InternalServerError,
        200 <= status_number(one) < 300 <==> one == Status::Accepted,
        status_number(one) == status_number(two) ==> one == two,
{
}

} // verus!
