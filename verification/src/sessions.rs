//! The sessions of streaming clients and the messages that are posted to them.

use vstd::prelude::*;

use crate::http::{internal_server_response, HttpResponse, SseEvent, Status, MESSAGE_PATH};
use crate::names::NameTable;
use crate::session_id::{
    format_session_id, id_text, law_session_id_round_trip, law_session_ids_differ, number_of,
    random_number,
};

verus! {

/// How many messages may wait on their way to a session, and how many on their way from it.
pub const CHANNEL_CAPACITY: usize = 64;

/// The open sessions: for each of them `Tx`, which takes the messages posted to it.
pub struct RouterState<Tx> {
    txs: NameTable<Tx>,
    post_path: String,
}

/// A [`RouterState`] as a mathematical value.
#[verifier::reject_recursive_types(Tx)]
pub struct RouterView<Tx> {
    pub txs: Map<Seq<char>, Tx>,
    pub post_path: Seq<char>,
}

impl<Tx> RouterView<Tx> {
    /// The state after a session was opened.
    pub open spec fn with_session(self, session: Seq<char>, tx: Tx) -> Self {
        RouterView { txs: self.txs.insert(session, tx), ..self }
    }

    /// The state after a session was closed.
    pub open spec fn without_session(self, session: Seq<char>) -> Self {
        RouterView { txs: self.txs.remove(session), ..self }
    }

    /// Where the client of a session posts its messages.
    pub open spec fn endpoint(self, session: Seq<char>) -> Seq<char> {
        self.post_path + "?sessionId="@ + session
    }

    /// The state after the connection of a session was handed on to be served, or could
    /// not be handed on: then the session is closed.
    pub open spec fn after_assignment(self, session: Seq<char>, assigned: bool) -> Self {
        if assigned {
            self
        } else {
            self.without_session(session)
        }
    }

    /// The answer to a message posted to a session, where `delivered` says whether the
    /// session still took it.
    pub open spec fn post_answer(self, session: Seq<char>, delivered: bool) -> Result<
        Status,
        Status,
    > {
        if !self.txs.contains_key(session) {
            Err(Status::NotFound)
        } else if delivered {
            Ok(Status::Accepted)
        } else {
            Err(Status::Gone)
        }
    }
}

/// Whether `target` is where a message posted to `session` goes.
pub open spec fn is_post_target<Tx: Clone>(
    state: RouterView<Tx>,
    session: Seq<char>,
    target: Result<Tx, Status>,
) -> bool {
    if state.txs.contains_key(session) {
        target matches Ok(tx) && cloned(state.txs[session], tx)
    } else {
        target == Err::<Tx, Status>(Status::NotFound)
    }
}

/// Whether a session was opened for `tx` under a name of its own: no session had the name,
/// and nothing else changed.
pub open spec fn opens<Tx>(
    before: RouterView<Tx>,
    session: Seq<char>,
    tx: Tx,
    after: RouterView<Tx>,
) -> bool {
    &&& !before.txs.contains_key(session)
    &&& after == before.with_session(session, tx)
}

/// The number `k` steps after `start`, where 0 comes after the greatest.
pub open spec fn number_after(start: u128, k: nat) -> u128 {
    if start + k <= u128::MAX {
        (start + k) as u128
    } else {
        (start + k - u128::MAX - 1) as u128
    }
}

/// Whether the name of the number `k` steps after `start` is free, and none before it is.
pub open spec fn first_free<Tx>(state: RouterView<Tx>, start: u128, k: nat) -> bool {
    &&& !state.txs.contains_key(id_text(number_after(start, k)))
    &&& forall|j: nat|
        j < k ==> state.txs.contains_key(id_text(#[trigger] number_after(start, j)))
}

/// Whether `session` is the name that the number `drawn` leads to: the first from that of
/// `drawn` on that no open session has.
pub open spec fn names_session<Tx>(
    state: RouterView<Tx>,
    drawn: u128,
    session: Seq<char>,
) -> bool {
    exists|k: nat| #[trigger]
        first_free(state, drawn, k) && session == id_text(number_after(drawn, k))
}

/// A table cannot hold more names than it has rows: of the names from `start` on, one more
/// than there are rows, some name is free.
proof fn lemma_some_name_is_free(order: Seq<Seq<char>>, start: u128)
    requires
        order.len() <= usize::MAX,
    ensures
        exists|k: nat|
            k <= order.len() && !order.contains(id_text(#[trigger] number_after(start, k))),
{
    let names = Seq::new(order.len() + 1, |k: int| id_text(number_after(start, k as nat)));
    assert forall|i: int, j: int| 0 <= i < j < names.len() implies names[i] != names[j] by {
        law_session_ids_differ(number_after(start, i as nat), number_after(start, j as nat));
    }
    assert(names.no_duplicates());
    names.unique_seq_to_set();
    order.lemma_cardinality_of_set();
    vstd::seq_lib::seq_to_set_is_finite(order);
    if names.to_set().subset_of(order.to_set()) {
        vstd::set_lib::lemma_len_subset(names.to_set(), order.to_set());
    }
    let name = choose|name: Seq<char>|
        names.to_set().contains(name) && !order.to_set().contains(name);
    let i = names.index_of(name);
    assert(names[i] == name);
    assert(!order.contains(id_text(number_after(start, i as nat))));
}

impl<Tx> View for RouterState<Tx> {
    type V = RouterView<Tx>;

    closed spec fn view(&self) -> RouterView<Tx> {
        RouterView { txs: self.txs@, post_path: self.post_path@ }
    }
}

impl<Tx> RouterState<Tx> {
    /// The state in which no session is open.
    pub fn new() -> (state: Self)
        ensures
            state@.txs == Map::<Seq<char>, Tx>::empty(),
            state@.post_path == MESSAGE_PATH@,
    {
        RouterState { txs: NameTable::new(), post_path: MESSAGE_PATH.to_owned() }
    }

    /// Opens the session of this name. Messages posted to it go to `tx`.
    pub fn register(&mut self, session: String, tx: Tx)
        ensures
            final(self)@ == old(self)@.with_session(session@, tx),
            final(self)@.txs == old(self)@.txs.insert(session@, tx),
            final(self)@.post_path == old(self)@.post_path,
    {
        self.txs.insert(session, tx);
    }

    /// Opens a session under a name that is made of a random number and that no open session
    /// has. Which number comes is left to chance; what is made of it, [`Self::open_session_with`]
    /// says.
    pub fn open_session(&mut self, tx: Tx) -> (session: String)
        ensures
            exists|n: u128| session@ == #[trigger] id_text(n),
            exists|drawn: u128| #[trigger] names_session(old(self)@, drawn, session@),
            opens(old(self)@, session@, tx, final(self)@),
            final(self)@ == old(self)@.with_session(session@, tx),
            !old(self)@.txs.contains_key(session@),
            final(self)@.txs == old(self)@.txs.insert(session@, tx),
            final(self)@.post_path == old(self)@.post_path,
    {
        self.open_session_with(random_number(), tx)
    }

    /// Opens a session under the name that is made of the number `drawn`. Where an open session
    /// has that name, the next number whose name is free is taken in its place.
    pub fn open_session_with(&mut self, drawn: u128, tx: Tx) -> (session: String)
        ensures
            exists|n: u128| session@ == #[trigger] id_text(n),
            names_session(old(self)@, drawn, session@),
            !old(self)@.txs.contains_key(id_text(drawn)) ==> session@ == id_text(drawn),
            opens(old(self)@, session@, tx, final(self)@),
            !old(self)@.txs.contains_key(session@),
            final(self)@.txs == old(self)@.txs.insert(session@, tx),
            final(self)@.post_path == old(self)@.post_path,
    {
        let count: usize = self.txs.len();
        let mut passed: usize = 0;
        let mut number: u128 = drawn;
        let mut session = format_session_id(number);
        while self.txs.get(session.as_str()).is_some()
            invariant
                *self == *old(self),
                count == self.txs.order().len(),
                passed <= count,
                number == number_after(drawn, passed as nat),
                session@ == id_text(number),
                forall|k: nat|
                    k < passed ==> self@.txs.contains_key(
                        id_text(#[trigger] number_after(drawn, k)),
                    ),
            decreases count - passed,
        {
            proof {
                use_type_invariant(&self.txs);
                self.txs.lemma_order();
                lemma_some_name_is_free(self.txs.order(), drawn);
            }
            passed = passed + 1;
            number = if number == u128::MAX {
                0
            } else {
                number + 1
            };
            session = format_session_id(number);
        }
        proof {
            assert(number_after(drawn, 0) == drawn);
            assert(first_free(self@, drawn, passed as nat));
        }
        self.register(session.clone(), tx);
        session
    }

    /// Closes a session. A session that is not open stays so.
    pub fn close_session(&mut self, session: &str)
        ensures
            final(self)@ == old(self)@.without_session(session@),
            final(self)@.txs == old(self)@.txs.remove(session@),
            final(self)@.post_path == old(self)@.post_path,
    {
        self.txs.remove(session);
    }

    /// Decides on a new connection once it was tried to hand it on to be served. Where that
    /// went well, the stream begins with an `endpoint` event that tells the client where to
    /// post its messages. Where it did not, the session is closed and the client gets
    /// status 500.
    pub fn complete_connection(&mut self, session: &str, assigned: bool) -> (first: Result<
        SseEvent,
        HttpResponse,
    >)
        ensures
            final(self)@ == old(self)@.after_assignment(session@, assigned),
            assigned ==> (first matches Ok(event) && event.event@ == "endpoint"@ && event.data@
                == old(self)@.endpoint(session@) && event.data@ == old(self)@.post_path
                + "?sessionId="@ + session@),
            assigned ==> final(self)@ == old(self)@,
            !assigned ==> final(self)@.txs == old(self)@.txs.remove(session@)
                && final(self)@.post_path == old(self)@.post_path,
            !assigned ==> (first matches Err(response) && response.status
                == Status::InternalServerError && response.body@ == "Transport channel closed"@),
    {
        if !assigned {
            self.close_session(session);
            return Err(internal_server_response("Transport channel closed"));
        }
        let mut data: String = self.post_path.clone();
        data.append("?sessionId=");
        data.append(session);
        Ok(SseEvent { event: "endpoint".to_owned(), data })
    }
}

impl<Tx: Clone> RouterState<Tx> {
    /// Where a message posted to `session_id` goes. A session that is not open is answered
    /// with status 404.
    pub fn post_event(&self, session_id: &str) -> (target: Result<Tx, Status>)
        ensures
            is_post_target(self@, session_id@, target),
            target is Ok <==> self@.txs.contains_key(session_id@),
            target matches Ok(tx) ==> cloned(self@.txs[session_id@], tx),
            target matches Err(status) ==> status == Status::NotFound,
    {
        match self.txs.get(session_id) {
            Some(tx) => Ok(tx.clone()),
            None => Err(Status::NotFound),
        }
    }
}

/// The answer to a message whose session is known: status 202 where the session took the
/// message, and 410 where nobody takes its messages any more.
pub fn delivery_status(delivered: bool) -> (status: Result<Status, Status>)
    ensures
        status == if delivered {
            Ok::<Status, Status>(Status::Accepted)
        } else {
            Err::<Status, Status>(Status::Gone)
        },
{
    if delivered {
        Ok(Status::Accepted)
    } else {
        Err(Status::Gone)
    }
}

/// The session to close after its connection was asked to close: none while the connection
/// is still closing, and this one as soon as that came to its end, in success or in failure.
pub fn session_to_close(session: &str, close_ended: bool) -> (closed: Option<String>)
    ensures
        close_ended ==> (closed matches Some(name) && name@ == session@),
        !close_ended ==> closed is None,
{
    if close_ended {
        Some(session.to_owned())
    } else {
        None
    }
}

/// What can happen to the sessions.
pub enum SessionChange<Tx> {
    /// This session was opened.
    Opened(Seq<char>, Tx),
    /// This session was closed.
    Closed(Seq<char>),
}

impl<Tx> SessionChange<Tx> {
    /// The session that a change is about.
    pub open spec fn session(self) -> Seq<char> {
        match self {
            SessionChange::Opened(session, _) => session,
            SessionChange::Closed(session) => session,
        }
    }
}

/// The state after changes, one after another.
pub open spec fn after_changes<Tx>(
    state: RouterView<Tx>,
    changes: Seq<SessionChange<Tx>>,
) -> RouterView<Tx>
    decreases changes.len(),
{
    if changes.len() == 0 {
        state
    } else {
        let before = after_changes(state, changes.drop_last());
        match changes.last() {
            SessionChange::Opened(session, tx) => before.with_session(session, tx),
            SessionChange::Closed(session) => before.without_session(session),
        }
    }
}

/// Whatever other sessions are opened and closed meanwhile, a message posted to a session
/// goes to that session while it is open, and is not found while it is not: only changes
/// of the session itself tell. The path to post to stays the same.
pub proof fn law_sessions_do_not_meet<Tx>(
    state: RouterView<Tx>,
    session: Seq<char>,
    changes: Seq<SessionChange<Tx>>,
)
    requires
        forall|i: int| 0 <= i < changes.len() ==> (#[trigger] changes[i]).session() != session,
    ensures
        ({
            let after = after_changes(state, changes);
            &&& after.txs.contains_key(session) == state.txs.contains_key(session)
            &&& state.txs.contains_key(session) ==> after.txs[session] == state.txs[session]
            &&& after.endpoint(session) == state.endpoint(session)
        }),
    decreases changes.len(),
{
    if changes.len() > 0 {
        let fewer = changes.drop_last();
        assert forall|i: int| 0 <= i < fewer.len() implies (#[trigger] fewer[i]).session()
            != session by {
            assert(changes[i].session() != session);
        }
        law_sessions_do_not_meet(state, session, fewer);
        assert(changes[changes.len() - 1].session() != session);
    }
}

/// A message posted to a session that was opened, and not closed or opened anew since, goes
/// to where it was opened for.
pub proof fn law_open_sessions_get_their_messages<Tx>(
    state: RouterView<Tx>,
    session: Seq<char>,
    tx: Tx,
    changes: Seq<SessionChange<Tx>>,
)
    requires
        forall|i: int| 0 <= i < changes.len() ==> (#[trigger] changes[i]).session() != session,
    ensures
        ({
            let after = after_changes(state.with_session(session, tx), changes);
            &&& after.txs.contains_key(session) && after.txs[session] == tx
            &&& after.post_answer(session, true) == Ok::<Status, Status>(Status::Accepted)
        }),
{
    law_sessions_do_not_meet(state.with_session(session, tx), session, changes);
}

/// A message is answered as [`RouterView::post_answer`] says, from what the two steps
/// decide: where it goes, and whether it was delivered there.
pub proof fn law_posts_are_answered<Tx: Clone>(
    state: RouterView<Tx>,
    session: Seq<char>,
    target: Result<Tx, Status>,
    delivered: bool,
    answer: Result<Status, Status>,
)
    requires
        is_post_target(state, session, target),
        match target {
            Ok(_) => answer == if delivered {
                Ok::<Status, Status>(Status::Accepted)
            } else {
                Err::<Status, Status>(Status::Gone)
            },
            Err(status) => answer == Err::<Status, Status>(status),
        },
    ensures
        answer == state.post_answer(session, delivered),
{
}

/// A connection that could not be handed on leaves no trace: its session is not open, a
/// message posted to it is answered with status 404, and where the name was new, the state
/// is the one before the connection.
pub proof fn law_refused_connections_leave_no_session<Tx>(
    state: RouterView<Tx>,
    session: Seq<char>,
    tx: Tx,
    delivered: bool,
)
    ensures
        ({
            let after = state.with_session(session, tx).after_assignment(session, false);
            &&& after.post_answer(session, delivered) == Err::<Status, Status>(Status::NotFound)
            &&& after == state.without_session(session)
            &&& !state.txs.contains_key(session) ==> after == state
        }),
{
    let after = state.with_session(session, tx).after_assignment(session, false);
    assert(after.txs =~= state.txs.remove(session));
    if !state.txs.contains_key(session) {
        assert(after.txs =~= state.txs);
    }
}

/// After a session was closed, a message posted to it is answered with status 404. Closing
/// it again changes nothing.
pub proof fn law_closed_sessions_are_not_found<Tx>(
    state: RouterView<Tx>,
    session: Seq<char>,
    delivered: bool,
)
    ensures
        ({
            let closed = state.without_session(session);
            &&& closed.post_answer(session, delivered) == Err::<Status, Status>(Status::NotFound)
            &&& closed.without_session(session) == closed
        }),
{
    let closed = state.without_session(session);
    assert(closed.without_session(session).txs =~= closed.txs);
}

/// Every stream tells its client to post to the same path, with the session in the query,
/// whatever sessions are opened and closed and whatever the stream is served by.
pub proof fn law_streams_share_one_path<Tx>(
    state: RouterView<Tx>,
    session: Seq<char>,
    tx: Tx,
    other: Seq<char>,
)
    requires
        state.post_path == MESSAGE_PATH@,
    ensures
        state.endpoint(session) == "/message?sessionId="@ + session,
        state.with_session(other, tx).post_path == MESSAGE_PATH@,
        state.without_session(other).post_path == MESSAGE_PATH@,
{
    reveal_strlit("/message");
    reveal_strlit("?sessionId=");
    reveal_strlit("/message?sessionId=");
    assert(MESSAGE_PATH@ + "?sessionId="@ =~= "/message?sessionId="@);
}

/// Two sessions made of different numbers are told different places to post to.
pub proof fn law_endpoints_differ<Tx>(state: RouterView<Tx>, n: u128, m: u128)
    requires
        n != m,
    ensures
        state.endpoint(id_text(n)) != state.endpoint(id_text(m)),
{
    law_session_ids_differ(n, m);
    let front = state.post_path + "?sessionId="@;
    let one = state.endpoint(id_text(n));
    let two = state.endpoint(id_text(m));
    assert(one.skip(front.len() as int) =~= id_text(n));
    assert(two.skip(front.len() as int) =~= id_text(m));
}

/// Opening a session makes it open for its receiver and leaves every other session as it was.
/// Closing one leaves every other as it was. Neither changes the path to post to.
pub proof fn law_sessions_change_one_by_one<Tx>(
    state: RouterView<Tx>,
    session: Seq<char>,
    tx: Tx,
    other: Seq<char>,
)
    ensures
        ({
            let opened = state.with_session(session, tx);
            let closed = state.without_session(session);
            &&& opened.txs.contains_key(session) && opened.txs[session] == tx
            &&& !closed.txs.contains_key(session)
            &&& other != session ==> {
                &&& opened.txs.contains_key(other) == state.txs.contains_key(other)
                &&& closed.txs.contains_key(other) == state.txs.contains_key(other)
                &&& state.txs.contains_key(other) ==> opened.txs[other] == state.txs[other]
                    && closed.txs[other] == state.txs[other]
            }
            &&& opened.post_path == state.post_path
            &&& closed.post_path == state.post_path
        }),
{
}

/// A connection gets a session of its own: it was not open before, it is open for its receiver
/// after, and every session that was open before is open still, for its own receiver.
pub proof fn law_new_sessions_take_no_other_ones_place<Tx>(
    before: RouterView<Tx>,
    session: Seq<char>,
    tx: Tx,
    after: RouterView<Tx>,
    other: Seq<char>,
)
    requires
        opens(before, session, tx, after),
    ensures
        !before.txs.contains_key(session),
        after.txs.contains_key(session),
        after.txs[session] == tx,
        before.txs.contains_key(other) ==> {
            &&& other != session
            &&& after.txs.contains_key(other)
            &&& after.txs[other] == before.txs[other]
            &&& before.endpoint(other) != after.endpoint(session)
        },
        after.txs.contains_key(other) ==> before.txs.contains_key(other) || other == session,
        after.post_path == before.post_path,
{
    if before.txs.contains_key(other) {
        let front = before.post_path + "?sessionId="@;
        assert(before.endpoint(other).skip(front.len() as int) =~= other);
        assert(after.endpoint(session).skip(front.len() as int) =~= session);
    }
}

/// Two connections never share a session: where one was opened, whatever then happened to
/// other sessions, and another was opened, the two have different names, and messages posted
/// to each go to its own receiver.
pub proof fn law_two_connections_never_share_a_session<Tx: Clone>(
    start: RouterView<Tx>,
    one: Seq<char>,
    first: Tx,
    opened: RouterView<Tx>,
    between: Seq<SessionChange<Tx>>,
    two: Seq<char>,
    second: Tx,
    end: RouterView<Tx>,
    to_one: Result<Tx, Status>,
    to_two: Result<Tx, Status>,
)
    requires
        opens(start, one, first, opened),
        forall|i: int| 0 <= i < between.len() ==> (#[trigger] between[i]).session() != one,
        opens(after_changes(opened, between), two, second, end),
        is_post_target(end, one, to_one),
        is_post_target(end, two, to_two),
    ensures
        one != two,
        end.endpoint(one) != end.endpoint(two),
        to_one matches Ok(tx) && cloned(first, tx),
        to_two matches Ok(tx) && cloned(second, tx),
{
    let middle = after_changes(opened, between);
    law_sessions_do_not_meet(opened, one, between);
    law_new_sessions_take_no_other_ones_place(middle, two, second, end, one);
    assert(end.post_path == middle.post_path);
    assert(end.endpoint(one) == middle.endpoint(one));
}

/// A message posted to a session goes to the receiver of that very session, whatever other
/// sessions are open, and to none where the session is not open.
pub proof fn law_messages_go_to_their_own_session<Tx: Clone>(
    state: RouterView<Tx>,
    session: Seq<char>,
    target: Result<Tx, Status>,
)
    requires
        is_post_target(state, session, target),
    ensures
        target is Ok <==> state.txs.contains_key(session),
        target matches Ok(tx) ==> cloned(state.txs[session], tx),
        target matches Err(status) ==> status == Status::NotFound,
{
}

/// The answer to a message tells what became of it: 404 exactly where the session is not open,
/// 202 exactly where it took the message, and 410 where it did not.
pub proof fn law_answers_to_messages_tell_what_happened<Tx>(
    state: RouterView<Tx>,
    session: Seq<char>,
    delivered: bool,
)
    ensures
        ({
            let answer = state.post_answer(session, delivered);
            let open = state.txs.contains_key(session);
            &&& answer == Err::<Status, Status>(Status::NotFound) <==> !open
            &&& answer == Ok::<Status, Status>(Status::Accepted) <==> open && delivered
            &&& answer == Err::<Status, Status>(Status::Gone) <==> open && !delivered
        }),
{
}

/// The place to post to holds the path, then the session in whole, so that it tells any two
/// sessions apart.
pub proof fn law_endpoints_hold_their_session<Tx>(
    state: RouterView<Tx>,
    one: Seq<char>,
    two: Seq<char>,
)
    ensures
        state.endpoint(one) == state.post_path + "?sessionId="@ + one,
        state.endpoint(one) == state.endpoint(two) ==> one == two,
{
    let front = state.post_path + "?sessionId="@;
    assert(state.endpoint(one).skip(front.len() as int) =~= one);
    assert(state.endpoint(two).skip(front.len() as int) =~= two);
}

/// Handing a connection on to be served changes no session. Where that fails, its own session
/// is closed, and every other stays as it was.
pub proof fn law_assignments_touch_one_session<Tx>(
    state: RouterView<Tx>,
    session: Seq<char>,
    assigned: bool,
    other: Seq<char>,
)
    ensures
        ({
            let after = state.after_assignment(session, assigned);
            &&& assigned ==> after == state
            &&& !assigned ==> !after.txs.contains_key(session)
            &&& other != session ==> {
                &&& after.txs.contains_key(other) == state.txs.contains_key(other)
                &&& state.txs.contains_key(other) ==> after.txs[other] == state.txs[other]
            }
            &&& after.post_path == state.post_path
        }),
{
}

/// A session is made of the very number that was drawn for it wherever no open session has
/// that name, so that the number can be read back from it. Two draws of different numbers
/// then make different sessions, and in any state the same draw makes the same one.
pub proof fn law_sessions_are_made_of_their_draw<Tx>(
    state: RouterView<Tx>,
    n: u128,
    one: Seq<char>,
    m: u128,
    two: Seq<char>,
)
    requires
        names_session(state, n, one),
        names_session(state, m, two),
    ensures
        !state.txs.contains_key(one),
        !state.txs.contains_key(id_text(n)) ==> one == id_text(n) && number_of(one) == n,
        n == m ==> one == two,
        n != m && !state.txs.contains_key(id_text(n)) && !state.txs.contains_key(id_text(m))
            ==> one != two,
{
    let i = choose|k: nat| #[trigger]
        first_free(state, n, k) && one == id_text(number_after(n, k));
    let j = choose|k: nat| #[trigger]
        first_free(state, m, k) && two == id_text(number_after(m, k));
    assert(number_after(n, 0) == n);
    assert(number_after(m, 0) == m);
    law_session_id_round_trip(n);
    if n == m {
        if i < j {
            assert(state.txs.contains_key(id_text(number_after(m, i))));
        }
        if j < i {
            assert(state.txs.contains_key(id_text(number_after(n, j))));
        }
    } else {
        law_session_ids_differ(n, m);
    }
}

} // verus!
