//! Shutting the upstream clients down, one after another.

use vstd::prelude::*;

verus! {

/// A client to shut down: its name and the handle that leads to it.
#[derive(Debug, PartialEq, Eq)]
pub struct Target<H> {
    pub name: String,
    pub handle: H,
}

/// A shutdown in progress.
///
/// Each client is visited once: it is taken out of its slot, and a client that was still
/// in the slot is cancelled before the next one is visited.
pub struct Shutdown<H> {
    targets: Vec<Target<H>>,
    next: usize,
    cancelling: bool,
}

/// What a shutdown asks for next.
#[derive(Debug, PartialEq, Eq)]
pub enum ShutdownAction<'a, H> {
    /// Go to the slot behind this handle and hand it to [`Shutdown::visit`].
    Visit { name: &'a String, handle: &'a H },
    /// Cancel the client that was taken, then report with [`Shutdown::cancel_finished`].
    Cancel { name: &'a String },
    /// Nothing is left to do.
    Finished,
}

/// A [`Shutdown`] as a mathematical value: the clients by name, how many are done with,
/// and whether the next one has been taken and is being cancelled.
pub struct ShutdownView {
    pub names: Seq<Seq<char>>,
    pub next: int,
    pub cancelling: bool,
}

/// What the environment reports to a shutdown.
pub enum ShutdownEvent {
    /// The slot was emptied; the flag says whether it held a client.
    Visited(bool),
    /// The cancellation came to its end, in success or in failure.
    Cancelled,
}

impl ShutdownView {
    /// The shutdown of these clients, before its first step.
    pub open spec fn start(names: Seq<Seq<char>>) -> ShutdownView {
        ShutdownView { names, next: 0, cancelling: false }
    }

    /// Whether the next step is a visit.
    pub open spec fn visiting(self) -> bool {
        !self.cancelling && self.next < self.names.len()
    }

    /// Whether nothing is left to do.
    pub open spec fn finished(self) -> bool {
        !self.cancelling && self.next >= self.names.len()
    }

    /// The state after an event. An event that is not waited for changes nothing.
    pub open spec fn after(self, event: ShutdownEvent) -> ShutdownView {
        match event {
            ShutdownEvent::Visited(held) => if !self.visiting() {
                self
            } else if held {
                ShutdownView { cancelling: true, ..self }
            } else {
                ShutdownView { next: self.next + 1, ..self }
            },
            ShutdownEvent::Cancelled => if !self.cancelling {
                self
            } else {
                ShutdownView { next: self.next + 1, cancelling: false, ..self }
            },
        }
    }
}

/// What a whole shutdown does to the clients that run: which ones run afterwards, and
/// which ones were cancelled, in order.
pub open spec fn sweep(state: ShutdownView, running: Set<Seq<char>>) -> (
    Set<Seq<char>>,
    Seq<Seq<char>>,
)
    decreases
            2 * (state.names.len() - state.next) - if state.cancelling {
                1int
            } else {
                0int
            },
    when 0 <= state.next <= state.names.len() && (state.cancelling ==> state.next
        < state.names.len())
{
    if state.finished() {
        (running, Seq::empty())
    } else {
        let name = state.names[state.next];
        if state.visiting() {
            sweep(
                state.after(ShutdownEvent::Visited(running.contains(name))),
                running.remove(name),
            )
        } else {
            let (left, cancelled) = sweep(state.after(ShutdownEvent::Cancelled), running);
            (left, seq![name] + cancelled)
        }
    }
}

/// The sweep from client `next` on deals with exactly the clients from there on.
proof fn lemma_sweep(names: Seq<Seq<char>>, next: int, running: Set<Seq<char>>)
    requires
        0 <= next <= names.len(),
        names.no_duplicates(),
    ensures
        ({
            let (left, cancelled) = sweep(
                ShutdownView { names, next, cancelling: false },
                running,
            );
            &&& left == running.difference(names.skip(next).to_set())
            &&& cancelled == names.skip(next).filter(|name: Seq<char>| running.contains(name))
        }),
    decreases names.len() - next,
{
    let held = |name: Seq<char>| running.contains(name);
    let rest = names.skip(next);
    if next == names.len() {
        assert(rest =~= Seq::empty());
        assert(running.difference(rest.to_set()) =~= running);
        reveal(Seq::filter);
    } else {
        let name = names[next];
        let fewer = running.remove(name);
        let tail = names.skip(next + 1);
        let still_held = |name: Seq<char>| fewer.contains(name);
        lemma_sweep(names, next + 1, fewer);
        assert(rest =~= seq![name] + tail);
        assert(running.difference(rest.to_set()) =~= fewer.difference(tail.to_set())) by {
            assert forall|k: Seq<char>| rest.contains(k) <==> k == name || tail.contains(k) by {
                if tail.contains(k) {
                    let j = tail.index_of(k);
                    assert(rest[j + 1] == k);
                }
                assert(rest[0] == name);
                if rest.contains(k) && k != name {
                    let j = rest.index_of(k);
                    assert(tail[j - 1] == k);
                }
            }
        }
        assert forall|i: int| 0 <= i < tail.len() implies held(#[trigger] tail[i]) == still_held(
            tail[i],
        ) by {
            assert(tail[i] == names[next + 1 + i]);
        }
        lemma_filter_same(tail, held, still_held);
        lemma_filter_head(name, tail, held);
        let state = ShutdownView { names, next, cancelling: false };
        let moved = state.after(ShutdownEvent::Visited(running.contains(name)));
        if running.contains(name) {
            assert(moved.after(ShutdownEvent::Cancelled) == ShutdownView {
                names,
                next: next + 1,
                cancelling: false,
            });
            reveal_with_fuel(sweep, 3);
        }
    }
}

/// Filters that agree on every item of a sequence keep the same items.
proof fn lemma_filter_same<A>(items: Seq<A>, f: spec_fn(A) -> bool, g: spec_fn(A) -> bool)
    requires
        forall|i: int| 0 <= i < items.len() ==> f(#[trigger] items[i]) == g(items[i]),
    ensures
        items.filter(f) == items.filter(g),
    decreases items.len(),
{
    reveal(Seq::filter);
    if items.len() > 0 {
        let shorter = items.drop_last();
        assert forall|i: int| 0 <= i < shorter.len() implies f(#[trigger] shorter[i]) == g(
            shorter[i],
        ) by {
            assert(shorter[i] == items[i]);
        }
        lemma_filter_same(shorter, f, g);
        assert(f(items[items.len() - 1]) == g(items[items.len() - 1]));
    }
}

/// A filter looks at the first item and then at the rest.
proof fn lemma_filter_head<A>(head: A, tail: Seq<A>, f: spec_fn(A) -> bool)
    ensures
        (seq![head] + tail).filter(f) == if f(head) {
            seq![head] + tail.filter(f)
        } else {
            tail.filter(f)
        },
    decreases tail.len(),
{
    reveal_with_fuel(Seq::filter, 2);
    let all = seq![head] + tail;
    if tail.len() == 0 {
        assert(all.drop_last() =~= Seq::empty());
        assert(all.filter(f) =~= if f(head) {
            seq![head] + tail.filter(f)
        } else {
            tail.filter(f)
        });
    } else {
        lemma_filter_head(head, tail.drop_last(), f);
        assert(all.drop_last() =~= seq![head] + tail.drop_last());
        assert(all.last() == tail.last());
        if f(head) && f(tail.last()) {
            assert((seq![head] + tail.drop_last().filter(f)).push(tail.last()) =~= seq![head]
                + tail.drop_last().filter(f).push(tail.last()));
        }
    }
}

/// A shutdown leaves none of its clients running and does not touch any other. It
/// cancels, once each and in order, those clients that were still running, whatever comes
/// of each cancellation.
pub proof fn law_shutdown_stops_every_client(names: Seq<Seq<char>>, running: Set<Seq<char>>)
    requires
        names.no_duplicates(),
    ensures
        sweep(ShutdownView::start(names), running).0 == running.difference(names.to_set()),
        sweep(ShutdownView::start(names), running).1 == names.filter(
            |name: Seq<char>| running.contains(name),
        ),
{
    lemma_sweep(names, 0, running);
    assert(names.skip(0) =~= names);
}

/// A second shutdown finds nothing to cancel and changes nothing.
pub proof fn law_second_shutdown_does_nothing(names: Seq<Seq<char>>, running: Set<Seq<char>>)
    requires
        names.no_duplicates(),
    ensures
        ({
            let left = sweep(ShutdownView::start(names), running).0;
            sweep(ShutdownView::start(names), left) == (left, Seq::<Seq<char>>::empty())
        }),
{
    let left = sweep(ShutdownView::start(names), running).0;
    law_shutdown_stops_every_client(names, running);
    law_shutdown_stops_every_client(names, left);
    let held = |name: Seq<char>| left.contains(name);
    let none = |name: Seq<char>| false;
    assert forall|i: int| 0 <= i < names.len() implies held(#[trigger] names[i]) == none(
        names[i],
    ) by {
        assert(names.to_set().contains(names[i]));
    }
    lemma_filter_same(names, held, none);
    lemma_filter_none(names);
    assert(left.difference(names.to_set()) =~= left);
}

/// A filter that keeps nothing leaves nothing.
proof fn lemma_filter_none<A>(items: Seq<A>)
    ensures
        items.filter(|item: A| false) == Seq::<A>::empty(),
    decreases items.len(),
{
    reveal(Seq::filter);
    if items.len() > 0 {
        lemma_filter_none(items.drop_last());
    }
}

impl<H> View for Shutdown<H> {
    type V = ShutdownView;

    closed spec fn view(&self) -> ShutdownView {
        ShutdownView {
            names: Seq::new(self.targets@.len(), |i: int| self.targets@[i].name@),
            next: self.next as int,
            cancelling: self.cancelling,
        }
    }
}

impl<H> Shutdown<H> {
    /// The clients that the shutdown visits, in order.
    pub closed spec fn targets(&self) -> Seq<Target<H>> {
        self.targets@
    }

    /// The next client is one of the targets, or all are done with.
    #[verifier::type_invariant]
    spec fn inv(self) -> bool {
        &&& self.next <= self.targets.len()
        &&& self.cancelling ==> self.next < self.targets.len()
    }

    /// The shutdown of these clients.
    pub fn new(targets: Vec<Target<H>>) -> (shutdown: Self)
        ensures
            shutdown.targets() == targets@,
            shutdown@ == ShutdownView::start(
                Seq::new(targets@.len(), |i: int| targets@[i].name@),
            ),
    {
        Shutdown { targets, next: 0, cancelling: false }
    }

    /// What to do next.
    pub fn pending(&self) -> (action: ShutdownAction<'_, H>)
        ensures
            match action {
                ShutdownAction::Visit { name, handle } => {
                    &&& self@.visiting()
                    &&& name@ == self@.names[self@.next]
                    &&& *handle == self.targets()[self@.next].handle
                },
                ShutdownAction::Cancel { name } => {
                    &&& self@.cancelling
                    &&& name@ == self@.names[self@.next]
                },
                ShutdownAction::Finished => self@.finished(),
            },
            action is Cancel <==> self@.cancelling,
            action is Finished <==> !self@.cancelling && self@.next == self@.names.len(),
            0 <= self@.next <= self@.names.len(),
            self@.names.len() == self.targets().len(),
            action matches ShutdownAction::Visit { name, handle } ==> {
                &&& *name == self.targets()[self@.next].name
                &&& *handle == self.targets()[self@.next].handle
            },
            action matches ShutdownAction::Cancel { name } ==> *name
                == self.targets()[self@.next].name,
    {
        proof {
            use_type_invariant(self);
        }
        if self.cancelling {
            ShutdownAction::Cancel { name: &self.targets[self.next].name }
        } else if self.next < self.targets.len() {
            let target = &self.targets[self.next];
            ShutdownAction::Visit { name: &target.name, handle: &target.handle }
        } else {
            ShutdownAction::Finished
        }
    }

    /// Empties the slot of the client that is to be visited, and gives back the client that
    /// it held: that one is to be cancelled. Where no visit is due, the slot is left alone.
    pub fn visit<C>(&mut self, slot: &mut Option<C>) -> (client: Option<C>)
        ensures
            final(self).targets() == old(self).targets(),
            final(self)@ == old(self)@.after(ShutdownEvent::Visited(*old(slot) is Some)),
            old(self)@.visiting() ==> client == *old(slot) && *final(slot) is None,
            !old(self)@.visiting() ==> client is None && *final(slot) == *old(slot),
            !old(self)@.cancelling && old(self)@.next < old(self)@.names.len() ==> client
                == *old(slot) && *final(slot) is None,
            old(self)@.cancelling || old(self)@.next >= old(self)@.names.len() ==> client is None
                && *final(slot) == *old(slot),
    {
        proof {
            use_type_invariant(&*self);
        }
        if self.cancelling || self.next >= self.targets.len() {
            return None;
        }
        let client = slot.take();
        if client.is_some() {
            self.cancelling = true;
        } else {
            self.next = self.next + 1;
        }
        client
    }

    /// Goes on to the next client once a cancellation came to its end.
    pub fn cancel_finished(&mut self)
        ensures
            final(self).targets() == old(self).targets(),
            final(self)@ == old(self)@.after(ShutdownEvent::Cancelled),
    {
        proof {
            use_type_invariant(&*self);
        }
        if self.cancelling {
            let next: usize = self.next + 1;
            self.cancelling = false;
            self.next = next;
        }
    }
}

/// A shutdown begins with the first client, and at any time asks for just one thing: to cancel
/// the client that was taken, else to visit the next one, else, after the last, for nothing.
pub proof fn law_shutdowns_ask_for_one_thing(state: ShutdownView)
    ensures
        ShutdownView::start(state.names) == (ShutdownView {
            names: state.names,
            next: 0,
            cancelling: false,
        }),
        state.visiting() <==> !state.cancelling && state.next < state.names.len(),
        state.finished() <==> !state.cancelling && state.next >= state.names.len(),
{
}

/// A shutdown goes on client by client: a client that was taken is cancelled before the next
/// one is visited, an empty slot is passed over, and a report that is not waited for changes
/// nothing. The clients to visit stay the same.
pub proof fn law_shutdowns_go_client_by_client(state: ShutdownView, held: bool)
    ensures
        ({
            let visited = state.after(ShutdownEvent::Visited(held));
            let cancelled = state.after(ShutdownEvent::Cancelled);
            let due = !state.cancelling && state.next < state.names.len();
            &&& visited.names == state.names
            &&& cancelled.names == state.names
            &&& due && held ==> visited.cancelling && visited.next == state.next
            &&& due && !held ==> !visited.cancelling && visited.next == state.next + 1
            &&& !due ==> visited == state
            &&& state.cancelling ==> !cancelled.cancelling && cancelled.next == state.next + 1
            &&& !state.cancelling ==> cancelled == state
        }),
{
}

/// A shutdown comes to its end: each report that it waits for takes it on, so that nothing is
/// left to do after at most two reports for each client.
pub proof fn law_shutdowns_come_to_their_end(state: ShutdownView, held: bool)
    requires
        0 <= state.next <= state.names.len(),
        state.cancelling ==> state.next < state.names.len(),
    ensures
        ({
            let left = |s: ShutdownView|
                2 * (s.names.len() - s.next) - if s.cancelling {
                    1int
                } else {
                    0int
                };
            let next = if state.cancelling {
                state.after(ShutdownEvent::Cancelled)
            } else {
                state.after(ShutdownEvent::Visited(held))
            };
            &&& left(state) >= 0
            &&& left(state) == 0 <==> state.finished()
            &&& !state.finished() ==> left(next) < left(state)
        }),
{
}

} // verus!
