use vstd::prelude::*;

use crate::error::Error;
use crate::event::Event;
use crate::registry::Registry;

verus! {

/// A command handles the events of one type and updates the aggregate.
///
/// Handling must depend on the event and the aggregate alone, so that
/// replaying stored events rebuilds the aggregate.
pub trait Command<A> {
    /// The aggregate after handling `event` on `before`, and the outcome.
    spec fn outcome(&self, event: Event, before: A) -> (A, Result<(), Error>);

    /// Handles `event`, updating `aggregate`.
    fn handle(&self, event: &Event, aggregate: &mut A) -> (r: Result<(), Error>)
        ensures
            (*final(aggregate), r) == self.outcome(*event, *old(aggregate)),
    ;
}

/// The message of the error that restoring an event of an unregistered type gives.
pub open spec fn unknown_source_message() -> Seq<char> {
    "Unknown event source."@
}

/// The abstract state of a sink: its aggregate, its commands by event type,
/// and the id of the last event it has taken.
pub struct SinkState<A, C> {
    pub aggregate: A,
    pub handlers: Map<Seq<char>, C>,
    pub last_id: u32,
}

impl<A, C: Command<A>> SinkState<A, C> {
    /// Whether a command is registered for the type of `event`.
    pub open spec fn handles(self, event: Event) -> bool {
        self.handlers.contains_key(event.spec_source())
    }

    /// Handing `event` to its command: the next state and the outcome.
    pub open spec fn dispatch(self, event: Event) -> (SinkState<A, C>, Result<(), Error>) {
        let (after, r) = self.handlers[event.spec_source()].outcome(event, self.aggregate);
        (SinkState { aggregate: after, ..self }, r)
    }

    /// Taking a new event: it gets the next id, then it is handed to its command.
    pub open spec fn add(self, event: Event) -> (SinkState<A, C>, Result<(), Error>) {
        SinkState { last_id: (self.last_id + 1) as u32, ..self }.dispatch(event)
    }

    /// Restoring the stored event `event` with id `id`: the next state, and
    /// the outcome of its command, or `None` when no command is registered for
    /// its type. A failing command stops the restore before the id is taken.
    pub open spec fn restore(self, id: u32, event: Event) -> (SinkState<A, C>, Option<Result<(), Error>>) {
        if !self.handles(event) {
            (self, None)
        } else {
            let (after, r) = self.dispatch(event);
            match r {
                Ok(()) => (SinkState { last_id: id, ..after }, Some(r)),
                Err(_) => (after, Some(r)),
            }
        }
    }
}

/// Taking the events `events` one after the other, starting from `s`.
pub open spec fn add_all<A, C: Command<A>>(s: SinkState<A, C>, events: Seq<Event>) -> SinkState<A, C>
    decreases events.len(),
{
    if events.len() == 0 {
        s
    } else {
        add_all(s.add(events[0]).0, events.drop_first())
    }
}

/// Whether taking `events` one after the other from `s` goes through: every
/// event has a command, an id is left for it, and its command succeeds.
pub open spec fn adds_succeed<A, C: Command<A>>(s: SinkState<A, C>, events: Seq<Event>) -> bool
    decreases events.len(),
{
    events.len() == 0 || {
        &&& s.handles(events[0])
        &&& s.last_id < u32::MAX
        &&& s.add(events[0]).1 == Ok::<(), Error>(())
        &&& adds_succeed(s.add(events[0]).0, events.drop_first())
    }
}

/// What taking `events` from a sink whose last id is `last_id` stores: each
/// event with the id it was given.
pub open spec fn stored_events(last_id: u32, events: Seq<Event>) -> Seq<(u32, Event)> {
    Seq::new(events.len(), |i: int| ((last_id + 1 + i) as u32, events[i]))
}

/// Restoring the stored events `stored` one after the other, starting from
/// `s` and stopping at the first one that does not go through: the state
/// reached and the outcome of the last restore.
pub open spec fn restore_all<A, C: Command<A>>(s: SinkState<A, C>, stored: Seq<(u32, Event)>) -> (
    SinkState<A, C>,
    Option<Result<(), Error>>,
)
    decreases stored.len(),
{
    if stored.len() == 0 {
        (s, Some(Ok(())))
    } else {
        let (next, outcome) = s.restore(stored[0].0, stored[0].1);
        if outcome matches Some(Ok(_)) {
            restore_all(next, stored.drop_first())
        } else {
            (next, outcome)
        }
    }
}

/// The law of event sourcing: when a sink starts with the aggregate, the
/// commands and the last id that another sink had before it took `events`,
/// restoring what that sink stored rebuilds the aggregate and the last id it
/// reached.
pub proof fn lemma_restore_rebuilds<A, C: Command<A>>(s: SinkState<A, C>, events: Seq<Event>)
    requires
        adds_succeed(s, events),
    ensures
        restore_all(s, stored_events(s.last_id, events)) == (
            add_all(s, events),
            Some(Ok::<(), Error>(())),
        ),
    decreases events.len(),
{
    let stored = stored_events(s.last_id, events);
    if events.len() > 0 {
        let e = events[0];
        let id = (s.last_id + 1) as u32;
        let (added, r) = s.add(e);
        let (restored, o) = s.restore(id, e);
        assert(stored[0] == (id, e));
        assert(restored == added);
        assert(o == Some(r));
        assert(stored.drop_first() =~= stored_events(added.last_id, events.drop_first()));
        lemma_restore_rebuilds(added, events.drop_first());
    }
}

/// When the command of a taken event fails, restoring what the sink stored
/// stops at that event, with the same error and the aggregate that the
/// failing command left; the id of the failing event is not taken again.
pub proof fn lemma_restore_stops_at_failure<A, C: Command<A>>(
    s: SinkState<A, C>,
    events: Seq<Event>,
    failing: Event,
    rest: Seq<Event>,
)
    requires
        adds_succeed(s, events),
        add_all(s, events).handles(failing),
        add_all(s, events).last_id < u32::MAX,
        add_all(s, events).add(failing).1 is Err,
    ensures
        ({
            let before = add_all(s, events);
            let (after, r) = before.add(failing);
            restore_all(s, stored_events(s.last_id, events + seq![failing] + rest)) == (
                SinkState { last_id: before.last_id, ..after },
                Some(r),
            )
        }),
    decreases events.len(),
{
    let all = events + seq![failing] + rest;
    let stored = stored_events(s.last_id, all);
    if events.len() > 0 {
        let e = events[0];
        let id = (s.last_id + 1) as u32;
        let (added, r) = s.add(e);
        assert(all[0] == e);
        assert(stored[0] == (id, e));
        assert(stored.drop_first() =~= stored_events(
            added.last_id,
            events.drop_first() + seq![failing] + rest,
        ));
        lemma_restore_stops_at_failure(added, events.drop_first(), failing, rest);
    } else {
        assert(all[0] == failing);
        assert(stored[0] == ((s.last_id + 1) as u32, failing));
    }
}

/// Whether `order` lists every position below `n` exactly once.
pub open spec fn is_order_of(order: Seq<int>, n: nat) -> bool {
    &&& order.len() == n
    &&& forall|i: int| 0 <= i < n ==> 0 <= #[trigger] order[i] < n
    &&& forall|i: int, j: int| 0 <= i < j < n ==> #[trigger] order[i] != #[trigger] order[j]
}

/// Whether `order` lists the positions of `stored` by increasing id, those of
/// equal ids in the order they are listed in `stored`.
pub open spec fn in_id_order(stored: Seq<(u32, Event)>, order: Seq<int>) -> bool {
    forall|i: int, j: int|
        #![trigger order[i], order[j]]
        0 <= i < j < order.len() ==> stored[order[i]].0 < stored[order[j]].0 || (stored[order[i]].0
            == stored[order[j]].0 && order[i] < order[j])
}

/// Whether `order` lists the position `i`.
pub open spec fn lists(order: Seq<int>, i: int) -> bool {
    exists|q: int| 0 <= q < order.len() && order[q] == i
}

/// Whether `order` lists every position below `n`.
pub open spec fn covers(order: Seq<int>, n: nat) -> bool {
    forall|i: int| 0 <= i < n ==> #[trigger] lists(order, i)
}

/// The elements of `s` in the order `order` lists their positions.
pub open spec fn arrange<T>(s: Seq<T>, order: Seq<int>) -> Seq<T> {
    Seq::new(order.len(), |i: int| s[order[i]])
}

/// Taking events that all go through leaves room for their ids.
proof fn lemma_adds_succeed_ids_fit<A, C: Command<A>>(s: SinkState<A, C>, events: Seq<Event>)
    requires
        adds_succeed(s, events),
    ensures
        s.last_id + events.len() <= u32::MAX,
    decreases events.len(),
{
    if events.len() > 0 {
        lemma_adds_succeed_ids_fit(s.add(events[0]).0, events.drop_first());
    }
}

/// A strictly increasing map of the positions below `n` into themselves is
/// the identity.
proof fn lemma_increasing_order_is_identity(f: Seq<int>, n: nat)
    requires
        f.len() == n,
        forall|i: int| 0 <= i < n ==> 0 <= #[trigger] f[i] < n,
        forall|i: int, j: int| 0 <= i < j < n ==> #[trigger] f[i] < #[trigger] f[j],
    ensures
        forall|i: int| 0 <= i < n ==> #[trigger] f[i] == i,
{
    assert forall|i: int| 0 <= i < n implies #[trigger] f[i] == i by {
        lemma_at_least_position(f, n, i);
        lemma_at_most_position(f, n, i);
    }
}

proof fn lemma_at_least_position(f: Seq<int>, n: nat, i: int)
    requires
        f.len() == n,
        0 <= i < n,
        forall|i: int| 0 <= i < n ==> 0 <= #[trigger] f[i] < n,
        forall|i: int, j: int| 0 <= i < j < n ==> #[trigger] f[i] < #[trigger] f[j],
    ensures
        f[i] >= i,
    decreases i,
{
    if i > 0 {
        lemma_at_least_position(f, n, i - 1);
        assert(f[i - 1] < f[i]);
    }
}

proof fn lemma_at_most_position(f: Seq<int>, n: nat, i: int)
    requires
        f.len() == n,
        0 <= i < n,
        forall|i: int| 0 <= i < n ==> 0 <= #[trigger] f[i] < n,
        forall|i: int, j: int| 0 <= i < j < n ==> #[trigger] f[i] < #[trigger] f[j],
    ensures
        f[i] <= i,
    decreases n - i,
{
    if i < n - 1 {
        lemma_at_most_position(f, n, i + 1);
        assert(f[i] < f[i + 1]);
    }
}

/// The law of event sourcing whatever order the storage lists the events
/// in: when the stored events of a run are listed in any order and then put
/// in id order, restoring them rebuilds the aggregate and the last id that
/// the run reached.
pub proof fn lemma_restore_in_id_order_rebuilds<A, C: Command<A>>(
    s: SinkState<A, C>,
    events: Seq<Event>,
    listing: Seq<int>,
    order: Seq<int>,
)
    requires
        adds_succeed(s, events),
        is_order_of(listing, events.len()),
        is_order_of(order, events.len()),
        in_id_order(arrange(stored_events(s.last_id, events), listing), order),
    ensures
        restore_all(s, arrange(arrange(stored_events(s.last_id, events), listing), order)) == (
            add_all(s, events),
            Some(Ok::<(), Error>(())),
        ),
{
    let n = events.len();
    let log = stored_events(s.last_id, events);
    let listed = arrange(log, listing);
    let sorted = arrange(listed, order);
    lemma_adds_succeed_ids_fit(s, events);
    let f = Seq::new(n, |i: int| listing[order[i]]);
    assert forall|i: int| 0 <= i < n implies 0 <= #[trigger] f[i] < n by {
        assert(0 <= order[i] < n);
    }
    assert forall|i: int| 0 <= i < n implies #[trigger] sorted[i] == log[f[i]] && log[f[i]].0
        == s.last_id + 1 + f[i] by {
        assert(0 <= order[i] < n);
        assert(0 <= listing[order[i]] < n);
    }
    assert forall|i: int, j: int| 0 <= i < j < n implies #[trigger] f[i] < #[trigger] f[j] by {
        assert(0 <= order[i] < n && 0 <= order[j] < n);
        assert(order[i] != order[j]);
        assert(listing[order[i]] != listing[order[j]]);
        assert(listed[order[i]] == log[f[i]]);
        assert(listed[order[j]] == log[f[j]]);
    }
    lemma_increasing_order_is_identity(f, n);
    assert(sorted =~= log);
    lemma_restore_rebuilds(s, events);
}

/// The positions of `v` as integers.
pub open spec fn positions(v: Seq<usize>) -> Seq<int> {
    v.map_values(|i: usize| i as int)
}

/// Lists the positions of `stored` by increasing id, those of equal ids in
/// the order they are listed in `stored`.
pub fn id_order(stored: &Vec<(u32, Event)>) -> (order: Vec<usize>)
    ensures
        is_order_of(positions(order@), stored@.len()),
        covers(positions(order@), stored@.len()),
        in_id_order(stored@, positions(order@)),
{
    let n = stored.len();
    let mut order: Vec<usize> = Vec::new();
    let mut k: usize = 0;
    while k < n
        invariant
            k <= n,
            n == stored@.len(),
            is_order_of(positions(order@), k as nat),
            covers(positions(order@), k as nat),
            in_id_order(stored@, positions(order@)),
        decreases n - k,
    {
        let id = stored[k].0;
        let mut p: usize = 0;
        assert forall|q: int| 0 <= q < order@.len() implies #[trigger] order@[q] < k by {
            assert(positions(order@)[q] == order@[q]);
        }
        while p < order.len() && stored[order[p]].0 <= id
            invariant
                p <= order@.len(),
                order@.len() == k,
                k < n,
                n == stored@.len(),
                is_order_of(positions(order@), k as nat),
                forall|q: int| 0 <= q < order@.len() ==> #[trigger] order@[q] < k,
                id == stored@[k as int].0,
                forall|q: int| 0 <= q < p ==> stored@[positions(order@)[q]].0 <= id,
            decreases order@.len() - p,
        {
            assert(positions(order@)[p as int] == order@[p as int]);
            p = p + 1;
        }
        let ghost before = positions(order@);
        order.insert(p, k);
        proof {
            let after = positions(order@);
            assert(after =~= before.insert(p as int, k as int));
            assert forall|i: int| 0 <= i < k + 1 implies #[trigger] lists(after, i) by {
                if i == k {
                    assert(after[p as int] == k);
                } else {
                    assert(lists(before, i));
                    let q = choose|q: int| 0 <= q < before.len() && before[q] == i;
                    if q < p {
                        assert(after[q] == i);
                    } else {
                        assert(after[q + 1] == i);
                    }
                }
            }
            assert forall|i: int| 0 <= i < k + 1 implies 0 <= #[trigger] after[i] < k + 1 by {
                if i < p {
                    assert(after[i] == before[i]);
                } else if i > p {
                    assert(after[i] == before[i - 1]);
                }
            }
            assert forall|i: int, j: int| 0 <= i < j < k + 1 implies #[trigger] after[i]
                != #[trigger] after[j] by {
                if i < p && j < p {
                    assert(before[i] != before[j]);
                } else if i < p && j > p {
                    assert(after[j] == before[j - 1]);
                    assert(before[i] != before[j - 1]);
                } else if i > p && j > p {
                    assert(before[i - 1] != before[j - 1]);
                } else if i == p {
                    assert(after[j] == before[j - 1]);
                    assert(0 <= before[j - 1] < k);
                } else {
                    assert(0 <= before[i] < k);
                }
            }
            assert forall|i: int, j: int|
                #![trigger after[i], after[j]]
                0 <= i < j < after.len() implies stored@[after[i]].0 < stored@[after[j]].0 || (
                stored@[after[i]].0 == stored@[after[j]].0 && after[i] < after[j]) by {
                if i < p && j < p {
                    assert(before[i] == after[i] && before[j] == after[j]);
                } else if i < p && j > p {
                    assert(before[i] == after[i] && before[j - 1] == after[j]);
                } else if i > p && j > p {
                    assert(before[i - 1] == after[i] && before[j - 1] == after[j]);
                } else if i == p {
                    // The entry at `p`, if any, has a larger id than `k`, and so do those after it.
                    assert(p < before.len());
                    assert(stored@[before[p as int]].0 > id);
                    if j - 1 > p {
                        assert(before[p as int] == after[p + 1]);
                        assert(before[j - 1] == after[j]);
                    }
                } else {
                    assert(before[i] == after[i]);
                    assert(0 <= before[i] < k);
                }
            }
        }
        k = k + 1;
    }
    order
}

/// Receives events and calls the registered commands to update the aggregate.
#[verifier::reject_recursive_types(C)]
pub struct Sink<A, C> {
    aggregate: A,
    handlers: Registry<C>,
    last_id: u32,
}

impl<A, C: Command<A>> View for Sink<A, C> {
    type V = SinkState<A, C>;

    closed spec fn view(&self) -> SinkState<A, C> {
        SinkState { aggregate: self.aggregate, handlers: self.handlers@, last_id: self.last_id }
    }
}

impl<A, C: Command<A>> Sink<A, C> {
    /// Creates a sink around `aggregate`, with no commands and no events yet.
    pub fn new(aggregate: A) -> (s: Sink<A, C>)
        ensures
            s@.aggregate == aggregate,
            s@.handlers == Map::<Seq<char>, C>::empty(),
            s@.last_id == 0,
    {
        Sink { aggregate, handlers: Registry::new(), last_id: 0 }
    }

    /// Registers `handler` as the command for the events of type `type_id`.
    pub fn add_handler(&mut self, type_id: String, handler: C)
        ensures
            final(self)@ == (SinkState {
                handlers: old(self)@.handlers.insert(type_id@, handler),
                ..old(self)@
            }),
    {
        self.handlers.insert(type_id, handler);
    }

    /// Whether a command is registered for the events of type `source`.
    pub fn has_handler(&self, source: &str) -> (r: bool)
        ensures
            r == self@.handlers.contains_key(source@),
    {
        self.handlers.contains(source)
    }

    /// The aggregate.
    pub fn aggregate(&self) -> (a: &A)
        ensures
            *a == self@.aggregate,
    {
        &self.aggregate
    }

    /// The id of the last event taken.
    pub fn last_id(&self) -> (id: u32)
        ensures
            id == self@.last_id,
    {
        self.last_id
    }

    /// Takes the id of a new event: the one after the last.
    pub fn next_event_id(&mut self) -> (id: u32)
        requires
            old(self)@.last_id < u32::MAX,
        ensures
            id == old(self)@.last_id + 1,
            final(self)@ == (SinkState { last_id: id, ..old(self)@ }),
    {
        self.last_id = self.last_id + 1;
        self.last_id
    }

    /// Hands `event` to the command registered for its type.
    pub fn dispatch(&mut self, event: &Event) -> (r: Result<(), Error>)
        requires
            old(self)@.handles(*event),
        ensures
            (final(self)@, r) == old(self)@.dispatch(*event),
    {
        let source = event.source();
        let handler = self.handlers.get(source.as_str()).unwrap();
        handler.handle(event, &mut self.aggregate)
    }

    /// Completes taking `event`, which got the id `id` from `next_event_id`
    /// and whose storing gave `stored`: when storing failed its error is
    /// returned and nothing changes; otherwise the event is handed to its
    /// command, which makes the whole step one taking of the event from the
    /// state before the id was given.
    pub fn complete_add(&mut self, id: u32, event: &Event, stored: Result<(), Error>) -> (r: Result<
        (),
        Error,
    >)
        requires
            old(self)@.last_id == id,
            id > 0,
            stored is Err || old(self)@.handles(*event),
        ensures
            match stored {
                Err(e) => r == Err::<(), Error>(e) && final(self)@ == old(self)@,
                Ok(_) => (final(self)@, r) == (SinkState { last_id: (id - 1) as u32, ..old(self)@ }).add(
                    *event,
                ),
            },
    {
        match stored {
            Err(e) => Err(e),
            Ok(()) => self.dispatch(event),
        }
    }

    /// Restores the stored events `stored`, listed in any order, as done when
    /// the sink starts: they are restored by increasing id (those of equal
    /// ids in the order they are listed), stopping at the first one that does
    /// not go through.
    pub fn restore_stored(&mut self, stored: &Vec<(u32, Event)>) -> (r: Result<(), Error>)
        ensures
            exists|order: Seq<int>|
                {
                    &&& is_order_of(order, stored@.len())
                    &&& in_id_order(stored@, order)
                    &&& #[trigger] restore_all(old(self)@, arrange(stored@, order)).0 == final(self)@
                    &&& match restore_all(old(self)@, arrange(stored@, order)).1 {
                        None => r matches Err(e) && e.message@ == unknown_source_message(),
                        Some(o) => r == o,
                    }
                },
            r is Ok ==> forall|i: int|
                0 <= i < stored@.len() ==> (#[trigger] stored@[i]).0 <= final(self)@.last_id,
            r is Ok && stored@.len() > 0 ==> exists|i: int|
                0 <= i < stored@.len() && (#[trigger] stored@[i]).0 == final(self)@.last_id,
    {
        let order = id_order(stored);
        let ghost sorted = arrange(stored@, positions(order@));
        let ghost start = self@;
        assert(sorted.skip(0) =~= sorted);
        let mut k: usize = 0;
        while k < order.len()
            invariant
                k <= order@.len(),
                is_order_of(positions(order@), stored@.len()),
                sorted == arrange(stored@, positions(order@)),
                sorted.len() == order@.len(),
                in_id_order(stored@, positions(order@)),
                covers(positions(order@), stored@.len()),
                start == old(self)@,
                restore_all(start, sorted) == restore_all(self@, sorted.skip(k as int)),
                k > 0 ==> self@.last_id == sorted[k - 1].0,
                forall|q: int| 0 <= q < k ==> (#[trigger] sorted[q]).0 <= self@.last_id,
            decreases order@.len() - k,
        {
            let i = order[k];
            assert(positions(order@)[k as int] == i as int);
            let ghost rest = sorted.skip(k as int);
            assert(rest[0] == stored@[i as int]);
            assert(rest.drop_first() =~= sorted.skip(k + 1));
            let r = self.restore(stored[i].0, &stored[i].1);
            match r {
                Ok(()) => {},
                Err(e) => {
                    return Err(e);
                },
            }
            proof {
                assert(self@.last_id == sorted[k as int].0);
                assert forall|q: int| 0 <= q <= k implies (#[trigger] sorted[q]).0 <= self@.last_id by {
                    if q < k {
                        let o = positions(order@);
                        assert(sorted[q] == stored@[o[q]] && sorted[k as int] == stored@[o[k as int]]);
                        assert(o[q] != o[k as int]);
                    }
                }
            }
            k = k + 1;
        }
        assert(sorted.skip(k as int) =~= Seq::<(u32, Event)>::empty());
        assert(restore_all(old(self)@, arrange(stored@, positions(order@))).0 == self@);
        proof {
            let o = positions(order@);
            assert forall|i: int| 0 <= i < stored@.len() implies (#[trigger] stored@[i]).0
                <= self@.last_id by {
                assert(lists(o, i));
                let q = choose|q: int| 0 <= q < o.len() && o[q] == i;
                assert(sorted[q] == stored@[i]);
            }
            if stored@.len() > 0 {
                assert(sorted[k - 1] == stored@[o[k - 1]]);
                assert(0 <= o[k - 1] < stored@.len());
            }
        }
        Ok(())
    }

    /// Restores a stored event with its id, as done when the sink starts.
    pub fn restore(&mut self, id: u32, event: &Event) -> (r: Result<(), Error>)
        ensures
            ({
                let (next, outcome) = old(self)@.restore(id, *event);
                &&& final(self)@ == next
                &&& match outcome {
                    None => r matches Err(e) && e.message@ == unknown_source_message(),
                    Some(o) => r == o,
                }
            }),
    {
        let source = event.source();
        match self.handlers.get(source.as_str()) {
            None => Err(Error::new("Unknown event source.")),
            Some(handler) => {
                let r = handler.handle(event, &mut self.aggregate);
                if r.is_ok() {
                    self.last_id = id;
                }
                r
            },
        }
    }
}

} // verus!
