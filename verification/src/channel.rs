//! A channel: the client-side subscription to one topic, holding the
//! listeners that inbound frames on that topic are dispatched to.

use vstd::multiset::Multiset;
use vstd::prelude::*;

use crate::error::Error;

verus! {

#[verifier::external_type_specification]
#[verifier::external_body]
#[verifier::reject_recursive_types(T)]
pub struct ExUnboundedSender<T>(futures::channel::mpsc::UnboundedSender<T>);

/// Relies on futures' `UnboundedSender::clone`: the clone submits to the
/// same queue; nothing further is modelled of it.
pub assume_specification<T>[ <futures::channel::mpsc::UnboundedSender<T> as Clone>::clone ](
    sender: &futures::channel::mpsc::UnboundedSender<T>,
) -> futures::channel::mpsc::UnboundedSender<T>;

/// Relies on str's `==` (`PartialEq` on `str`): true exactly when the two
/// texts hold the same characters.
#[verifier::external_body]
pub(crate) fn str_eq(a: &str, b: &str) -> (r: bool)
    ensures
        r == (a@ == b@),
{
    a == b
}

/// Relies on futures' `UnboundedSender::unbounded_send`: queues one
/// outbound text frame, failing exactly when the receiving half is gone.
/// Whether a send succeeds depends on the transport's state, so nothing is
/// promised of the outcome.
#[verifier::external_body]
pub(crate) fn send_text(
    sender: &futures::channel::mpsc::UnboundedSender<String>,
    text: String,
) -> (r: bool)
{
    sender.unbounded_send(text).is_ok()
}

/// A registered callback: the single-method capability invoked with the
/// payload object of each matching inbound frame.  Capture semantics are
/// the implementor's responsibility, and so is isolating failures: an
/// implementation that can fail should contain the failure itself, since a
/// panic out of `call` would end the receive loop around it.
pub trait EventCallback {
    fn call(&self, payload: &serde_json::Map<String, serde_json::Value>);
}

/// One (event name, callback) pair awaiting dispatch.
pub struct CallBackListener<C> {
    pub callback: C,
    pub event: String,
}

impl<C> CallBackListener<C> {
    /// Pairs a callback with the event name it listens for.
    pub fn new(callback: C, event: String) -> (r: Self)
        ensures
            r.event@ == event@,
            r.callback == callback,
    {
        CallBackListener { callback, event }
    }
}

/// The mathematical state of one channel: its topic and the event names of
/// its listeners, in registration order.
pub struct ChannelView {
    pub topic: Seq<char>,
    pub events: Seq<Seq<char>>,
}

/// The event names of a listener sequence, in registration order.
pub open spec fn events_of<C>(listeners: Seq<CallBackListener<C>>) -> Seq<Seq<char>> {
    listeners.map_values(|l: CallBackListener<C>| l.event@)
}

/// True when a listener registered for `listener_event` receives a frame
/// carrying `event`: the names are equal, or the listener used the
/// wildcard name.
pub open spec fn event_matches(listener_event: Seq<char>, event: Seq<char>) -> bool {
    listener_event == event || listener_event == "*"@
}

/// The indices of the listeners that a frame carrying `event` reaches, in
/// registration order.
pub open spec fn matching_indices(events: Seq<Seq<char>>, event: Seq<char>) -> Seq<int>
    decreases events.len(),
{
    if events.len() == 0 {
        Seq::empty()
    } else if event_matches(events.last(), event) {
        matching_indices(events.drop_last(), event).push(events.len() - 1)
    } else {
        matching_indices(events.drop_last(), event)
    }
}

/// The position of the first listener registered exactly for `event`, if
/// there is one.
pub open spec fn find_index(events: Seq<Seq<char>>, event: Seq<char>) -> Option<int>
    decreases events.len(),
{
    if events.len() == 0 {
        None
    } else if events.first() == event {
        Some(0int)
    } else {
        match find_index(events.drop_first(), event) {
            Some(j) => Some(j + 1),
            None => None,
        }
    }
}

/// `find_index` names the first position holding `event`, and `None` means
/// no position holds it.
pub proof fn lemma_find_index_spec(events: Seq<Seq<char>>, event: Seq<char>)
    ensures
        match find_index(events, event) {
            Some(j) => 0 <= j < events.len() && events[j] == event && (forall|k: int|
                0 <= k < j ==> events[k] != event),
            None => forall|k: int| 0 <= k < events.len() ==> events[k] != event,
        },
    decreases events.len(),
{
    if events.len() > 0 && events.first() != event {
        let rest = events.drop_first();
        lemma_find_index_spec(rest, event);
        assert(forall|k: int| 1 <= k < events.len() ==> #[trigger] events[k] == rest[k - 1]);
        assert(events[0] == events.first());
    }
}

/// `matching_indices` holds exactly the positions whose event matches,
/// each exactly once, and in increasing order.
pub proof fn lemma_matching_indices_exact(events: Seq<Seq<char>>, event: Seq<char>)
    ensures
        forall|j: int| #[trigger] matching_indices(events, event).contains(j) <==> (0 <= j
            < events.len() && event_matches(events[j], event)),
        matching_indices(events, event).no_duplicates(),
    decreases events.len(),
{
    if events.len() > 0 {
        let prefix = events.drop_last();
        lemma_matching_indices_exact(prefix, event);
        let rest = matching_indices(prefix, event);
        let last = events.len() - 1;
        assert(forall|j: int| 0 <= j < prefix.len() ==> #[trigger] events[j] == prefix[j]);
        assert(events[last] == events.last());
        if event_matches(events.last(), event) {
            assert(!rest.contains(last));
            assert forall|j: int| rest.contains(j) implies #[trigger] rest.push(last).contains(
                j,
            ) by {
                let idx = choose|idx: int| 0 <= idx < rest.len() && rest[idx] == j;
                assert(rest.push(last)[idx] == j);
            }
            assert forall|j: int| #[trigger] rest.push(last).contains(j) implies rest.contains(j)
                || j == last by {
                let idx = choose|idx: int| 0 <= idx < rest.push(last).len() && rest.push(
                    last,
                )[idx] == j;
                if idx < rest.len() {
                    assert(rest[idx] == j);
                }
            }
            assert(rest.push(last).contains(last)) by {
                assert(rest.push(last)[rest.len() as int] == last);
            }
            assert(rest.push(last) =~= rest + seq![last]);
            vstd::seq_lib::lemma_no_dup_in_concat(rest, seq![last]);
        }
    }
}

/// A channel: one topic, its listeners, and the shared handle to the
/// transport's serialized outbound path.
pub struct Channel<C> {
    pub socket: futures::channel::mpsc::UnboundedSender<String>,
    pub listeners: Vec<CallBackListener<C>>,
    pub topic: String,
}

impl<C> View for Channel<C> {
    type V = ChannelView;

    open spec fn view(&self) -> ChannelView {
        ChannelView { topic: self.topic@, events: events_of(self.listeners@) }
    }
}

impl<C> Channel<C> {
    /// A fresh channel for `topic` with no listeners.  Does not contact
    /// the transport.
    pub fn new(topic: String, socket: futures::channel::mpsc::UnboundedSender<String>) -> (r:
        Self)
        ensures
            r@.topic == topic@,
            r@.events == Seq::<Seq<char>>::empty(),
            r.listeners@.len() == 0,
            r.socket == socket,
    {
        let r = Channel { socket, listeners: Vec::new(), topic };
        proof {
            assert(r@.events =~= Seq::<Seq<char>>::empty());
        }
        r
    }

    /// The encoded join handshake frame for this channel's topic.
    pub fn get_join(&self) -> (r: String)
        ensures
            r@ == crate::codec::join_frame_text(self@.topic),
    {
        crate::codec::join_frame(self.topic.as_str())
    }

    /// Encodes the join handshake for this channel's topic and submits it
    /// on the outbound path.  Until it is sent, the server is not expected
    /// to route this topic's events here.  Fails with `ConnectionError`
    /// when the transport's queue is closed; the send outcome depends on
    /// the transport, so success is not promised.
    pub fn join(&self) -> (r: Result<(), Error>)
        ensures
            r matches Err(e) ==> e == Error::ConnectionError,
    {
        let frame = crate::codec::join_frame(self.topic.as_str());
        if send_text(&self.socket, frame) {
            Ok(())
        } else {
            Err(Error::ConnectionError)
        }
    }

    /// Registers a listener: appends it to the registry, never failing;
    /// the callback will be invoked on every future matching dispatch.
    /// Hands the channel back so registrations chain.
    pub fn on(&mut self, event: String, callback: C) -> (r: &mut Self)
        ensures
            (*r)@.topic == old(self)@.topic,
            (*r)@.events == old(self)@.events.push(event@),
            (*r).listeners@ == old(self).listeners@.push(
                (CallBackListener { callback, event }),
            ),
            (*r).socket == old(self).socket,
            *final(self) == *final(r),
    {
        self.listeners.push(CallBackListener { callback, event });
        proof {
            assert(events_of(self.listeners@) =~= events_of(old(self).listeners@).push(
                self.listeners@.last().event@,
            ));
        }
        self
    }

    /// Unsubscribes: removes the first listener registered exactly for
    /// `event` (the wildcard name is a dispatch-time convention and is not
    /// expanded here).  Fails with `NotFoundError`, leaving the registry
    /// unchanged, when no listener matches.
    pub fn off(&mut self, event: &str) -> (r: Result<(), Error>)
        ensures
            match find_index(old(self)@.events, event@) {
                Some(j) => r is Ok && final(self)@.topic == old(self)@.topic
                    && final(self)@.events == old(self)@.events.remove(j)
                    && final(self).listeners@ == old(self).listeners@.remove(j)
                    && final(self).socket == old(self).socket,
                None => r == Err::<(), Error>(Error::NotFoundError) && *final(self) == *old(self),
            },
    {
        let ghost evts = old(self)@.events;
        let mut i: usize = 0;
        while i < self.listeners.len()
            invariant
                *self == *old(self),
                i <= self.listeners.len(),
                forall|k: int| 0 <= k < i ==> evts[k] != event@,
                evts == old(self)@.events,
            decreases self.listeners.len() - i,
        {
            if str_eq(self.listeners[i].event.as_str(), event) {
                proof {
                    lemma_find_index_spec(evts, event@);
                    assert(evts[i as int] == event@);
                    match find_index(evts, event@) {
                        Some(j) => {
                            if j < i as int {
                                assert(evts[j] != event@);
                            }
                            if j > i as int {
                                assert(evts[i as int] != event@);
                            }
                        },
                        None => {
                            assert(evts[i as int] != event@);
                        },
                    }
                    assert(find_index(evts, event@) == Some(i as int));
                }
                self.listeners.remove(i);
                proof {
                    assert(events_of(self.listeners@) =~= evts.remove(i as int));
                }
                return Ok(());
            }
            i += 1;
        }
        proof {
            lemma_find_index_spec(evts, event@);
            match find_index(evts, event@) {
                Some(j) => {
                    assert(evts[j] != event@);
                },
                None => {},
            }
            assert(find_index(evts, event@) is None);
        }
        Err(Error::NotFoundError)
    }

    /// Invokes, in registration order, the callback of every listener
    /// whose event name equals the inbound event or is the wildcard,
    /// handing each the payload object untouched.  Returns the indices of
    /// the invoked listeners: exactly the matching ones, each once.
    pub fn dispatch(
        &self,
        event: &str,
        payload: &serde_json::Map<String, serde_json::Value>,
    ) -> (hits: Vec<usize>) where C: EventCallback
        ensures
            hits@.map_values(|j: usize| j as int) == matching_indices(self@.events, event@),
    {
        let ghost evts = self@.events;
        let mut hits: Vec<usize> = Vec::new();
        let mut j: usize = 0;
        while j < self.listeners.len()
            invariant
                j <= self.listeners.len(),
                evts == self@.events,
                evts.len() == self.listeners@.len(),
                hits@.map_values(|h: usize| h as int) == matching_indices(
                    evts.take(j as int),
                    event@,
                ),
            decreases self.listeners.len() - j,
        {
            let listener = &self.listeners[j];
            let matched = str_eq(listener.event.as_str(), event) || str_eq(
                listener.event.as_str(),
                "*",
            );
            proof {
                assert(evts[j as int] == self.listeners@[j as int].event@);
                assert(evts.take(j + 1).drop_last() =~= evts.take(j as int));
                assert(evts.take(j + 1).last() == evts[j as int]);
            }
            if matched {
                listener.callback.call(payload);
                hits.push(j);
                proof {
                    assert(hits@.map_values(|h: usize| h as int) =~= hits@.drop_last().map_values(
                        |h: usize| h as int,
                    ).push(j as int));
                }
            }
            j += 1;
        }
        proof {
            assert(evts.take(evts.len() as int) =~= evts);
        }
        hits
    }
}

/// An unsubscribe for an event with no registered listener finds nothing:
/// together with `off`'s contract, it always yields `NotFoundError` and
/// leaves the registry unchanged.
pub proof fn lemma_off_absent(events: Seq<Seq<char>>, event: Seq<char>)
    requires
        forall|k: int| 0 <= k < events.len() ==> events[k] != event,
    ensures
        find_index(events, event) is None,
{
    lemma_find_index_spec(events, event);
    if find_index(events, event) is Some {
        let j = find_index(events, event)->Some_0;
        assert(events[j] != event);
    }
}

/// One registry operation of the application: a subscribe or an
/// unsubscribe, by event name.
pub enum RegistryOp {
    On { event: Seq<char> },
    Off { event: Seq<char> },
}

/// The ordered event names registered after a run of operations on a fresh
/// channel, as `on` and `off` maintain them: `On` appends, `Off` removes
/// the first matching name and changes nothing when none matches.
pub open spec fn registry_after(ops: Seq<RegistryOp>) -> Seq<Seq<char>>
    decreases ops.len(),
{
    if ops.len() == 0 {
        Seq::empty()
    } else {
        let before = registry_after(ops.drop_last());
        match ops.last() {
            RegistryOp::On { event } => before.push(event),
            RegistryOp::Off { event } => match find_index(before, event) {
                Some(j) => before.remove(j),
                None => before,
            },
        }
    }
}

/// The same run viewed as a multiset: each `On` adds its event, each `Off`
/// takes one occurrence away when one is there.
pub open spec fn registry_multiset(ops: Seq<RegistryOp>) -> Multiset<Seq<char>>
    decreases ops.len(),
{
    if ops.len() == 0 {
        Multiset::<Seq<char>>::empty()
    } else {
        let before = registry_multiset(ops.drop_last());
        match ops.last() {
            RegistryOp::On { event } => before.insert(event),
            RegistryOp::Off { event } => if before.count(event) > 0 {
                before.remove(event)
            } else {
                before
            },
        }
    }
}

/// For every sequence of `on`/`off` calls on one channel, the registered
/// listeners are the multiset of the `on`ed events minus one occurrence
/// per `off` that found a match; which occurrence an `off` removes (the
/// first) does not show in the multiset, and an `off` that found none
/// leaves the registry as it was.
pub proof fn lemma_registry_model(ops: Seq<RegistryOp>)
    ensures
        registry_after(ops).to_multiset() == registry_multiset(ops),
    decreases ops.len(),
{
    broadcast use vstd::seq_lib::group_to_multiset_ensures;

    if ops.len() > 0 {
        lemma_registry_model(ops.drop_last());
        let before = registry_after(ops.drop_last());
        match ops.last() {
            RegistryOp::On { event } => {
                assert(before.push(event).to_multiset() =~= before.to_multiset().insert(event));
            },
            RegistryOp::Off { event } => {
                lemma_find_index_spec(before, event);
                match find_index(before, event) {
                    Some(j) => {
                        assert(before.remove(j).to_multiset() =~= before.to_multiset().remove(
                            before[j],
                        ));
                        assert(before.contains(event));
                        assert(before.to_multiset().count(event) > 0);
                    },
                    None => {
                        assert(!before.contains(event)) by {
                            if before.contains(event) {
                                let k = choose|k: int|
                                    0 <= k < before.len() && before[k] == event;
                                assert(before[k] != event);
                            }
                        }
                        assert(before.to_multiset().count(event) == 0);
                    },
                }
            },
        }
    }
}

/// Registering a listener and then unsubscribing its event leaves the
/// multiset of registered listeners as it was: each `off` cancels exactly
/// one matching `on`, so any run of `on`/`off` calls leaves the registry
/// holding the `on`ed events minus one per successful `off`.
pub proof fn lemma_on_then_off_multiset(events: Seq<Seq<char>>, event: Seq<char>)
    ensures
        find_index(events.push(event), event) is Some,
        ({
            let after = events.push(event);
            let j = find_index(after, event)->Some_0;
            after.remove(j).to_multiset() =~= events.to_multiset()
        }),
{
    let after = events.push(event);
    lemma_find_index_spec(after, event);
    assert(after[events.len() as int] == event);
    assert(after.contains(event));
    if find_index(after, event) is None {
        assert(after[events.len() as int] != event);
    }
    let j = find_index(after, event)->Some_0;
    assert(after[j] == event);
    broadcast use vstd::seq_lib::group_to_multiset_ensures;

    assert(after.to_multiset() =~= events.to_multiset().insert(event));
    assert(after.remove(j).to_multiset() =~= after.to_multiset().remove(after[j]));
    assert(events.to_multiset().insert(event).remove(event) =~= events.to_multiset());
}

} // verus!
