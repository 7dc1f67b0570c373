//! The subscriber registry: the filters and queues of all subscribers, and
//! the dispatch of inbound frames to them.
//!
//! A subscriber is known by a ticket that the registry issues. Tickets are
//! numbered from 0 and never issued twice, so that a ticket whose
//! subscription has ended reaches no other subscriber's queue. The registry
//! is bounded: it holds no more subscriptions at a time than it was made
//! for.

use crate::frame::CanFrame;
use crate::identifier::{Filter, FrameID};
use crate::subscriber::{first_with, kept, offered, takes, SubscriberHandle, Subscription};
use vstd::prelude::*;

verus! {

/// Whether a subscription with `ticket` is registered.
pub open spec fn registered(subscriptions: Seq<Subscription>, ticket: u64) -> bool {
    exists|i: int| 0 <= i < subscriptions.len() && (#[trigger] subscriptions[i]).ticket == ticket
}

/// The position of the subscription with `ticket`, where it is registered.
pub open spec fn place(subscriptions: Seq<Subscription>, ticket: u64) -> int {
    choose|i: int| 0 <= i < subscriptions.len() && (#[trigger] subscriptions[i]).ticket == ticket
}

/// The queue of the subscriber with `ticket`, oldest frame first; empty
/// where no such subscription is registered.
pub open spec fn queue_of(subscriptions: Seq<Subscription>, ticket: u64) -> Seq<CanFrame> {
    if registered(subscriptions, ticket) {
        subscriptions[place(subscriptions, ticket)].frames
    } else {
        Seq::<CanFrame>::empty()
    }
}

/// The subscriptions with the queue of `ticket` replaced by `frames`;
/// unchanged where no such subscription is registered.
pub open spec fn with_queue(
    subscriptions: Seq<Subscription>,
    ticket: u64,
    frames: Seq<CanFrame>,
) -> Seq<Subscription> {
    if registered(subscriptions, ticket) {
        let at = place(subscriptions, ticket);
        subscriptions.update(at, Subscription { frames, ..subscriptions[at] })
    } else {
        subscriptions
    }
}

/// The subscriptions without the one of `ticket`.
pub open spec fn without(subscriptions: Seq<Subscription>, ticket: u64) -> Seq<Subscription> {
    if registered(subscriptions, ticket) {
        subscriptions.remove(place(subscriptions, ticket))
    } else {
        subscriptions
    }
}

/// No ticket occurs twice.
pub open spec fn distinct_tickets(subscriptions: Seq<Subscription>) -> bool {
    forall|i: int, j: int|
        0 <= i < j < subscriptions.len() ==> (#[trigger] subscriptions[i]).ticket != (
        #[trigger] subscriptions[j]).ticket
}

/// The invariant of the registry's contents: no ticket occurs twice, every
/// ticket was issued, and every queue has the registry's limit and keeps
/// to it.
pub open spec fn orderly(subscriptions: Seq<Subscription>, issued: u64, limit: usize) -> bool {
    &&& distinct_tickets(subscriptions)
    &&& forall|i: int|
        0 <= i < subscriptions.len() ==> {
            &&& (#[trigger] subscriptions[i]).ticket < issued
            &&& subscriptions[i].limit == limit
            &&& subscriptions[i].frames.len() <= limit
        }
}

/// The subscriptions after `frame` was dispatched: it was offered to each.
pub open spec fn dispatched(
    subscriptions: Seq<Subscription>,
    frame: CanFrame,
) -> Seq<Subscription> {
    Seq::new(subscriptions.len(), |i: int| offered(subscriptions[i], frame))
}

/// The number of subscribers that `frame` is delivered to.
pub open spec fn deliveries(subscriptions: Seq<Subscription>, frame: CanFrame) -> nat
    decreases subscriptions.len(),
{
    if subscriptions.len() == 0 {
        0
    } else {
        deliveries(subscriptions.drop_last(), frame) + if takes(subscriptions.last(), frame) {
            1nat
        } else {
            0nat
        }
    }
}

/// With distinct tickets, a ticket stands at one position only.
pub proof fn lemma_place(subscriptions: Seq<Subscription>, i: int)
    requires
        distinct_tickets(subscriptions),
        0 <= i < subscriptions.len(),
    ensures
        registered(subscriptions, subscriptions[i].ticket),
        place(subscriptions, subscriptions[i].ticket) == i,
        queue_of(subscriptions, subscriptions[i].ticket) == subscriptions[i].frames,
{
    let ticket = subscriptions[i].ticket;
    let at = place(subscriptions, ticket);
    assert(subscriptions[at].ticket == ticket);
    if at < i {
        assert(subscriptions[at].ticket != subscriptions[i].ticket);
    } else if i < at {
        assert(subscriptions[i].ticket != subscriptions[at].ticket);
    }
}

/// The consumer's side of a subscription: the ticket that gives access to
/// the subscriber's own queue and to no other.
#[derive(Debug, PartialEq, Eq, Hash)]
pub struct Subscriber {
    ticket: u64,
}

impl View for Subscriber {
    type V = u64;

    closed spec fn view(&self) -> u64 {
        self.ticket
    }
}

impl Subscriber {
    /// The number of the ticket.
    pub fn ticket(&self) -> (ticket: u64)
        ensures
            ticket == self@,
    {
        self.ticket
    }
}

/// What a run of handles holds.
spec fn contents(handles: Seq<SubscriberHandle>) -> Seq<Subscription> {
    Seq::new(handles.len(), |i: int| handles[i]@)
}

/// The subscriber registry.
#[derive(Debug)]
pub struct Registry {
    handles: Vec<SubscriberHandle>,
    next_ticket: u64,
    queue_limit: usize,
    max_subscribers: usize,
}

impl View for Registry {
    type V = Seq<Subscription>;

    /// The subscriptions in the order in which they were made.
    closed spec fn view(&self) -> Seq<Subscription> {
        contents(self.handles@)
    }
}

impl Registry {
    /// The number of tickets issued so far, which is the number of the next
    /// ticket.
    pub closed spec fn issued(&self) -> u64 {
        self.next_ticket
    }

    /// The most frames that a queue holds.
    pub closed spec fn spec_queue_limit(&self) -> usize {
        self.queue_limit
    }

    /// The most subscriptions that the registry holds at a time.
    pub closed spec fn spec_max_subscribers(&self) -> usize {
        self.max_subscribers
    }

    /// Validity: the contents are orderly, and there are no more
    /// subscriptions than the registry was made for.
    #[verifier::type_invariant]
    pub closed spec fn inv(&self) -> bool {
        &&& orderly(self@, self.next_ticket, self.queue_limit)
        &&& self@.len() <= self.max_subscribers
    }

    /// A registry without subscribers, for up to `max_subscribers`
    /// subscriptions at a time, whose queues will hold up to `queue_limit`
    /// frames each.
    pub fn new(queue_limit: usize, max_subscribers: usize) -> (registry: Registry)
        ensures
            registry.inv(),
            registry@ == Seq::<Subscription>::empty(),
            registry.issued() == 0,
            registry.queue_limit() == queue_limit,
            registry.max_subscribers() == max_subscribers,
    {
        let registry = Registry {
            handles: Vec::new(),
            next_ticket: 0,
            queue_limit,
            max_subscribers,
        };
        assert(registry@ =~= Seq::<Subscription>::empty());
        registry
    }

    /// Moves the handles out, leaving the registry without subscribers
    /// until they are put back.
    fn take_handles(&mut self) -> (handles: Vec<SubscriberHandle>)
        ensures
            handles == old(self).handles,
            final(self).handles@.len() == 0,
            final(self).next_ticket == old(self).next_ticket,
            final(self).queue_limit == old(self).queue_limit,
            final(self).max_subscribers == old(self).max_subscribers,
    {
        let mut handles: Vec<SubscriberHandle> = Vec::new();
        assert(contents(handles@) =~= Seq::<Subscription>::empty());
        core::mem::swap(&mut self.handles, &mut handles);
        assert(self@ =~= Seq::<Subscription>::empty());
        handles
    }

    /// The most frames that a queue holds.
    #[verifier::when_used_as_spec(spec_queue_limit)]
    pub fn queue_limit(&self) -> (limit: usize)
        ensures
            limit == self.spec_queue_limit(),
    {
        self.queue_limit
    }

    /// The most subscriptions that the registry holds at a time.
    #[verifier::when_used_as_spec(spec_max_subscribers)]
    pub fn max_subscribers(&self) -> (most: usize)
        ensures
            most == self.spec_max_subscribers(),
    {
        self.max_subscribers
    }

    /// The number of subscriptions.
    pub fn len(&self) -> (n: usize)
        ensures
            n == self@.len(),
            n <= self.max_subscribers(),
    {
        proof {
            use_type_invariant(self);
        }
        self.handles.len()
    }

    fn position(&self, ticket: u64) -> (found: Option<usize>)
        ensures
            orderly(self@, self.issued(), self.queue_limit()),
            self@.len() <= self.max_subscribers(),
            found.is_some() == registered(self@, ticket),
            found matches Some(i) ==> i < self.handles@.len() && i == place(self@, ticket)
                && self.handles@[i as int]@ == self@[i as int] && self@[i as int].ticket == ticket
                && self@[i as int].frames == queue_of(self@, ticket),
    {
        proof {
            use_type_invariant(self);
        }
        let mut i: usize = 0;
        while i < self.handles.len()
            invariant
                i <= self.handles@.len(),
                self@.len() == self.handles@.len(),
                orderly(self@, self.issued(), self.queue_limit()),
                self@.len() <= self.max_subscribers(),
                forall|j: int| 0 <= j < i ==> (#[trigger] self@[j]).ticket != ticket,
            decreases self.handles@.len() - i,
        {
            if self.handles[i].ticket() == ticket {
                proof {
                    assert(self@[i as int].ticket == ticket);
                    lemma_place(self@, i as int);
                }
                return Some(i);
            }
            i += 1;
        }
        None
    }

    /// Registers a subscriber with `filter` and an empty queue, and hands
    /// out its ticket. Filters of several subscribers may overlap or be the
    /// same. Fails when the registry holds as many subscriptions as it was
    /// made for, or when all tickets have been issued.
    pub fn subscribe(&mut self, filter: Filter) -> (subscriber: Result<Subscriber, ()>)
        ensures
            final(self).inv(),
            final(self).queue_limit() == old(self).queue_limit(),
            final(self).max_subscribers() == old(self).max_subscribers(),
            subscriber.is_ok() == (old(self)@.len() < old(self).max_subscribers() && old(
                self,
            ).issued() < u64::MAX),
            match subscriber {
                Ok(made) => {
                    &&& made@ == old(self).issued()
                    &&& !registered(old(self)@, made@)
                    &&& final(self).issued() == old(self).issued() + 1
                    &&& final(self)@ == old(self)@.push(
                        Subscription {
                            ticket: made@,
                            filter,
                            limit: old(self).queue_limit(),
                            frames: Seq::<CanFrame>::empty(),
                        },
                    )
                },
                Err(_) => final(self)@ == old(self)@ && final(self).issued() == old(self).issued(),
            },
    {
        proof {
            use_type_invariant(&*self);
        }
        if self.handles.len() >= self.max_subscribers || self.next_ticket == u64::MAX {
            return Err(());
        }
        let ticket = self.next_ticket;
        let ghost before = self@;
        let handle = SubscriberHandle::new(ticket, filter, self.queue_limit);
        assert(!registered(before, ticket)) by {
            if registered(before, ticket) {
                let at = place(before, ticket);
                assert(before[at].ticket < ticket);
            }
        }
        let mut handles = self.take_handles();
        handles.push(handle);
        proof {
            let after = contents(handles@);
            assert(after =~= before.push(handle@));
            assert forall|i: int, j: int| 0 <= i < j < after.len() implies (
            #[trigger] after[i]).ticket != (#[trigger] after[j]).ticket by {
                if j < before.len() {
                    assert(before[i].ticket != before[j].ticket);
                } else {
                    assert(before[i].ticket < ticket);
                }
            }
            assert forall|i: int| 0 <= i < after.len() implies (#[trigger] after[i]).ticket < ticket
                + 1 && after[i].limit == self.queue_limit && after[i].frames.len()
                <= self.queue_limit by {
                if i < before.len() {
                    assert(before[i].ticket < ticket);
                }
            }
        }
        self.next_ticket = ticket + 1;
        self.handles = handles;
        Ok(Subscriber { ticket })
    }

    /// Ends a subscription: its filter and its queue leave the registry.
    /// Says whether the subscription was registered.
    pub fn unsubscribe(&mut self, subscriber: Subscriber) -> (ended: bool)
        ensures
            final(self).inv(),
            final(self).queue_limit() == old(self).queue_limit(),
            final(self).max_subscribers() == old(self).max_subscribers(),
            final(self).issued() == old(self).issued(),
            ended == registered(old(self)@, subscriber@),
            final(self)@ == without(old(self)@, subscriber@),
            !registered(final(self)@, subscriber@),
    {
        let found = self.position(subscriber.ticket);
        match found {
            None => false,
            Some(i) => {
                let ghost before = self@;
                let mut handles = self.take_handles();
                let _ = handles.remove(i);
                proof {
                    let after = contents(handles@);
                    assert(after =~= before.remove(i as int));
                    lemma_without(before, i as int, self.next_ticket, self.queue_limit);
                }
                self.handles = handles;
                true
            },
        }
    }

    /// Dispatches an inbound frame: each subscriber whose filter matches the
    /// frame's identifier gets a copy of the frame at the end of its queue.
    /// Says to how many subscribers the frame was delivered.
    pub fn dispatch(&mut self, frame: CanFrame) -> (delivered: usize)
        ensures
            final(self).inv(),
            final(self).queue_limit() == old(self).queue_limit(),
            final(self).max_subscribers() == old(self).max_subscribers(),
            final(self).issued() == old(self).issued(),
            final(self)@ == dispatched(old(self)@, frame),
            delivered == deliveries(old(self)@, frame),
    {
        proof {
            use_type_invariant(&*self);
        }
        let ghost before = self@;
        let ghost issued = self.next_ticket;
        let ghost limit = self.queue_limit;
        let mut handles = self.take_handles();
        let n = handles.len();
        let mut delivered: usize = 0;
        let mut i: usize = 0;
        assert(before.take(0) =~= Seq::<Subscription>::empty());
        while i < n
            invariant
                n == handles@.len(),
                n == before.len(),
                i <= n,
                delivered <= i,
                delivered == deliveries(before.take(i as int), frame),
                forall|j: int|
                    0 <= j < i ==> (#[trigger] handles@[j])@ == offered(before[j], frame),
                forall|j: int| i <= j < n ==> (#[trigger] handles@[j])@ == before[j],
            decreases n - i,
        {
            let taken = handles[i].offer(frame);
            proof {
                let upto = before.take(i as int + 1);
                assert(upto.drop_last() =~= before.take(i as int));
                assert(upto.last() == before[i as int]);
            }
            if taken {
                delivered += 1;
            }
            i += 1;
        }
        proof {
            assert(before.take(n as int) =~= before);
            let after = contents(handles@);
            assert(after =~= dispatched(before, frame));
            lemma_dispatched(before, frame, issued, limit);
        }
        self.handles = handles;
        delivered
    }

    /// The number of frames that wait in the subscriber's queue.
    pub fn pending(&self, subscriber: &Subscriber) -> (n: usize)
        ensures
            n == queue_of(self@, subscriber@).len(),
            n <= self.queue_limit(),
    {
        match self.position(subscriber.ticket) {
            Some(i) => self.handles[i].len(),
            None => 0,
        }
    }

    /// Takes the oldest frame with identifier `id` out of the subscriber's
    /// queue, if there is one. No other queue changes.
    pub fn receive(&mut self, subscriber: &Subscriber, id: FrameID) -> (frame: Option<CanFrame>)
        ensures
            final(self).inv(),
            final(self).queue_limit() == old(self).queue_limit(),
            final(self).max_subscribers() == old(self).max_subscribers(),
            final(self).issued() == old(self).issued(),
            match first_with(queue_of(old(self)@, subscriber@), id) {
                Some(i) => frame == Some(queue_of(old(self)@, subscriber@)[i]) && final(self)@
                    == with_queue(
                    old(self)@,
                    subscriber@,
                    queue_of(old(self)@, subscriber@).remove(i),
                ),
                None => frame is None && final(self)@ == old(self)@,
            },
    {
        let found = self.position(subscriber.ticket);
        match found {
            None => None,
            Some(i) => {
                let ghost before = self@;
                let ghost queue = queue_of(before, subscriber@);
                let mut handles = self.take_handles();
                let frame = handles[i].receive(id);
                proof {
                    let after = contents(handles@);
                    match first_with(queue, id) {
                        Some(at) => {
                            crate::subscriber::lemma_first_with(queue, id);
                            assert(after =~= with_queue(before, subscriber@, queue.remove(at)));
                            lemma_with_queue(
                                before,
                                i as int,
                                queue.remove(at),
                                self.next_ticket,
                                self.queue_limit,
                            );
                        },
                        None => {
                            assert(after =~= before);
                        },
                    }
                }
                self.handles = handles;
                frame
            },
        }
    }

    /// Keeps in the subscriber's queue the frames for which `f` answers
    /// true and discards the others. No other queue changes.
    pub fn retain<F: Fn(&CanFrame) -> bool>(&mut self, subscriber: &Subscriber, f: F)
        requires
            forall|i: int|
                0 <= i < queue_of(old(self)@, subscriber@).len() ==> call_requires(
                    f,
                    (&#[trigger] queue_of(old(self)@, subscriber@)[i],),
                ),
        ensures
            final(self).inv(),
            final(self).queue_limit() == old(self).queue_limit(),
            final(self).max_subscribers() == old(self).max_subscribers(),
            final(self).issued() == old(self).issued(),
            exists|keep: Seq<bool>|
                {
                    &&& keep.len() == queue_of(old(self)@, subscriber@).len()
                    &&& forall|i: int|
                        0 <= i < keep.len() ==> call_ensures(
                            f,
                            (&queue_of(old(self)@, subscriber@)[i],),
                            #[trigger] keep[i],
                        )
                    &&& final(self)@ == with_queue(
                        old(self)@,
                        subscriber@,
                        #[trigger] kept(queue_of(old(self)@, subscriber@), keep),
                    )
                },
    {
        let found = self.position(subscriber.ticket);
        match found {
            None => {
                assert(kept(Seq::<CanFrame>::empty(), Seq::<bool>::empty()) =~= Seq::<
                    CanFrame,
                >::empty());
                assert(self@ == with_queue(
                    self@,
                    subscriber@,
                    kept(queue_of(self@, subscriber@), Seq::<bool>::empty()),
                ));
            },
            Some(i) => {
                let ghost before = self@;
                let ghost queue = queue_of(before, subscriber@);
                let mut handles = self.take_handles();
                assert(handles@[i as int]@.frames == queue);
                handles[i].retain(f);
                proof {
                    let after = contents(handles@);
                    let keep = choose|keep: Seq<bool>|
                        {
                            &&& keep.len() == queue.len()
                            &&& forall|j: int|
                                0 <= j < keep.len() ==> call_ensures(
                                    f,
                                    (&queue[j],),
                                    #[trigger] keep[j],
                                )
                            &&& after[i as int] == (Subscription {
                                frames: #[trigger] kept(queue, keep),
                                ..before[i as int]
                            })
                        };
                    crate::subscriber::lemma_kept_len(queue, keep);
                    assert(after =~= with_queue(before, subscriber@, kept(queue, keep)));
                    lemma_with_queue(
                        before,
                        i as int,
                        kept(queue, keep),
                        self.next_ticket,
                        self.queue_limit,
                    );
                }
                self.handles = handles;
            },
        }
    }

    /// The oldest frame in the subscriber's queue for which `predicate`
    /// answers true, if there is one. Nothing changes.
    pub fn find<F: Fn(&CanFrame) -> bool>(&self, subscriber: &Subscriber, predicate: F) -> (frame:
        Option<CanFrame>)
        requires
            forall|i: int|
                0 <= i < queue_of(self@, subscriber@).len() ==> call_requires(
                    predicate,
                    (&#[trigger] queue_of(self@, subscriber@)[i],),
                ),
        ensures
            match frame {
                Some(found) => exists|i: int|
                    {
                        &&& 0 <= i < queue_of(self@, subscriber@).len()
                        &&& found == #[trigger] queue_of(self@, subscriber@)[i]
                        &&& call_ensures(predicate, (&queue_of(self@, subscriber@)[i],), true)
                        &&& forall|j: int|
                            0 <= j < i ==> call_ensures(
                                predicate,
                                (&#[trigger] queue_of(self@, subscriber@)[j],),
                                false,
                            )
                    },
                None => forall|j: int|
                    0 <= j < queue_of(self@, subscriber@).len() ==> call_ensures(
                        predicate,
                        (&#[trigger] queue_of(self@, subscriber@)[j],),
                        false,
                    ),
            },
    {
        match self.position(subscriber.ticket) {
            None => None,
            Some(i) => {
                assert(self.handles@[i as int]@.frames == queue_of(self@, subscriber@));
                self.handles[i].find(predicate)
            },
        }
    }
}

/// Dispatch is selective. A subscriber whose filter matches the frame's
/// identifier finds a copy of the frame at the end of its queue, which has
/// grown by one frame or was full and lost its oldest; a subscriber whose
/// filter does not match keeps its queue unchanged, whatever other
/// subscribers receive.
pub proof fn lemma_dispatch_selective(subscriptions: Seq<Subscription>, frame: CanFrame, i: int)
    requires
        0 <= i < subscriptions.len(),
        subscriptions[i].limit > 0,
        subscriptions[i].frames.len() <= subscriptions[i].limit,
    ensures
        dispatched(subscriptions, frame).len() == subscriptions.len(),
        takes(subscriptions[i], frame) <==> subscriptions[i].filter.mask@ & frame.id()@
            == subscriptions[i].filter.mask@ & subscriptions[i].filter.value@,
        takes(subscriptions[i], frame) ==> {
            let before = subscriptions[i].frames;
            let after = dispatched(subscriptions, frame)[i].frames;
            &&& after.len() > 0
            &&& after.last() == frame
            &&& after.drop_last() == if before.len() < subscriptions[i].limit {
                before
            } else {
                before.drop_first()
            }
        },
        !takes(subscriptions[i], frame) ==> dispatched(subscriptions, frame)[i]
            == subscriptions[i],
{
    let sub = subscriptions[i];
    let a = frame.id()@;
    let m = sub.filter.mask@;
    let v = sub.filter.value@;
    assert((a & m == v & m) <==> (m & a == m & v)) by (bit_vector);
    if takes(sub, frame) {
        let before = sub.frames;
        let after = dispatched(subscriptions, frame)[i].frames;
        if before.len() < sub.limit {
            assert(after.drop_last() =~= before);
        } else {
            assert(after.drop_last() =~= before.drop_first());
        }
    }
}

/// Replacing a queue by one within the limit keeps the contents orderly.
pub proof fn lemma_with_queue(
    subscriptions: Seq<Subscription>,
    i: int,
    frames: Seq<CanFrame>,
    issued: u64,
    limit: usize,
)
    requires
        orderly(subscriptions, issued, limit),
        0 <= i < subscriptions.len(),
        frames.len() <= limit,
    ensures
        orderly(
            subscriptions.update(i, Subscription { frames, ..subscriptions[i] }),
            issued,
            limit,
        ),
{
    let after = subscriptions.update(i, Subscription { frames, ..subscriptions[i] });
    assert forall|a: int, b: int| 0 <= a < b < after.len() implies (#[trigger] after[a]).ticket != (
    #[trigger] after[b]).ticket by {
        assert(subscriptions[a].ticket != subscriptions[b].ticket);
    }
    assert forall|a: int| 0 <= a < after.len() implies (#[trigger] after[a]).ticket < issued
        && after[a].limit == limit && after[a].frames.len() <= limit by {
        assert(subscriptions[a].ticket < issued);
    }
}

/// Without one subscription the contents stay orderly, and its ticket is
/// registered no more.
pub proof fn lemma_without(subscriptions: Seq<Subscription>, i: int, issued: u64, limit: usize)
    requires
        orderly(subscriptions, issued, limit),
        0 <= i < subscriptions.len(),
    ensures
        orderly(subscriptions.remove(i), issued, limit),
        !registered(subscriptions.remove(i), subscriptions[i].ticket),
{
    let after = subscriptions.remove(i);
    assert forall|a: int, b: int| 0 <= a < b < after.len() implies (#[trigger] after[a]).ticket != (
    #[trigger] after[b]).ticket by {
        let x = if a < i { a } else { a + 1 };
        let y = if b < i { b } else { b + 1 };
        assert(subscriptions[x].ticket != subscriptions[y].ticket);
    }
    assert forall|a: int| 0 <= a < after.len() implies (#[trigger] after[a]).ticket < issued
        && after[a].limit == limit && after[a].frames.len() <= limit by {
        let x = if a < i { a } else { a + 1 };
        assert(subscriptions[x].ticket < issued);
    }
    if registered(after, subscriptions[i].ticket) {
        let a = place(after, subscriptions[i].ticket);
        let x = if a < i { a } else { a + 1 };
        assert(after[a] == subscriptions[x]);
        if x < i {
            assert(subscriptions[x].ticket != subscriptions[i].ticket);
        } else {
            assert(subscriptions[i].ticket != subscriptions[x].ticket);
        }
    }
}

/// Dispatch keeps the contents orderly: the subscriptions stay, and each
/// queue keeps to its limit.
pub proof fn lemma_dispatched(
    subscriptions: Seq<Subscription>,
    frame: CanFrame,
    issued: u64,
    limit: usize,
)
    requires
        orderly(subscriptions, issued, limit),
    ensures
        orderly(dispatched(subscriptions, frame), issued, limit),
{
    let after = dispatched(subscriptions, frame);
    assert forall|a: int, b: int| 0 <= a < b < after.len() implies (#[trigger] after[a]).ticket != (
    #[trigger] after[b]).ticket by {
        assert(subscriptions[a].ticket != subscriptions[b].ticket);
    }
    assert forall|a: int| 0 <= a < after.len() implies (#[trigger] after[a]).ticket < issued
        && after[a].limit == limit && after[a].frames.len() <= limit by {
        assert(subscriptions[a].ticket < issued);
    }
}

} // verus!
