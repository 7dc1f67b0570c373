//! One subscriber's place in the registry: its filter and its delivery
//! queue.
//!
//! The queue is bounded. When a frame comes for a queue that holds as many
//! frames as its limit allows, the oldest queued frame is discarded to make
//! room.

use crate::frame::CanFrame;
use crate::identifier::{Filter, FrameID};
use vstd::prelude::*;

verus! {

/// What the registry holds for one subscriber.
pub struct Subscription {
    /// The ticket of the subscriber.
    pub ticket: u64,
    /// The filter that selects the subscriber's frames.
    pub filter: Filter,
    /// The most frames that the queue holds.
    pub limit: usize,
    /// The queued frames, oldest first.
    pub frames: Seq<CanFrame>,
}

/// Whether `frame` is delivered to the subscriber: its filter matches the
/// frame's identifier, and its queue may hold a frame at all.
pub open spec fn takes(subscription: Subscription, frame: CanFrame) -> bool {
    subscription.filter.is_match(frame.id()) && subscription.limit > 0
}

/// The subscription after `frame` was offered to it: a frame that it takes
/// becomes the youngest of the queue, for which the oldest goes where the
/// queue is full.
pub open spec fn offered(subscription: Subscription, frame: CanFrame) -> Subscription {
    if !takes(subscription, frame) {
        subscription
    } else if subscription.frames.len() < subscription.limit {
        Subscription { frames: subscription.frames.push(frame), ..subscription }
    } else {
        Subscription { frames: subscription.frames.drop_first().push(frame), ..subscription }
    }
}

/// The position of the oldest frame with identifier `id`, where there is
/// one.
pub open spec fn first_with(frames: Seq<CanFrame>, id: FrameID) -> Option<int> {
    if exists|i: int| 0 <= i < frames.len() && (#[trigger] frames[i]).id() == id {
        Some(
            choose|i: int|
                0 <= i < frames.len() && (#[trigger] frames[i]).id() == id && forall|j: int|
                    0 <= j < i ==> (#[trigger] frames[j]).id() != id,
        )
    } else {
        None
    }
}

/// The frames of `frames` whose entry in `keep` is true, in their order.
pub open spec fn kept(frames: Seq<CanFrame>, keep: Seq<bool>) -> Seq<CanFrame>
    recommends
        keep.len() == frames.len(),
    decreases frames.len(),
{
    if frames.len() == 0 {
        Seq::<CanFrame>::empty()
    } else {
        let before = kept(frames.drop_last(), keep.drop_last());
        if keep.last() {
            before.push(frames.last())
        } else {
            before
        }
    }
}

/// Keeping some of the frames leaves no more than there were.
pub proof fn lemma_kept_len(frames: Seq<CanFrame>, keep: Seq<bool>)
    ensures
        kept(frames, keep).len() <= frames.len(),
    decreases frames.len(),
{
    if frames.len() > 0 {
        lemma_kept_len(frames.drop_last(), keep.drop_last());
    }
}

/// The oldest frame with a given identifier is found where one exists, and
/// no older frame has that identifier.
pub proof fn lemma_first_with(frames: Seq<CanFrame>, id: FrameID)
    ensures
        first_with(frames, id) matches Some(i) ==> 0 <= i < frames.len() && frames[i].id() == id
            && forall|j: int| 0 <= j < i ==> (#[trigger] frames[j]).id() != id,
        first_with(frames, id) is None ==> forall|j: int|
            0 <= j < frames.len() ==> (#[trigger] frames[j]).id() != id,
{
    if exists|i: int| 0 <= i < frames.len() && (#[trigger] frames[i]).id() == id {
        let any = choose|i: int| 0 <= i < frames.len() && (#[trigger] frames[i]).id() == id;
        lemma_least_with(frames, id, any);
    }
}

/// Below a frame with the identifier stands an oldest one.
proof fn lemma_least_with(frames: Seq<CanFrame>, id: FrameID, at: int)
    requires
        0 <= at < frames.len(),
        frames[at].id() == id,
    ensures
        exists|i: int|
            0 <= i < frames.len() && (#[trigger] frames[i]).id() == id && forall|j: int|
                0 <= j < i ==> (#[trigger] frames[j]).id() != id,
    decreases at,
{
    if exists|j: int| 0 <= j < at && (#[trigger] frames[j]).id() == id {
        let j = choose|j: int| 0 <= j < at && (#[trigger] frames[j]).id() == id;
        lemma_least_with(frames, id, j);
    } else {
        assert(forall|j: int| 0 <= j < at ==> (#[trigger] frames[j]).id() != id);
    }
}

/// The registry's side of a subscription: the filter, and the queue that
/// the subscriber consumes.
#[derive(Debug)]
pub struct SubscriberHandle {
    ticket: u64,
    filter: Filter,
    limit: usize,
    queue: Vec<CanFrame>,
}

impl View for SubscriberHandle {
    type V = Subscription;

    closed spec fn view(&self) -> Subscription {
        Subscription {
            ticket: self.ticket,
            filter: self.filter,
            limit: self.limit,
            frames: self.queue@,
        }
    }
}

impl SubscriberHandle {
    /// Validity: the queue holds no more frames than its limit allows.
    #[verifier::type_invariant]
    pub closed spec fn inv(&self) -> bool {
        self.queue@.len() <= self.limit
    }

    /// A subscription with an empty queue.
    pub fn new(ticket: u64, filter: Filter, limit: usize) -> (handle: SubscriberHandle)
        ensures
            handle.inv(),
            handle@ == (Subscription { ticket, filter, limit, frames: Seq::<CanFrame>::empty() }),
    {
        SubscriberHandle { ticket, filter, limit, queue: Vec::new() }
    }

    /// Moves the queue out, leaving an empty one until it is put back.
    fn take_queue(&mut self) -> (queue: Vec<CanFrame>)
        ensures
            queue@ == old(self)@.frames,
            queue@.len() <= old(self)@.limit,
            final(self)@ == (Subscription { frames: Seq::<CanFrame>::empty(), ..old(self)@ }),
    {
        proof {
            use_type_invariant(&*self);
        }
        let mut queue: Vec<CanFrame> = Vec::new();
        core::mem::swap(&mut self.queue, &mut queue);
        queue
    }

    /// The ticket of the subscriber.
    pub fn ticket(&self) -> (ticket: u64)
        ensures
            ticket == self@.ticket,
    {
        self.ticket
    }

    /// The filter.
    pub fn filter(&self) -> (filter: Filter)
        ensures
            filter == self@.filter,
    {
        self.filter
    }

    /// The number of queued frames.
    pub fn len(&self) -> (n: usize)
        ensures
            n == self@.frames.len(),
            n <= self@.limit,
    {
        proof {
            use_type_invariant(self);
        }
        self.queue.len()
    }

    /// Offers an inbound frame. The frame is delivered, a copy of it
    /// queued, exactly if the filter matches its identifier and the queue
    /// may hold a frame at all.
    pub fn offer(&mut self, frame: CanFrame) -> (delivered: bool)
        ensures
            delivered == takes(old(self)@, frame),
            final(self)@ == offered(old(self)@, frame),
            final(self).inv(),
    {
        proof {
            use_type_invariant(&*self);
        }
        if self.limit == 0 || !self.filter.is_match(frame.id()) {
            return false;
        }
        let limit = self.limit;
        let mut queue = self.take_queue();
        if queue.len() >= limit {
            queue.remove(0);
            assert(queue@ =~= old(self)@.frames.drop_first());
        }
        queue.push(frame);
        self.queue = queue;
        true
    }

    /// Takes out the oldest queued frame with identifier `id`, if there is
    /// one.
    pub fn receive(&mut self, id: FrameID) -> (frame: Option<CanFrame>)
        ensures
            final(self).inv(),
            match first_with(old(self)@.frames, id) {
                Some(i) => frame == Some(old(self)@.frames[i]) && final(self)@ == (Subscription {
                    frames: old(self)@.frames.remove(i),
                    ..old(self)@
                }),
                None => frame is None && final(self)@ == old(self)@,
            },
    {
        proof {
            use_type_invariant(&*self);
            lemma_first_with(self@.frames, id);
        }
        let n = self.queue.len();
        let mut i: usize = 0;
        while i < n
            invariant
                n == self.queue@.len(),
                i <= n,
                self == old(self),
                forall|j: int| 0 <= j < i ==> (#[trigger] self.queue@[j]).id() != id,
            decreases n - i,
        {
            if self.queue[i].id() == id {
                proof {
                    let first = first_with(self@.frames, id);
                    assert(self@.frames[i as int].id() == id);
                    assert(first is Some);
                    let at = first->Some_0;
                    if at < i {
                        assert(self.queue@[at].id() != id);
                    } else if i < at {
                        assert(self@.frames[i as int].id() != id);
                    }
                }
                let mut queue = self.take_queue();
                let frame = queue.remove(i);
                self.queue = queue;
                return Some(frame);
            }
            i += 1;
        }
        proof {
            if first_with(self@.frames, id) is Some {
                let at = first_with(self@.frames, id)->Some_0;
                assert(self.queue@[at].id() != id);
            }
        }
        None
    }

    /// Keeps the queued frames for which `f` answers true and discards the
    /// others. `f` is asked once for each frame, oldest first.
    pub fn retain<F: Fn(&CanFrame) -> bool>(&mut self, f: F)
        requires
            forall|i: int|
                0 <= i < old(self)@.frames.len() ==> call_requires(
                    f,
                    (&#[trigger] old(self)@.frames[i],),
                ),
        ensures
            final(self).inv(),
            exists|keep: Seq<bool>|
                {
                    &&& keep.len() == old(self)@.frames.len()
                    &&& forall|i: int|
                        0 <= i < keep.len() ==> call_ensures(
                            f,
                            (&old(self)@.frames[i],),
                            #[trigger] keep[i],
                        )
                    &&& final(self)@ == (Subscription {
                        frames: #[trigger] kept(old(self)@.frames, keep),
                        ..old(self)@
                    })
                },
    {
        let before = self.take_queue();
        let n = before.len();
        let mut queue: Vec<CanFrame> = Vec::new();
        let ghost mut keep = Seq::<bool>::empty();
        let mut i: usize = 0;
        assert(before@.take(0) =~= Seq::<CanFrame>::empty());
        while i < n
            invariant
                n == before@.len(),
                i <= n,
                before@ == old(self)@.frames,
                forall|j: int| 0 <= j < n ==> call_requires(f, (&#[trigger] before@[j],)),
                keep.len() == i,
                forall|j: int|
                    0 <= j < i ==> call_ensures(f, (&before@[j],), #[trigger] keep[j]),
                queue@ == kept(before@.take(i as int), keep),
            decreases n - i,
        {
            let frame = before[i];
            let wanted = f(&frame);
            if wanted {
                queue.push(frame);
            }
            proof {
                let upto = before@.take(i as int + 1);
                assert(upto.drop_last() =~= before@.take(i as int));
                assert(keep.push(wanted).drop_last() =~= keep);
                keep = keep.push(wanted);
            }
            i += 1;
        }
        proof {
            assert(before@.take(n as int) =~= before@);
            lemma_kept_len(before@, keep);
        }
        self.queue = queue;
        assert(self@ == (Subscription { frames: kept(old(self)@.frames, keep), ..old(self)@ }));
    }

    /// The oldest queued frame for which `predicate` answers true, if there
    /// is one. The queue stays as it is. `predicate` is asked for the
    /// frames from the oldest on, up to the one that is found.
    pub fn find<F: Fn(&CanFrame) -> bool>(&self, predicate: F) -> (frame: Option<CanFrame>)
        requires
            forall|i: int|
                0 <= i < self@.frames.len() ==> call_requires(
                    predicate,
                    (&#[trigger] self@.frames[i],),
                ),
        ensures
            match frame {
                Some(found) => exists|i: int|
                    {
                        &&& 0 <= i < self@.frames.len()
                        &&& found == #[trigger] self@.frames[i]
                        &&& call_ensures(predicate, (&self@.frames[i],), true)
                        &&& forall|j: int|
                            0 <= j < i ==> call_ensures(
                                predicate,
                                (&#[trigger] self@.frames[j],),
                                false,
                            )
                    },
                None => forall|j: int|
                    0 <= j < self@.frames.len() ==> call_ensures(
                        predicate,
                        (&#[trigger] self@.frames[j],),
                        false,
                    ),
            },
    {
        let n = self.queue.len();
        let mut i: usize = 0;
        while i < n
            invariant
                n == self.queue@.len(),
                i <= n,
                self@.frames == self.queue@,
                forall|j: int|
                    0 <= j < n ==> call_requires(predicate, (&#[trigger] self@.frames[j],)),
                forall|j: int|
                    0 <= j < i ==> call_ensures(predicate, (&#[trigger] self@.frames[j],), false),
            decreases n - i,
        {
            let frame = self.queue[i];
            if predicate(&frame) {
                assert(frame == self@.frames[i as int]);
                return Some(frame);
            }
            i += 1;
        }
        None
    }
}

} // verus!
