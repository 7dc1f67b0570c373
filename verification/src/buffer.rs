//! The frames gathered for one transfer, in the order in which they came.

use crate::frame::CanFrame;
use vstd::prelude::*;

verus! {

/// A transfer is complete when one of its frames carries the
/// end-of-transfer flag.
pub open spec fn complete(frames: Seq<CanFrame>) -> bool {
    exists|i: int| 0 <= i < frames.len() && (#[trigger] frames[i]).is_end_frame()
}

/// Whether `frame` may come next after `frames` in a transfer without gaps:
/// the first frame has index 0, each later one the index after its
/// predecessor's (modulo 32), and nothing follows an end-of-transfer frame.
pub open spec fn follows(frames: Seq<CanFrame>, frame: CanFrame) -> bool {
    if frames.len() == 0 {
        frame.id().frame_index() == 0
    } else {
        &&& !frames.last().is_end_frame()
        &&& frame.id().frame_index() == (frames.last().id().frame_index() + 1) % 32
    }
}

/// Frames that came one after the other without a gap: each but the first
/// follows its predecessor.
pub open spec fn consecutive(frames: Seq<CanFrame>) -> bool {
    forall|i: int|
        0 < i < frames.len() ==> {
            &&& !(#[trigger] frames[i - 1]).is_end_frame()
            &&& frames[i].id().frame_index() == (frames[i - 1].id().frame_index() + 1) % 32
        }
}

/// A complete transfer with no sign of loss or reordering: the frames
/// start at index 0, are consecutive, and the last one ends the transfer.
pub open spec fn intact(frames: Seq<CanFrame>) -> bool {
    &&& frames.len() > 0
    &&& frames[0].id().frame_index() == 0
    &&& consecutive(frames)
    &&& frames.last().is_end_frame()
}

/// The byte stream that the frames carry: their chunks, one after the other.
pub open spec fn stream(frames: Seq<CanFrame>) -> Seq<u8>
    decreases frames.len(),
{
    if frames.len() == 0 {
        Seq::<u8>::empty()
    } else {
        stream(frames.drop_last()) + frames.last().chunk()
    }
}

/// Whether a transfer is complete does not depend on the order in which its
/// frames came: two runs of the same frames are both complete or both not.
pub proof fn lemma_complete_in_any_order(frames: Seq<CanFrame>, reordered: Seq<CanFrame>)
    requires
        frames.to_multiset() == reordered.to_multiset(),
    ensures
        complete(frames) == complete(reordered),
{
    frames.to_multiset_ensures();
    reordered.to_multiset_ensures();
    if complete(frames) {
        let i = choose|i: int| 0 <= i < frames.len() && (#[trigger] frames[i]).is_end_frame();
        assert(frames.contains(frames[i]));
        assert(frames.to_multiset().count(frames[i]) > 0);
        assert(reordered.to_multiset().count(frames[i]) > 0);
        assert(reordered.contains(frames[i]));
        let j = choose|j: int| 0 <= j < reordered.len() && reordered[j] == frames[i];
        assert(reordered[j].is_end_frame());
    }
    if complete(reordered) {
        let i = choose|i: int|
            0 <= i < reordered.len() && (#[trigger] reordered[i]).is_end_frame();
        assert(reordered.contains(reordered[i]));
        assert(reordered.to_multiset().count(reordered[i]) > 0);
        assert(frames.to_multiset().count(reordered[i]) > 0);
        assert(frames.contains(reordered[i]));
        let j = choose|j: int| 0 <= j < frames.len() && frames[j] == reordered[i];
        assert(frames[j].is_end_frame());
    }
}

/// The frames of one transfer in arrival order, oldest first.
#[derive(Debug)]
pub struct TransferBuffer {
    frames: Vec<CanFrame>,
}

impl View for TransferBuffer {
    type V = Seq<CanFrame>;

    closed spec fn view(&self) -> Seq<CanFrame> {
        self.frames@
    }
}

impl TransferBuffer {
    /// An empty buffer.
    pub fn new() -> (buffer: TransferBuffer)
        ensures
            buffer@ == Seq::<CanFrame>::empty(),
    {
        TransferBuffer { frames: Vec::new() }
    }

    /// The number of frames.
    pub fn len(&self) -> (n: usize)
        ensures
            n == self@.len(),
    {
        self.frames.len()
    }

    /// Whether the buffer holds no frame.
    pub fn is_empty(&self) -> (empty: bool)
        ensures
            empty == (self@.len() == 0),
    {
        self.frames.len() == 0
    }

    /// The frame at position `index`, counted from the oldest.
    pub fn get(&self, index: usize) -> (frame: Option<CanFrame>)
        ensures
            frame == if index < self@.len() {
                Some(self@[index as int])
            } else {
                None
            },
    {
        if index < self.frames.len() {
            Some(self.frames[index])
        } else {
            None
        }
    }

    /// Appends a frame as the youngest.
    pub fn push(&mut self, frame: CanFrame)
        ensures
            final(self)@ == old(self)@.push(frame),
    {
        self.frames.push(frame);
    }

    /// Takes the oldest frame out, if there is one.
    pub fn pop(&mut self) -> (frame: Option<CanFrame>)
        ensures
            old(self)@.len() == 0 ==> frame is None && final(self)@ == old(self)@,
            old(self)@.len() > 0 ==> frame == Some(old(self)@[0]) && final(self)@ == old(
                self,
            )@.drop_first(),
    {
        if self.frames.len() == 0 {
            None
        } else {
            let frame = self.frames.remove(0);
            assert(self.frames@ =~= old(self).frames@.drop_first());
            Some(frame)
        }
    }

    /// Whether one of the frames carries the end-of-transfer flag.
    pub fn is_complete(&self) -> (done: bool)
        ensures
            done == complete(self@),
    {
        let mut i: usize = 0;
        while i < self.frames.len()
            invariant
                i <= self.frames@.len(),
                forall|j: int| 0 <= j < i ==> !(#[trigger] self.frames@[j]).is_end_frame(),
            decreases self.frames@.len() - i,
        {
            if self.frames[i].is_end_frame() {
                return true;
            }
            i += 1;
        }
        false
    }

    /// Whether `frame` may come next without a gap.
    pub fn accepts(&self, frame: &CanFrame) -> (next: bool)
        ensures
            next == follows(self@, *frame),
    {
        let n = self.frames.len();
        let index = frame.id().frame_index();
        if n == 0 {
            index == 0
        } else {
            let last = self.frames[n - 1];
            let before = last.id().frame_index();
            !last.is_end_frame() && index == (before + 1) % 32
        }
    }

    /// Whether the frames make up a complete transfer with no sign of loss
    /// or reordering.
    pub fn is_intact(&self) -> (whole: bool)
        ensures
            whole == intact(self@),
    {
        let n = self.frames.len();
        if n == 0 {
            return false;
        }
        if self.frames[0].id().frame_index() != 0 {
            return false;
        }
        let mut i: usize = 1;
        while i < n
            invariant
                n == self.frames@.len(),
                1 <= i <= n,
                forall|j: int|
                    0 < j < i ==> {
                        &&& !(#[trigger] self.frames@[j - 1]).is_end_frame()
                        &&& self.frames@[j].id().frame_index() == (self.frames@[j
                            - 1].id().frame_index() + 1) % 32
                    },
            decreases n - i,
        {
            let before = self.frames[i - 1];
            let here = self.frames[i];
            if before.is_end_frame() || here.id().frame_index() != (before.id().frame_index() + 1)
                % 32 {
                assert(!consecutive(self.frames@)) by {
                    let _ = self.frames@[i as int - 1];
                }
                return false;
            }
            i += 1;
        }
        self.frames[n - 1].is_end_frame()
    }

    /// The byte stream that the frames carry.
    pub fn to_bytes(&self) -> (bytes: Vec<u8>)
        ensures
            bytes@ == stream(self@),
    {
        let mut bytes: Vec<u8> = Vec::new();
        let n = self.frames.len();
        let mut i: usize = 0;
        assert(self.frames@.take(0) =~= Seq::<CanFrame>::empty());
        while i < n
            invariant
                n == self.frames@.len(),
                i <= n,
                bytes@ == stream(self.frames@.take(i as int)),
            decreases n - i,
        {
            let frame = self.frames[i];
            let data = frame.data();
            let m = data.len();
            let ghost before = bytes@;
            let mut j: usize = 0;
            while j + 1 < m
                invariant
                    m == data@.len(),
                    m <= 8,
                    j < m || m == 0,
                    j <= m,
                    m > 0 ==> bytes@ == before + data@.subrange(0, j as int),
                    m == 0 ==> bytes@ == before,
                decreases m - j,
            {
                bytes.push(data[j]);
                assert(data@.subrange(0, j as int).push(data@[j as int]) =~= data@.subrange(
                    0,
                    j as int + 1,
                ));
                j += 1;
            }
            proof {
                let upto = self.frames@.take(i as int + 1);
                assert(upto.drop_last() =~= self.frames@.take(i as int));
                assert(upto.last() == frame);
                if m > 0 {
                    assert(data@.subrange(0, j as int) =~= data@.drop_last());
                } else {
                    assert(before + Seq::<u8>::empty() =~= before);
                }
            }
            i += 1;
        }
        assert(self.frames@.take(n as int) =~= self.frames@);
        bytes
    }
}

} // verus!
