//! Bytes that one side of the console has written and the other has not taken yet.
use vstd::prelude::*;

use crate::sandbox::console::filter;
use crate::sandbox::console::filter::AnsiFilter;
use crate::text;

verus! {

/// A queue of bytes, with a filter at its entrance or without.
pub struct FilteredQueue {
    buffer: Vec<u8>,
    offset: usize,
    filter: Option<AnsiFilter>,
}

/// What an attempt to write came to.
#[derive(Clone, Copy, Debug, PartialEq, Eq, Structural)]
pub enum WriteOutcome {
    /// This many bytes were taken.
    Wrote(usize),
    /// A signal came in between.
    Interrupted,
    /// There is no room at the moment.
    WouldBlock,
    Failed,
}

/// How draining a queue goes on.
#[derive(Clone, Copy, Debug, PartialEq, Eq, Structural)]
pub enum DrainStep {
    /// Try to write what is pending.
    Write,
    /// Draining is over for now.
    Done,
    /// Draining failed.
    Fail,
}

impl FilteredQueue {
    /// Whether the queue is in order.
    pub closed spec fn wf(&self) -> bool {
        self.offset <= self.buffer@.len()
    }

    /// The bytes that were not taken yet.
    pub closed spec fn pending_bytes(&self) -> Seq<u8> {
        self.buffer@.skip(self.offset as int)
    }

    /// How many bytes are kept that were taken already.
    pub closed spec fn kept_in_vain(&self) -> nat {
        self.offset as nat
    }

    /// The filter at the entrance.
    pub closed spec fn entrance(&self) -> Option<AnsiFilter> {
        self.filter
    }

    /// A queue that takes everything as it is.
    pub fn unfiltered() -> (queue: Self)
        ensures
            queue.wf(),
            queue.pending_bytes() == Seq::<u8>::empty(),
            queue.entrance() is None,
    {
        FilteredQueue { buffer: Vec::new(), offset: 0, filter: None }
    }

    /// A queue with a fresh filter at its entrance.
    pub fn filtered() -> (queue: Self)
        ensures
            queue.wf(),
            queue.pending_bytes() == Seq::<u8>::empty(),
            queue.entrance() matches Some(entrance) && entrance.chunks() == Seq::<
                Seq<u8>,
            >::empty() && entrance.silence() == 0,
    {
        FilteredQueue { buffer: Vec::new(), offset: 0, filter: Some(AnsiFilter::new()) }
    }

    /// How many bytes are pending.
    pub fn len(&self) -> (length: usize)
        requires
            self.wf(),
        ensures
            length == self.pending_bytes().len(),
    {
        self.buffer.len() - self.offset
    }

    /// Tells whether nothing is pending.
    pub fn is_empty(&self) -> (result: bool)
        requires
            self.wf(),
        ensures
            result == (self.pending_bytes().len() == 0),
    {
        self.offset >= self.buffer.len()
    }

    /// A copy of the bytes that are pending.
    pub fn pending(&self) -> (bytes: Vec<u8>)
        requires
            self.wf(),
        ensures
            bytes@ == self.pending_bytes(),
    {
        let mut bytes: Vec<u8> = Vec::new();
        for i in self.offset..self.buffer.len()
            invariant
                self.wf(),
                bytes@ == self.buffer@.subrange(self.offset as int, i as int),
        {
            bytes.push(self.buffer[i]);
            assert(bytes@ =~= self.buffer@.subrange(self.offset as int, i + 1));
        }
        assert(bytes@ =~= self.pending_bytes());
        bytes
    }

    /// Puts bytes behind the others as they are.
    pub fn push(&mut self, bytes: &[u8])
        requires
            old(self).wf(),
        ensures
            final(self).wf(),
            final(self).pending_bytes() == old(self).pending_bytes() + bytes@,
            final(self).entrance() == old(self).entrance(),
    {
        self.compact();
        text::append_bytes(&mut self.buffer, bytes);
        assert(self.pending_bytes() =~= old(self).pending_bytes() + bytes@);
    }

    /// Puts bytes behind the others, through the filter if there is one.
    pub fn filter_in(&mut self, bytes: &[u8])
        requires
            old(self).wf(),
        ensures
            final(self).wf(),
            match old(self).entrance() {
                Some(entrance) => {
                    &&& final(self).pending_bytes() == old(self).pending_bytes()
                        + filter::filtered(entrance.chunks(), bytes@)
                    &&& filter::is_harmless(
                        filter::filtered(entrance.chunks(), bytes@),
                    )
                    &&& final(self).entrance() matches Some(next) && next.chunks()
                        == filter::next_chunks(entrance.chunks(), entrance.silence(), bytes@)
                        && next.silence() == filter::next_silence(
                        entrance.chunks(),
                        entrance.silence(),
                        bytes@,
                    )
                },
                None => {
                    &&& final(self).pending_bytes() == old(self).pending_bytes() + bytes@
                    &&& final(self).entrance() is None
                },
            },
    {
        self.compact();
        let ghost before = self.buffer@;
        match &mut self.filter {
            Some(filter) => filter.filter(bytes, &mut self.buffer),
            None => text::append_bytes(&mut self.buffer, bytes),
        }
        assert(self.pending_bytes() =~= self.buffer@);
        assert(old(self).pending_bytes() =~= before);
    }

    /// Forgets the bytes that were taken.
    pub fn compact(&mut self)
        requires
            old(self).wf(),
        ensures
            final(self).wf(),
            final(self).pending_bytes() == old(self).pending_bytes(),
            final(self).entrance() == old(self).entrance(),
            final(self).kept_in_vain() == 0,
    {
        if self.offset == 0 {
            return;
        }
        self.buffer = self.pending();
        self.offset = 0;
        assert(self.pending_bytes() =~= old(self).pending_bytes());
    }

    /// Begins to drain the queue.
    pub fn begin_drain(&mut self) -> (step: DrainStep)
        requires
            old(self).wf(),
        ensures
            final(self).wf(),
            final(self).pending_bytes() == old(self).pending_bytes(),
            final(self).entrance() == old(self).entrance(),
            step == (if old(self).pending_bytes().len() == 0 {
                DrainStep::Done
            } else {
                DrainStep::Write
            }),
    {
        if self.is_empty() {
            self.compact();
            DrainStep::Done
        } else {
            DrainStep::Write
        }
    }

    /// Goes on draining the queue after an attempt to write what is pending.
    pub fn drain_into(&mut self, outcome: WriteOutcome) -> (step: DrainStep)
        requires
            old(self).wf(),
            outcome matches WriteOutcome::Wrote(count) ==> count <= old(
                self,
            ).pending_bytes().len(),
        ensures
            final(self).wf(),
            final(self).entrance() == old(self).entrance(),
            final(self).pending_bytes() == (match outcome {
                WriteOutcome::Wrote(count) => old(self).pending_bytes().skip(count as int),
                _ => old(self).pending_bytes(),
            }),
            step == (match outcome {
                WriteOutcome::WouldBlock => DrainStep::Done,
                WriteOutcome::Failed => DrainStep::Fail,
                _ => if final(self).pending_bytes().len() == 0 {
                    DrainStep::Done
                } else {
                    DrainStep::Write
                },
            }),
    {
        match outcome {
            WriteOutcome::Wrote(count) => {
                assert(self.offset + count <= self.buffer.len());
                self.offset = self.offset + count;
                assert(self.pending_bytes() =~= old(self).pending_bytes().skip(count as int));
                self.begin_drain()
            },
            WriteOutcome::Interrupted => self.begin_drain(),
            WriteOutcome::WouldBlock => DrainStep::Done,
            WriteOutcome::Failed => DrainStep::Fail,
        }
    }
}

/// What is pushed comes behind what is pending, and the filter at the entrance has no part in
/// it.
pub proof fn lemma_pushing(queue: &mut FilteredQueue, bytes: &[u8])
    requires
        call_ensures(FilteredQueue::push, (queue, bytes), ()),
    ensures
        final(queue).pending_bytes().len() == old(queue).pending_bytes().len() + bytes@.len(),
        old(queue).pending_bytes().is_prefix_of(final(queue).pending_bytes()),
        final(queue).pending_bytes().skip(old(queue).pending_bytes().len() as int) == bytes@,
        final(queue).entrance() == old(queue).entrance(),
{
    let before = old(queue).pending_bytes();
    let after = final(queue).pending_bytes();
    assert(after == before + bytes@);
    assert(after.take(before.len() as int) =~= before);
    assert(after.skip(before.len() as int) =~= bytes@);
}

/// Draining goes on exactly as long as something is pending and the other side can take more,
/// and nothing but what was written leaves the queue, from its front.
pub proof fn lemma_draining(queue: &mut FilteredQueue, outcome: WriteOutcome, step: DrainStep)
    requires
        call_ensures(FilteredQueue::drain_into, (queue, outcome), step),
        outcome matches WriteOutcome::Wrote(count) ==> count <= old(queue).pending_bytes().len(),
    ensures
        step == DrainStep::Fail <==> outcome == WriteOutcome::Failed,
        step == DrainStep::Write <==> (outcome is Wrote || outcome == WriteOutcome::Interrupted)
            && final(queue).pending_bytes().len() > 0,
        outcome matches WriteOutcome::Wrote(count) ==> old(queue).pending_bytes() == old(queue).pending_bytes().take(count as int) + final(queue).pending_bytes(),
        outcome !is Wrote ==> final(queue).pending_bytes() == old(queue).pending_bytes(),
{
    if let WriteOutcome::Wrote(count) = outcome {
        let before = old(queue).pending_bytes();
        assert(before =~= before.take(count as int) + before.skip(count as int));
    }
}

} // verus!
