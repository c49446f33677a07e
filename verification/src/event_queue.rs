//! A first-in, first-out queue of input events.
use std::collections::VecDeque;
use vstd::prelude::*;

verus! {

/// Events waiting to be handled, oldest first.
pub struct EventQueue<E> {
    queue: VecDeque<E>,
}

impl<E> View for EventQueue<E> {
    type V = Seq<E>;

    closed spec fn view(&self) -> Seq<E> {
        self.queue@
    }
}

impl<E> EventQueue<E> {
    /// An empty queue.
    pub fn new() -> (r: EventQueue<E>)
        ensures
            r@ == Seq::<E>::empty(),
    {
        EventQueue { queue: VecDeque::new() }
    }

    /// Takes the oldest waiting event, if there is one.
    pub fn poll(&mut self) -> (r: Option<E>)
        ensures
            old(self)@.len() == 0 ==> r is None && final(self)@ == old(self)@,
            old(self)@.len() > 0 ==> r == Some(old(self)@[0]) && final(self)@ == old(self)@.drop_first(),
    {
        let r = self.queue.pop_front();
        proof {
            if old(self)@.len() > 0 {
                assert(self.queue@ =~= old(self)@.drop_first());
            }
        }
        r
    }

    /// Empties the queue and returns the newest event that was waiting, if any.
    pub fn drain_latest(&mut self) -> (r: Option<E>)
        ensures
            final(self)@ == Seq::<E>::empty(),
            old(self)@.len() == 0 ==> r is None,
            old(self)@.len() > 0 ==> r == Some(old(self)@.last()),
    {
        let mut latest: Option<E> = None;
        while self.queue.len() > 0
            invariant
                old(self)@.len() > 0 ==> self.queue@.len() > 0 && self.queue@.last() == old(self)@.last()
                    || latest == Some(old(self)@.last()) && self.queue@.len() == 0,
                old(self)@.len() == 0 ==> self.queue@.len() == 0 && latest is None,
            decreases self.queue@.len(),
        {
            let ghost before = self.queue@;
            latest = self.queue.pop_front();
            proof {
                if before.len() > 1 {
                    assert(self.queue@.last() == before.last());
                }
            }
        }
        proof {
            assert(self.queue@ =~= Seq::<E>::empty());
        }
        latest
    }

    /// Adds an event behind those already waiting.
    pub fn push(&mut self, event: E)
        ensures
            final(self)@ == old(self)@.push(event),
    {
        self.queue.push_back(event);
    }
}

/// Events leave the queue in the order they entered: pushing onto a queue
/// holding `waiting` and then polling gives the oldest waiting event, or the
/// pushed one if none was waiting, and keeps the rest in order.
pub proof fn lemma_first_in_first_out<E>(waiting: Seq<E>, event: E)
    ensures
        waiting.push(event)[0] == (if waiting.len() == 0 { event } else { waiting[0] }),
        waiting.push(event).drop_first() == (if waiting.len() == 0 {
            Seq::<E>::empty()
        } else {
            waiting.drop_first().push(event)
        }),
{
    if waiting.len() == 0 {
        assert(waiting.push(event).drop_first() =~= Seq::<E>::empty());
    } else {
        assert(waiting.push(event).drop_first() =~= waiting.drop_first().push(event));
    }
}

} // verus!
