//! The queue of SAP messages exchanged between the stack's entities.
use vstd::prelude::*;
use std::collections::VecDeque;

verus! {

/// Where a submitted message goes in the queue.
#[derive(Debug, Clone, Copy, PartialEq, Eq, Structural)]
pub enum MessagePrio {
    /// Delivered before everything already queued.
    Immediate,
    /// Delivered after everything already queued.
    Normal,
}

impl Default for MessagePrio {
    fn default() -> (r: Self)
        ensures
            r == MessagePrio::Normal,
    {
        MessagePrio::Normal
    }
}

/// FIFO of messages, with a way to jump the queue.
pub struct MessageQueue<M> {
    messages: VecDeque<M>,
}

impl<M> View for MessageQueue<M> {
    /// The messages, next to be delivered first.
    type V = Seq<M>;

    closed spec fn view(&self) -> Seq<M> {
        self.messages@
    }
}

impl<M> MessageQueue<M> {
    /// An empty queue.
    pub fn new() -> (r: Self)
        ensures
            r@ == Seq::<M>::empty(),
    {
        MessageQueue { messages: VecDeque::new() }
    }

    /// Queue a message behind all others.
    pub fn push_back(&mut self, message: M)
        ensures
            final(self)@ == old(self)@.push(message),
    {
        self.messages.push_back(message);
    }

    /// Queue a message: in front of all others when `Immediate`, behind them when `Normal`.
    pub fn push_prio(&mut self, message: M, prio: MessagePrio)
        ensures
            prio == MessagePrio::Immediate ==> final(self)@ == seq![message] + old(self)@,
            prio == MessagePrio::Normal ==> final(self)@ == old(self)@.push(message),
    {
        match prio {
            MessagePrio::Immediate => {
                self.messages.push_front(message);
            },
            MessagePrio::Normal => {
                self.messages.push_back(message);
            },
        }
    }

    /// Take the next message, if any.
    pub fn pop_front(&mut self) -> (r: Option<M>)
        ensures
            old(self)@.len() == 0 ==> r is None && final(self)@ == old(self)@,
            old(self)@.len() > 0 ==> r == Some(old(self)@[0]) && final(self)@ == old(self)@.drop_first(),
    {
        self.messages.pop_front()
    }

    /// Number of queued messages.
    pub fn len(&self) -> (r: usize)
        ensures
            r == self@.len(),
    {
        self.messages.len()
    }
}

/// Messages come out in the order they were queued behind each other, and an immediate
/// message comes out before everything that was waiting.
pub proof fn lemma_queue_order<M>(q: Seq<M>, a: M, b: M)
    ensures
        q.len() == 0 ==> (q.push(a).push(b))[0] == a && (q.push(a).push(b)).drop_first() == seq![b],
        (seq![a] + q)[0] == a,
        (seq![a] + q).drop_first() == q,
{
    assert((seq![a] + q).drop_first() =~= q);
    if q.len() == 0 {
        assert((q.push(a).push(b)).drop_first() =~= seq![b]);
    }
}

} // verus!
