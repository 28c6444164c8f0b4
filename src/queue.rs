use vstd::prelude::*;
use crate::message::{Message, MessageView};

verus! {

/// What a queue is: its messages, front first, and whether it is closed
/// (recycled messages go back to its end) or open (they are dropped).
pub struct QueueView {
    pub items: Seq<MessageView>,
    pub closed: bool,
}

/// The queue after one message is taken from its front and recycled.
pub open spec fn after_pop(q: QueueView) -> QueueView {
    if q.items.len() == 0 {
        q
    } else if q.closed {
        QueueView { items: q.items.drop_first().push(q.items[0]), closed: q.closed }
    } else {
        QueueView { items: q.items.drop_first(), closed: q.closed }
    }
}

/// The queue after `k` messages were taken and recycled, one at a time.
pub open spec fn cycled(q: QueueView, k: nat) -> QueueView
    decreases k,
{
    if k == 0 {
        q
    } else {
        cycled(after_pop(q), (k - 1) as nat)
    }
}

/// Taking `a` messages and then `b` more is taking `a + b`.
pub proof fn lemma_cycled_add(q: QueueView, a: nat, b: nat)
    ensures
        cycled(cycled(q, a), b) == cycled(q, a + b),
    decreases a,
{
    if a > 0 {
        lemma_cycled_add(after_pop(q), (a - 1) as nat, b);
        assert(cycled(q, a + b) == cycled(after_pop(q), (a + b - 1) as nat));
    }
}

/// A closed queue keeps what it holds however often messages are taken
/// and recycled: the same number of messages and the same messages, so
/// once it has held a message it is never empty.
pub proof fn lemma_closed_queue_keeps_content(q: QueueView, k: nat)
    requires
        q.closed,
    ensures
        cycled(q, k).closed,
        cycled(q, k).items.len() == q.items.len(),
        cycled(q, k).items.to_multiset() == q.items.to_multiset(),
    decreases k,
{
    if k > 0 {
        let p = after_pop(q);
        if q.items.len() > 0 {
            let s = q.items;
            assert(s.drop_first() =~= s.remove(0));
            s.remove(0).to_multiset_ensures();
            s.to_multiset_ensures();
            s.remove(0).push(s[0]).to_multiset_ensures();
            assert(p.items.to_multiset() =~= s.to_multiset());
        }
        lemma_closed_queue_keeps_content(p, (k - 1) as nat);
    }
}

/// An open queue loses each message it hands out: after `k` messages were
/// taken, what is left is its content without the first `k`, and once it
/// is drained it stays empty.
pub proof fn lemma_open_queue_drains(q: QueueView, k: nat)
    requires
        !q.closed,
    ensures
        !cycled(q, k).closed,
        k <= q.items.len() ==> cycled(q, k).items == q.items.subrange(k as int, q.items.len() as int),
        k >= q.items.len() ==> cycled(q, k).items.len() == 0,
    decreases k,
{
    if k > 0 {
        lemma_open_queue_drains(after_pop(q), (k - 1) as nat);
        if k <= q.items.len() {
            assert(q.items.drop_first().subrange(k - 1, q.items.len() - 1) =~= q.items.subrange(
                k as int,
                q.items.len() as int,
            ));
        }
    }
}

/// An ordered buffer of messages waiting to be shown.
pub struct MessageQueue {
    data: Vec<Message>,
    closed: bool,
}

impl View for MessageQueue {
    type V = QueueView;

    closed spec fn view(&self) -> QueueView {
        QueueView { items: self.data@.map_values(|m: Message| m@), closed: self.closed }
    }
}

impl MessageQueue {
    /// An empty queue; `closed` says whether recycled messages come back.
    /// `capacity` is a hint for how many messages it will hold.
    pub fn new(capacity: usize, closed: bool) -> (q: MessageQueue)
        ensures
            q@ == (QueueView { items: Seq::empty(), closed }),
    {
        let q = MessageQueue { data: Vec::with_capacity(capacity), closed };
        assert(q@.items =~= Seq::<MessageView>::empty());
        q
    }

    /// Whether recycled messages come back to the queue.
    pub fn is_closed(&self) -> (r: bool)
        ensures
            r == self@.closed,
    {
        self.closed
    }

    /// The number of messages waiting.
    pub fn len(&self) -> (r: usize)
        ensures
            r == self@.items.len(),
    {
        self.data.len()
    }

    /// The length of the message at the front, if there is one.
    pub fn front_len(&self) -> (r: Option<usize>)
        ensures
            self@.items.len() == 0 ==> r is None,
            self@.items.len() > 0 ==> r == Some(
                (self@.items[0].title.len() + self@.items[0].body.len()) as usize,
            ),
    {
        if self.data.len() == 0 {
            None
        } else {
            Some(self.data[0].len())
        }
    }

    /// Takes the message at the front.
    pub fn pop(&mut self) -> (r: Option<Message>)
        ensures
            old(self)@.items.len() == 0 ==> r is None && final(self)@ == old(self)@,
            old(self)@.items.len() > 0 ==> r is Some && r->0@ == old(self)@.items[0]
                && final(self)@ == (QueueView {
                items: old(self)@.items.drop_first(),
                closed: old(self)@.closed,
            }),
    {
        if self.data.len() == 0 {
            None
        } else {
            let m = self.data.remove(0);
            assert(self@.items =~= old(self)@.items.drop_first());
            Some(m)
        }
    }

    /// Puts a message at the back.
    pub fn push(&mut self, message: Message)
        ensures
            final(self)@ == (QueueView {
                items: old(self)@.items.push(message@),
                closed: old(self)@.closed,
            }),
    {
        self.data.push(message);
        assert(self@.items =~= old(self)@.items.push(message@));
    }

    /// Hands back a message that was taken: a closed queue puts it at the
    /// back, an open one drops it.
    pub fn recycle(&mut self, message: Message)
        ensures
            old(self)@.closed ==> final(self)@ == (QueueView {
                items: old(self)@.items.push(message@),
                closed: old(self)@.closed,
            }),
            !old(self)@.closed ==> final(self)@ == old(self)@,
    {
        if self.closed {
            self.push(message);
        }
    }
}

} // verus!
