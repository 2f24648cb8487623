use std::collections::VecDeque;
use vstd::prelude::*;

verus! {

/// What a worker gets when it pulls from the hand-off queue.
pub enum Pulled<T> {
    /// The oldest waiting item, now the worker's alone.
    Item(T),
    /// Nothing waits yet; more may come.
    Empty,
    /// Nothing waits and nothing more will come.
    Closed,
}

/// The hand-off queue from the acceptor to the workers: items leave in the
/// order they came, each to exactly one puller. Closing it means no more
/// items will come; those already waiting are still handed out.
pub struct Dispatch<T> {
    waiting: VecDeque<T>,
    closed: bool,
    accepted: Ghost<Seq<T>>,
    handed: Ghost<Seq<T>>,
}

impl<T> Dispatch<T> {
    /// The items waiting to be pulled, oldest first.
    pub closed spec fn pending(&self) -> Seq<T> {
        self.waiting@
    }

    pub closed spec fn is_closed(&self) -> bool {
        self.closed
    }

    /// Every item ever pushed, in order.
    pub closed spec fn accepted(&self) -> Seq<T> {
        self.accepted@
    }

    /// Every item ever pulled, in order.
    pub closed spec fn handed_out(&self) -> Seq<T> {
        self.handed@
    }

    /// What was pulled, followed by what waits, is what was pushed.
    pub closed spec fn wf(&self) -> bool {
        self.handed@ + self.waiting@ == self.accepted@
    }

    pub fn new() -> (r: Dispatch<T>)
        ensures
            r.wf(),
            r.pending() == Seq::<T>::empty(),
            !r.is_closed(),
            r.accepted() == Seq::<T>::empty(),
            r.handed_out() == Seq::<T>::empty(),
    {
        Dispatch {
            waiting: VecDeque::new(),
            closed: false,
            accepted: Ghost(Seq::empty()),
            handed: Ghost(Seq::empty()),
        }
    }

    /// Queues an item behind those already waiting.
    pub fn push(&mut self, item: T)
        requires
            old(self).wf(),
        ensures
            final(self).wf(),
            final(self).pending() == old(self).pending().push(item),
            final(self).accepted() == old(self).accepted().push(item),
            final(self).handed_out() == old(self).handed_out(),
            final(self).is_closed() == old(self).is_closed(),
    {
        let ghost item_ = item;
        self.waiting.push_back(item);
        self.accepted = Ghost(self.accepted@.push(item_));
        assert(self.handed@ + self.waiting@ == self.accepted@);
    }

    /// Marks that no more items will come.
    pub fn close(&mut self)
        requires
            old(self).wf(),
        ensures
            final(self).wf(),
            final(self).pending() == old(self).pending(),
            final(self).is_closed(),
            final(self).accepted() == old(self).accepted(),
            final(self).handed_out() == old(self).handed_out(),
    {
        self.closed = true;
    }

    /// Takes the oldest waiting item, or tells why there is none.
    pub fn pull(&mut self) -> (r: Pulled<T>)
        requires
            old(self).wf(),
        ensures
            final(self).wf(),
            final(self).is_closed() == old(self).is_closed(),
            final(self).accepted() == old(self).accepted(),
            old(self).pending().len() > 0 ==> {
                &&& r == Pulled::Item(old(self).pending()[0])
                &&& final(self).pending() == old(self).pending().drop_first()
                &&& final(self).handed_out() == old(self).handed_out().push(old(self).pending()[0])
            },
            old(self).pending().len() == 0 ==> {
                &&& r == (if old(self).is_closed() {
                    Pulled::<T>::Closed
                } else {
                    Pulled::<T>::Empty
                })
                &&& final(self).pending() == old(self).pending()
                &&& final(self).handed_out() == old(self).handed_out()
            },
    {
        match self.waiting.pop_front() {
            Some(item) => {
                self.handed = Ghost(self.handed@.push(item));
                assert(self.handed@ + self.waiting@ == self.accepted@) by {
                    assert(old(self).waiting@ == seq![item] + self.waiting@);
                    assert(self.handed@ + self.waiting@ == old(self).handed@ + old(self).waiting@);
                }
                Pulled::Item(item)
            },
            None => {
                if self.closed {
                    Pulled::Closed
                } else {
                    Pulled::Empty
                }
            },
        }
    }
}

/// No item is lost or handed out twice, and items leave in the order they
/// came: what was pulled is the start of what was pushed, and what waits is
/// the rest.
pub proof fn lemma_handed_in_order<T>(d: &Dispatch<T>)
    requires
        d.wf(),
    ensures
        d.handed_out() == d.accepted().take(d.handed_out().len() as int),
        d.pending() == d.accepted().skip(d.handed_out().len() as int),
{
    assert(d.handed_out() + d.pending() == d.accepted());
    assert(d.handed_out() =~= d.accepted().take(d.handed_out().len() as int));
    assert(d.pending() =~= d.accepted().skip(d.handed_out().len() as int));
}

} // verus!
