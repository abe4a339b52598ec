use std::collections::VecDeque;
use vstd::prelude::*;

verus! {

/// Ordered queue of failure descriptions: producers append, the
/// presentation layer takes the oldest first.
pub struct Notifications {
    queue: VecDeque<String>,
}

impl View for Notifications {
    type V = Seq<Seq<char>>;

    closed spec fn view(&self) -> Seq<Seq<char>> {
        self.queue@.map_values(|m: String| m@)
    }
}

impl Notifications {
    pub fn new() -> (r: Self)
        ensures
            r@ == Seq::<Seq<char>>::empty(),
    {
        let r = Notifications { queue: VecDeque::new() };
        assert(r@ =~= Seq::<Seq<char>>::empty());
        r
    }

    pub fn len(&self) -> (r: usize)
        ensures
            r == self@.len(),
    {
        self.queue.len()
    }

    /// Appends a message after all earlier ones.
    pub fn enqueue(&mut self, message: String)
        ensures
            final(self)@ == old(self)@.push(message@),
    {
        self.queue.push_back(message);
        assert(final(self)@ =~= old(self)@.push(message@));
    }

    /// Takes the oldest message, if any.
    pub fn dequeue_oldest(&mut self) -> (r: Option<String>)
        ensures
            old(self)@.len() == 0 ==> r is None && final(self)@ == old(self)@,
            old(self)@.len() > 0 ==> (r matches Some(m) && m@ == old(self)@[0]),
            old(self)@.len() > 0 ==> final(self)@ == old(self)@.drop_first(),
    {
        let r = self.queue.pop_front();
        assert(final(self)@ =~= if old(self)@.len() == 0 {
            old(self)@
        } else {
            old(self)@.drop_first()
        });
        r
    }
}

} // verus!
