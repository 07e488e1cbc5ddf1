//! A small stack of walker events.

use vstd::prelude::*;

verus! {

/// What the walker last passed: a marker or a command.
#[derive(Debug, Clone, Copy, PartialEq, Eq, Structural)]
pub enum Event {
    Marker,
    Command,
}

/// A stack of events.
#[derive(Debug)]
pub struct Events {
    events: Vec<Event>,
}

impl View for Events {
    type V = Seq<Event>;

    closed spec fn view(&self) -> Seq<Event> {
        self.events@
    }
}

impl Events {
    /// Create an empty stack.
    pub fn new() -> (r: Events)
        ensures
            r@ == Seq::<Event>::empty(),
    {
        let r = Events { events: Vec::new() };
        proof {
            assert(r@ =~= Seq::<Event>::empty());
        }
        r
    }

    /// Push an event.
    pub fn push(&mut self, event: Event)
        ensures
            final(self)@ == old(self)@.push(event),
    {
        self.events.push(event);
    }

    /// Pop the most recent event, where there is one.
    pub fn pop(&mut self) -> (r: Option<Event>)
        ensures
            r is Some <==> old(self)@.len() > 0,
            old(self)@.len() > 0 ==> r == Some(old(self)@.last()) && final(self)@ == old(
                self,
            )@.drop_last(),
            old(self)@.len() == 0 ==> final(self)@ == old(self)@,
    {
        self.events.pop()
    }
}

} // verus!
