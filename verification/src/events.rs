//! A last-in-first-out queue of interface events, drained by the surrounding
//! application between frames.

use vstd::prelude::*;

verus! {

/// An interaction the surrounding application reacts to.
#[derive(Debug, Clone, PartialEq)]
pub enum AppEvent {
    CategorySelected(String),
    ComponentSelected(String),
    ShowSettings,
}

/// The pending events, most recent last.
pub struct EventManager {
    events: Vec<AppEvent>,
}

impl View for EventManager {
    type V = Seq<AppEvent>;

    closed spec fn view(&self) -> Seq<AppEvent> {
        self.events@
    }
}

impl EventManager {
    /// An empty queue.
    pub fn new() -> (r: EventManager)
        ensures
            r@ == Seq::<AppEvent>::empty(),
    {
        EventManager { events: Vec::new() }
    }

    /// Append an event.
    pub fn push(&mut self, event: AppEvent)
        ensures
            final(self)@ == old(self)@.push(event),
    {
        self.events.push(event);
    }

    /// Remove and return the most recent event, if any.
    pub fn pop(&mut self) -> (r: Option<AppEvent>)
        ensures
            match r {
                Some(e) => old(self)@.len() > 0 && e == old(self)@.last() && final(self)@ == old(
                    self,
                )@.drop_last(),
                None => old(self)@.len() == 0 && final(self)@ == old(self)@,
            },
    {
        self.events.pop()
    }

    /// Drop every pending event.
    pub fn clear(&mut self)
        ensures
            final(self)@ == Seq::<AppEvent>::empty(),
    {
        self.events.clear();
    }
}

} // verus!
