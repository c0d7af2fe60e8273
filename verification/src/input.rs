use vstd::prelude::*;

use std::collections::VecDeque;

verus! {

/// The mouse buttons that can be interacted with; `NoButton` stands for an event that
/// involves no button.
#[derive(Debug, Clone, Copy, PartialEq, Eq, Hash)]
pub enum MouseButton {
    Left,
    Middle,
    Right,
    NoButton,
}

/// The kind of a mouse event: a button press, a release, or a movement.
#[derive(Debug, Clone, Copy, PartialEq, Eq, Hash)]
pub enum MouseEventType {
    Down,
    Up,
    Move,
}

/// A user input event: its kind, the button involved, the state of the mouse when it
/// happened, and the state of the mouse at the event before it, if there was one.
/// `S` is the mouse state (position and time stamp).
#[derive(Debug, Clone, Copy)]
pub struct Event<S> {
    pub event_type: MouseEventType,
    pub button: MouseButton,
    pub state: S,
    pub last_state: Option<S>,
}

/// The user input since the last update: the events in the order they happened, and the
/// mouse state of the last event ever recorded.
#[derive(Debug, Clone)]
pub struct InputState<S> {
    pub events: VecDeque<Event<S>>,
    last_mouse_state: Option<S>,
}

/// The event that recording an event of kind `event_type` with `button` and `state` adds,
/// after the mouse state `last`.
pub open spec fn recorded_event<S>(
    event_type: MouseEventType,
    button: MouseButton,
    state: S,
    last: Option<S>,
) -> Event<S> {
    Event { event_type, button, state, last_state: last }
}

impl<S: Copy> Default for InputState<S> {
    /// An input state with no events and no mouse state yet.
    fn default() -> (s: Self)
        ensures
            s.pending() == Seq::<Event<S>>::empty(),
            s.last_state() == None::<S>,
    {
        InputState::new()
    }
}

impl<S: Copy> InputState<S> {
    /// The mouse state of the last event recorded, if any.
    pub closed spec fn last_state(&self) -> Option<S> {
        self.last_mouse_state
    }

    /// The events waiting in the queue, oldest first.
    pub closed spec fn pending(&self) -> Seq<Event<S>> {
        self.events@
    }

    /// An input state with no events and no mouse state yet.
    pub fn new() -> (s: Self)
        ensures
            s.pending() == Seq::<Event<S>>::empty(),
            s.last_state() == None::<S>,
    {
        InputState { events: VecDeque::new(), last_mouse_state: None }
    }

    fn record(&mut self, event_type: MouseEventType, button: MouseButton, state: S)
        ensures
            final(self).pending() == old(self).pending().push(
                recorded_event(event_type, button, state, old(self).last_state()),
            ),
            final(self).last_state() == Some(state),
    {
        let event = Event { event_type, button, state, last_state: self.last_mouse_state };
        self.events.push_back(event);
        self.last_mouse_state = Some(state);
    }

    /// Records that `button` was pressed, with the mouse in `state`.
    pub fn mouse_down(&mut self, button: MouseButton, state: S)
        ensures
            final(self).pending() == old(self).pending().push(
                recorded_event(MouseEventType::Down, button, state, old(self).last_state()),
            ),
            final(self).last_state() == Some(state),
    {
        self.record(MouseEventType::Down, button, state);
    }

    /// Records that `button` was released, with the mouse in `state`.
    pub fn mouse_up(&mut self, button: MouseButton, state: S)
        ensures
            final(self).pending() == old(self).pending().push(
                recorded_event(MouseEventType::Up, button, state, old(self).last_state()),
            ),
            final(self).last_state() == Some(state),
    {
        self.record(MouseEventType::Up, button, state);
    }

    /// Records that the mouse moved to `state`; a move involves no button.
    pub fn mouse_move(&mut self, state: S)
        ensures
            final(self).pending() == old(self).pending().push(
                recorded_event(
                    MouseEventType::Move,
                    MouseButton::NoButton,
                    state,
                    old(self).last_state(),
                ),
            ),
            final(self).last_state() == Some(state),
    {
        self.record(MouseEventType::Move, MouseButton::NoButton, state);
    }
}

/// Each event of `events` names as its previous mouse state the state of the event before
/// it.
pub open spec fn chained<S>(events: Seq<Event<S>>) -> bool {
    forall|k: int| 0 < k < events.len() ==> (#[trigger] events[k]).last_state == Some(events[k - 1].state)
}

/// Recording keeps the events chained: if every queued event names the state of the event
/// before it and the last state is that of the newest event, the same holds after another
/// event is recorded.
pub proof fn law_events_stay_chained<S>(
    events: Seq<Event<S>>,
    last: Option<S>,
    event_type: MouseEventType,
    button: MouseButton,
    state: S,
)
    requires
        chained(events),
        events.len() > 0 ==> last == Some(events.last().state),
    ensures
        ({
            let after = events.push(recorded_event(event_type, button, state, last));
            &&& chained(after)
            &&& after.last().state == state
        }),
{
    let after = events.push(recorded_event(event_type, button, state, last));
    assert forall|k: int| 0 < k < after.len() implies (#[trigger] after[k]).last_state == Some(
        after[k - 1].state,
    ) by {
        if k < events.len() {
            assert(after[k] == events[k]);
        }
    }
}

} // verus!
