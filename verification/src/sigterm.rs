//! Saving the window geometry when the process is asked to terminate.
//!
//! The window-state plugin saves when the application quits through its own
//! event loop. It never sees a SIGTERM, so a task of its own waits for one,
//! saves, and then exits through the event loop.
//!
//! An [`Action`] is what is to be done next, an [`Event`] what came of it.

use vstd::prelude::*;

verus! {

/// What the task is to do next.
pub enum Action {
    /// Install the handler for SIGTERM.
    InstallHandler,
    /// Wait for a signal.
    AwaitSignal,
    /// Save all of the window state.
    SaveWindowState,
    /// Log [`save_warning`] of the error as a warning.
    Warn { error: String },
    /// Exit through the event loop, so that the rest of the shutdown still runs.
    Exit { code: i32 },
    /// Nothing: the task is over.
    Finish,
}

/// What came of an action.
pub enum Event {
    HandlerInstalled,
    /// The handler cannot be installed.
    HandlerRefused,
    /// Waiting is over. `delivered` is false where the stream of signals ended.
    Signal { delivered: bool },
    Saved,
    SaveFailed { error: String },
    Warned,
    ExitRequested,
}

impl Action {
    /// What to do first: only Unix has the signal.
    pub open spec fn spec_start(unix: bool) -> Action {
        if unix {
            Action::InstallHandler
        } else {
            Action::Finish
        }
    }

    /// What to do after `event`. One that does not answer the action changes nothing.
    pub open spec fn spec_next(self, event: Event) -> Action {
        match (self, event) {
            (Action::InstallHandler, Event::HandlerInstalled) => Action::AwaitSignal,
            (Action::InstallHandler, Event::HandlerRefused) => Action::Finish,
            (Action::AwaitSignal, Event::Signal { .. }) => Action::SaveWindowState,
            (Action::SaveWindowState, Event::Saved) => Action::Exit { code: 0 },
            (Action::SaveWindowState, Event::SaveFailed { error }) => Action::Warn { error },
            (Action::Warn { .. }, Event::Warned) => Action::Exit { code: 0 },
            (Action::Exit { .. }, Event::ExitRequested) => Action::Finish,
            (action, _) => action,
        }
    }

    /// The first action of the task.
    pub fn start(unix: bool) -> (action: Action)
        ensures
            action == Self::spec_start(unix),
            unix ==> action == Action::InstallHandler,
            !unix ==> action == Action::Finish,
    {
        if unix {
            Action::InstallHandler
        } else {
            Action::Finish
        }
    }

    /// The action that follows this one after `event`.
    ///
    /// Where the handler cannot be installed there is nothing to do: the
    /// application still exits on SIGTERM, without remembering where it was.
    /// Once waiting is over the state is saved, and the application exits with
    /// code 0 whether or not that worked.
    pub fn next(self, event: Event) -> (action: Action)
        ensures
            action == self.spec_next(event),
    {
        match (self, event) {
            (Action::InstallHandler, Event::HandlerInstalled) => Action::AwaitSignal,
            (Action::InstallHandler, Event::HandlerRefused) => Action::Finish,
            (Action::AwaitSignal, Event::Signal { .. }) => Action::SaveWindowState,
            (Action::SaveWindowState, Event::Saved) => Action::Exit { code: 0 },
            (Action::SaveWindowState, Event::SaveFailed { error }) => Action::Warn { error },
            (Action::Warn { .. }, Event::Warned) => Action::Exit { code: 0 },
            (Action::Exit { .. }, Event::ExitRequested) => Action::Finish,
            (action, _) => action,
        }
    }
}

/// The warning about window state that could not be saved.
pub fn save_warning(error: &str) -> (text: String)
    ensures
        text@ == "could not save window state on SIGTERM: "@ + error@,
{
    "could not save window state on SIGTERM: ".to_string().concat(error)
}

/// The action that is due after `events`, from the first one on.
pub open spec fn due(unix: bool, events: Seq<Event>) -> Action
    decreases events.len(),
{
    if events.len() == 0 {
        Action::spec_start(unix)
    } else {
        due(unix, events.drop_last()).spec_next(events.last())
    }
}

/// The actions that `events` answered, in order.
pub open spec fn done(unix: bool, events: Seq<Event>) -> Seq<Action>
    decreases events.len(),
{
    if events.len() == 0 {
        Seq::empty()
    } else {
        let before = due(unix, events.drop_last());
        let earlier = done(unix, events.drop_last());
        if before.spec_next(events.last()) != before {
            earlier.push(before)
        } else {
            earlier
        }
    }
}

/// The event came when the action was due, so that it answered it.
pub open spec fn answered(unix: bool, events: Seq<Event>, action: Action, event: Event) -> bool {
    exists|i: int|
        0 <= i < events.len() && due(unix, events.take(i)) == action && #[trigger] events[i] == event
}

/// What an event answered stays so, and the last one answers what was due before it.
proof fn lemma_answered(unix: bool, events: Seq<Event>)
    requires
        events.len() > 0,
    ensures
        forall|action: Action, event: Event| #[trigger]
            answered(unix, events.drop_last(), action, event) ==> answered(
                unix,
                events,
                action,
                event,
            ),
        answered(unix, events, due(unix, events.drop_last()), events.last()),
{
    let earlier = events.drop_last();
    assert forall|action: Action, event: Event| #[trigger]
        answered(unix, earlier, action, event) implies answered(unix, events, action, event) by {
        let i = choose|i: int|
            0 <= i < earlier.len() && due(unix, earlier.take(i)) == action && #[trigger] earlier[i]
                == event;
        assert(events.take(i) =~= earlier.take(i));
        assert(events[i] == event);
    }
    let last = events.len() - 1;
    assert(events.take(last) =~= earlier);
    assert(events[last] == events.last());
}

/// What is done up to the attempt to save.
pub open spec fn up_to_save() -> Seq<Action> {
    seq![Action::InstallHandler, Action::AwaitSignal, Action::SaveWindowState]
}

/// The error `error` of a failed attempt to save was logged after the attempt.
pub open spec fn up_to_warning(error: String) -> Seq<Action> {
    up_to_save().push(Action::Warn { error })
}

/// Everything up to the attempt to save was done, which worked, or else the
/// warning about what came of it as well.
pub open spec fn ends_saving(actions: Seq<Action>, unix: bool, events: Seq<Event>) -> bool {
    ||| actions == up_to_save() && answered(unix, events, Action::SaveWindowState, Event::Saved)
    ||| exists|error: String|
        actions == up_to_warning(error) && #[trigger] answered(
            unix,
            events,
            Action::SaveWindowState,
            Event::SaveFailed { error },
        )
}

/// Whatever happens, and in whatever order, the task has done one of a few
/// things. A warning is logged only about an attempt to save that failed, with
/// its error. The application exits only with code 0, and only after exactly one
/// attempt to save. The task ends having done nothing at all off Unix, having
/// only tried to install the handler, or after the exit.
pub proof fn law_what_is_done(unix: bool, events: Seq<Event>)
    ensures
        match due(unix, events) {
            Action::InstallHandler => unix && done(unix, events) == Seq::<Action>::empty(),
            Action::AwaitSignal => unix && done(unix, events) == seq![Action::InstallHandler],
            Action::SaveWindowState => unix && done(unix, events) == up_to_save().drop_last(),
            Action::Warn { error } => unix && done(unix, events) == up_to_save()
                && answered(
                unix,
                events,
                Action::SaveWindowState,
                Event::SaveFailed { error },
            ),
            Action::Exit { code } => unix && code == 0 && ends_saving(
                done(unix, events),
                unix,
                events,
            ),
            Action::Finish => {
                ||| !unix && done(unix, events) == Seq::<Action>::empty()
                ||| unix && done(unix, events) == seq![Action::InstallHandler]
                ||| unix && done(unix, events).len() > 0 && done(unix, events).last()
                    == (Action::Exit { code: 0 }) && ends_saving(
                    done(unix, events).drop_last(),
                    unix,
                    events,
                )
            },
        },
    decreases events.len(),
{
    if events.len() > 0 {
        let earlier = events.drop_last();
        law_what_is_done(unix, earlier);
        let before = due(unix, earlier);
        lemma_answered(unix, events);
        assert(up_to_save().drop_last().push(Action::SaveWindowState) =~= up_to_save());
        assert(done(unix, earlier).push(before).drop_last() =~= done(unix, earlier));
    }
}

/// Once a signal arrives the state is saved and the application exits with code
/// 0, whether the signal was delivered or its stream ended, and whether or not
/// saving worked.
pub proof fn law_exits_either_way(events: Seq<Event>, delivered: bool, error: String)
    requires
        due(true, events) == Action::AwaitSignal,
    ensures
        due(true, events.push(Event::Signal { delivered })) == Action::SaveWindowState,
        due(true, events.push(Event::Signal { delivered }).push(Event::Saved)) == (Action::Exit {
            code: 0,
        }),
        due(
            true,
            events.push(Event::Signal { delivered }).push(Event::SaveFailed { error }).push(
                Event::Warned,
            ),
        ) == (Action::Exit { code: 0 }),
{
    let woken = events.push(Event::Signal { delivered });
    let failed = woken.push(Event::SaveFailed { error });
    assert(woken.drop_last() =~= events);
    assert(woken.push(Event::Saved).drop_last() =~= woken);
    assert(failed.drop_last() =~= woken);
    assert(due(true, failed) == Action::Warn { error });
    assert(failed.push(Event::Warned).drop_last() =~= failed);
}

/// Where the handler cannot be installed, nothing is ever done after that; off
/// Unix nothing is ever done at all.
pub proof fn law_without_handler(unix: bool, events: Seq<Event>)
    requires
        !unix || (events.len() > 0 && events[0] == Event::HandlerRefused),
    ensures
        due(unix, events) == Action::Finish,
        done(unix, events).len() == (if unix { 1nat } else { 0 }),
    decreases events.len(),
{
    if events.len() > 1 || (!unix && events.len() > 0) {
        law_without_handler(unix, events.drop_last());
    } else if events.len() == 1 {
        assert(due(unix, events.drop_last()) == Action::spec_start(unix));
        assert(done(unix, events.drop_last()).len() == 0);
    }
}

/// Whatever an event carries, it moves the task on from the action that it
/// answers, with what it carries, and changes nothing otherwise.
pub proof fn law_each_event(action: Action, event: Event)
    ensures
        match event {
            Event::HandlerInstalled => if action is InstallHandler {
                action.spec_next(event) is AwaitSignal
            } else {
                action.spec_next(event) == action
            },
            Event::HandlerRefused => if action is InstallHandler {
                action.spec_next(event) is Finish
            } else {
                action.spec_next(event) == action
            },
            Event::Signal { .. } => if action is AwaitSignal {
                action.spec_next(event) is SaveWindowState
            } else {
                action.spec_next(event) == action
            },
            Event::Saved => if action is SaveWindowState {
                action.spec_next(event) == (Action::Exit { code: 0 })
            } else {
                action.spec_next(event) == action
            },
            Event::SaveFailed { error } => if action is SaveWindowState {
                action.spec_next(event) == (Action::Warn { error })
            } else {
                action.spec_next(event) == action
            },
            Event::Warned => if action is Warn {
                action.spec_next(event) == (Action::Exit { code: 0 })
            } else {
                action.spec_next(event) == action
            },
            Event::ExitRequested => if action is Exit {
                action.spec_next(event) is Finish
            } else {
                action.spec_next(event) == action
            },
        },
{
}

/// How many actions are behind the task is told by the one that is due. So none
/// is done twice, and since every answer moves on, a task whose actions are
/// answered comes to an end after at most five of them.
pub proof fn law_comes_to_an_end(unix: bool, events: Seq<Event>)
    ensures
        ({
            let n = done(unix, events).len();
            match due(unix, events) {
                Action::InstallHandler => n == 0,
                Action::AwaitSignal => n == 1,
                Action::SaveWindowState => n == 2,
                Action::Warn { .. } => n == 3,
                Action::Exit { .. } => n == 3 || n == 4,
                Action::Finish => n <= 5 && (unix ==> n > 0),
            }
        }),
    decreases events.len(),
{
    if events.len() > 0 {
        law_comes_to_an_end(unix, events.drop_last());
        law_each_event(due(unix, events.drop_last()), events.last());
    }
}

} // verus!
