use k7s_lib::sigterm::{save_warning, Action, Event};

fn run(unix: bool, events: Vec<Event>) -> Action {
    let mut action = Action::start(unix);
    for event in events {
        action = action.next(event);
    }
    action
}

#[test]
fn a_signal_saves_and_exits() {
    assert!(matches!(run(true, vec![]), Action::InstallHandler));
    assert!(matches!(run(true, vec![Event::HandlerInstalled]), Action::AwaitSignal));
    let woken = || vec![Event::HandlerInstalled, Event::Signal { delivered: true }];
    assert!(matches!(run(true, woken()), Action::SaveWindowState));
    let mut saved = woken();
    saved.push(Event::Saved);
    assert!(matches!(run(true, saved), Action::Exit { code: 0 }));
    let mut over = woken();
    over.push(Event::Saved);
    over.push(Event::ExitRequested);
    assert!(matches!(run(true, over), Action::Finish));
}

#[test]
fn a_failed_save_is_logged_before_the_exit() {
    let failed = || {
        vec![
            Event::HandlerInstalled,
            Event::Signal { delivered: true },
            Event::SaveFailed { error: "disk full".to_string() },
        ]
    };
    match run(true, failed()) {
        Action::Warn { error } => assert_eq!(
            save_warning(&error),
            "could not save window state on SIGTERM: disk full"
        ),
        _ => panic!("the failure is not logged"),
    }
    let mut warned = failed();
    warned.push(Event::Warned);
    assert!(matches!(run(true, warned), Action::Exit { code: 0 }));
}

#[test]
fn an_ended_stream_counts_as_a_signal() {
    let events = vec![Event::HandlerInstalled, Event::Signal { delivered: false }];
    assert!(matches!(run(true, events), Action::SaveWindowState));
}

#[test]
fn without_a_handler_nothing_is_done() {
    assert!(matches!(run(true, vec![Event::HandlerRefused]), Action::Finish));
    let late = vec![Event::HandlerRefused, Event::Signal { delivered: true }];
    assert!(matches!(run(true, late), Action::Finish));
}

#[test]
fn off_unix_nothing_is_done() {
    assert!(matches!(run(false, vec![]), Action::Finish));
    assert!(matches!(run(false, vec![Event::HandlerInstalled]), Action::Finish));
}

#[test]
fn an_event_out_of_turn_changes_nothing() {
    assert!(matches!(run(true, vec![Event::Saved]), Action::InstallHandler));
    let early = vec![Event::HandlerInstalled, Event::Saved, Event::ExitRequested];
    assert!(matches!(run(true, early), Action::AwaitSignal));
}
