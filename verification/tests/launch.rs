use k7s_lib::launch::{
    after_crypto, after_logging, config_dir_failure, init_logging, install_crypto, logging_failure,
    run_failure, try_init_logging, Outcome, SetupOutcome, SetupStep, Step,
};

fn after(n: usize) -> Step {
    let mut step = Step::InitLogging;
    for _ in 0..n {
        step = step.next(Outcome::Done);
    }
    step
}

fn failed(error: &str) -> Outcome {
    Outcome::Failed { error: error.to_string() }
}

#[test]
fn the_steps_come_in_order() {
    assert!(matches!(after(0), Step::InitLogging));
    assert!(matches!(after(1), Step::InstallCrypto));
    assert!(matches!(after(2), Step::AddShellPlugin));
    assert!(matches!(after(3), Step::AddDialogPlugin));
    assert!(matches!(after(4), Step::AddWindowStatePlugin));
    assert!(matches!(after(5), Step::RegisterSetup));
    assert!(matches!(after(6), Step::RegisterCommands));
    assert!(matches!(after(7), Step::RunEventLoop));
    assert!(matches!(after(8), Step::Finish));
    assert!(matches!(after(9), Step::Finish));
}

#[test]
fn a_refused_crypto_provider_is_ignored() {
    assert!(matches!(after(1).next(failed("installed already")), Step::AddShellPlugin));
}

#[test]
fn a_failed_event_loop_aborts_with_its_error() {
    match after(7).next(failed("no display")) {
        Step::AbortRun { error } => assert_eq!(
            run_failure(&error),
            "error while running k7s application: no display"
        ),
        _ => panic!("the failure is lost"),
    }
}

#[test]
fn a_failure_of_a_step_that_cannot_fail_changes_nothing() {
    assert!(matches!(after(2).next(failed("?")), Step::AddShellPlugin));
    assert!(matches!(after(5).next(failed("?")), Step::RegisterSetup));
}

#[test]
fn the_setup_shares_state_and_watches_for_sigterm() {
    let step = SetupStep::CreateManager.next(SetupOutcome::Created { manager: 7 });
    assert!(matches!(step, SetupStep::ResolveConfigDir { manager: 7 }));
    let step = step.next(SetupOutcome::Resolved { dir: "/home/me/.config/k7s" });
    assert!(matches!(step, SetupStep::ManageState { manager: 7, dir: "/home/me/.config/k7s" }));
    let step = step.next(SetupOutcome::Done);
    assert!(matches!(step, SetupStep::ManageAiRuntime));
    let step = step.next(SetupOutcome::Done);
    assert!(matches!(step, SetupStep::WatchSigterm));
    let step = step.next(SetupOutcome::Done);
    assert!(matches!(step, SetupStep::Succeed));
    assert!(matches!(step.next(SetupOutcome::Done), SetupStep::Succeed));
}

#[test]
fn a_missing_directory_ends_the_setup() {
    let step: SetupStep<u8, &str> = SetupStep::CreateManager
        .next(SetupOutcome::Created { manager: 7 })
        .next(SetupOutcome::Failed { error: "unknown path".to_string() });
    match step.next(SetupOutcome::Resolved { dir: "/tmp" }) {
        SetupStep::Fail { error } => {
            assert_eq!(config_dir_failure(&error), "no config dir: unknown path")
        }
        _ => panic!("the setup went on"),
    }
}

#[test]
fn an_outcome_of_another_step_changes_nothing() {
    let step: SetupStep<u8, &str> = SetupStep::CreateManager;
    let step = step.next(SetupOutcome::Resolved { dir: "/tmp" }).next(SetupOutcome::Done);
    assert!(matches!(step, SetupStep::CreateManager));
    let step = step.next(SetupOutcome::Created { manager: 1 });
    let step = step.next(SetupOutcome::Created { manager: 2 });
    assert!(matches!(step, SetupStep::ResolveConfigDir { manager: 1 }));
}

#[test]
fn logging_is_set_up_once() {
    let first = try_init_logging(Some("warn")).unwrap();
    assert!(matches!(first.step, Step::InstallCrypto));
    assert_eq!(first.attempt.directives(), "warn");
    assert_eq!(first.attempt.refusal(), None);
    assert_eq!(
        tracing_subscriber::filter::LevelFilter::current(),
        tracing_subscriber::filter::LevelFilter::WARN
    );
    let second = init_logging(None);
    assert_eq!(second.attempt.directives(), "info");
    let refusal = second.attempt.refusal().unwrap().to_string();
    assert!(!refusal.is_empty());
    match second.step {
        Step::AbortLogging { error } => assert_eq!(
            logging_failure(&error),
            format!("Unable to install global subscriber: {refusal}")
        ),
        _ => panic!("a second subscriber was installed"),
    }
    let third = try_init_logging(Some("info,kube=debug")).unwrap();
    assert_eq!(third.attempt.directives(), "kube=debug,info");
    assert!(matches!(after_logging(third.attempt).step, Step::AbortLogging { .. }));
    assert!(matches!(after_logging(first.attempt).step, Step::InstallCrypto));
}

#[test]
fn a_value_that_would_split_a_character_is_left_alone() {
    assert!(try_init_logging(Some("\u{3000}a=info")).is_none());
    assert!(try_init_logging(Some(" \u{e9}=info")).is_none());
}

#[test]
fn ring_is_the_default_provider_after_the_step() {
    assert!(rustls::crypto::CryptoProvider::get_default().is_none());
    let first = install_crypto();
    assert!(matches!(first.step, Step::AddShellPlugin));
    assert!(first.attempt.is_installed());
    assert!(rustls::crypto::CryptoProvider::get_default().is_some());
    let second = install_crypto();
    assert!(matches!(second.step, Step::AddShellPlugin));
    assert!(!second.attempt.is_installed());
    assert!(matches!(after_crypto(second.attempt).step, Step::AddShellPlugin));
}

#[test]
fn a_process_that_cannot_log_aborts() {
    match after(0).next(failed("set already")) {
        Step::AbortLogging { error } => assert_eq!(
            logging_failure(&error),
            "Unable to install global subscriber: set already"
        ),
        _ => panic!("the failure is lost"),
    }
}
