//! How the application starts.
//!
//! Two sequences of steps: [`Step`] leads up to the event loop, and
//! [`SetupStep`] runs inside it, once, before the first window shows. A step is
//! what is to be done next, an [`Outcome`] or a [`SetupOutcome`] what came of it.

use crate::log_filter::{is_sliceable, log_filter};
use crate::process::{install_ring, install_subscriber, Process, RingAttempt, SubscriberAttempt};
use vstd::prelude::*;

verus! {

/// What came of a step.
pub enum Outcome {
    Done,
    Failed { error: String },
}

/// What starting the application does next.
pub enum Step {
    /// Log to stderr, by the filter that `RUST_LOG` asks for.
    InitLogging,
    /// Make ring the process's default crypto provider.
    InstallCrypto,
    /// The plugin that opens links of the UI in the user's browser.
    AddShellPlugin,
    /// The plugin with the native file picker.
    AddDialogPlugin,
    /// The plugin that remembers the window's size, position and monitor.
    AddWindowStatePlugin,
    /// Hand over the setup that [`SetupStep`] describes.
    RegisterSetup,
    /// Register the commands that the frontend calls.
    RegisterCommands,
    /// Run the event loop until the application quits.
    RunEventLoop,
    /// Panic with [`logging_failure`] of the error.
    AbortLogging { error: String },
    /// Panic with [`run_failure`] of the error.
    AbortRun { error: String },
    /// Nothing: the application has quit.
    Finish,
}

/// What came of a setup step.
pub enum SetupOutcome<M, D> {
    Done,
    /// The manager was made.
    Created { manager: M },
    /// The directory was found.
    Resolved { dir: D },
    Failed { error: String },
}

/// What setting up the running application does next, with a manager `M` and a
/// directory `D`.
pub enum SetupStep<M, D> {
    /// Make the client manager, which sends its events to the webview.
    CreateManager,
    /// Ask where the configuration of the application lives.
    ResolveConfigDir { manager: M },
    /// Share the core state, made of the manager and that directory.
    ManageState { manager: M, dir: D },
    /// Share the runtime of the AI assistant.
    ManageAiRuntime,
    /// Start the task that saves the window geometry on SIGTERM.
    WatchSigterm,
    /// Report [`config_dir_failure`] of the error.
    Fail { error: String },
    /// Nothing: the application is set up.
    Succeed,
}

impl Step {
    /// What to do after `outcome`. A crypto provider that was installed before
    /// is as good as a new one, so that outcome is ignored. Of the other steps
    /// only logging and the event loop can fail.
    pub open spec fn spec_next(self, outcome: Outcome) -> Step {
        match (self, outcome) {
            (Step::InitLogging, Outcome::Done) => Step::InstallCrypto,
            (Step::InitLogging, Outcome::Failed { error }) => Step::AbortLogging { error },
            (Step::InstallCrypto, _) => Step::AddShellPlugin,
            (Step::AddShellPlugin, Outcome::Done) => Step::AddDialogPlugin,
            (Step::AddDialogPlugin, Outcome::Done) => Step::AddWindowStatePlugin,
            (Step::AddWindowStatePlugin, Outcome::Done) => Step::RegisterSetup,
            (Step::RegisterSetup, Outcome::Done) => Step::RegisterCommands,
            (Step::RegisterCommands, Outcome::Done) => Step::RunEventLoop,
            (Step::RunEventLoop, Outcome::Done) => Step::Finish,
            (Step::RunEventLoop, Outcome::Failed { error }) => Step::AbortRun { error },
            (step, _) => step,
        }
    }

    /// The step that follows this one after `outcome`. An outcome that does not
    /// answer the step changes nothing.
    pub fn next(self, outcome: Outcome) -> (step: Step)
        ensures
            step == self.spec_next(outcome),
    {
        match outcome {
            Outcome::Done => match self {
                Step::InitLogging => Step::InstallCrypto,
                Step::InstallCrypto => Step::AddShellPlugin,
                Step::AddShellPlugin => Step::AddDialogPlugin,
                Step::AddDialogPlugin => Step::AddWindowStatePlugin,
                Step::AddWindowStatePlugin => Step::RegisterSetup,
                Step::RegisterSetup => Step::RegisterCommands,
                Step::RegisterCommands => Step::RunEventLoop,
                Step::RunEventLoop => Step::Finish,
                other => other,
            },
            Outcome::Failed { error } => match self {
                Step::InitLogging => Step::AbortLogging { error },
                Step::InstallCrypto => Step::AddShellPlugin,
                Step::RunEventLoop => Step::AbortRun { error },
                other => other,
            },
        }
    }
}

impl<M, D> SetupStep<M, D> {
    /// What to do after `outcome`. The manager and the directory are handed on as
    /// they came. Only the directory can be missing, which ends the setup.
    pub open spec fn spec_next(self, outcome: SetupOutcome<M, D>) -> SetupStep<M, D> {
        match (self, outcome) {
            (SetupStep::CreateManager, SetupOutcome::Created { manager }) => {
                SetupStep::ResolveConfigDir { manager }
            },
            (SetupStep::ResolveConfigDir { manager }, SetupOutcome::Resolved { dir }) => {
                SetupStep::ManageState { manager, dir }
            },
            (SetupStep::ResolveConfigDir { .. }, SetupOutcome::Failed { error }) => {
                SetupStep::Fail { error }
            },
            (SetupStep::ManageState { .. }, SetupOutcome::Done) => SetupStep::ManageAiRuntime,
            (SetupStep::ManageAiRuntime, SetupOutcome::Done) => SetupStep::WatchSigterm,
            (SetupStep::WatchSigterm, SetupOutcome::Done) => SetupStep::Succeed,
            (step, _) => step,
        }
    }

    /// The step that follows this one after `outcome`. An outcome that does not
    /// answer the step changes nothing.
    pub fn next(self, outcome: SetupOutcome<M, D>) -> (step: SetupStep<M, D>)
        ensures
            step == self.spec_next(outcome),
    {
        match (self, outcome) {
            (SetupStep::CreateManager, SetupOutcome::Created { manager }) => {
                SetupStep::ResolveConfigDir { manager }
            },
            (SetupStep::ResolveConfigDir { manager }, SetupOutcome::Resolved { dir }) => {
                SetupStep::ManageState { manager, dir }
            },
            (SetupStep::ResolveConfigDir { .. }, SetupOutcome::Failed { error }) => {
                SetupStep::Fail { error }
            },
            (SetupStep::ManageState { .. }, SetupOutcome::Done) => SetupStep::ManageAiRuntime,
            (SetupStep::ManageAiRuntime, SetupOutcome::Done) => SetupStep::WatchSigterm,
            (SetupStep::WatchSigterm, SetupOutcome::Done) => SetupStep::Succeed,
            (step, _) => step,
        }
    }
}

/// What came of [`Step::InitLogging`].
pub struct Logging {
    /// The step that comes next.
    pub step: Step,
    /// The attempt to install the subscriber.
    pub attempt: SubscriberAttempt,
}

/// The step is the one that follows the attempt: crypto where it succeeded, else
/// the start is over, with the error that the attempt failed with.
pub open spec fn follows_logging(step: Step, attempt: SubscriberAttempt) -> bool {
    match attempt.refused() {
        Some(text) => step matches Step::AbortLogging { error } && error@ == text,
        None => step == Step::InstallCrypto,
    }
}

/// What follows an attempt to install the subscriber.
pub fn after_logging(attempt: SubscriberAttempt) -> (logging: Logging)
    ensures
        logging.attempt == attempt,
        follows_logging(logging.step, attempt),
        attempt.refused() is None ==> logging.step == Step::InstallCrypto,
        attempt.refused() matches Some(text) ==> (logging.step matches Step::AbortLogging { error }
            && error@ == text),
{
    let outcome: Outcome = match attempt.refusal() {
        Some(error) => Outcome::Failed { error: error.to_string() },
        None => Outcome::Done,
    };
    Logging { step: Step::InitLogging.next(outcome), attempt }
}

/// The attempt goes by what the value of `RUST_LOG` asks for: by its directives
/// where it parses, and by `info` only where it is missing or does not.
pub open spec fn goes_by_rust_log(attempt: SubscriberAttempt, rust_log: Option<&str>) -> bool {
    &&& attempt.goes_by() == crate::log_filter::directives_for(rust_log)
    &&& rust_log is None ==> attempt.goes_by() == "info"@
    &&& rust_log matches Some(text) ==> match crate::log_filter::parsed_directives(text@) {
        Some(directives) => attempt.goes_by() == directives,
        None => attempt.goes_by() == "info"@,
    }
    &&& rust_log matches Some(text) ==> crate::log_filter::is_level_name(text@)
        ==> attempt.goes_by() == text@
    &&& rust_log matches Some(text) ==> text@.len() == 0 ==> attempt.goes_by() == text@
}

/// Does [`Step::InitLogging`] in a process: asks it once to log to stderr by the
/// directives that the value of `RUST_LOG` asks for. Crypto comes next; where the
/// subscriber could not be installed, as in a process that was asked for one
/// before, the start is over.
pub fn init_logging_of(process: &mut Process, rust_log: Option<&str>) -> (logging: Logging)
    requires
        rust_log matches Some(text) ==> crate::log_filter::sliceable(text@),
    ensures
        goes_by_rust_log(logging.attempt, rust_log),
        final(process).subscribers() == old(process).subscribers().push(logging.attempt.goes_by()),
        final(process).rings() == old(process).rings(),
        logging.attempt.earlier() == old(process).subscribers().len(),
        old(process).subscribers().len() > 0 ==> logging.step is AbortLogging,
        logging.attempt.refused() is None ==> logging.step == Step::InstallCrypto,
        logging.attempt.refused() matches Some(text) ==> (
        logging.step matches Step::AbortLogging { error } && error@ == text),
{
    after_logging(install_subscriber(process, log_filter(rust_log)))
}

/// [`init_logging_of`] for any value of `RUST_LOG`: `None`, with nothing asked,
/// where parsing the value would split a character.
pub fn try_init_logging_of(process: &mut Process, rust_log: Option<&str>) -> (logging: Option<
    Logging,
>)
    ensures
        logging is None <==> (rust_log matches Some(text) && !crate::log_filter::sliceable(text@)),
        logging is None ==> final(process).subscribers() == old(process).subscribers(),
        final(process).rings() == old(process).rings(),
        logging matches Some(logging) ==> {
            &&& goes_by_rust_log(logging.attempt, rust_log)
            &&& final(process).subscribers() == old(process).subscribers().push(
                logging.attempt.goes_by(),
            )
            &&& logging.attempt.earlier() == old(process).subscribers().len()
            &&& old(process).subscribers().len() > 0 ==> logging.step is AbortLogging
            &&& logging.attempt.refused() is None ==> logging.step == Step::InstallCrypto
            &&& logging.attempt.refused() matches Some(text) ==> (
            logging.step matches Step::AbortLogging { error } && error@ == text)
        },
{
    match rust_log {
        Some(text) => if is_sliceable(text) {
            Some(init_logging_of(process, rust_log))
        } else {
            None
        },
        None => Some(init_logging_of(process, None)),
    }
}

/// Does [`Step::InitLogging`]: asks the process to log to stderr by the
/// directives that the value of `RUST_LOG` asks for. Crypto comes next; where the
/// subscriber could not be installed the start is over.
pub fn init_logging(rust_log: Option<&str>) -> (logging: Logging)
    requires
        rust_log matches Some(text) ==> crate::log_filter::sliceable(text@),
    ensures
        logging.attempt.goes_by() == crate::log_filter::directives_for(rust_log),
        rust_log matches Some(text) ==> crate::log_filter::is_level_name(text@)
            ==> logging.attempt.goes_by() == text@,
        rust_log matches Some(text) ==> text@.len() == 0 ==> logging.attempt.goes_by() == text@,
        follows_logging(logging.step, logging.attempt),
        rust_log is None ==> logging.attempt.goes_by() == "info"@,
        rust_log matches Some(text) ==> match crate::log_filter::parsed_directives(text@) {
            Some(directives) => logging.attempt.goes_by() == directives,
            None => logging.attempt.goes_by() == "info"@,
        },
        logging.attempt.earlier() == 0,
        logging.attempt.refused() is None ==> logging.step == Step::InstallCrypto,
        logging.attempt.refused() matches Some(text) ==> (
        logging.step matches Step::AbortLogging { error } && error@ == text),
{
    try_init_logging(rust_log).unwrap()
}

/// [`init_logging`] where `RUST_LOG` is unset or not Unicode, which leaves nothing
/// to parse.
pub fn init_default_logging() -> (logging: Logging)
    ensures
        logging.attempt.goes_by() == "info"@,
        logging.attempt.earlier() == 0,
        logging.attempt.refused() is None ==> logging.step == Step::InstallCrypto,
        logging.attempt.refused() matches Some(text) ==> (
        logging.step matches Step::AbortLogging { error } && error@ == text),
{
    init_logging(None)
}

/// [`init_logging`] for any value of `RUST_LOG`: `None`, with nothing done, where
/// parsing the value would split a character. The process is asked for one
/// subscriber, and what comes back is that attempt.
pub fn try_init_logging(rust_log: Option<&str>) -> (logging: Option<Logging>)
    ensures
        logging is None <==> (rust_log matches Some(text) && !crate::log_filter::sliceable(text@)),
        logging matches Some(logging) ==> logging.attempt.goes_by()
            == crate::log_filter::directives_for(rust_log),
        rust_log matches Some(text) ==> crate::log_filter::is_level_name(text@) ==> (
        logging matches Some(logging) && logging.attempt.goes_by() == text@),
        rust_log matches Some(text) ==> text@.len() == 0 ==> (logging matches Some(logging)
            && logging.attempt.goes_by() == text@),
        logging matches Some(logging) ==> follows_logging(logging.step, logging.attempt),
        logging matches Some(logging) ==> rust_log is None ==> logging.attempt.goes_by()
            == "info"@,
        logging matches Some(logging) ==> rust_log matches Some(text)
            ==> match crate::log_filter::parsed_directives(text@) {
            Some(directives) => logging.attempt.goes_by() == directives,
            None => logging.attempt.goes_by() == "info"@,
        },
        logging matches Some(logging) ==> logging.attempt.earlier() == 0,
        logging matches Some(logging) ==> logging.attempt.refused() is None ==> logging.step
            == Step::InstallCrypto,
        logging matches Some(logging) ==> logging.attempt.refused() matches Some(text) ==> (
        logging.step matches Step::AbortLogging { error } && error@ == text),
{
    proof {
        if let Some(text) = rust_log {
            lemma_plain_values_sliceable(text@);
        }
    }
    let mut process: Process = Process::new();
    try_init_logging_of(&mut process, rust_log)
}

/// The name of a level, and the empty text, can be parsed.
proof fn lemma_plain_values_sliceable(text: Seq<char>)
    ensures
        crate::log_filter::is_level_name(text) || text.len() == 0 ==> crate::log_filter::sliceable(
            text,
        ),
{
    reveal_strlit("off");
    reveal_strlit("error");
    reveal_strlit("warn");
    reveal_strlit("info");
    reveal_strlit("debug");
    reveal_strlit("trace");
    if crate::log_filter::is_level_name(text) || text.len() == 0 {
        assert(crate::log_filter::is_ascii_text(text));
        crate::log_filter::law_sliceable_texts(text);
    }
}

/// What came of [`Step::InstallCrypto`].
pub struct Crypto {
    /// The step that comes next.
    pub step: Step,
    /// The attempt to install ring.
    pub attempt: RingAttempt,
}

/// What follows the attempt to install ring: the plugins, whatever came of it.
pub fn after_crypto(attempt: RingAttempt) -> (crypto: Crypto)
    ensures
        crypto == (Crypto { step: Step::AddShellPlugin, attempt }),
{
    let outcome: Outcome = if attempt.is_installed() {
        Outcome::Done
    } else {
        Outcome::Failed { error: String::new() }
    };
    Crypto { step: Step::InstallCrypto.next(outcome), attempt }
}

/// Does [`Step::InstallCrypto`] in a process: asks it once to take ring as its
/// default crypto provider. The plugins come next whatever came of it.
pub fn install_crypto_of(process: &mut Process) -> (crypto: Crypto)
    ensures
        crypto.step == Step::AddShellPlugin,
        crypto.attempt.earlier() == old(process).rings().len(),
        old(process).rings().len() > 0 ==> !crypto.attempt.won(),
        final(process).rings() == old(process).rings().push(crypto.attempt.won()),
        final(process).subscribers() == old(process).subscribers(),
{
    after_crypto(install_ring(process))
}

/// Does [`Step::InstallCrypto`]: asks the process to take ring as its default
/// crypto provider. The plugins come next whatever came of it.
pub fn install_crypto() -> (crypto: Crypto)
    ensures
        crypto.step == Step::AddShellPlugin,
        crypto.attempt.earlier() == 0,
{
    let mut process: Process = Process::new();
    install_crypto_of(&mut process)
}

/// The panic of an application that cannot log.
pub fn logging_failure(error: &str) -> (text: String)
    ensures
        text@ == "Unable to install global subscriber: "@ + error@,
{
    "Unable to install global subscriber: ".to_string().concat(error)
}

/// The panic of an application whose event loop failed.
pub fn run_failure(error: &str) -> (text: String)
    ensures
        text@ == "error while running k7s application: "@ + error@,
{
    "error while running k7s application: ".to_string().concat(error)
}

/// The error of a setup without a directory for the configuration.
pub fn config_dir_failure(error: &str) -> (text: String)
    ensures
        text@ == "no config dir: "@ + error@,
{
    "no config dir: ".to_string().concat(error)
}

/// Whatever the error of an outcome is, the outcome moves the start on or leaves
/// it where it is by the step alone: success leads from each step to the one
/// after it, and a failure counts only of logging, of the crypto provider, where
/// it is as good as success, and of the event loop.
pub proof fn law_each_outcome(step: Step, outcome: Outcome)
    ensures
        outcome is Done ==> match step {
            Step::InitLogging => step.spec_next(outcome) == Step::InstallCrypto,
            Step::InstallCrypto => step.spec_next(outcome) == Step::AddShellPlugin,
            Step::AddShellPlugin => step.spec_next(outcome) == Step::AddDialogPlugin,
            Step::AddDialogPlugin => step.spec_next(outcome) == Step::AddWindowStatePlugin,
            Step::AddWindowStatePlugin => step.spec_next(outcome) == Step::RegisterSetup,
            Step::RegisterSetup => step.spec_next(outcome) == Step::RegisterCommands,
            Step::RegisterCommands => step.spec_next(outcome) == Step::RunEventLoop,
            Step::RunEventLoop => step.spec_next(outcome) == Step::Finish,
            over => step.spec_next(outcome) == over,
        },
        outcome matches Outcome::Failed { error } ==> {
            &&& step is InitLogging ==> step.spec_next(outcome) == (Step::AbortLogging { error })
            &&& step is InstallCrypto ==> step.spec_next(outcome) == step.spec_next(Outcome::Done)
            &&& step is RunEventLoop ==> step.spec_next(outcome) == (Step::AbortRun { error })
            &&& !(step is InitLogging) && !(step is InstallCrypto) && !(step is RunEventLoop)
                ==> step.spec_next(outcome) == step
        },
{
}

/// Whatever an outcome of a setup step carries, it moves the setup on where it
/// answers the step, with what it carries, and else changes nothing.
pub proof fn law_each_setup_outcome<M, D>(step: SetupStep<M, D>, outcome: SetupOutcome<M, D>)
    ensures
        match outcome {
            SetupOutcome::Created { manager } => if step is CreateManager {
                step.spec_next(outcome) == (SetupStep::<M, D>::ResolveConfigDir { manager })
            } else {
                step.spec_next(outcome) == step
            },
            SetupOutcome::Resolved { dir } => match step {
                SetupStep::ResolveConfigDir { manager } => step.spec_next(outcome) == (
                SetupStep::<M, D>::ManageState { manager, dir }),
                _ => step.spec_next(outcome) == step,
            },
            SetupOutcome::Failed { error } => if step is ResolveConfigDir {
                step.spec_next(outcome) == (SetupStep::<M, D>::Fail { error })
            } else {
                step.spec_next(outcome) == step
            },
            SetupOutcome::Done => {
                &&& step is ManageState ==> step.spec_next(outcome) is ManageAiRuntime
                &&& step is ManageAiRuntime ==> step.spec_next(outcome) is WatchSigterm
                &&& step is WatchSigterm ==> step.spec_next(outcome) is Succeed
                &&& !(step is ManageState) && !(step is ManageAiRuntime) && !(step is WatchSigterm)
                    ==> step.spec_next(outcome) == step
            },
        },
{
}

/// The step that is due after `outcomes`, from logging on.
pub open spec fn due(outcomes: Seq<Outcome>) -> Step
    decreases outcomes.len(),
{
    if outcomes.len() == 0 {
        Step::InitLogging
    } else {
        due(outcomes.drop_last()).spec_next(outcomes.last())
    }
}

/// The steps that `outcomes` answered, in order.
pub open spec fn done(outcomes: Seq<Outcome>) -> Seq<Step>
    decreases outcomes.len(),
{
    if outcomes.len() == 0 {
        Seq::empty()
    } else {
        let before = due(outcomes.drop_last());
        let earlier = done(outcomes.drop_last());
        if before.spec_next(outcomes.last()) != before {
            earlier.push(before)
        } else {
            earlier
        }
    }
}

/// The step failed with the error when it was due.
pub open spec fn failed_at(outcomes: Seq<Outcome>, step: Step, error: String) -> bool {
    exists|i: int|
        0 <= i < outcomes.len() && due(outcomes.take(i)) == step && #[trigger] outcomes[i] == (
        Outcome::Failed { error })
}

/// The steps of a start, in order.
pub open spec fn plan() -> Seq<Step> {
    seq![
        Step::InitLogging,
        Step::InstallCrypto,
        Step::AddShellPlugin,
        Step::AddDialogPlugin,
        Step::AddWindowStatePlugin,
        Step::RegisterSetup,
        Step::RegisterCommands,
        Step::RunEventLoop,
    ]
}

/// Whatever comes of them, the steps are done in the one order, each at most
/// once. So logging is up before anything else, the crypto provider has been
/// chosen before the event loop runs, which is where connections are made, and
/// the loop runs with all three plugins, the setup and the commands. The start
/// gives up only on logging, with nothing else done, or on the event loop.
pub proof fn law_steps_in_order(outcomes: Seq<Outcome>)
    ensures
        match due(outcomes) {
            Step::AbortLogging { .. } => done(outcomes) == plan().take(1),
            Step::AbortRun { .. } => done(outcomes) == plan(),
            Step::Finish => done(outcomes) == plan(),
            step => {
                &&& done(outcomes).len() < plan().len()
                &&& done(outcomes) == plan().take(done(outcomes).len() as int)
                &&& step == plan()[done(outcomes).len() as int]
            },
        },
    decreases outcomes.len(),
{
    if outcomes.len() > 0 {
        law_steps_in_order(outcomes.drop_last());
        let n = done(outcomes.drop_last()).len() as int;
        if n < plan().len() {
            assert(plan().take(n).push(plan()[n]) =~= plan().take(n + 1));
        }
        assert(plan().take(8) =~= plan());
    } else {
        assert(plan().take(0) =~= Seq::<Step>::empty());
    }
}

/// A step that is done is never due again: with every step done, the start gets
/// through.
pub proof fn law_done_moves_on(outcomes: Seq<Outcome>)
    ensures
        done(outcomes).len() < plan().len() && !(due(outcomes) is AbortLogging) ==> done(
            outcomes.push(Outcome::Done),
        ).len() == done(outcomes).len() + 1,
{
    law_steps_in_order(outcomes);
    assert(outcomes.push(Outcome::Done).drop_last() =~= outcomes);
}

/// The start goes on in the same way whether or not the crypto provider could
/// be installed.
pub proof fn law_crypto_outcome_is_ignored(outcomes: Seq<Outcome>, error: String)
    requires
        due(outcomes) == Step::InstallCrypto,
    ensures
        due(outcomes.push(Outcome::Failed { error })) == Step::AddShellPlugin,
        due(outcomes.push(Outcome::Done)) == Step::AddShellPlugin,
        done(outcomes.push(Outcome::Failed { error })) == done(outcomes.push(Outcome::Done)),
{
    assert(outcomes.push(Outcome::Failed { error }).drop_last() =~= outcomes);
    assert(outcomes.push(Outcome::Done).drop_last() =~= outcomes);
}

/// The start gives up only on the step that failed, with the error that it
/// failed with.
pub proof fn law_abort_reports_its_step(outcomes: Seq<Outcome>)
    ensures
        match due(outcomes) {
            Step::AbortLogging { error } => failed_at(outcomes, Step::InitLogging, error),
            Step::AbortRun { error } => failed_at(outcomes, Step::RunEventLoop, error),
            _ => true,
        },
    decreases outcomes.len(),
{
    if outcomes.len() > 0 {
        let earlier = outcomes.drop_last();
        let last = outcomes.len() - 1;
        law_abort_reports_its_step(earlier);
        assert(outcomes.take(last) =~= earlier);
        assert(outcomes[last] == outcomes.last());
        assert forall|step: Step, error: String| failed_at(earlier, step, error) implies failed_at(
            outcomes,
            step,
            error,
        ) by {
            let i = choose|i: int|
                0 <= i < earlier.len() && due(earlier.take(i)) == step && #[trigger] earlier[i] == (
                Outcome::Failed { error });
            assert(outcomes.take(i) =~= earlier.take(i));
            assert(outcomes[i] == earlier[i]);
        }
    }
}

/// The setup step that is due after `outcomes`, from the manager on.
pub open spec fn setup_due<M, D>(outcomes: Seq<SetupOutcome<M, D>>) -> SetupStep<M, D>
    decreases outcomes.len(),
{
    if outcomes.len() == 0 {
        SetupStep::CreateManager
    } else {
        setup_due(outcomes.drop_last()).spec_next(outcomes.last())
    }
}

/// The setup steps that `outcomes` answered, in order.
pub open spec fn setup_done<M, D>(outcomes: Seq<SetupOutcome<M, D>>) -> Seq<SetupStep<M, D>>
    decreases outcomes.len(),
{
    if outcomes.len() == 0 {
        Seq::empty()
    } else {
        let before = setup_due(outcomes.drop_last());
        let earlier = setup_done(outcomes.drop_last());
        if before.spec_next(outcomes.last()) != before {
            earlier.push(before)
        } else {
            earlier
        }
    }
}

/// The steps of a setup with this manager and this directory, in order.
pub open spec fn setup_plan<M, D>(manager: M, dir: D) -> Seq<SetupStep<M, D>> {
    seq![
        SetupStep::CreateManager,
        SetupStep::ResolveConfigDir { manager },
        SetupStep::ManageState { manager, dir },
        SetupStep::ManageAiRuntime,
        SetupStep::WatchSigterm,
    ]
}

/// The outcome came when the step was due, so that it answered it.
pub open spec fn setup_answered<M, D>(
    outcomes: Seq<SetupOutcome<M, D>>,
    step: SetupStep<M, D>,
    outcome: SetupOutcome<M, D>,
) -> bool {
    exists|i: int|
        0 <= i < outcomes.len() && setup_due(outcomes.take(i)) == step && #[trigger] outcomes[i]
            == outcome
}

/// The manager is the one that was made, and the directory the one that was
/// found when that manager was there.
pub open spec fn made_and_found<M, D>(
    outcomes: Seq<SetupOutcome<M, D>>,
    manager: M,
    dir: D,
) -> bool {
    &&& setup_answered(outcomes, SetupStep::CreateManager, SetupOutcome::Created { manager })
    &&& setup_answered(
        outcomes,
        SetupStep::ResolveConfigDir { manager },
        SetupOutcome::Resolved { dir },
    )
}

/// The first `n` steps were done, with the manager that was made and the
/// directory that was found.
pub open spec fn set_up_to<M, D>(outcomes: Seq<SetupOutcome<M, D>>, n: int) -> bool {
    exists|manager: M, dir: D| #[trigger]
        made_and_found(outcomes, manager, dir) && setup_done(outcomes) == setup_plan(
            manager,
            dir,
        ).take(n)
}

/// The directory was asked for and is missing, with the error.
pub open spec fn dir_missing<M, D>(outcomes: Seq<SetupOutcome<M, D>>, error: String) -> bool {
    exists|manager: M|
        setup_done(outcomes) == seq![
            SetupStep::CreateManager,
            SetupStep::<M, D>::ResolveConfigDir { manager },
        ] && setup_answered(
            outcomes,
            SetupStep::CreateManager,
            SetupOutcome::Created { manager },
        ) && #[trigger] setup_answered(
            outcomes,
            SetupStep::ResolveConfigDir { manager },
            SetupOutcome::Failed { error },
        )
}

/// What an outcome answered stays so, and the last one answers what was due
/// before it.
proof fn lemma_setup_answered<M, D>(outcomes: Seq<SetupOutcome<M, D>>)
    requires
        outcomes.len() > 0,
    ensures
        forall|step: SetupStep<M, D>, outcome: SetupOutcome<M, D>| #[trigger]
            setup_answered(outcomes.drop_last(), step, outcome) ==> setup_answered(
                outcomes,
                step,
                outcome,
            ),
        setup_answered(outcomes, setup_due(outcomes.drop_last()), outcomes.last()),
{
    let earlier = outcomes.drop_last();
    assert forall|step: SetupStep<M, D>, outcome: SetupOutcome<M, D>| #[trigger]
        setup_answered(earlier, step, outcome) implies setup_answered(outcomes, step, outcome) by {
        let i = choose|i: int|
            0 <= i < earlier.len() && setup_due(earlier.take(i)) == step && #[trigger] earlier[i]
                == outcome;
        assert(outcomes.take(i) =~= earlier.take(i));
        assert(outcomes[i] == outcome);
    }
    let last = outcomes.len() - 1;
    assert(outcomes.take(last) =~= earlier);
    assert(outcomes[last] == outcomes.last());
}

/// Whatever comes of them, the setup steps are done in the one order, each at
/// most once, and the state is made of the manager that was made and the
/// directory that was found. The setup succeeds only when all are done, and fails
/// only where the directory is missing, with the error that came back: then no
/// state is shared and no task waits for SIGTERM.
pub proof fn law_setup_in_order<M, D>(outcomes: Seq<SetupOutcome<M, D>>)
    ensures
        match setup_due(outcomes) {
            SetupStep::CreateManager => setup_done(outcomes).len() == 0,
            SetupStep::ResolveConfigDir { manager } => setup_done(outcomes)
                == seq![SetupStep::<M, D>::CreateManager] && setup_answered(
                outcomes,
                SetupStep::CreateManager,
                SetupOutcome::Created { manager },
            ),
            SetupStep::ManageState { manager, dir } => made_and_found(outcomes, manager, dir)
                && setup_done(outcomes) == setup_plan(manager, dir).take(2),
            SetupStep::ManageAiRuntime => set_up_to(outcomes, 3),
            SetupStep::WatchSigterm => set_up_to(outcomes, 4),
            SetupStep::Succeed => set_up_to(outcomes, 5),
            SetupStep::Fail { error } => dir_missing(outcomes, error),
        },
    decreases outcomes.len(),
{
    if outcomes.len() > 0 {
        let earlier = outcomes.drop_last();
        law_setup_in_order(earlier);
        lemma_setup_answered(outcomes);
        let before = setup_due(earlier);
        let after = setup_due(outcomes);
        if setup_done(earlier).len() == 0 {
            assert(setup_done(earlier) =~= Seq::<SetupStep<M, D>>::empty());
            assert(setup_done(earlier).push(SetupStep::CreateManager)
                =~= seq![SetupStep::<M, D>::CreateManager]);
        }
        match (before, after) {
            (SetupStep::ResolveConfigDir { manager }, SetupStep::ManageState { dir, .. }) => {
                assert(setup_done(outcomes) =~= setup_plan(manager, dir).take(2));
            },
            (SetupStep::ResolveConfigDir { manager }, SetupStep::Fail { error }) => {
                assert(setup_done(outcomes) =~= seq![
                    SetupStep::CreateManager,
                    SetupStep::<M, D>::ResolveConfigDir { manager },
                ]);
                assert(setup_answered(
                    outcomes,
                    SetupStep::ResolveConfigDir { manager },
                    SetupOutcome::Failed { error },
                ));
            },
            (SetupStep::ManageState { manager, dir }, SetupStep::ManageAiRuntime) => {
                assert(setup_done(outcomes) =~= setup_plan(manager, dir).take(3));
                assert(made_and_found(outcomes, manager, dir));
            },
            (SetupStep::Fail { error }, _) => {
                let manager = choose|manager: M|
                    setup_done(earlier) == seq![
                        SetupStep::CreateManager,
                        SetupStep::<M, D>::ResolveConfigDir { manager },
                    ] && setup_answered(
                        earlier,
                        SetupStep::CreateManager,
                        SetupOutcome::Created { manager },
                    ) && #[trigger] setup_answered(
                        earlier,
                        SetupStep::ResolveConfigDir { manager },
                        SetupOutcome::Failed { error },
                    );
                assert(setup_answered(
                    outcomes,
                    SetupStep::ResolveConfigDir { manager },
                    SetupOutcome::Failed { error },
                ));
            },
            (SetupStep::ManageAiRuntime, _) => {
                lemma_set_up_on(outcomes, 3);
            },
            (SetupStep::WatchSigterm, _) => {
                lemma_set_up_on(outcomes, 4);
            },
            (SetupStep::Succeed, _) => {
                lemma_set_up_on(outcomes, 5);
            },
            _ => {},
        }
    }
}

/// After `n` steps with the manager and the directory, the next one is the plan's.
proof fn lemma_set_up_on<M, D>(outcomes: Seq<SetupOutcome<M, D>>, n: int)
    requires
        outcomes.len() > 0,
        3 <= n <= 5,
        set_up_to(outcomes.drop_last(), n),
        match setup_due(outcomes.drop_last()) {
            SetupStep::ManageAiRuntime => n == 3,
            SetupStep::WatchSigterm => n == 4,
            SetupStep::Succeed => n == 5,
            _ => false,
        },
    ensures
        set_up_to(
            outcomes,
            if setup_due(outcomes) == setup_due(outcomes.drop_last()) {
                n
            } else {
                n + 1
            },
        ),
{
    let earlier = outcomes.drop_last();
    lemma_setup_answered(outcomes);
    let (manager, dir) = choose|manager: M, dir: D| #[trigger]
        made_and_found(earlier, manager, dir) && setup_done(earlier) == setup_plan(
            manager,
            dir,
        ).take(n);
    assert(made_and_found(outcomes, manager, dir));
    if setup_due(outcomes) != setup_due(earlier) {
        assert(setup_done(outcomes) =~= setup_plan(manager, dir).take(n + 1));
    }
}

/// The success of the step that is due moves the setup on.
pub proof fn law_setup_moves_on<M, D>(outcomes: Seq<SetupOutcome<M, D>>, manager: M, dir: D)
    ensures
        match setup_due(outcomes) {
            SetupStep::CreateManager => setup_due(outcomes.push(SetupOutcome::Created { manager }))
                == (SetupStep::<M, D>::ResolveConfigDir { manager }),
            SetupStep::ResolveConfigDir { manager: made } => setup_due(
                outcomes.push(SetupOutcome::Resolved { dir }),
            ) == (SetupStep::<M, D>::ManageState { manager: made, dir }),
            SetupStep::ManageState { .. } => setup_due(outcomes.push(SetupOutcome::Done))
                is ManageAiRuntime,
            SetupStep::ManageAiRuntime => setup_due(outcomes.push(SetupOutcome::Done)) is WatchSigterm,
            SetupStep::WatchSigterm => setup_due(outcomes.push(SetupOutcome::Done)) is Succeed,
            _ => true,
        },
{
    assert forall|outcome: SetupOutcome<M, D>| (#[trigger] outcomes.push(outcome)).drop_last()
        == outcomes by {
        assert(outcomes.push(outcome).drop_last() =~= outcomes);
    }
}

} // verus!
