//! Sampling the node exporter of one node.
//!
//! The exporter is found and forwarded to a local port, and its metrics are
//! scraped a few times with a pause after each. Counters need two scrapes, so
//! the first is only a baseline. One more scrape gives the filesystems, which
//! barely move, and the numbers that are checked.
//!
//! A [`Step`] is what is to be done next, an [`Event`] what came of it.

use vstd::prelude::*;

verus! {

/// How many scrapes are reported as they come in.
pub const SAMPLES: usize = 4;

/// The port that a node exporter listens on.
pub const EXPORTER_PORT: u16 = 9100;

/// The local port to forward to: any that is free.
pub const ANY_PORT: u16 = 0;

/// How long to pause after a report.
pub const PAUSE_SECONDS: u64 = 2;

/// How long a scrape may take.
pub const SCRAPE_TIMEOUT_SECONDS: u64 = 10;

/// What the probe does next.
pub enum Step {
    /// Nothing: the node is not ready, and is skipped.
    SkipUnready,
    /// Find the pod of the exporter on the node.
    FindExporter,
    /// Nothing: there is no exporter, for the reason given, and the node is skipped.
    SkipUnfound { error: String },
    /// Forward the exporter's port.
    Forward { remote: u16, local: u16 },
    /// Scrape [`metrics_url`] of the port, after `taken` scrapes were reported,
    /// within [`SCRAPE_TIMEOUT_SECONDS`], and hand the numbers to the sampler.
    Scrape { port: u16, taken: usize },
    /// Report the scrape: its size, where it is the first, and the sample that
    /// it made, or that it is only a baseline.
    Report { port: u16, taken: usize, show_size: bool, sampled: bool },
    /// Pause for so many seconds.
    Pause { port: u16, taken: usize, seconds: u64 },
    /// Report the filesystems of the last sample and check that its numbers can be plotted.
    ReportFilesystems,
    /// Stop forwarding.
    StopForward,
    /// Nothing: the node is done.
    Finish,
    /// Give up on the whole check, with the error.
    Abort { error: String },
}

/// What came of a step.
pub enum Event {
    Found,
    NotFound { error: String },
    Forwarded { port: u16 },
    /// Scraped. `sampled` tells whether the sampler made a sample of it.
    Scraped { sampled: bool },
    Reported,
    Paused,
    Stopped,
    Failed { error: String },
}

/// One more than `taken`, up to the number of reported scrapes.
pub open spec fn one_more(taken: usize) -> usize {
    if taken < SAMPLES {
        (taken + 1) as usize
    } else {
        SAMPLES
    }
}

impl Step {
    /// Only a node that is ready is looked at.
    pub open spec fn spec_start(ready: bool) -> Step {
        if ready {
            Step::FindExporter
        } else {
            Step::SkipUnready
        }
    }

    /// What to do after `event`. One that does not answer the step changes nothing.
    pub open spec fn spec_next(self, event: Event) -> Step {
        match (self, event) {
            (Step::FindExporter, Event::Found) => Step::Forward {
                remote: EXPORTER_PORT,
                local: ANY_PORT,
            },
            (Step::FindExporter, Event::NotFound { error }) => Step::SkipUnfound { error },
            (Step::Forward { .. }, Event::Forwarded { port }) => Step::Scrape { port, taken: 0 },
            (Step::Forward { .. }, Event::Failed { error }) => Step::Abort { error },
            (Step::Scrape { port, taken }, Event::Scraped { sampled }) => if taken < SAMPLES {
                Step::Report { port, taken, show_size: taken == 0, sampled }
            } else if sampled {
                Step::ReportFilesystems
            } else {
                Step::StopForward
            },
            (Step::Scrape { .. }, Event::Failed { error }) => Step::Abort { error },
            (Step::Report { port, taken, .. }, Event::Reported) => Step::Pause {
                port,
                taken,
                seconds: PAUSE_SECONDS,
            },
            (Step::Pause { port, taken, .. }, Event::Paused) => Step::Scrape {
                port,
                taken: one_more(taken),
            },
            (Step::ReportFilesystems, Event::Reported) => Step::StopForward,
            (Step::StopForward, Event::Stopped) => Step::Finish,
            (step, _) => step,
        }
    }

    /// The first step for a node, by whether it is ready.
    pub fn start(ready: bool) -> (step: Step)
        ensures
            step == Self::spec_start(ready),
            ready ==> step == Step::FindExporter,
            !ready ==> step == Step::SkipUnready,
    {
        if ready {
            Step::FindExporter
        } else {
            Step::SkipUnready
        }
    }

    /// The step that follows this one after `event`.
    pub fn next(self, event: Event) -> (step: Step)
        ensures
            step == self.spec_next(event),
    {
        match (self, event) {
            (Step::FindExporter, Event::Found) => Step::Forward {
                remote: EXPORTER_PORT,
                local: ANY_PORT,
            },
            (Step::FindExporter, Event::NotFound { error }) => Step::SkipUnfound { error },
            (Step::Forward { .. }, Event::Forwarded { port }) => Step::Scrape { port, taken: 0 },
            (Step::Forward { .. }, Event::Failed { error }) => Step::Abort { error },
            (Step::Scrape { port, taken }, Event::Scraped { sampled }) => {
                if taken < SAMPLES {
                    Step::Report { port, taken, show_size: taken == 0, sampled }
                } else if sampled {
                    Step::ReportFilesystems
                } else {
                    Step::StopForward
                }
            },
            (Step::Scrape { .. }, Event::Failed { error }) => Step::Abort { error },
            (Step::Report { port, taken, .. }, Event::Reported) => Step::Pause {
                port,
                taken,
                seconds: PAUSE_SECONDS,
            },
            (Step::Pause { port, taken, .. }, Event::Paused) => {
                let taken: usize = if taken < SAMPLES {
                    taken + 1
                } else {
                    SAMPLES
                };
                Step::Scrape { port, taken }
            },
            (Step::ReportFilesystems, Event::Reported) => Step::StopForward,
            (Step::StopForward, Event::Stopped) => Step::Finish,
            (step, _) => step,
        }
    }
}

/// The character of a decimal digit.
pub open spec fn digit(d: nat) -> char {
    (0x30 + d) as char
}

/// `n` in decimal, without leading zeros.
pub open spec fn decimal(n: nat) -> Seq<char>
    decreases n,
{
    if n < 10 {
        seq![digit(n)]
    } else {
        decimal(n / 10).push(digit(n % 10))
    }
}

fn digit_text(d: u16) -> (text: &'static str)
    requires
        d < 10,
    ensures
        text@ == seq![digit(d as nat)],
{
    proof {
        reveal_strlit("0");
        reveal_strlit("1");
        reveal_strlit("2");
        reveal_strlit("3");
        reveal_strlit("4");
        reveal_strlit("5");
        reveal_strlit("6");
        reveal_strlit("7");
        reveal_strlit("8");
        reveal_strlit("9");
    }
    match d {
        0 => "0",
        1 => "1",
        2 => "2",
        3 => "3",
        4 => "4",
        5 => "5",
        6 => "6",
        7 => "7",
        8 => "8",
        _ => "9",
    }
}

fn decimal_text(n: u16) -> (text: String)
    ensures
        text@ == decimal(n as nat),
    decreases n,
{
    if n < 10 {
        digit_text(n).to_string()
    } else {
        decimal_text(n / 10).concat(digit_text(n % 10))
    }
}

/// Where the metrics of an exporter are, once forwarded to the local `port`.
pub fn metrics_url(port: u16) -> (url: String)
    ensures
        url@ == "http://127.0.0.1:"@ + decimal(port as nat) + "/metrics"@,
{
    "http://127.0.0.1:".to_string().concat(decimal_text(port).as_str()).concat("/metrics")
}

/// The step that is due after `events`, from the first one on.
pub open spec fn due(ready: bool, events: Seq<Event>) -> Step
    decreases events.len(),
{
    if events.len() == 0 {
        Step::spec_start(ready)
    } else {
        due(ready, events.drop_last()).spec_next(events.last())
    }
}

/// The steps that `events` answered, in order.
pub open spec fn done(ready: bool, events: Seq<Event>) -> Seq<Step>
    decreases events.len(),
{
    if events.len() == 0 {
        Seq::empty()
    } else {
        let before = due(ready, events.drop_last());
        let earlier = done(ready, events.drop_last());
        if before.spec_next(events.last()) != before {
            earlier.push(before)
        } else {
            earlier
        }
    }
}

/// The event came when the step was due, so that it answered it.
pub open spec fn answered(ready: bool, events: Seq<Event>, step: Step, event: Event) -> bool {
    exists|i: int|
        0 <= i < events.len() && due(ready, events.take(i)) == step && #[trigger] events[i] == event
}

/// What an event answered stays so, and the last one answers what was due before it.
proof fn lemma_answered(ready: bool, events: Seq<Event>)
    requires
        events.len() > 0,
    ensures
        forall|step: Step, event: Event| #[trigger]
            answered(ready, events.drop_last(), step, event) ==> answered(
                ready,
                events,
                step,
                event,
            ),
        answered(ready, events, due(ready, events.drop_last()), events.last()),
{
    let earlier = events.drop_last();
    assert forall|step: Step, event: Event| #[trigger]
        answered(ready, earlier, step, event) implies answered(ready, events, step, event) by {
        let i = choose|i: int|
            0 <= i < earlier.len() && due(ready, earlier.take(i)) == step && #[trigger] earlier[i]
                == event;
        assert(events.take(i) =~= earlier.take(i));
        assert(events[i] == event);
    }
    let last = events.len() - 1;
    assert(events.take(last) =~= earlier);
    assert(events[last] == events.last());
}

/// The port is the one that the exporter was forwarded to.
pub open spec fn forwarded_to(ready: bool, events: Seq<Event>, port: u16) -> bool {
    answered(
        ready,
        events,
        Step::Forward { remote: EXPORTER_PORT, local: ANY_PORT },
        Event::Forwarded { port },
    )
}

/// The error is what came of forwarding, or of a scrape of the forwarded port.
pub open spec fn failed_with(ready: bool, events: Seq<Event>, error: String) -> bool {
    ||| answered(
        ready,
        events,
        Step::Forward { remote: EXPORTER_PORT, local: ANY_PORT },
        Event::Failed { error },
    )
    ||| exists|port: u16, taken: usize|
        forwarded_to(ready, events, port) && #[trigger] answered(
            ready,
            events,
            Step::Scrape { port, taken },
            Event::Failed { error },
        )
}

/// The scrape after the reported ones made a sample, or did not.
pub open spec fn last_scrape(ready: bool, events: Seq<Event>, sampled: bool) -> bool {
    exists|port: u16|
        forwarded_to(ready, events, port) && #[trigger] answered(
            ready,
            events,
            Step::Scrape { port, taken: SAMPLES },
            Event::Scraped { sampled },
        )
}

/// How many of the steps are scrapes.
pub open spec fn scrapes(steps: Seq<Step>) -> nat {
    steps.filter(|step: Step| step is Scrape).len()
}

/// How many of the steps are pauses.
pub open spec fn pauses(steps: Seq<Step>) -> nat {
    steps.filter(|step: Step| step is Pause).len()
}

proof fn lemma_one_more_step(steps: Seq<Step>, step: Step)
    ensures
        scrapes(steps.push(step)) == scrapes(steps) + (if step is Scrape {
            1nat
        } else {
            0
        }),
        pauses(steps.push(step)) == pauses(steps) + (if step is Pause {
            1nat
        } else {
            0
        }),
        forall|s: Step| #[trigger] steps.push(step).contains(s) ==> steps.contains(s) || s == step,
{
    reveal(Seq::filter);
    assert(steps.push(step).drop_last() =~= steps);
    assert forall|s: Step| #[trigger] steps.push(step).contains(s) implies steps.contains(s) || s
        == step by {
        let i = choose|i: int| 0 <= i <= steps.len() && steps.push(step)[i] == s;
        if i < steps.len() {
            assert(steps[i] == s);
        }
    }
}

/// Whatever happens, the probe scrapes with a pause after each reported scrape:
/// a node that is done was scraped once more than is reported, with a pause
/// before every scrape but the first, and its forward was stopped last. Only the
/// port that was forwarded to is scraped, a report tells what came of its own
/// scrape, only the first shows a size, and filesystems are reported only of the
/// last scrape, where it made a sample. A node that is skipped was never scraped,
/// and one that is not ready never looked at. Where the probe gives up, the error
/// is what came of forwarding or of a scrape, and the forward is left alone.
pub proof fn law_what_is_done(ready: bool, events: Seq<Event>)
    ensures
        ({
            let steps = done(ready, events);
            match due(ready, events) {
                Step::SkipUnready => !ready && steps.len() == 0,
                Step::FindExporter => ready && steps.len() == 0,
                Step::SkipUnfound { error } => ready && steps == seq![Step::FindExporter]
                    && answered(ready, events, Step::FindExporter, Event::NotFound { error }),
                Step::Forward { remote, local } => ready && steps == seq![Step::FindExporter]
                    && remote == EXPORTER_PORT && local == ANY_PORT,
                Step::Scrape { port, taken } => {
                    &&& ready && taken <= SAMPLES
                    &&& scrapes(steps) == taken && pauses(steps) == taken
                    &&& forwarded_to(ready, events, port)
                    &&& !steps.contains(Step::StopForward)
                },
                Step::Report { port, taken, show_size, sampled } => {
                    &&& ready && taken < SAMPLES && show_size == (taken == 0)
                    &&& scrapes(steps) == taken + 1 && pauses(steps) == taken
                    &&& forwarded_to(ready, events, port)
                    &&& answered(
                        ready,
                        events,
                        Step::Scrape { port, taken },
                        Event::Scraped { sampled },
                    )
                    &&& !steps.contains(Step::StopForward)
                },
                Step::Pause { port, taken, seconds } => {
                    &&& ready && taken < SAMPLES && seconds == PAUSE_SECONDS
                    &&& scrapes(steps) == taken + 1 && pauses(steps) == taken
                    &&& forwarded_to(ready, events, port)
                    &&& !steps.contains(Step::StopForward)
                },
                Step::ReportFilesystems => {
                    &&& ready && scrapes(steps) == SAMPLES + 1 && pauses(steps) == SAMPLES
                    &&& last_scrape(ready, events, true)
                    &&& !steps.contains(Step::StopForward)
                },
                Step::StopForward => {
                    &&& ready && scrapes(steps) == SAMPLES + 1 && pauses(steps) == SAMPLES
                    &&& steps.last() == Step::ReportFilesystems && last_scrape(ready, events, true)
                        || steps.last() is Scrape && last_scrape(ready, events, false)
                    &&& !steps.contains(Step::StopForward)
                },
                Step::Finish => {
                    &&& ready && scrapes(steps) == SAMPLES + 1 && pauses(steps) == SAMPLES
                    &&& steps.len() > 0 && steps.last() == Step::StopForward
                },
                Step::Abort { error } => {
                    &&& ready && scrapes(steps) <= SAMPLES + 1
                    &&& failed_with(ready, events, error)
                    &&& !steps.contains(Step::StopForward)
                },
            }
        }),
    decreases events.len(),
{
    if events.len() > 0 {
        let earlier = events.drop_last();
        law_what_is_done(ready, earlier);
        lemma_answered(ready, events);
        let before = due(ready, earlier);
        let steps = done(ready, earlier);
        lemma_one_more_step(steps, before);
        lemma_one_more_step(Seq::empty(), Step::FindExporter);
        assert(scrapes(Seq::empty()) == 0 && pauses(Seq::empty()) == 0) by {
            reveal(Seq::filter);
        }
        assert(Seq::<Step>::empty().push(Step::FindExporter) =~= seq![Step::FindExporter]);
        if steps.len() == 0 {
            assert(steps =~= Seq::<Step>::empty());
        }
        assert(!seq![Step::FindExporter].contains(Step::StopForward));
    }
}

/// Whatever an event carries, it moves the probe on from the step that it
/// answers, with what it carries, and changes nothing otherwise. Any port that the
/// exporter was forwarded to is scraped; of the first four scrapes each is
/// reported, followed by a pause of two seconds and the next scrape; the fifth
/// gives the filesystems, where it made a sample; then the forward is stopped.
pub proof fn law_each_event(step: Step, event: Event)
    ensures
        match event {
            Event::Found => if step is FindExporter {
                step.spec_next(event) == (Step::Forward { remote: 9100, local: 0 })
            } else {
                step.spec_next(event) == step
            },
            Event::NotFound { error } => if step is FindExporter {
                step.spec_next(event) == (Step::SkipUnfound { error })
            } else {
                step.spec_next(event) == step
            },
            Event::Forwarded { port } => if step is Forward {
                step.spec_next(event) == (Step::Scrape { port, taken: 0 })
            } else {
                step.spec_next(event) == step
            },
            Event::Scraped { sampled } => match step {
                Step::Scrape { port, taken } => {
                    &&& taken < 4 ==> step.spec_next(event) == (Step::Report {
                        port,
                        taken,
                        show_size: taken == 0,
                        sampled,
                    })
                    &&& taken >= 4 && sampled ==> step.spec_next(event) is ReportFilesystems
                    &&& taken >= 4 && !sampled ==> step.spec_next(event) is StopForward
                },
                _ => step.spec_next(event) == step,
            },
            Event::Reported => match step {
                Step::Report { port, taken, .. } => step.spec_next(event) == (Step::Pause {
                    port,
                    taken,
                    seconds: 2,
                }),
                Step::ReportFilesystems => step.spec_next(event) is StopForward,
                _ => step.spec_next(event) == step,
            },
            Event::Paused => match step {
                Step::Pause { port, taken, .. } => {
                    &&& step.spec_next(event) matches Step::Scrape { port: same, taken: now }
                    &&& same == port
                    &&& taken < 4 ==> now == taken + 1
                    &&& taken >= 4 ==> now == 4
                },
                _ => step.spec_next(event) == step,
            },
            Event::Stopped => if step is StopForward {
                step.spec_next(event) is Finish
            } else {
                step.spec_next(event) == step
            },
            Event::Failed { error } => if step is Forward || step is Scrape {
                step.spec_next(event) == (Step::Abort { error })
            } else {
                step.spec_next(event) == step
            },
        },
{
}

/// How many steps are behind the probe is told by the one that is due. So no step
/// is done twice, and since every answer moves on, a probe whose steps are
/// answered comes to an end after at most seventeen of them.
pub proof fn law_comes_to_an_end(ready: bool, events: Seq<Event>)
    ensures
        ({
            let n = done(ready, events).len() as int;
            match due(ready, events) {
                Step::SkipUnready => n == 0,
                Step::FindExporter => n == 0,
                Step::SkipUnfound { .. } => n == 1,
                Step::Forward { .. } => n == 1,
                Step::Scrape { taken, .. } => taken <= 4 && n == 2 + 3 * taken,
                Step::Report { taken, .. } => taken < 4 && n == 3 + 3 * taken,
                Step::Pause { taken, .. } => taken < 4 && n == 4 + 3 * taken,
                Step::ReportFilesystems => n == 15,
                Step::StopForward => n == 15 || n == 16,
                Step::Finish => n == 16 || n == 17,
                Step::Abort { .. } => 2 <= n <= 15,
            }
        }),
    decreases events.len(),
{
    if events.len() > 0 {
        law_comes_to_an_end(ready, events.drop_last());
        law_each_event(due(ready, events.drop_last()), events.last());
    }
}

/// The event is one that a step of this kind can come to.
pub open spec fn answers(step: Step, event: Event) -> bool {
    match step {
        Step::FindExporter => event is Found || event is NotFound,
        Step::Forward { .. } => event is Forwarded || event is Failed,
        Step::Scrape { .. } => event is Scraped || event is Failed,
        Step::Report { .. } => event is Reported,
        Step::Pause { .. } => event is Paused,
        Step::ReportFilesystems => event is Reported,
        Step::StopForward => event is Stopped,
        _ => false,
    }
}

/// An event moves the probe on exactly where it is of a kind that the step that is
/// due can come to, whatever it carries: it is done then, and the next is due.
pub proof fn law_an_answer_moves_on(ready: bool, events: Seq<Event>, event: Event)
    ensures
        answers(due(ready, events), event) ==> done(ready, events.push(event)) == done(
            ready,
            events,
        ).push(due(ready, events)),
        !answers(due(ready, events), event) ==> done(ready, events.push(event)) == done(
            ready,
            events,
        ) && due(ready, events.push(event)) == due(ready, events),
{
    assert(events.push(event).drop_last() =~= events);
    law_each_event(due(ready, events), event);
}

/// The probe of a ready node whose steps are all answered, with an exporter found
/// and without a failure, whatever the port, is never given up or skipped, and is
/// done after seventeen answers at the latest.
pub proof fn law_answered_without_failure_finishes(events: Seq<Event>)
    requires
        done(true, events).len() == events.len(),
        forall|i: int|
            0 <= i < events.len() ==> !(#[trigger] events[i] is NotFound) && !(events[i] is Failed),
    ensures
        !(due(true, events) is Abort) && !(due(true, events) is SkipUnfound) && !(due(
            true,
            events,
        ) is SkipUnready),
        events.len() >= 17 ==> due(true, events) is Finish,
        events.len() <= 17,
    decreases events.len(),
{
    law_comes_to_an_end(true, events);
    if events.len() > 0 {
        let earlier = events.drop_last();
        lemma_done_is_bounded(true, earlier);
        assert forall|i: int| 0 <= i < earlier.len() implies !(#[trigger] earlier[i] is NotFound)
            && !(earlier[i] is Failed) by {
            assert(earlier[i] == events[i]);
        }
        law_answered_without_failure_finishes(earlier);
        assert(events.last() == events[events.len() - 1]);
        law_each_event(due(true, earlier), events.last());
    }
}

proof fn lemma_done_is_bounded(ready: bool, events: Seq<Event>)
    ensures
        done(ready, events).len() <= events.len(),
    decreases events.len(),
{
    if events.len() > 0 {
        lemma_done_is_bounded(ready, events.drop_last());
    }
}

/// What a decimal numeral stands for.
pub open spec fn numeral_value(text: Seq<char>) -> nat
    decreases text.len(),
{
    if text.len() == 0 {
        0
    } else {
        numeral_value(text.drop_last()) * 10 + ((text.last() as int - '0' as int) as nat)
    }
}

/// A number is written in decimal digits that read back as the number, with no
/// zero in front but for the number zero itself.
pub proof fn law_decimal_reads_back(n: nat)
    ensures
        decimal(n).len() > 0,
        forall|i: int|
            0 <= i < decimal(n).len() ==> '0' as int <= #[trigger] decimal(n)[i] as int <= '9' as int,
        numeral_value(decimal(n)) == n,
        decimal(n)[0] == '0' ==> n == 0 && decimal(n).len() == 1,
    decreases n,
{
    if n < 10 {
        assert(seq![digit(n)].drop_last() =~= Seq::<char>::empty());
        assert(numeral_value(Seq::<char>::empty()) == 0);
    } else {
        law_decimal_reads_back(n / 10);
        assert(decimal(n).drop_last() =~= decimal(n / 10));
        assert(decimal(n)[0] == decimal(n / 10)[0]);
    }
}

/// Four reported scrapes two seconds apart, each
/// within ten seconds, of the port that node exporters listen on.
pub proof fn law_figures()
    ensures
        SAMPLES == 4,
        PAUSE_SECONDS == 2,
        SCRAPE_TIMEOUT_SECONDS == 10,
        EXPORTER_PORT == 9100,
        ANY_PORT == 0,
{
}

} // verus!
