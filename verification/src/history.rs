//! Whether the history that a Prometheus gave of a node can be plotted.
//!
//! The point of the history is a chart that opens populated, so one that was
//! fetched without an error but has nothing in it is a failure.

use vstd::prelude::*;

verus! {

/// How far back the history goes.
pub const WINDOW_SECONDS: i64 = 3600;

/// How far apart its points are.
pub const STEP_SECONDS: i64 = 30;

/// One point of the history, as far as the check looks at it.
#[derive(Clone, Copy)]
pub struct Sample {
    /// When it was taken.
    pub ts: i64,
    /// Whether it reports a total memory above zero.
    pub memory: bool,
    /// Whether it reports a CPU usage above zero.
    pub cpu: bool,
    /// How many filesystems it lists.
    pub filesystems: usize,
}

/// How many points carry a value of each series.
#[derive(Clone, Copy)]
pub struct Populated {
    pub memory: usize,
    pub cpu: usize,
}

/// Why a history cannot be plotted.
#[derive(Clone, Copy, PartialEq, Eq, Structural, Debug)]
pub enum Unplottable {
    /// There are no points.
    Empty,
    /// The points are not strictly ordered by time, which is the x axis.
    Unordered,
    /// No point carries memory.
    NoMemory,
    /// No point carries CPU usage.
    NoCpu,
    /// A point lists filesystems: those are current readings, not history.
    Filesystems,
}

impl Unplottable {
    /// The reason in words.
    pub fn message(self) -> (text: &'static str)
        ensures
            text@ == match self {
                Unplottable::Empty => "a Prometheus with node metrics must yield history"@,
                Unplottable::Unordered => "samples must be strictly ordered by time"@,
                Unplottable::NoMemory => "memory series must have landed"@,
                Unplottable::NoCpu => "cpu series must have landed"@,
                Unplottable::Filesystems =>
                    "history must not backfill filesystems \u{2014} the UI shows those as current"@,
            },
    {
        match self {
            Unplottable::Empty => "a Prometheus with node metrics must yield history",
            Unplottable::Unordered => "samples must be strictly ordered by time",
            Unplottable::NoMemory => "memory series must have landed",
            Unplottable::NoCpu => "cpu series must have landed",
            Unplottable::Filesystems =>
                "history must not backfill filesystems \u{2014} the UI shows those as current",
        }
    }
}

/// Strictly ordered by time.
pub open spec fn ordered(samples: Seq<Sample>) -> bool {
    forall|i: int, j: int| 0 <= i < j < samples.len() ==> samples[i].ts < samples[j].ts
}

/// Each point is later than the one before it.
pub open spec fn neighbours_ordered(samples: Seq<Sample>) -> bool {
    forall|i: int, j: int|
        0 <= i && j == i + 1 && j < samples.len() ==> (#[trigger] samples[i]).ts < (
        #[trigger] samples[j]).ts
}

/// The points that carry memory.
pub open spec fn with_memory(samples: Seq<Sample>) -> Seq<Sample> {
    samples.filter(|sample: Sample| sample.memory)
}

/// The points that carry CPU usage.
pub open spec fn with_cpu(samples: Seq<Sample>) -> Seq<Sample> {
    samples.filter(|sample: Sample| sample.cpu)
}

/// No point lists filesystems.
pub open spec fn no_filesystems(samples: Seq<Sample>) -> bool {
    forall|i: int| 0 <= i < samples.len() ==> (#[trigger] samples[i]).filesystems == 0
}

/// The first thing that keeps the history from being plotted, in the order in
/// which it is looked at.
pub open spec fn fault(samples: Seq<Sample>) -> Option<Unplottable> {
    if samples.len() == 0 {
        Some(Unplottable::Empty)
    } else if !ordered(samples) {
        Some(Unplottable::Unordered)
    } else if with_memory(samples).len() == 0 {
        Some(Unplottable::NoMemory)
    } else if with_cpu(samples).len() == 0 {
        Some(Unplottable::NoCpu)
    } else if !no_filesystems(samples) {
        Some(Unplottable::Filesystems)
    } else {
        None
    }
}

/// Whether each point is later than the one before it, which orders them all.
fn is_ordered(samples: &Vec<Sample>) -> (b: bool)
    ensures
        b == ordered(samples@),
{
    let mut i: usize = 1;
    while i < samples.len()
        invariant
            1 <= i,
            i <= samples@.len() || (i == 1 && samples@.len() == 0),
            forall|j: int, k: int|
                0 <= j < k < i && k < samples@.len() ==> samples@[j].ts < samples@[k].ts,
        decreases samples@.len() - i,
    {
        if samples[i - 1].ts >= samples[i].ts {
            assert(!(samples@[i - 1].ts < samples@[i as int].ts));
            return false;
        }
        assert forall|j: int, k: int| 0 <= j < k < i + 1 && k < samples@.len() implies samples@[j].ts
            < samples@[k].ts by {
            if k == i && j < i - 1 {
                assert(samples@[j].ts < samples@[i - 1].ts);
            }
        }
        i += 1;
    }
    true
}

/// How many points carry memory, and how many CPU usage.
pub fn populated(samples: &Vec<Sample>) -> (count: Populated)
    ensures
        count.memory == with_memory(samples@).len(),
        count.cpu == with_cpu(samples@).len(),
{
    let mut count: Populated = Populated { memory: 0, cpu: 0 };
    let mut i: usize = 0;
    proof {
        assert(samples@.take(0) =~= Seq::<Sample>::empty());
        reveal(Seq::filter);
    }
    while i < samples.len()
        invariant
            i <= samples@.len(),
            count.memory == with_memory(samples@.take(i as int)).len(),
            count.cpu == with_cpu(samples@.take(i as int)).len(),
            count.memory <= i,
            count.cpu <= i,
        decreases samples@.len() - i,
    {
        proof {
            reveal(Seq::filter);
            assert(samples@.take(i + 1).drop_last() =~= samples@.take(i as int));
            assert(samples@.take(i + 1).last() == samples@[i as int]);
        }
        let sample: Sample = samples[i];
        if sample.memory {
            count.memory = count.memory + 1;
        }
        if sample.cpu {
            count.cpu = count.cpu + 1;
        }
        i += 1;
    }
    assert(samples@.take(samples@.len() as int) =~= samples@);
    count
}

/// Whether no point lists filesystems.
fn lists_no_filesystems(samples: &Vec<Sample>) -> (b: bool)
    ensures
        b == no_filesystems(samples@),
{
    let mut i: usize = 0;
    while i < samples.len()
        invariant
            i <= samples@.len(),
            forall|k: int| 0 <= k < i ==> (#[trigger] samples@[k]).filesystems == 0,
        decreases samples@.len() - i,
    {
        if samples[i].filesystems != 0 {
            assert(samples@[i as int].filesystems != 0);
            return false;
        }
        i += 1;
    }
    true
}

/// What the check says of a history.
#[derive(Clone, Copy)]
pub struct Report {
    /// How well it is populated, where that was looked at: the counts are printed
    /// before they are judged.
    pub populated: Option<Populated>,
    /// What keeps it from being plotted, if anything does.
    pub fault: Option<Unplottable>,
}

/// Checks whether a history can be plotted. The points of one that has any, in
/// order, are counted, whatever is found then.
pub fn check(samples: &Vec<Sample>) -> (report: Report)
    ensures
        report.fault == fault(samples@),
        report.populated is Some <==> samples@.len() > 0 && ordered(samples@),
        report.populated matches Some(count) ==> count.memory == with_memory(samples@).len()
            && count.cpu == with_cpu(samples@).len(),
        report.fault is None <==> {
            &&& samples@.len() > 0
            &&& forall|i: int, j: int|
                0 <= i < j < samples@.len() ==> samples@[i].ts < samples@[j].ts
            &&& exists|i: int| 0 <= i < samples@.len() && (#[trigger] samples@[i]).memory
            &&& exists|i: int| 0 <= i < samples@.len() && (#[trigger] samples@[i]).cpu
            &&& forall|i: int|
                0 <= i < samples@.len() ==> (#[trigger] samples@[i]).filesystems == 0
        },
{
    proof {
        law_fault_is_what_is_wrong(samples@);
    }
    if samples.len() == 0 {
        return Report { populated: None, fault: Some(Unplottable::Empty) };
    }
    if !is_ordered(samples) {
        return Report { populated: None, fault: Some(Unplottable::Unordered) };
    }
    let count: Populated = populated(samples);
    let fault: Option<Unplottable> = if count.memory == 0 {
        Some(Unplottable::NoMemory)
    } else if count.cpu == 0 {
        Some(Unplottable::NoCpu)
    } else if !lists_no_filesystems(samples) {
        Some(Unplottable::Filesystems)
    } else {
        None
    };
    Report { populated: Some(count), fault }
}

proof fn lemma_counted(samples: Seq<Sample>)
    ensures
        with_memory(samples).len() == 0 <==> forall|i: int|
            0 <= i < samples.len() ==> !(#[trigger] samples[i]).memory,
        with_cpu(samples).len() == 0 <==> forall|i: int|
            0 <= i < samples.len() ==> !(#[trigger] samples[i]).cpu,
    decreases samples.len(),
{
    reveal(Seq::filter);
    if samples.len() > 0 {
        let earlier = samples.drop_last();
        lemma_counted(earlier);
        law_each_point_counts_once(earlier, samples.last());
        assert(earlier.push(samples.last()) =~= samples);
        assert forall|i: int| 0 <= i < earlier.len() implies earlier[i] == #[trigger] samples[i] by {}
        if with_memory(earlier).len() > 0 {
            let i = choose|i: int| 0 <= i < earlier.len() && (#[trigger] earlier[i]).memory;
            assert(samples[i].memory);
        }
        if with_cpu(earlier).len() > 0 {
            let i = choose|i: int| 0 <= i < earlier.len() && (#[trigger] earlier[i]).cpu;
            assert(samples[i].cpu);
        }
        assert(samples[samples.len() - 1] == samples.last());
    }
}

/// Nothing is counted of an empty history, and one more point adds one to the
/// count of each series that it carries, however many points there are.
pub proof fn law_each_point_counts_once(samples: Seq<Sample>, sample: Sample)
    ensures
        with_memory(Seq::empty()).len() == 0,
        with_cpu(Seq::empty()).len() == 0,
        sample.memory ==> with_memory(samples.push(sample)).len() == with_memory(samples).len() + 1,
        !sample.memory ==> with_memory(samples.push(sample)).len() == with_memory(samples).len(),
        sample.cpu ==> with_cpu(samples.push(sample)).len() == with_cpu(samples).len() + 1,
        !sample.cpu ==> with_cpu(samples.push(sample)).len() == with_cpu(samples).len(),
{
    reveal(Seq::filter);
    assert(samples.push(sample).drop_last() =~= samples);
}

/// A history can be plotted exactly where it has points, each later than all
/// before it, one of which carries memory and one CPU usage, and none of which
/// lists filesystems. Where it cannot, the reason is the first of these that
/// fails, however many points there are.
pub proof fn law_fault_is_what_is_wrong(samples: Seq<Sample>)
    ensures
        ({
            let in_order = forall|i: int, j: int|
                0 <= i < j < samples.len() ==> samples[i].ts < samples[j].ts;
            let some_memory = exists|i: int|
                0 <= i < samples.len() && (#[trigger] samples[i]).memory;
            let some_cpu = exists|i: int| 0 <= i < samples.len() && (#[trigger] samples[i]).cpu;
            let some_filesystems = exists|i: int|
                0 <= i < samples.len() && (#[trigger] samples[i]).filesystems != 0;
            &&& fault(samples) is None <==> samples.len() > 0 && in_order && some_memory && some_cpu
                && !some_filesystems
            &&& fault(samples) == Some(Unplottable::Empty) <==> samples.len() == 0
            &&& fault(samples) == Some(Unplottable::Unordered) <==> samples.len() > 0 && !in_order
            &&& fault(samples) == Some(Unplottable::NoMemory) <==> samples.len() > 0 && in_order
                && !some_memory
            &&& fault(samples) == Some(Unplottable::NoCpu) <==> samples.len() > 0 && in_order
                && some_memory && !some_cpu
            &&& fault(samples) == Some(Unplottable::Filesystems) <==> samples.len() > 0 && in_order
                && some_memory && some_cpu && some_filesystems
        }),
{
    lemma_counted(samples);
}

/// A later point that lists no filesystems never spoils a history: one that can
/// be plotted still can be with it.
pub proof fn law_a_later_point_spoils_nothing(samples: Seq<Sample>, sample: Sample)
    requires
        fault(samples) is None,
        forall|i: int| 0 <= i < samples.len() ==> (#[trigger] samples[i]).ts < sample.ts,
        sample.filesystems == 0,
    ensures
        fault(samples.push(sample)) is None,
{
    let longer = samples.push(sample);
    law_fault_is_what_is_wrong(samples);
    law_fault_is_what_is_wrong(longer);
    let m = choose|i: int| 0 <= i < samples.len() && (#[trigger] samples[i]).memory;
    assert(longer[m].memory);
    let c = choose|i: int| 0 <= i < samples.len() && (#[trigger] samples[i]).cpu;
    assert(longer[c].cpu);
    assert forall|i: int| 0 <= i < longer.len() implies (#[trigger] longer[i]).filesystems == 0 by {
        if i < samples.len() {
            assert(samples[i].filesystems == 0);
        }
    }
}

/// The history is that of an hour, half a minute apart, and at most five points
/// of it are printed.
pub proof fn law_an_hour_by_half_minutes()
    ensures
        WINDOW_SECONDS == 60 * 60,
        STEP_SECONDS * 2 == 60,
        SHOWN == 5,
{
}

/// Points are strictly ordered exactly where each one is later than the one
/// before it.
pub proof fn law_ordered_by_neighbours(samples: Seq<Sample>)
    ensures
        ordered(samples) <==> neighbours_ordered(samples),
    decreases samples.len(),
{
    if neighbours_ordered(samples) && samples.len() > 0 {
        let earlier = samples.drop_last();
        assert(neighbours_ordered(earlier));
        law_ordered_by_neighbours(earlier);
        assert forall|i: int, j: int| 0 <= i < j < samples.len() implies samples[i].ts
            < samples[j].ts by {
            if j < earlier.len() {
                assert(earlier[i].ts < earlier[j].ts);
            } else {
                assert(samples[j - 1].ts < samples[j].ts);
                if i < j - 1 {
                    assert(earlier[i].ts < earlier[j - 1].ts);
                }
            }
        }
    }
}

/// How many points are printed at most.
pub const SHOWN: usize = 5;

/// Where the points that are printed start, out of `len`: the last ones are.
pub fn shown_from(len: usize) -> (start: usize)
    ensures
        len <= SHOWN ==> start == 0,
        len > SHOWN ==> start + SHOWN == len,
{
    if len <= SHOWN {
        0
    } else {
        len - SHOWN
    }
}

} // verus!
