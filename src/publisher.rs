//! The decisions of the periodic CPU-usage publisher, one event at a time.
//!
//! The host runs the loop: it carries out each command (take a sample,
//! publish it, rest) and hands back what came of it as an event. The
//! publisher decides what comes next. It never stops on a failed
//! publication; only a cancellation stops it.
use vstd::prelude::*;

verus! {

/// The channel on which samples are published.
pub const CPU_EVENT: &'static str = "cpu-usage";

/// The rest between two samples, in milliseconds.
pub const SAMPLE_INTERVAL_MS: u64 = 2000;

/// What the publisher is waiting for.
#[derive(Debug, Clone, Copy, PartialEq, Eq, Structural)]
pub enum Phase {
    /// A sample, with the time it was taken.
    AwaitingSample,
    /// The outcome of publishing the sample taken at `timestamp_ms`.
    AwaitingDelivery { timestamp_ms: u128 },
    /// The end of the rest between two samples; the rest was asked for
    /// with `report_failure` set where the delivery before it failed.
    Resting { report_failure: bool },
    /// Nothing: the publisher was cancelled.
    Stopped,
}

/// What the host reports back.
#[derive(Debug, Clone, Copy, PartialEq, Eq, Structural)]
pub enum Event {
    /// A sample was taken at `timestamp_ms` (milliseconds since the Unix epoch).
    Sampled { timestamp_ms: u128 },
    /// The sample was published.
    Delivered,
    /// The sample could not be published.
    DeliveryFailed,
    /// The rest is over.
    Woke,
    /// The publisher is to stop.
    Cancelled,
}

/// What the host is to do next.
#[derive(Debug, Clone, Copy, PartialEq, Eq, Structural)]
pub enum Command {
    /// Sample the CPU usage and read the clock.
    TakeSample,
    /// Publish the sample taken at `timestamp_ms` on `CPU_EVENT`.
    Publish { timestamp_ms: u128 },
    /// Report the failed publication if `report_failure`, then rest for
    /// `millis` milliseconds.
    Rest { millis: u64, report_failure: bool },
    /// Stop the loop.
    Halt,
}

/// The command that a publisher in `phase` has issued and waits on.
pub open spec fn pending(phase: Phase) -> Command {
    match phase {
        Phase::AwaitingSample => Command::TakeSample,
        Phase::AwaitingDelivery { timestamp_ms } => Command::Publish { timestamp_ms },
        Phase::Resting { report_failure } => Command::Rest {
            millis: SAMPLE_INTERVAL_MS,
            report_failure,
        },
        Phase::Stopped => Command::Halt,
    }
}

/// The next phase and command after `event` in `phase`. A cancellation stops
/// the publisher; an event that does not answer the pending command leaves
/// the phase as it is and repeats that command.
pub open spec fn transition(phase: Phase, event: Event) -> (Phase, Command) {
    match (phase, event) {
        (_, Event::Cancelled) => (Phase::Stopped, Command::Halt),
        (Phase::AwaitingSample, Event::Sampled { timestamp_ms }) => (
            Phase::AwaitingDelivery { timestamp_ms },
            Command::Publish { timestamp_ms },
        ),
        (Phase::AwaitingDelivery { .. }, Event::Delivered) => (
            Phase::Resting { report_failure: false },
            Command::Rest { millis: SAMPLE_INTERVAL_MS, report_failure: false },
        ),
        (Phase::AwaitingDelivery { .. }, Event::DeliveryFailed) => (
            Phase::Resting { report_failure: true },
            Command::Rest { millis: SAMPLE_INTERVAL_MS, report_failure: true },
        ),
        (Phase::Resting { .. }, Event::Woke) => (Phase::AwaitingSample, Command::TakeSample),
        _ => (phase, pending(phase)),
    }
}

/// The publisher's state between two events.
pub struct Publisher {
    phase: Phase,
}

impl View for Publisher {
    type V = Phase;

    closed spec fn view(&self) -> Phase {
        self.phase
    }
}

impl Publisher {
    /// A publisher about to take its first sample.
    pub fn new() -> (p: Self)
        ensures
            p@ == Phase::AwaitingSample,
    {
        Publisher { phase: Phase::AwaitingSample }
    }

    /// The command the publisher has issued and waits on.
    pub fn pending_command(&self) -> (c: Command)
        ensures
            c == pending(self@),
    {
        match self.phase {
            Phase::AwaitingSample => Command::TakeSample,
            Phase::AwaitingDelivery { timestamp_ms } => Command::Publish { timestamp_ms },
            Phase::Resting { report_failure } => Command::Rest {
                millis: SAMPLE_INTERVAL_MS,
                report_failure,
            },
            Phase::Stopped => Command::Halt,
        }
    }

    /// Whether the publisher has not been cancelled.
    pub fn is_running(&self) -> (r: bool)
        ensures
            r == (self@ != Phase::Stopped),
    {
        !matches!(self.phase, Phase::Stopped)
    }

    /// Takes in what came of the last command and returns the next one.
    pub fn step(&mut self, event: Event) -> (c: Command)
        ensures
            (final(self)@, c) == transition(old(self)@, event),
    {
        if let Event::Cancelled = event {
            self.phase = Phase::Stopped;
            return Command::Halt;
        }
        match (self.phase, event) {
            (Phase::AwaitingSample, Event::Sampled { timestamp_ms }) => {
                self.phase = Phase::AwaitingDelivery { timestamp_ms };
                Command::Publish { timestamp_ms }
            },
            (Phase::AwaitingDelivery { .. }, Event::Delivered) => {
                self.phase = Phase::Resting { report_failure: false };
                Command::Rest { millis: SAMPLE_INTERVAL_MS, report_failure: false }
            },
            (Phase::AwaitingDelivery { .. }, Event::DeliveryFailed) => {
                self.phase = Phase::Resting { report_failure: true };
                Command::Rest { millis: SAMPLE_INTERVAL_MS, report_failure: true }
            },
            (Phase::Resting { .. }, Event::Woke) => {
                self.phase = Phase::AwaitingSample;
                Command::TakeSample
            },
            _ => self.pending_command(),
        }
    }
}

/// The phase reached and the commands issued when `events` come in order,
/// starting in `phase`.
pub open spec fn run_events(phase: Phase, events: Seq<Event>) -> (Phase, Seq<Command>)
    decreases events.len(),
{
    if events.len() == 0 {
        (phase, seq![])
    } else {
        let (next, first) = transition(phase, events[0]);
        let (last, rest) = run_events(next, events.drop_first());
        (last, seq![first] + rest)
    }
}

/// The events of one tick: a sample taken at `timestamp_ms`, its delivery
/// or failed delivery, the end of the rest.
pub open spec fn tick_events(timestamp_ms: u128, delivered: bool) -> Seq<Event> {
    seq![
        Event::Sampled { timestamp_ms },
        if delivered {
            Event::Delivered
        } else {
            Event::DeliveryFailed
        },
        Event::Woke,
    ]
}

/// The commands of one tick: publish the sample, rest (reporting a failed
/// delivery), take the next sample.
pub open spec fn tick_commands(timestamp_ms: u128, delivered: bool) -> Seq<Command> {
    seq![
        Command::Publish { timestamp_ms },
        Command::Rest { millis: SAMPLE_INTERVAL_MS, report_failure: !delivered },
        Command::TakeSample,
    ]
}

/// The events of ticks whose samples were taken at `timestamps`, whose
/// deliveries succeeded as `delivered` says.
pub open spec fn ticks_events(timestamps: Seq<u128>, delivered: Seq<bool>) -> Seq<Event>
    decreases timestamps.len(),
{
    if timestamps.len() == 0 || delivered.len() == 0 {
        seq![]
    } else {
        tick_events(timestamps[0], delivered[0]) + ticks_events(
            timestamps.drop_first(),
            delivered.drop_first(),
        )
    }
}

/// The commands of those ticks.
pub open spec fn ticks_commands(timestamps: Seq<u128>, delivered: Seq<bool>) -> Seq<Command>
    decreases timestamps.len(),
{
    if timestamps.len() == 0 || delivered.len() == 0 {
        seq![]
    } else {
        tick_commands(timestamps[0], delivered[0]) + ticks_commands(
            timestamps.drop_first(),
            delivered.drop_first(),
        )
    }
}

/// The timestamps of the samples that `commands` publish, in order.
pub open spec fn published(commands: Seq<Command>) -> Seq<u128>
    decreases commands.len(),
{
    if commands.len() == 0 {
        seq![]
    } else {
        let rest = published(commands.drop_first());
        match commands[0] {
            Command::Publish { timestamp_ms } => seq![timestamp_ms] + rest,
            _ => rest,
        }
    }
}

proof fn lemma_run_events_append(phase: Phase, a: Seq<Event>, b: Seq<Event>)
    ensures
        run_events(phase, a + b) == (run_events(run_events(phase, a).0, b).0, run_events(
            phase,
            a,
        ).1 + run_events(run_events(phase, a).0, b).1),
    decreases a.len(),
{
    if a.len() == 0 {
        assert(a + b =~= b);
        assert(run_events(phase, a).1 + run_events(phase, b).1 =~= run_events(phase, b).1);
    } else {
        let next = transition(phase, a[0]).0;
        assert((a + b).drop_first() =~= a.drop_first() + b);
        lemma_run_events_append(next, a.drop_first(), b);
        assert(seq![transition(phase, a[0]).1] + (run_events(next, a.drop_first()).1 + run_events(
            run_events(next, a.drop_first()).0,
            b,
        ).1) =~= run_events(phase, a).1 + run_events(run_events(phase, a).0, b).1);
    }
}

proof fn lemma_published_append(a: Seq<Command>, b: Seq<Command>)
    ensures
        published(a + b) == published(a) + published(b),
    decreases a.len(),
{
    if a.len() == 0 {
        assert(a + b =~= b);
        assert(published(a) + published(b) =~= published(b));
    } else {
        assert((a + b).drop_first() =~= a.drop_first() + b);
        lemma_published_append(a.drop_first(), b);
        assert(published(a + b) =~= published(a) + published(b));
    }
}

/// Every tick, whether its sample was delivered or not, publishes the sample
/// it took, rests `SAMPLE_INTERVAL_MS`, and goes on to take the next sample:
/// a failed publication never stops the ticks that follow. The samples are
/// published in the order they were taken.
pub proof fn lemma_ticks_keep_publishing(timestamps: Seq<u128>, delivered: Seq<bool>)
    requires
        timestamps.len() == delivered.len(),
    ensures
        run_events(Phase::AwaitingSample, ticks_events(timestamps, delivered)) == (
            Phase::AwaitingSample,
            ticks_commands(timestamps, delivered),
        ),
        published(ticks_commands(timestamps, delivered)) == timestamps,
    decreases timestamps.len(),
{
    if timestamps.len() > 0 {
        let ts = timestamps.drop_first();
        let ds = delivered.drop_first();
        let one = tick_events(timestamps[0], delivered[0]);
        lemma_ticks_keep_publishing(ts, ds);
        lemma_run_events_append(Phase::AwaitingSample, one, ticks_events(ts, ds));
        assert(one.drop_first().drop_first().drop_first() =~= Seq::<Event>::empty());
        assert(run_events(Phase::AwaitingSample, one) == (
            Phase::AwaitingSample,
            tick_commands(timestamps[0], delivered[0]),
        )) by {
            let c = tick_commands(timestamps[0], delivered[0]);
            let e1 = one.drop_first();
            let e2 = e1.drop_first();
            let e3 = e2.drop_first();
            assert(e3 =~= Seq::<Event>::empty());
            assert(e2 =~= seq![Event::Woke]);
            assert(run_events(Phase::AwaitingSample, e3) == (Phase::AwaitingSample, Seq::<Command>::empty()));
            assert(run_events(Phase::Resting { report_failure: !delivered[0] }, e2).1 =~= seq![c[2]]);
            assert(e1[0] == one[1]);
            assert(run_events(Phase::AwaitingDelivery { timestamp_ms: timestamps[0] }, e1).1 =~= seq![c[1], c[2]]);
            assert(run_events(Phase::AwaitingSample, one).1 =~= c);
        }
        let c = tick_commands(timestamps[0], delivered[0]);
        lemma_published_append(c, ticks_commands(ts, ds));
        let c1 = c.drop_first();
        let c2 = c1.drop_first();
        let c3 = c2.drop_first();
        assert(c3 =~= Seq::<Command>::empty());
        assert(c2 =~= seq![Command::TakeSample]);
        assert(published(c3) =~= Seq::<u128>::empty());
        assert(published(c2) =~= Seq::<u128>::empty());
        assert(c1[0] == c[1]);
        assert(published(c1) =~= Seq::<u128>::empty());
        assert(published(c) =~= seq![timestamps[0]]);
        assert(timestamps =~= seq![timestamps[0]] + ts);
    }
}

} // verus!
