//! Collection of events: a bounded queue that never makes an execution wait.

use vstd::prelude::*;

use crate::scheduler::model::{ObservationView, StatementObservation};
use crate::scheduler::planner::CollectorReport;
use crate::scheduler::records::{ProgramRecord, ProgramView};

verus! {

/// How many bytes a captured program has at most.
pub const CORPUS_MAX_PROGRAM_BYTES: usize = 1048576;

/// What statistics are gathered from.
#[derive(Debug, PartialEq)]
pub enum StatisticsEvent {
    Statement(StatementObservation),
    Program(ProgramRecord),
}

/// The value of a [`StatisticsEvent`].
pub enum EventView {
    Statement(ObservationView),
    Program(ProgramView),
}

impl View for StatisticsEvent {
    type V = EventView;

    open spec fn view(&self) -> EventView {
        match *self {
            StatisticsEvent::Statement(observation) => EventView::Statement(observation@),
            StatisticsEvent::Program(record) => EventView::Program(record@),
        }
    }
}

pub open spec fn event_views(events: Seq<StatisticsEvent>) -> Seq<EventView> {
    Seq::new(events.len(), |i: int| events[i]@)
}

/// Takes events of executions and holds them until they are received. Where
/// the queue is full, an event is dropped and counted. Counts stop at their
/// maximum.
#[derive(Debug, PartialEq)]
pub struct StatisticsCollector {
    pub queue: Vec<StatisticsEvent>,
    pub capacity: usize,
    pub dropped: u64,
    pub corpus_captured: u64,
    pub corpus_skipped_oversize: u64,
    pub corpus_dropped_queue: u64,
    pub capture_programs: bool,
}

/// The value of a [`StatisticsCollector`].
#[verifier::ext_equal]
pub struct CollectorView {
    pub queue: Seq<EventView>,
    pub capacity: usize,
    pub dropped: u64,
    pub corpus_captured: u64,
    pub corpus_skipped_oversize: u64,
    pub corpus_dropped_queue: u64,
    pub capture_programs: bool,
}

impl View for StatisticsCollector {
    type V = CollectorView;

    open spec fn view(&self) -> CollectorView {
        CollectorView {
            queue: event_views(self.queue@),
            capacity: self.capacity,
            dropped: self.dropped,
            corpus_captured: self.corpus_captured,
            corpus_skipped_oversize: self.corpus_skipped_oversize,
            corpus_dropped_queue: self.corpus_dropped_queue,
            capture_programs: self.capture_programs,
        }
    }
}

impl CollectorView {
    /// An empty collector.
    pub open spec fn empty(capacity: usize, capture_programs: bool) -> CollectorView {
        CollectorView {
            queue: Seq::empty(),
            capacity,
            dropped: 0,
            corpus_captured: 0,
            corpus_skipped_oversize: 0,
            corpus_dropped_queue: 0,
            capture_programs,
        }
    }

    /// Whether no event fits.
    pub open spec fn is_full(self) -> bool {
        self.queue.len() >= self.capacity
    }

    /// After an execution was observed.
    pub open spec fn observed(self, observation: ObservationView) -> CollectorView {
        if self.is_full() {
            CollectorView { dropped: self.dropped.saturating_add(1), ..self }
        } else {
            CollectorView { queue: self.queue.push(EventView::Statement(observation)), ..self }
        }
    }

    /// After a program that is too large to be captured.
    pub open spec fn oversize_skipped(self) -> CollectorView {
        if self.capture_programs {
            CollectorView {
                corpus_skipped_oversize: self.corpus_skipped_oversize.saturating_add(1),
                ..self
            }
        } else {
            self
        }
    }

    /// After a program was executed. Nothing is captured unless capture is on,
    /// and each reason for a loss is counted apart.
    pub open spec fn executed(self, record: ProgramView) -> CollectorView {
        if !self.capture_programs {
            self
        } else if record.canonical.len() > CORPUS_MAX_PROGRAM_BYTES {
            self.oversize_skipped()
        } else if self.is_full() {
            CollectorView {
                dropped: self.dropped.saturating_add(1),
                corpus_dropped_queue: self.corpus_dropped_queue.saturating_add(1),
                ..self
            }
        } else {
            CollectorView {
                queue: self.queue.push(EventView::Program(record)),
                corpus_captured: self.corpus_captured.saturating_add(1),
                ..self
            }
        }
    }

    /// What the collector did.
    pub open spec fn report(self) -> CollectorReport {
        CollectorReport {
            corpus_enabled: self.capture_programs,
            dropped: self.dropped,
            corpus_captured: self.corpus_captured,
            corpus_skipped_oversize: self.corpus_skipped_oversize,
            corpus_dropped_queue: self.corpus_dropped_queue,
        }
    }
}

impl StatisticsCollector {
    /// A collector that captures no programs.
    pub fn channel(capacity: usize) -> (collector: StatisticsCollector)
        requires
            capacity > 0,
        ensures
            collector@ == CollectorView::empty(capacity, false),
    {
        StatisticsCollector::channel_with_programs(capacity, false)
    }

    /// A collector.
    pub fn channel_with_programs(capacity: usize, capture_programs: bool) -> (collector:
        StatisticsCollector)
        requires
            capacity > 0,
        ensures
            collector@ == CollectorView::empty(capacity, capture_programs),
    {
        let collector = StatisticsCollector {
            queue: Vec::new(),
            capacity,
            dropped: 0,
            corpus_captured: 0,
            corpus_skipped_oversize: 0,
            corpus_dropped_queue: 0,
            capture_programs,
        };
        assert(collector@ =~= CollectorView::empty(capacity, capture_programs));
        collector
    }

    /// How many events were dropped.
    pub fn dropped(&self) -> (count: u64)
        ensures
            count == self@.dropped,
    {
        self.dropped
    }

    /// What the collector did.
    pub fn report(&self) -> (report: CollectorReport)
        ensures
            report == self@.report(),
    {
        CollectorReport {
            corpus_enabled: self.capture_programs,
            dropped: self.dropped,
            corpus_captured: self.corpus_captured,
            corpus_skipped_oversize: self.corpus_skipped_oversize,
            corpus_dropped_queue: self.corpus_dropped_queue,
        }
    }

    /// Takes what was observed of an execution.
    pub fn statement(&mut self, observation: StatementObservation)
        ensures
            final(self)@ == old(self)@.observed(observation@),
    {
        if self.queue.len() >= self.capacity {
            self.dropped = self.dropped.saturating_add(1);
        } else {
            let ghost before = self@.queue;
            let ghost shown = observation@;
            self.queue.push(StatisticsEvent::Statement(observation));
            assert(self@.queue =~= before.push(EventView::Statement(shown)));
        }
    }

    /// Whether programs are captured.
    pub fn captures_programs(&self) -> (captures: bool)
        ensures
            captures == self@.capture_programs,
    {
        self.capture_programs
    }

    /// Takes a program that was executed.
    pub fn program(&mut self, record: ProgramRecord)
        ensures
            final(self)@ == old(self)@.executed(record@),
    {
        if !self.capture_programs {
            return;
        }
        if record.canonical.len() > CORPUS_MAX_PROGRAM_BYTES {
            self.program_skipped_oversize();
            return;
        }
        if self.queue.len() >= self.capacity {
            self.dropped = self.dropped.saturating_add(1);
            self.corpus_dropped_queue = self.corpus_dropped_queue.saturating_add(1);
        } else {
            let ghost before = self@.queue;
            let ghost shown = record@;
            self.queue.push(StatisticsEvent::Program(record));
            self.corpus_captured = self.corpus_captured.saturating_add(1);
            assert(self@.queue =~= before.push(EventView::Program(shown)));
        }
    }

    /// Counts a program that was too large to be handed over.
    pub fn program_skipped_oversize(&mut self)
        ensures
            final(self)@ == old(self)@.oversize_skipped(),
    {
        if self.capture_programs {
            self.corpus_skipped_oversize = self.corpus_skipped_oversize.saturating_add(1);
        }
    }

    /// Hands out the oldest event.
    pub fn receive(&mut self) -> (event: Option<StatisticsEvent>)
        ensures
            match event {
                Some(event) => old(self)@.queue.len() > 0 && event@ == old(self)@.queue[0]
                    && final(self)@ == (CollectorView {
                    queue: old(self)@.queue.remove(0),
                    ..old(self)@
                }),
                None => old(self)@.queue.len() == 0 && final(self)@ == old(self)@,
            },
    {
        if self.queue.len() == 0 {
            None
        } else {
            let ghost before = self@.queue;
            let event = self.queue.remove(0);
            assert(before[0] == event@);
            assert(self@.queue =~= before.remove(0));
            Some(event)
        }
    }
}

/// Programs are captured only where capture is on: otherwise no program is
/// queued or counted.
pub proof fn capture_is_opt_in(collector: CollectorView, record: ProgramView)
    requires
        !collector.capture_programs,
    ensures
        collector.executed(record) == collector,
        collector.oversize_skipped() == collector,
{
}

/// Every program that was not captured is counted under one reason.
pub proof fn losses_are_counted(collector: CollectorView, record: ProgramView)
    requires
        collector.capture_programs,
        collector.corpus_captured < u64::MAX,
        collector.corpus_skipped_oversize < u64::MAX,
        collector.corpus_dropped_queue < u64::MAX,
    ensures
        ({
            let after = collector.executed(record);
            after.corpus_captured + after.corpus_skipped_oversize + after.corpus_dropped_queue
                == collector.corpus_captured + collector.corpus_skipped_oversize
                + collector.corpus_dropped_queue + 1
        }),
{
}

/// The queue never grows beyond its capacity, and what does not fit is counted:
/// observing an execution never waits.
pub proof fn queues_stay_bounded(collector: CollectorView, observation: ObservationView)
    requires
        collector.queue.len() <= collector.capacity,
    ensures
        collector.observed(observation).queue.len() <= collector.capacity,
        collector.queue.len() == collector.capacity ==> collector.observed(observation)
            == (CollectorView { dropped: collector.dropped.saturating_add(1), ..collector }),
        collector.queue.len() < collector.capacity ==> collector.observed(observation).queue
            == collector.queue.push(EventView::Statement(observation)),
{
}

} // verus!
