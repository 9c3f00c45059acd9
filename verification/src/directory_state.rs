//! Progress bookkeeping for one indexing request: a counter of files in
//! flight and a latch that is set the first time the counter returns to zero.

use vstd::prelude::*;

verus! {

/// What a caller is told about a directory.
#[derive(Debug, Clone, Copy, PartialEq, Eq, Structural)]
pub enum IndexingStatus {
    Indexing { jobs_outstanding: usize },
    Indexed,
    NotIndexed,
}

impl IndexingStatus {
    /// The label of the status, as shown to users.
    pub open spec fn label(self) -> Seq<char> {
        match self {
            IndexingStatus::Indexing { .. } => "Indexing"@,
            IndexingStatus::Indexed => "Indexed"@,
            IndexingStatus::NotIndexed => "Not Indexed"@,
        }
    }

    /// The label of the status as a string.
    pub fn to_string(&self) -> (r: String)
        ensures
            r@ == self.label(),
    {
        match self {
            IndexingStatus::Indexing { .. } => String::from_str("Indexing"),
            IndexingStatus::Indexed => String::from_str("Indexed"),
            IndexingStatus::NotIndexed => String::from_str("Not Indexed"),
        }
    }

    /// The number of files still in flight, while there are any.
    pub fn outstanding(&self) -> (r: Option<usize>)
        ensures
            r == (match *self {
                IndexingStatus::Indexing { jobs_outstanding } => Some(jobs_outstanding),
                _ => None,
            }),
    {
        match self {
            IndexingStatus::Indexing { jobs_outstanding } => Some(*jobs_outstanding),
            _ => None,
        }
    }
}

/// The counter and latch of a directory job, as mathematical values.
pub struct JobCounter {
    pub outstanding: nat,
    pub notified: bool,
}

/// One step in the life of a directory job.
pub enum JobEvent {
    Started,
    Dropped,
}

impl JobCounter {
    /// A job that has counted no file and woken nobody.
    pub open spec fn fresh() -> JobCounter {
        JobCounter { outstanding: 0, notified: false }
    }

    /// A drop needs a job to drop.
    pub open spec fn admits(self, e: JobEvent) -> bool {
        e is Dropped ==> self.outstanding > 0
    }

    /// The counter and latch after one event.
    pub open spec fn step(self, e: JobEvent) -> JobCounter {
        match e {
            JobEvent::Started => JobCounter { outstanding: self.outstanding + 1, ..self },
            JobEvent::Dropped => JobCounter {
                outstanding: (self.outstanding - 1) as nat,
                notified: self.notified || self.outstanding == 1,
            },
        }
    }

    /// The step brings the counter from above zero to zero.
    pub open spec fn reaches_zero(self, e: JobEvent) -> bool {
        e is Dropped && self.outstanding == 1
    }

    /// The step sets the latch: waiters are woken now.
    pub open spec fn fires(self, e: JobEvent) -> bool {
        self.reaches_zero(e) && !self.notified
    }

    /// What a caller is told: `Indexed` where no file is in flight.
    pub open spec fn status(self) -> IndexingStatus {
        if self.outstanding == 0 {
            IndexingStatus::Indexed
        } else {
            IndexingStatus::Indexing { jobs_outstanding: self.outstanding as usize }
        }
    }

    /// Every event of the history finds the counter ready for it.
    pub open spec fn admits_all(self, events: Seq<JobEvent>) -> bool
        decreases events.len(),
    {
        events.len() > 0 ==> self.admits(events[0]) && self.step(events[0]).admits_all(
            events.drop_first(),
        )
    }

    /// The counter and latch after a history of events.
    pub open spec fn run(self, events: Seq<JobEvent>) -> JobCounter
        decreases events.len(),
    {
        if events.len() == 0 {
            self
        } else {
            self.step(events[0]).run(events.drop_first())
        }
    }

    /// How often the latch was set while the events were applied.
    pub open spec fn firings(self, events: Seq<JobEvent>) -> nat
        decreases events.len(),
    {
        if events.len() == 0 {
            0
        } else {
            (if self.fires(events[0]) { 1nat } else { 0nat }) + self.step(events[0]).firings(
                events.drop_first(),
            )
        }
    }

    /// Some step of the events brought the counter from above zero to zero.
    pub open spec fn returned_to_zero(self, events: Seq<JobEvent>) -> bool
        decreases events.len(),
    {
        events.len() > 0 && (self.reaches_zero(events[0]) || self.step(
            events[0],
        ).returned_to_zero(events.drop_first()))
    }
}

/// The latch is set exactly once over any history in which the counter
/// returns to zero, and never otherwise; once set it stays set.
pub proof fn lemma_notify_fires_once(start: JobCounter, events: Seq<JobEvent>)
    requires
        start.admits_all(events),
    ensures
        start.firings(events) == (if !start.notified && start.returned_to_zero(events) {
            1nat
        } else {
            0nat
        }),
        start.run(events).notified == (start.notified || start.returned_to_zero(events)),
    decreases events.len(),
{
    if events.len() > 0 {
        lemma_notify_fires_once(start.step(events[0]), events.drop_first());
    }
}

/// A directory job that starts with no file in flight and an unset latch has
/// fired once if its counter ever came back to zero, and not at all if not.
pub proof fn lemma_fresh_job_notifies_once(events: Seq<JobEvent>)
    requires
        JobCounter::fresh().admits_all(events),
    ensures
        JobCounter::fresh().firings(events) == (if JobCounter::fresh().returned_to_zero(events) {
            1nat
        } else {
            0nat
        }),
{
    lemma_notify_fires_once(JobCounter::fresh(), events);
}

/// Right after the step that wakes the waiters the status is `Indexed`.
pub proof fn lemma_notified_means_indexed(before: JobCounter, e: JobEvent)
    requires
        before.admits(e),
        before.fires(e),
    ensures
        before.step(e).status() == IndexingStatus::Indexed,
        before.step(e).notified,
{
}

/// Per-request state of one directory.
#[derive(Debug, Clone, PartialEq, Eq)]
pub struct DirectoryState {
    pub id: String,
    pub job_count: usize,
    pub notified: bool,
}

impl View for DirectoryState {
    type V = JobCounter;

    open spec fn view(&self) -> JobCounter {
        JobCounter { outstanding: self.job_count as nat, notified: self.notified }
    }
}

impl DirectoryState {
    /// The state of a job that has counted no file and woken nobody.
    pub fn new(id: String) -> (r: DirectoryState)
        ensures
            r.id == id,
            r@ == JobCounter::fresh(),
    {
        DirectoryState { id, job_count: 0, notified: false }
    }

    /// Counts one more file in flight.
    pub fn new_job(&mut self)
        requires
            old(self).job_count < usize::MAX,
        ensures
            final(self)@ == old(self)@.step(JobEvent::Started),
            final(self).id == old(self).id,
    {
        self.job_count = self.job_count + 1;
    }

    /// Counts one file less; the result says whether the waiters are to be
    /// woken now.
    pub fn job_dropped(&mut self) -> (fire: bool)
        requires
            old(self).job_count > 0,
        ensures
            final(self)@ == old(self)@.step(JobEvent::Dropped),
            final(self).id == old(self).id,
            fire == old(self)@.fires(JobEvent::Dropped),
    {
        self.job_count = self.job_count - 1;
        if self.job_count == 0 && !self.notified {
            self.notified = true;
            true
        } else {
            false
        }
    }

    /// What a caller is told about the job.
    pub fn status(&self) -> (r: IndexingStatus)
        ensures
            r == self@.status(),
    {
        if self.job_count == 0 {
            IndexingStatus::Indexed
        } else {
            IndexingStatus::Indexing { jobs_outstanding: self.job_count }
        }
    }
}

} // verus!
