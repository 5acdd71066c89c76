//! Progress reporting for the desktop window: the per-phase work state with
//! its active tasks, and the reporter that turns pipeline events into
//! numbered window messages, throttling the frequent work snapshots.
use vstd::prelude::*;

use crate::text::chars_of;
use crate::youtube::{UnavailabilityReason, YoutubeProgress};

verus! {

broadcast use vstd::string::group_string_axioms;

/// At most this many active tasks are listed in a work snapshot.
pub const MAX_ACTIVE_TASKS: usize = 8;

/// Work snapshots are sent at most this often (in nanoseconds) while a phase
/// is running, unless forced or the phase completes.
pub const FAST_UPDATE_INTERVAL_NANOS: u64 = 75_000_000;

/// The message reported when the window cannot be reached.
pub const DELIVERY_FAILURE: &'static str = "Progress updates could not be delivered to the window.";

/// Where the selected tracks come from.
#[derive(Debug, Clone, Copy, PartialEq, Eq)]
pub enum ProgressSource {
    LocalFiles,
    YoutubePlaylist,
}

/// The two phases that process tracks one by one.
#[derive(Debug, Clone, Copy, PartialEq, Eq, Structural)]
pub enum WorkPhase {
    Audio,
    Dsp,
}

/// What an active task is doing.
#[derive(Debug, Clone, Copy, PartialEq, Eq)]
pub enum TaskState {
    Checking,
    Analyzing,
}

/// A task that has started and not yet finished.
#[derive(Debug, Clone, PartialEq, Eq)]
pub struct ActiveTask {
    pub task_id: String,
    pub source_index: usize,
    pub title: String,
    pub state: TaskState,
}

/// How the finished tasks of a phase ended.
#[derive(Debug, Clone, Copy, PartialEq, Eq)]
pub struct OutcomeCounters {
    pub cached: usize,
    pub downloaded: usize,
    pub skipped_cached: usize,
    pub skipped: usize,
    pub computed: usize,
    pub failed: usize,
}

/// All counters at zero.
pub open spec fn zero_counters() -> OutcomeCounters {
    OutcomeCounters { cached: 0, downloaded: 0, skipped_cached: 0, skipped: 0, computed: 0, failed: 0 }
}

impl Default for OutcomeCounters {
    fn default() -> (counters: OutcomeCounters)
        ensures
            counters == zero_counters(),
    {
        OutcomeCounters { cached: 0, downloaded: 0, skipped_cached: 0, skipped: 0, computed: 0, failed: 0 }
    }
}

/// A message for the window.
#[derive(Debug, Clone, PartialEq, Eq)]
pub enum ProgressEvent {
    Validating { source: ProgressSource, total: usize },
    CheckingManifest,
    ManifestReady { title: String, total: usize, was_cached: bool },
    WorkSnapshot {
        work_phase: WorkPhase,
        completed: usize,
        total: usize,
        counters: OutcomeCounters,
        active: Vec<ActiveTask>,
    },
    Optimizing { total: usize },
    PreparingPlayer { total: usize },
    Completed { total: usize },
}

/// A numbered message: the window drops messages older than one it has seen.
#[derive(Debug, Clone, PartialEq, Eq)]
pub struct AppProgress {
    pub seq: u64,
    pub event: ProgressEvent,
}

// ---------------------------------------------------------------------------
// Task identifiers are ordered as `String` orders them: lexicographically by
// bytes, which for UTF-8 is lexicographic order of the characters.
// ---------------------------------------------------------------------------

/// `a` sorts before `b`, the first `k` characters being equal.
pub open spec fn key_lt_from(a: Seq<char>, b: Seq<char>, k: int) -> bool
    decreases a.len() - k,
{
    if k < 0 {
        false
    } else if k >= a.len() {
        k < b.len()
    } else if k >= b.len() {
        false
    } else if a[k] != b[k] {
        a[k] < b[k]
    } else {
        key_lt_from(a, b, k + 1)
    }
}

/// `a` sorts before `b` in `String` order.
pub open spec fn key_lt(a: Seq<char>, b: Seq<char>) -> bool {
    key_lt_from(a, b, 0)
}

proof fn lemma_key_lt_irreflexive(a: Seq<char>, k: int)
    requires
        0 <= k,
    ensures
        !key_lt_from(a, a, k),
    decreases a.len() - k,
{
    if k < a.len() {
        lemma_key_lt_irreflexive(a, k + 1);
    }
}

proof fn lemma_key_lt_total(a: Seq<char>, b: Seq<char>, k: int)
    requires
        0 <= k <= a.len(),
        k <= b.len(),
        a.skip(k) != b.skip(k),
    ensures
        key_lt_from(a, b, k) || key_lt_from(b, a, k),
    decreases a.len() - k,
{
    if k == a.len() && k == b.len() {
        assert(a.skip(k) =~= b.skip(k));
    } else if k < a.len() && k < b.len() && a[k] == b[k] {
        if a.skip(k + 1) == b.skip(k + 1) {
            assert(a.skip(k + 1).len() == b.skip(k + 1).len());
            assert(a.len() == b.len());
            assert(a.skip(k) =~= b.skip(k)) by {
                assert forall|i: int| 0 <= i < a.skip(k).len() implies a.skip(k)[i] == b.skip(k)[i] by {
                    if i > 0 {
                        assert(a.skip(k)[i] == a.skip(k + 1)[i - 1]);
                        assert(b.skip(k)[i] == b.skip(k + 1)[i - 1]);
                    }
                }
            }
        }
        lemma_key_lt_total(a, b, k + 1);
    }
}

proof fn lemma_key_lt_transitive(a: Seq<char>, b: Seq<char>, c: Seq<char>, k: int)
    requires
        0 <= k,
        key_lt_from(a, b, k),
        key_lt_from(b, c, k),
    ensures
        key_lt_from(a, c, k),
    decreases a.len() - k,
{
    if k < a.len() && k < b.len() && k < c.len() && a[k] == b[k] && b[k] == c[k] {
        lemma_key_lt_transitive(a, b, c, k + 1);
    }
}

/// Distinct keys are ordered one way or the other.
proof fn lemma_key_trichotomy(a: Seq<char>, b: Seq<char>)
    ensures
        a != b ==> key_lt(a, b) || key_lt(b, a),
        !key_lt(a, a),
{
    lemma_key_lt_irreflexive(a, 0);
    if a != b {
        assert(a.skip(0) =~= a);
        assert(b.skip(0) =~= b);
        lemma_key_lt_total(a, b, 0);
    }
}

/// Whether `a` sorts before `b`.
fn key_less(a: &[char], b: &[char]) -> (less: bool)
    ensures
        less == key_lt(a@, b@),
{
    let mut k: usize = 0;
    while k < a.len() && k < b.len()
        invariant
            0 <= k <= a@.len(),
            k <= b@.len(),
            key_lt(a@, b@) == key_lt_from(a@, b@, k as int),
        decreases a.len() - k,
    {
        if a[k] != b[k] {
            return a[k] < b[k];
        }
        k = k + 1;
    }
    k >= a.len() && k < b.len()
}

/// The task identifiers strictly increase along the sequence.
pub open spec fn tasks_sorted(tasks: Seq<ActiveTask>) -> bool {
    forall|i: int, j: int|
        0 <= i < j < tasks.len() ==> key_lt(#[trigger] tasks[i].task_id@, #[trigger] tasks[j].task_id@)
}

/// `p` is where a task with identifier `key` belongs: every task before it
/// sorts before `key`, the task at it does not.
pub open spec fn is_insert_point(tasks: Seq<ActiveTask>, key: Seq<char>, p: int) -> bool {
    &&& 0 <= p <= tasks.len()
    &&& forall|i: int| 0 <= i < p ==> key_lt(#[trigger] tasks[i].task_id@, key)
    &&& p < tasks.len() ==> !key_lt(tasks[p].task_id@, key)
}

/// The tasks after `task` is recorded under its identifier, replacing a task
/// recorded under the same identifier (a map insertion kept in key order).
pub open spec fn with_task(tasks: Seq<ActiveTask>, task: ActiveTask) -> Seq<ActiveTask> {
    let p = choose|p: int| is_insert_point(tasks, task.task_id@, p);
    if p < tasks.len() && tasks[p].task_id@ == task.task_id@ {
        tasks.update(p, task)
    } else {
        tasks.insert(p, task)
    }
}

/// The tasks after the one recorded under `key`, if any, is removed.
pub open spec fn without_task(tasks: Seq<ActiveTask>, key: Seq<char>) -> Seq<ActiveTask> {
    if exists|i: int| 0 <= i < tasks.len() && #[trigger] tasks[i].task_id@ == key {
        tasks.remove(choose|i: int| 0 <= i < tasks.len() && #[trigger] tasks[i].task_id@ == key)
    } else {
        tasks
    }
}

proof fn lemma_insert_point_unique(tasks: Seq<ActiveTask>, key: Seq<char>, p: int, q: int)
    requires
        is_insert_point(tasks, key, p),
        is_insert_point(tasks, key, q),
    ensures
        p == q,
{
    if p < q {
        assert(key_lt(tasks[p].task_id@, key));
    } else if q < p {
        assert(key_lt(tasks[q].task_id@, key));
    }
}

proof fn lemma_key_index_unique(tasks: Seq<ActiveTask>, key: Seq<char>, i: int, j: int)
    requires
        tasks_sorted(tasks),
        0 <= i < tasks.len(),
        0 <= j < tasks.len(),
        tasks[i].task_id@ == key,
        tasks[j].task_id@ == key,
    ensures
        i == j,
{
    lemma_key_trichotomy(key, key);
    if i < j {
        assert(key_lt(tasks[i].task_id@, tasks[j].task_id@));
    } else if j < i {
        assert(key_lt(tasks[j].task_id@, tasks[i].task_id@));
    }
}

/// A copy of a task.
fn copy_task(task: &ActiveTask) -> (copy: ActiveTask)
    ensures
        copy == *task,
{
    ActiveTask {
        task_id: task.task_id.clone(),
        source_index: task.source_index,
        title: task.title.clone(),
        state: task.state,
    }
}

/// Records `task` under its identifier in the sorted task list.
fn insert_task(tasks: &mut Vec<ActiveTask>, task: ActiveTask)
    requires
        tasks_sorted(old(tasks)@),
    ensures
        final(tasks)@ == with_task(old(tasks)@, task),
        tasks_sorted(final(tasks)@),
{
    let ghost old_tasks = tasks@;
    let key = chars_of(task.task_id.as_str());
    let mut p: usize = 0;
    loop
        invariant
            0 <= p <= tasks@.len(),
            tasks@ == old_tasks,
            key@ == task.task_id@,
            forall|i: int| 0 <= i < p ==> key_lt(#[trigger] tasks@[i].task_id@, key@),
        ensures
            is_insert_point(tasks@, key@, p as int),
            tasks@ == old_tasks,
        decreases tasks.len() - p,
    {
        if p >= tasks.len() {
            break;
        }
        let current = chars_of(tasks[p].task_id.as_str());
        if !key_less(current.as_slice(), key.as_slice()) {
            break;
        }
        p = p + 1;
    }
    proof {
        let c = choose|q: int| is_insert_point(old_tasks, task.task_id@, q);
        lemma_insert_point_unique(old_tasks, task.task_id@, c, p as int);
    }
    if p < tasks.len() && tasks[p].task_id == task.task_id {
        tasks.set(p, task);
        assert(tasks_sorted(tasks@)) by {
            assert forall|i: int, j: int| 0 <= i < j < tasks@.len() implies key_lt(
                #[trigger] tasks@[i].task_id@,
                #[trigger] tasks@[j].task_id@,
            ) by {
                assert(key_lt(old_tasks[i].task_id@, old_tasks[j].task_id@));
            }
        }
    } else {
        let ghost new_key = task.task_id@;
        tasks.insert(p, task);
        proof {
            if (p as int) < old_tasks.len() {
                lemma_key_trichotomy(old_tasks[p as int].task_id@, new_key);
            }
            assert forall|i: int, j: int| 0 <= i < j < tasks@.len() implies key_lt(
                #[trigger] tasks@[i].task_id@,
                #[trigger] tasks@[j].task_id@,
            ) by {
                let pp = p as int;
                if j < pp {
                    assert(key_lt(old_tasks[i].task_id@, old_tasks[j].task_id@));
                } else if j == pp {
                    assert(key_lt(old_tasks[i].task_id@, new_key));
                } else if i < pp {
                    assert(key_lt(old_tasks[i].task_id@, old_tasks[j - 1].task_id@));
                } else if i == pp {
                    assert(key_lt(new_key, old_tasks[pp].task_id@));
                    if j - 1 > pp {
                        assert(key_lt(old_tasks[pp].task_id@, old_tasks[j - 1].task_id@));
                        lemma_key_lt_transitive(
                            new_key,
                            old_tasks[pp].task_id@,
                            old_tasks[j - 1].task_id@,
                            0,
                        );
                    }
                } else {
                    assert(key_lt(old_tasks[i - 1].task_id@, old_tasks[j - 1].task_id@));
                }
            }
        }
    }
}

/// Removes the task recorded under `key`, if there is one.
fn remove_task(tasks: &mut Vec<ActiveTask>, key: &String)
    requires
        tasks_sorted(old(tasks)@),
    ensures
        final(tasks)@ == without_task(old(tasks)@, key@),
        tasks_sorted(final(tasks)@),
{
    let ghost old_tasks = tasks@;
    let mut i: usize = 0;
    while i < tasks.len()
        invariant
            0 <= i <= tasks@.len(),
            tasks@ == old_tasks,
            old_tasks == old(tasks)@,
            tasks_sorted(old_tasks),
            forall|k: int| 0 <= k < i ==> #[trigger] old_tasks[k].task_id@ != key@,
        decreases tasks.len() - i,
    {
        if tasks[i].task_id == *key {
            assert(old_tasks[i as int].task_id@ == key@);
            proof {
                let c = choose|k: int| 0 <= k < old_tasks.len() && #[trigger] old_tasks[k].task_id@ == key@;
                lemma_key_index_unique(old_tasks, key@, c, i as int);
                assert(without_task(old_tasks, key@) == old_tasks.remove(i as int));
            }
            tasks.remove(i);
            assert(tasks_sorted(tasks@)) by {
                assert forall|a: int, b: int| 0 <= a < b < tasks@.len() implies key_lt(
                    #[trigger] tasks@[a].task_id@,
                    #[trigger] tasks@[b].task_id@,
                ) by {
                    let oa = if a < i { a } else { a + 1 };
                    let ob = if b < i { b } else { b + 1 };
                    assert(key_lt(old_tasks[oa].task_id@, old_tasks[ob].task_id@));
                }
            }
            return;
        }
        i = i + 1;
    }
}


// ---------------------------------------------------------------------------
// The model: views of the work state, the events and the reporter.
// ---------------------------------------------------------------------------

/// What a work state holds, its active tasks as a sequence.
#[verifier::ext_equal]
pub struct WorkView {
    pub phase: WorkPhase,
    pub completed: usize,
    pub total: usize,
    pub counters: OutcomeCounters,
    pub active: Seq<ActiveTask>,
}

/// A window message's event, its lists as sequences.
#[verifier::ext_equal]
pub enum EventView {
    Validating { source: ProgressSource, total: usize },
    CheckingManifest,
    ManifestReady { title: Seq<char>, total: usize, was_cached: bool },
    WorkSnapshot {
        work_phase: WorkPhase,
        completed: usize,
        total: usize,
        counters: OutcomeCounters,
        active: Seq<ActiveTask>,
    },
    Optimizing { total: usize },
    PreparingPlayer { total: usize },
    Completed { total: usize },
}

impl View for ProgressEvent {
    type V = EventView;

    open spec fn view(&self) -> EventView {
        match *self {
            ProgressEvent::Validating { source, total } => EventView::Validating { source, total },
            ProgressEvent::CheckingManifest => EventView::CheckingManifest,
            ProgressEvent::ManifestReady { title, total, was_cached } => EventView::ManifestReady {
                title: title@,
                total,
                was_cached,
            },
            ProgressEvent::WorkSnapshot { work_phase, completed, total, counters, active } =>
                EventView::WorkSnapshot { work_phase, completed, total, counters, active: active@ },
            ProgressEvent::Optimizing { total } => EventView::Optimizing { total },
            ProgressEvent::PreparingPlayer { total } => EventView::PreparingPlayer { total },
            ProgressEvent::Completed { total } => EventView::Completed { total },
        }
    }
}

impl View for AppProgress {
    type V = (u64, EventView);

    open spec fn view(&self) -> (u64, EventView) {
        (self.seq, self.event@)
    }
}

/// The messages, in order, as views.
pub open spec fn messages_view(messages: Seq<AppProgress>) -> Seq<(u64, EventView)> {
    messages.map_values(|m: AppProgress| m@)
}

/// A message, if any, as a view.
pub open spec fn message_view(message: Option<AppProgress>) -> Option<(u64, EventView)> {
    match message {
        Some(m) => Some(m@),
        None => None,
    }
}

/// The progress of one phase: how many tasks it has, how many finished and
/// how, and which are running (sorted by task identifier).
#[derive(Debug)]
pub struct WorkState {
    pub phase: WorkPhase,
    pub completed: usize,
    pub total: usize,
    pub counters: OutcomeCounters,
    pub active: Vec<ActiveTask>,
}

impl View for WorkState {
    type V = WorkView;

    open spec fn view(&self) -> WorkView {
        WorkView {
            phase: self.phase,
            completed: self.completed,
            total: self.total,
            counters: self.counters,
            active: self.active@,
        }
    }
}

/// A phase that has just started.
pub open spec fn fresh_work(phase: WorkPhase, total: usize) -> WorkView {
    WorkView { phase, completed: 0, total, counters: zero_counters(), active: Seq::empty() }
}

/// The snapshot of a phase: its counts and its first active tasks.
pub open spec fn snapshot_view(work: WorkView) -> EventView {
    EventView::WorkSnapshot {
        work_phase: work.phase,
        completed: work.completed,
        total: work.total,
        counters: work.counters,
        active: work.active.take(
            if work.active.len() < MAX_ACTIVE_TASKS {
                work.active.len() as int
            } else {
                MAX_ACTIVE_TASKS as int
            },
        ),
    }
}

/// A phase after one of its tasks finished, with the counters given.
pub open spec fn finish_task(work: WorkView, task_id: Seq<char>, counters: OutcomeCounters) -> WorkView {
    WorkView {
        active: without_task(work.active, task_id),
        completed: (work.completed + 1) as usize,
        counters,
        ..work
    }
}

impl WorkState {
    /// The active tasks are sorted by their identifiers, each recorded once.
    pub open spec fn wf(&self) -> bool {
        tasks_sorted(self.active@)
    }

    /// A phase with `total` tasks, none started.
    pub fn new(phase: WorkPhase, total: usize) -> (work: WorkState)
        ensures
            work@ == fresh_work(phase, total),
            work.wf(),
    {
        WorkState { phase, completed: 0, total, counters: OutcomeCounters::default(), active: Vec::new() }
    }

    /// Records a running task under its identifier, replacing the task
    /// recorded under it before.
    pub fn insert_active(&mut self, task: ActiveTask)
        requires
            old(self).wf(),
        ensures
            final(self).wf(),
            final(self)@ == (WorkView { active: with_task(old(self)@.active, task), ..old(self)@ }),
    {
        insert_task(&mut self.active, task);
    }

    /// Forgets the task recorded under `task_id`, if there is one.
    pub fn remove_active(&mut self, task_id: &str)
        requires
            old(self).wf(),
        ensures
            final(self).wf(),
            final(self)@ == (WorkView { active: without_task(old(self)@.active, task_id@), ..old(self)@ }),
    {
        let key = String::from_str(task_id);
        remove_task(&mut self.active, &key);
    }

    /// The window message that shows this phase: its counts and at most
    /// `MAX_ACTIVE_TASKS` active tasks, those first in identifier order.
    pub fn snapshot(&self) -> (event: ProgressEvent)
        ensures
            event@ == snapshot_view(self@),
    {
        let count = if self.active.len() < MAX_ACTIVE_TASKS {
            self.active.len()
        } else {
            MAX_ACTIVE_TASKS
        };
        let mut active: Vec<ActiveTask> = Vec::new();
        let mut i: usize = 0;
        while i < count
            invariant
                count <= self.active@.len(),
                0 <= i <= count,
                active@ == self.active@.take(i as int),
            decreases count - i,
        {
            let task = copy_task(&self.active[i]);
            assert(self.active@.take(i + 1) =~= active@.push(task));
            active.push(task);
            i = i + 1;
        }
        ProgressEvent::WorkSnapshot {
            work_phase: self.phase,
            completed: self.completed,
            total: self.total,
            counters: self.counters,
            active,
        }
    }
}


/// The analysis pipeline's events that the reporter shows.
#[derive(Debug, Clone, PartialEq, Eq)]
pub enum Progress {
    Analyzing { task_id: String, source_index: usize, total: usize, title: String },
    CacheHit { task_id: String, source_index: usize, total: usize, title: String },
    Analyzed { task_id: String, source_index: usize, total: usize, title: String },
    Optimizing { total: usize },
    AnnealingSkipped { total: usize, reason: String },
}

/// What the reporter knows, its work state taken by its view.
#[verifier::ext_equal]
pub struct ReporterView {
    pub delivery_error: bool,
    pub seq: u64,
    pub work: Option<WorkView>,
    pub last_work_send: Option<u64>,
    pub work_dirty: bool,
}

/// The reporter behind the desktop window: it numbers messages, keeps the
/// current phase's work state and decides when a work snapshot is due.
/// Times are nanoseconds on a monotonic clock.
#[derive(Debug)]
pub struct ReporterState {
    pub delivery_error: bool,
    pub seq: u64,
    pub work: Option<WorkState>,
    pub last_work_send: Option<u64>,
    pub work_dirty: bool,
}

impl View for ReporterState {
    type V = ReporterView;

    open spec fn view(&self) -> ReporterView {
        ReporterView {
            delivery_error: self.delivery_error,
            seq: self.seq,
            work: match self.work {
                Some(w) => Some(w@),
                None => None,
            },
            last_work_send: self.last_work_send,
            work_dirty: self.work_dirty,
        }
    }
}

/// The next message number: one more, stopping at the largest.
pub open spec fn next_seq(seq: u64) -> u64 {
    if seq < u64::MAX {
        (seq + 1) as u64
    } else {
        seq
    }
}

/// The reporter after numbering `event`, and the message it makes.
pub open spec fn emit(r: ReporterView, event: EventView) -> (ReporterView, (u64, EventView)) {
    (ReporterView { seq: next_seq(r.seq), ..r }, (next_seq(r.seq), event))
}

/// The reporter with its work state dropped.
pub open spec fn without_work(r: ReporterView) -> ReporterView {
    ReporterView { work: None, work_dirty: false, ..r }
}

/// The reporter with a work state for `phase` and `total` tasks: the current
/// one if it matches, else a fresh one (and no snapshot sent for it yet).
pub open spec fn ensure_work(r: ReporterView, phase: WorkPhase, total: usize) -> ReporterView {
    match r.work {
        Some(w) => if w.phase == phase && w.total == total {
            r
        } else {
            ReporterView { work: Some(fresh_work(phase, total)), last_work_send: None, ..r }
        },
        None => ReporterView { work: Some(fresh_work(phase, total)), last_work_send: None, ..r },
    }
}

/// The reporter with its work state replaced.
pub open spec fn with_work(r: ReporterView, work: WorkView) -> ReporterView {
    ReporterView { work: Some(work), ..r }
}

/// A snapshot is due when none was sent for this phase, or the last one is
/// at least the update interval old.
pub open spec fn is_due(last: Option<u64>, now: u64) -> bool {
    match last {
        None => true,
        Some(t) => t <= now && now - t >= FAST_UPDATE_INTERVAL_NANOS,
    }
}

/// After the work state changed: a snapshot goes out when forced, when the
/// phase is complete or when one is due; otherwise the change waits.
pub open spec fn send_work(r: ReporterView, now: u64, force: bool) -> (ReporterView, Option<(u64, EventView)>) {
    match r.work {
        None => (r, None),
        Some(w) => if force || w.completed == w.total || is_due(r.last_work_send, now) {
            let (r2, m) = emit(r, snapshot_view(w));
            (ReporterView { last_work_send: Some(now), work_dirty: false, ..r2 }, Some(m))
        } else {
            (ReporterView { work_dirty: true, ..r }, None)
        },
    }
}

/// Counters with `cached` or `other` raised by one.
pub open spec fn counted(c: OutcomeCounters, outcome: Outcome) -> OutcomeCounters {
    match outcome {
        Outcome::Cached => OutcomeCounters { cached: (c.cached + 1) as usize, ..c },
        Outcome::Downloaded => OutcomeCounters { downloaded: (c.downloaded + 1) as usize, ..c },
        Outcome::SkippedCached => OutcomeCounters { skipped_cached: (c.skipped_cached + 1) as usize, ..c },
        Outcome::Skipped => OutcomeCounters { skipped: (c.skipped + 1) as usize, ..c },
        Outcome::Computed => OutcomeCounters { computed: (c.computed + 1) as usize, ..c },
    }
}

/// How a finished task is counted.
#[derive(Debug, Clone, Copy, PartialEq, Eq)]
pub enum Outcome {
    Cached,
    Downloaded,
    SkippedCached,
    Skipped,
    Computed,
}

/// A task starts: it is recorded in the phase's work state.
pub open spec fn start_step(
    r: ReporterView,
    phase: WorkPhase,
    total: usize,
    task: ActiveTask,
    now: u64,
) -> (ReporterView, Option<(u64, EventView)>) {
    let r1 = ensure_work(r, phase, total);
    let w = r1.work->0;
    send_work(with_work(r1, WorkView { active: with_task(w.active, task), ..w }), now, false)
}

/// A task finishes: it leaves the active list and is counted.
pub open spec fn finish_step(
    r: ReporterView,
    phase: WorkPhase,
    total: usize,
    task_id: Seq<char>,
    outcome: Outcome,
    now: u64,
) -> (ReporterView, Option<(u64, EventView)>) {
    let r1 = ensure_work(r, phase, total);
    let w = r1.work->0;
    send_work(with_work(r1, finish_task(w, task_id, counted(w.counters, outcome))), now, false)
}

/// How the reporter takes an event of the YouTube cache.
pub open spec fn youtube_step(r: ReporterView, progress: YoutubeProgress, now: u64) -> (
    ReporterView,
    Option<(u64, EventView)>,
) {
    match progress {
        YoutubeProgress::FetchingManifest => {
            let (r2, m) = emit(without_work(r), EventView::CheckingManifest);
            (r2, Some(m))
        },
        YoutubeProgress::ManifestReady { title, total, was_cached } => {
            let (r2, m) = emit(
                without_work(r),
                EventView::ManifestReady { title: title@, total, was_cached },
            );
            (r2, Some(m))
        },
        YoutubeProgress::ResolvingAudio { task_id, source_index, total, title } => start_step(
            r,
            WorkPhase::Audio,
            total,
            ActiveTask { task_id, source_index, title, state: TaskState::Checking },
            now,
        ),
        YoutubeProgress::AudioReady { task_id, total, was_cached, .. } => finish_step(
            r,
            WorkPhase::Audio,
            total,
            task_id@,
            if was_cached {
                Outcome::Cached
            } else {
                Outcome::Downloaded
            },
            now,
        ),
        YoutubeProgress::AudioSkipped { task_id, total, was_cached, .. } => finish_step(
            r,
            WorkPhase::Audio,
            total,
            task_id@,
            if was_cached {
                Outcome::SkippedCached
            } else {
                Outcome::Skipped
            },
            now,
        ),
    }
}

/// How the reporter takes an event of the analysis pipeline.
pub open spec fn core_step(r: ReporterView, progress: Progress, now: u64) -> (
    ReporterView,
    Seq<(u64, EventView)>,
) {
    match progress {
        Progress::Analyzing { task_id, source_index, total, title } => {
            let (r2, m) = start_step(
                r,
                WorkPhase::Dsp,
                total,
                ActiveTask { task_id, source_index, title, state: TaskState::Analyzing },
                now,
            );
            (r2, option_seq(m))
        },
        Progress::CacheHit { task_id, total, .. } => {
            let (r2, m) = finish_step(r, WorkPhase::Dsp, total, task_id@, Outcome::Cached, now);
            (r2, option_seq(m))
        },
        Progress::Analyzed { task_id, total, .. } => {
            let (r2, m) = finish_step(r, WorkPhase::Dsp, total, task_id@, Outcome::Computed, now);
            (r2, option_seq(m))
        },
        Progress::Optimizing { total } => {
            let (r1, m1) = send_work(r, now, true);
            let (r2, m2) = emit(without_work(r1), EventView::Optimizing { total });
            (r2, option_seq(m1).push(m2))
        },
        Progress::AnnealingSkipped { .. } => (r, Seq::empty()),
    }
}

/// The message, if any, as a sequence of at most one.
pub open spec fn option_seq(m: Option<(u64, EventView)>) -> Seq<(u64, EventView)> {
    match m {
        Some(m) => seq![m],
        None => Seq::empty(),
    }
}

/// The tasks still running count as failed; the phase's completion stops at
/// its total; a snapshot goes out.
pub open spec fn fail_step(r: ReporterView, now: u64) -> (ReporterView, Option<(u64, EventView)>) {
    match r.work {
        None => (r, None),
        Some(w) => {
            let failed = w.active.len();
            let completed = if w.completed + failed > usize::MAX {
                usize::MAX as int
            } else {
                w.completed + failed
            };
            let w2 = WorkView {
                active: Seq::empty(),
                counters: OutcomeCounters { failed: (w.counters.failed + failed) as usize, ..w.counters },
                completed: (if completed < w.total {
                    completed
                } else {
                    w.total as int
                }) as usize,
                ..w
            };
            send_work(with_work(r, w2), now, true)
        },
    }
}

/// The reporter's work state is well formed.
pub open spec fn reporter_wf(r: ReporterState) -> bool {
    r.work matches Some(w) ==> w.wf()
}

/// Counting one more finished task cannot overflow.
pub open spec fn can_count(r: ReporterView) -> bool {
    r.work matches Some(w) ==> {
        &&& w.completed < usize::MAX
        &&& w.counters.cached < usize::MAX
        &&& w.counters.downloaded < usize::MAX
        &&& w.counters.skipped_cached < usize::MAX
        &&& w.counters.skipped < usize::MAX
        &&& w.counters.computed < usize::MAX
    }
}

/// Counting the running tasks as failed cannot overflow.
pub open spec fn can_fail_active(r: ReporterView) -> bool {
    r.work matches Some(w) ==> w.counters.failed + w.active.len() <= usize::MAX
}


impl ReporterState {
    /// A reporter that has sent nothing.
    pub fn new() -> (state: ReporterState)
        ensures
            state@ == (ReporterView {
                delivery_error: false,
                seq: 0,
                work: None,
                last_work_send: None,
                work_dirty: false,
            }),
            reporter_wf(state),
    {
        ReporterState { delivery_error: false, seq: 0, work: None, last_work_send: None, work_dirty: false }
    }

    fn emit(&mut self, event: ProgressEvent) -> (message: AppProgress)
        ensures
            (final(self)@, message@) == emit(old(self)@, event@),
            final(self).work == old(self).work,
    {
        self.seq = self.seq.saturating_add(1);
        AppProgress { seq: self.seq, event }
    }

    /// Takes the work state for `phase` out of the reporter: the current one
    /// if it matches, else a fresh one.
    fn take_work(&mut self, phase: WorkPhase, total: usize) -> (work: WorkState)
        requires
            reporter_wf(*old(self)),
        ensures
            work.wf(),
            Some(work@) == ensure_work(old(self)@, phase, total).work,
            final(self)@ == (ReporterView { work: None, ..ensure_work(old(self)@, phase, total) }),
    {
        match self.work.take() {
            Some(work) => {
                if work.phase == phase && work.total == total {
                    work
                } else {
                    self.last_work_send = None;
                    WorkState::new(phase, total)
                }
            },
            None => {
                self.last_work_send = None;
                WorkState::new(phase, total)
            },
        }
    }

    fn maybe_send_work(&mut self, now: u64, force: bool) -> (message: Option<AppProgress>)
        requires
            reporter_wf(*old(self)),
        ensures
            reporter_wf(*final(self)),
            (final(self)@, message_view(message)) == send_work(old(self)@, now, force),
    {
        let snapshot = match &self.work {
            None => {
                return None;
            },
            Some(work) => {
                let complete = work.completed == work.total;
                let due = match self.last_work_send {
                    None => true,
                    Some(last) => last <= now && now - last >= FAST_UPDATE_INTERVAL_NANOS,
                };
                if force || complete || due {
                    Some(work.snapshot())
                } else {
                    None
                }
            },
        };
        self.work_dirty = true;
        match snapshot {
            Some(event) => {
                let message = self.emit(event);
                self.last_work_send = Some(now);
                self.work_dirty = false;
                Some(message)
            },
            None => None,
        }
    }

    fn start_task(&mut self, phase: WorkPhase, total: usize, task: ActiveTask, now: u64) -> (message:
        Option<AppProgress>)
        requires
            reporter_wf(*old(self)),
        ensures
            reporter_wf(*final(self)),
            (final(self)@, message_view(message)) == start_step(old(self)@, phase, total, task, now),
    {
        let mut work = self.take_work(phase, total);
        work.insert_active(task);
        self.work = Some(work);
        self.maybe_send_work(now, false)
    }

    fn finish_task(&mut self, phase: WorkPhase, total: usize, task_id: &str, outcome: Outcome, now: u64) -> (message:
        Option<AppProgress>)
        requires
            reporter_wf(*old(self)),
            can_count(old(self)@),
        ensures
            reporter_wf(*final(self)),
            (final(self)@, message_view(message)) == finish_step(
                old(self)@,
                phase,
                total,
                task_id@,
                outcome,
                now,
            ),
    {
        let mut work = self.take_work(phase, total);
        work.remove_active(task_id);
        work.completed = work.completed + 1;
        match outcome {
            Outcome::Cached => work.counters.cached = work.counters.cached + 1,
            Outcome::Downloaded => work.counters.downloaded = work.counters.downloaded + 1,
            Outcome::SkippedCached => work.counters.skipped_cached = work.counters.skipped_cached + 1,
            Outcome::Skipped => work.counters.skipped = work.counters.skipped + 1,
            Outcome::Computed => work.counters.computed = work.counters.computed + 1,
        }
        self.work = Some(work);
        self.maybe_send_work(now, false)
    }

    /// Sends an event of the application itself; the phase being worked
    /// through, if any, ends.
    pub fn send(&mut self, event: ProgressEvent) -> (message: AppProgress)
        requires
            reporter_wf(*old(self)),
        ensures
            reporter_wf(*final(self)),
            (final(self)@, message@) == emit(without_work(old(self)@), event@),
    {
        self.work = None;
        self.work_dirty = false;
        self.emit(event)
    }

    /// Takes an event of the YouTube cache at time `now`; returns the
    /// message to deliver, if any.
    pub fn youtube(&mut self, progress: YoutubeProgress, now: u64) -> (message: Option<AppProgress>)
        requires
            reporter_wf(*old(self)),
            can_count(old(self)@),
        ensures
            reporter_wf(*final(self)),
            (final(self)@, message_view(message)) == youtube_step(old(self)@, progress, now),
    {
        match progress {
            YoutubeProgress::FetchingManifest => {
                self.work = None;
                self.work_dirty = false;
                Some(self.emit(ProgressEvent::CheckingManifest))
            },
            YoutubeProgress::ManifestReady { title, total, was_cached } => {
                self.work = None;
                self.work_dirty = false;
                Some(self.emit(ProgressEvent::ManifestReady { title, total, was_cached }))
            },
            YoutubeProgress::ResolvingAudio { task_id, source_index, total, title } => {
                let task = ActiveTask { task_id, source_index, title, state: TaskState::Checking };
                self.start_task(WorkPhase::Audio, total, task, now)
            },
            YoutubeProgress::AudioReady { task_id, total, was_cached, .. } => {
                let outcome = if was_cached {
                    Outcome::Cached
                } else {
                    Outcome::Downloaded
                };
                self.finish_task(WorkPhase::Audio, total, task_id.as_str(), outcome, now)
            },
            YoutubeProgress::AudioSkipped { task_id, total, was_cached, .. } => {
                let outcome = if was_cached {
                    Outcome::SkippedCached
                } else {
                    Outcome::Skipped
                };
                self.finish_task(WorkPhase::Audio, total, task_id.as_str(), outcome, now)
            },
        }
    }

    /// Takes an event of the analysis pipeline at time `now`; returns the
    /// messages to deliver, in order.
    pub fn pipeline(&mut self, progress: Progress, now: u64) -> (messages: Vec<AppProgress>)
        requires
            reporter_wf(*old(self)),
            can_count(old(self)@),
        ensures
            reporter_wf(*final(self)),
            (final(self)@, messages_view(messages@)) == core_step(old(self)@, progress, now),
    {
        let mut messages: Vec<AppProgress> = Vec::new();
        match progress {
            Progress::Analyzing { task_id, source_index, total, title } => {
                let task = ActiveTask { task_id, source_index, title, state: TaskState::Analyzing };
                if let Some(m) = self.start_task(WorkPhase::Dsp, total, task, now) {
                    messages.push(m);
                }
            },
            Progress::CacheHit { task_id, total, .. } => {
                if let Some(m) = self.finish_task(WorkPhase::Dsp, total, task_id.as_str(), Outcome::Cached, now) {
                    messages.push(m);
                }
            },
            Progress::Analyzed { task_id, total, .. } => {
                if let Some(m) = self.finish_task(WorkPhase::Dsp, total, task_id.as_str(), Outcome::Computed, now) {
                    messages.push(m);
                }
            },
            Progress::Optimizing { total } => {
                if let Some(m) = self.maybe_send_work(now, true) {
                    messages.push(m);
                }
                self.work = None;
                self.work_dirty = false;
                let m = self.emit(ProgressEvent::Optimizing { total });
                messages.push(m);
            },
            Progress::AnnealingSkipped { .. } => {},
        }
        assert(messages_view(messages@) =~= core_step(old(self)@, progress, now).1);
        messages
    }

    /// Sends the current work snapshot now, whether or not it is due.
    pub fn flush(&mut self, now: u64) -> (message: Option<AppProgress>)
        requires
            reporter_wf(*old(self)),
        ensures
            reporter_wf(*final(self)),
            (final(self)@, message_view(message)) == send_work(old(self)@, now, true),
    {
        self.maybe_send_work(now, true)
    }

    /// The periodic tick: a work change that waited is sent once it is due.
    pub fn tick(&mut self, now: u64) -> (message: Option<AppProgress>)
        requires
            reporter_wf(*old(self)),
        ensures
            reporter_wf(*final(self)),
            old(self).work_dirty ==> (final(self)@, message_view(message)) == send_work(old(self)@, now, false),
            !old(self).work_dirty ==> final(self)@ == old(self)@ && message is None,
    {
        if self.work_dirty {
            self.maybe_send_work(now, false)
        } else {
            None
        }
    }

    /// The tasks still running are counted as failed and the phase's
    /// completion is capped at its total; a snapshot is sent.
    pub fn fail_active(&mut self, now: u64) -> (message: Option<AppProgress>)
        requires
            reporter_wf(*old(self)),
            can_fail_active(old(self)@),
        ensures
            reporter_wf(*final(self)),
            (final(self)@, message_view(message)) == fail_step(old(self)@, now),
    {
        match self.work.take() {
            None => None,
            Some(mut work) => {
                let failed = work.active.len();
                work.active.clear();
                work.counters.failed = work.counters.failed + failed;
                let completed = work.completed.saturating_add(failed);
                work.completed = if completed < work.total {
                    completed
                } else {
                    work.total
                };
                self.work = Some(work);
                self.maybe_send_work(now, true)
            },
        }
    }

    /// Notes whether a message reached the window.
    pub fn record_delivery(&mut self, delivered: bool) -> (result: Result<(), String>)
        ensures
            final(self)@ == (ReporterView { delivery_error: old(self).delivery_error || !delivered, ..old(self)@ }),
            final(self).work == old(self).work,
            result is Ok <==> delivered,
            result matches Err(text) ==> text@ == DELIVERY_FAILURE@,
    {
        if delivered {
            Ok(())
        } else {
            self.delivery_error = true;
            Err(String::from_str(DELIVERY_FAILURE))
        }
    }

    /// Whether every message so far reached the window.
    pub fn delivery_status(&self) -> (result: Result<(), String>)
        ensures
            result is Ok <==> !self.delivery_error,
            result matches Err(text) ==> text@ == DELIVERY_FAILURE@,
    {
        if self.delivery_error {
            Err(String::from_str(DELIVERY_FAILURE))
        } else {
            Ok(())
        }
    }
}


/// A work snapshot lists at most `MAX_ACTIVE_TASKS` tasks, and those are the
/// first active tasks in identifier order.
pub proof fn lemma_snapshot_is_capped(work: WorkView)
    ensures
        snapshot_view(work) matches EventView::WorkSnapshot { active, .. } && active.len()
            <= MAX_ACTIVE_TASKS && active.len() <= work.active.len() && active
            == work.active.take(active.len() as int),
{
}

/// A message of the YouTube cache's events is numbered one past the last
/// message (the number stops growing only at its largest value), and the
/// reporter's number never goes back.
pub proof fn lemma_youtube_messages_are_numbered(r: ReporterView, progress: YoutubeProgress, now: u64)
    ensures
        youtube_step(r, progress, now).0.seq >= r.seq,
        youtube_step(r, progress, now).1 matches Some(m) ==> m.0 == youtube_step(r, progress, now).0.seq
            && m.0 == next_seq(r.seq),
        youtube_step(r, progress, now).1 is None ==> youtube_step(r, progress, now).0.seq == r.seq,
{
}

/// The pipeline's events give messages numbered in increasing order, each
/// past the reporter's last number (until the largest number is reached),
/// and the reporter's number never goes back.
pub proof fn lemma_pipeline_messages_are_numbered(r: ReporterView, progress: Progress, now: u64)
    ensures
        core_step(r, progress, now).0.seq >= r.seq,
        core_step(r, progress, now).1.len() <= 2,
        forall|i: int|
            0 <= i < core_step(r, progress, now).1.len() ==> r.seq < u64::MAX ==> r.seq
                < #[trigger] core_step(r, progress, now).1[i].0 <= core_step(r, progress, now).0.seq,
        r.seq + 2 <= u64::MAX ==> forall|i: int, j: int|
            0 <= i < j < core_step(r, progress, now).1.len() ==> #[trigger] core_step(r, progress, now).1[i].0
                < #[trigger] core_step(r, progress, now).1[j].0,
{
}

/// Failing the running tasks leaves no task running, counts each as failed
/// and never reports more completed tasks than the phase has.
pub proof fn lemma_failing_caps_completion(r: ReporterView, now: u64)
    requires
        can_fail_active(r),
    ensures
        r.work matches Some(w) ==> fail_step(r, now).0.work matches Some(w2) && w2.active.len() == 0
            && w2.completed <= w2.total && w2.counters.failed == w.counters.failed + w.active.len()
            && w2.phase == w.phase && w2.total == w.total,
        r.work is None ==> fail_step(r, now) == (r, None::<(u64, EventView)>),
{
}


/// A finished task moves its phase's completion forward by exactly one and
/// takes it off the active list, whichever task it is and in whatever order
/// tasks finish: completion never goes back within a phase.
pub proof fn lemma_finishing_advances_completion(
    r: ReporterView,
    phase: WorkPhase,
    total: usize,
    task_id: Seq<char>,
    outcome: Outcome,
    now: u64,
)
    requires
        can_count(r),
        r.work matches Some(w) && w.phase == phase && w.total == total,
    ensures
        finish_step(r, phase, total, task_id, outcome, now).0.work matches Some(w2) && w2.completed
            == r.work->0.completed + 1 && w2.active == without_task(r.work->0.active, task_id)
            && w2.phase == phase && w2.total == total,
{
}


/// One call on the reporter, as its state and messages see it.
pub enum ReporterCall {
    Send(EventView),
    Youtube(YoutubeProgress, u64),
    Pipeline(Progress, u64),
    Flush(u64),
    Tick(u64),
    FailActive(u64),
    /// The window took a message (`true`) or did not.
    Delivery(bool),
}

/// The reporter after one call, and the messages the call hands out, as the
/// methods of `ReporterState` state them.
pub open spec fn call_step(r: ReporterView, call: ReporterCall) -> (ReporterView, Seq<(u64, EventView)>) {
    match call {
        ReporterCall::Send(event) => {
            let (r2, m) = emit(without_work(r), event);
            (r2, seq![m])
        },
        ReporterCall::Youtube(progress, now) => {
            let (r2, m) = youtube_step(r, progress, now);
            (r2, option_seq(m))
        },
        ReporterCall::Pipeline(progress, now) => core_step(r, progress, now),
        ReporterCall::Flush(now) => {
            let (r2, m) = send_work(r, now, true);
            (r2, option_seq(m))
        },
        ReporterCall::Tick(now) => if r.work_dirty {
            let (r2, m) = send_work(r, now, false);
            (r2, option_seq(m))
        } else {
            (r, Seq::empty())
        },
        ReporterCall::FailActive(now) => {
            let (r2, m) = fail_step(r, now);
            (r2, option_seq(m))
        },
        ReporterCall::Delivery(delivered) => (
            ReporterView { delivery_error: r.delivery_error || !delivered, ..r },
            Seq::empty(),
        ),
    }
}

/// The reporter after a sequence of calls, and every message handed out,
/// in order.
pub open spec fn reporter_run(r: ReporterView, calls: Seq<ReporterCall>) -> (ReporterView, Seq<(u64, EventView)>)
    decreases calls.len(),
{
    if calls.len() == 0 {
        (r, Seq::empty())
    } else {
        let (r1, m1) = call_step(r, calls[0]);
        let (r2, m2) = reporter_run(r1, calls.drop_first());
        (r2, m1 + m2)
    }
}

/// Each message is numbered one past the message before it, the first one
/// past `start` (numbers stop growing at the largest).
pub open spec fn numbered_from(start: u64, messages: Seq<(u64, EventView)>) -> bool {
    forall|i: int|
        0 <= i < messages.len() ==> #[trigger] messages[i].0 == next_seq(
            if i == 0 {
                start
            } else {
                messages[i - 1].0
            },
        )
}

/// The number of the last message, or `start` when there is none.
pub open spec fn last_number(start: u64, messages: Seq<(u64, EventView)>) -> u64 {
    if messages.len() == 0 {
        start
    } else {
        messages.last().0
    }
}

proof fn lemma_send_work_is_numbered(r: ReporterView, now: u64, force: bool)
    ensures
        numbered_from(r.seq, option_seq(send_work(r, now, force).1)),
        send_work(r, now, force).0.seq == last_number(r.seq, option_seq(send_work(r, now, force).1)),
        send_work(r, now, force).0.delivery_error == r.delivery_error,
{
}

proof fn lemma_youtube_call_is_numbered(r: ReporterView, progress: YoutubeProgress, now: u64)
    ensures
        numbered_from(r.seq, option_seq(youtube_step(r, progress, now).1)),
        youtube_step(r, progress, now).0.seq == last_number(r.seq, option_seq(youtube_step(r, progress, now).1)),
        youtube_step(r, progress, now).0.delivery_error == r.delivery_error,
{
    match progress {
        YoutubeProgress::ResolvingAudio { task_id, source_index, total, title } => {
            let r1 = ensure_work(r, WorkPhase::Audio, total);
            let w = r1.work->0;
            lemma_send_work_is_numbered(
                with_work(r1, WorkView { active: with_task(w.active, ActiveTask { task_id, source_index, title, state: TaskState::Checking }), ..w }),
                now,
                false,
            );
        },
        YoutubeProgress::AudioReady { task_id, total, was_cached, .. } => {
            let r1 = ensure_work(r, WorkPhase::Audio, total);
            let w = r1.work->0;
            let outcome = if was_cached { Outcome::Cached } else { Outcome::Downloaded };
            lemma_send_work_is_numbered(with_work(r1, finish_task(w, task_id@, counted(w.counters, outcome))), now, false);
        },
        YoutubeProgress::AudioSkipped { task_id, total, was_cached, .. } => {
            let r1 = ensure_work(r, WorkPhase::Audio, total);
            let w = r1.work->0;
            let outcome = if was_cached { Outcome::SkippedCached } else { Outcome::Skipped };
            lemma_send_work_is_numbered(with_work(r1, finish_task(w, task_id@, counted(w.counters, outcome))), now, false);
        },
        _ => {},
    }
}

proof fn lemma_pipeline_call_is_numbered(r: ReporterView, progress: Progress, now: u64)
    ensures
        numbered_from(r.seq, core_step(r, progress, now).1),
        core_step(r, progress, now).0.seq == last_number(r.seq, core_step(r, progress, now).1),
        core_step(r, progress, now).0.delivery_error == r.delivery_error,
{
    match progress {
        Progress::Analyzing { task_id, source_index, total, title } => {
            let r1 = ensure_work(r, WorkPhase::Dsp, total);
            let w = r1.work->0;
            lemma_send_work_is_numbered(
                with_work(r1, WorkView { active: with_task(w.active, ActiveTask { task_id, source_index, title, state: TaskState::Analyzing }), ..w }),
                now,
                false,
            );
        },
        Progress::CacheHit { task_id, total, .. } => {
            let r1 = ensure_work(r, WorkPhase::Dsp, total);
            let w = r1.work->0;
            lemma_send_work_is_numbered(with_work(r1, finish_task(w, task_id@, counted(w.counters, Outcome::Cached))), now, false);
        },
        Progress::Analyzed { task_id, total, .. } => {
            let r1 = ensure_work(r, WorkPhase::Dsp, total);
            let w = r1.work->0;
            lemma_send_work_is_numbered(with_work(r1, finish_task(w, task_id@, counted(w.counters, Outcome::Computed))), now, false);
        },
        Progress::Optimizing { total } => {
            let (r1, m1) = send_work(r, now, true);
            lemma_send_work_is_numbered(r, now, true);
            let ms = core_step(r, progress, now).1;
            assert(ms == option_seq(m1).push((next_seq(r1.seq), EventView::Optimizing { total })));
            assert(numbered_from(r.seq, ms)) by {
                assert forall|i: int| 0 <= i < ms.len() implies #[trigger] ms[i].0 == next_seq(
                    if i == 0 { r.seq } else { ms[i - 1].0 },
                ) by {
                    if i < option_seq(m1).len() {
                        assert(ms[i] == option_seq(m1)[i]);
                    }
                }
            }
        },
        Progress::AnnealingSkipped { .. } => {},
    }
}

proof fn lemma_call_is_numbered(r: ReporterView, call: ReporterCall)
    ensures
        numbered_from(r.seq, call_step(r, call).1),
        call_step(r, call).0.seq == last_number(r.seq, call_step(r, call).1),
        call_step(r, call).0.delivery_error == (r.delivery_error || call == ReporterCall::Delivery(false)),
{
    match call {
        ReporterCall::Youtube(progress, now) => lemma_youtube_call_is_numbered(r, progress, now),
        ReporterCall::Pipeline(progress, now) => lemma_pipeline_call_is_numbered(r, progress, now),
        ReporterCall::Flush(now) => lemma_send_work_is_numbered(r, now, true),
        ReporterCall::Tick(now) => lemma_send_work_is_numbered(r, now, false),
        ReporterCall::FailActive(now) => {
            match r.work {
                None => {},
                Some(w) => {
                    let failed = w.active.len();
                    let completed = if w.completed + failed > usize::MAX { usize::MAX as int } else { w.completed + failed };
                    let w2 = WorkView {
                        active: Seq::empty(),
                        counters: OutcomeCounters { failed: (w.counters.failed + failed) as usize, ..w.counters },
                        completed: (if completed < w.total { completed } else { w.total as int }) as usize,
                        ..w
                    };
                    lemma_send_work_is_numbered(with_work(r, w2), now, true);
                },
            }
        },
        _ => {},
    }
}

#[verifier::spinoff_prover]
#[verifier::rlimit(40)]
proof fn lemma_numbered_concat(start: u64, a: Seq<(u64, EventView)>, b: Seq<(u64, EventView)>)
    requires
        numbered_from(start, a),
        numbered_from(last_number(start, a), b),
    ensures
        numbered_from(start, a + b),
        last_number(start, a + b) == last_number(last_number(start, a), b),
{
    let ab = a + b;
    assert forall|i: int| 0 <= i < ab.len() implies #[trigger] ab[i].0 == next_seq(
        if i == 0 {
            start
        } else {
            ab[i - 1].0
        },
    ) by {
        if i < a.len() {
            assert(ab[i] == a[i]);
            if i > 0 {
                assert(ab[i - 1] == a[i - 1]);
            }
        } else {
            let k = i - a.len();
            assert(ab[i] == b[k]);
            assert(b[k].0 == next_seq(
                if k == 0 {
                    last_number(start, a)
                } else {
                    b[k - 1].0
                },
            ));
            if k > 0 {
                assert(ab[i - 1] == b[k - 1]);
            } else if a.len() > 0 {
                assert(ab[i - 1] == a.last());
            }
        }
    }
    if b.len() > 0 {
        assert(ab.last() == b.last());
    } else {
        assert(ab =~= a);
    }
}

/// Over any sequence of calls, the messages the reporter hands out are
/// numbered one past the one before, the first one past the reporter's
/// number before the calls, so that the window can drop stale updates; the
/// reporter's number afterwards is the last message's.
pub proof fn lemma_messages_are_numbered_across_calls(r: ReporterView, calls: Seq<ReporterCall>)
    ensures
        numbered_from(r.seq, reporter_run(r, calls).1),
        reporter_run(r, calls).0.seq == last_number(r.seq, reporter_run(r, calls).1),
    decreases calls.len(),
{
    if calls.len() > 0 {
        let (r1, m1) = call_step(r, calls[0]);
        lemma_call_is_numbered(r, calls[0]);
        lemma_messages_are_numbered_across_calls(r1, calls.drop_first());
        let (r2, m2) = reporter_run(r1, calls.drop_first());
        lemma_numbered_concat(r.seq, m1, m2);
    }
}

proof fn lemma_call_keeps_failure(r: ReporterView, call: ReporterCall)
    ensures
        call_step(r, call).0.delivery_error == (r.delivery_error || call == ReporterCall::Delivery(false)),
{
    lemma_call_is_numbered(r, call);
}

/// Once a message failed to reach the window, the reporter reports the
/// failure after every later call: a failed delivery among the calls, or
/// before them, leaves the reporter failed.
pub proof fn lemma_failed_delivery_stays_failed(r: ReporterView, calls: Seq<ReporterCall>)
    ensures
        (r.delivery_error || calls.contains(ReporterCall::Delivery(false))) ==> reporter_run(r, calls).0.delivery_error,
    decreases calls.len(),
{
    if calls.len() > 0 {
        let r1 = call_step(r, calls[0]).0;
        lemma_call_keeps_failure(r, calls[0]);
        lemma_failed_delivery_stays_failed(r1, calls.drop_first());
        if calls.contains(ReporterCall::Delivery(false)) && calls[0] != ReporterCall::Delivery(false) {
            let i = choose|i: int| 0 <= i < calls.len() && calls[i] == ReporterCall::Delivery(false);
            assert(calls.drop_first()[i - 1] == ReporterCall::Delivery(false));
        }
    }
}


/// The counters a finished analysis task is counted on: the current analysis
/// phase's, or none yet when that phase starts with it.
pub open spec fn dsp_counters_before(r: ReporterView, total: usize) -> OutcomeCounters {
    match r.work {
        Some(w) => if w.phase == WorkPhase::Dsp && w.total == total {
            w.counters
        } else {
            zero_counters()
        },
        None => zero_counters(),
    }
}

/// A freshly analysed track raises the analysis phase's count of computed
/// analyses by one and leaves every other count, cache hits included, as it
/// was; a snapshot sent for it carries those counts.
pub proof fn lemma_analyzed_counts_as_computed(
    r: ReporterView,
    task_id: String,
    source_index: usize,
    total: usize,
    title: String,
    now: u64,
)
    requires
        can_count(r),
    ensures
        ({
            let before = dsp_counters_before(r, total);
            let (after, messages) = core_step(
                r,
                Progress::Analyzed { task_id, source_index, total, title },
                now,
            );
            &&& after.work matches Some(w) && w.phase == WorkPhase::Dsp && w.counters.computed
                == before.computed + 1 && w.counters.cached == before.cached && w.counters.downloaded
                == before.downloaded && w.counters.skipped_cached == before.skipped_cached
                && w.counters.skipped == before.skipped && w.counters.failed == before.failed
            &&& forall|i: int|
                0 <= i < messages.len() ==> (#[trigger] messages[i].1 matches EventView::WorkSnapshot {
                    counters,
                    ..
                } && counters == after.work->0.counters)
        }),
{
}

/// A track whose analysis came from the feature cache raises the analysis
/// phase's count of cache hits by one and leaves every other count,
/// computed analyses included, as it was; a snapshot sent for it carries
/// those counts.
pub proof fn lemma_cache_hit_counts_as_cached(
    r: ReporterView,
    task_id: String,
    source_index: usize,
    total: usize,
    title: String,
    now: u64,
)
    requires
        can_count(r),
    ensures
        ({
            let before = dsp_counters_before(r, total);
            let (after, messages) = core_step(
                r,
                Progress::CacheHit { task_id, source_index, total, title },
                now,
            );
            &&& after.work matches Some(w) && w.phase == WorkPhase::Dsp && w.counters.cached
                == before.cached + 1 && w.counters.computed == before.computed && w.counters.downloaded
                == before.downloaded && w.counters.skipped_cached == before.skipped_cached
                && w.counters.skipped == before.skipped && w.counters.failed == before.failed
            &&& forall|i: int|
                0 <= i < messages.len() ==> (#[trigger] messages[i].1 matches EventView::WorkSnapshot {
                    counters,
                    ..
                } && counters == after.work->0.counters)
        }),
{
}

} // verus!
