//! Schedules, tasks and the scheduler's task queues.
//!
//! Times are milliseconds since the Unix epoch. Each key has a queue of
//! pending tasks; taking from a queue removes a task with the earliest due
//! time, the next one to run.
use vstd::prelude::*;
use core::str::FromStr;

verus! {

#[verifier::external_type_specification]
#[verifier::external_body]
pub struct ExCronError(cron::error::Error);

/// Whether `expr` parses as a cron expression (`cron::Schedule::from_str`).
pub uninterp spec fn cron_valid(expr: Seq<char>) -> bool;

/// The first time strictly after `after` (milliseconds) that the cron
/// expression `expr` fires, as `cron::Schedule::after(..).next()` gives it.
pub uninterp spec fn cron_next(expr: Seq<char>, after: int) -> Option<int>;

/// Earliest and latest instants this library hands to the cron crate; the
/// cron crate adds a second to its starting point, which must stay inside
/// the range of dates that `chrono` represents.
pub const CRON_MIN_MILLIS: i64 = -8_000_000_000_000_000;
pub const CRON_MAX_MILLIS: i64 = 8_000_000_000_000_000;

/// Parses `expr` with `cron::Schedule::from_str` and keeps only whether it
/// parsed: `Ok` exactly when [`cron_valid`] holds, otherwise the crate's
/// error.
#[verifier::external_body]
fn cron_check(expr: &str) -> (r: Result<(), cron::error::Error>)
    ensures
        r is Ok <==> cron_valid(expr@),
{
    cron::Schedule::from_str(expr).map(|_| ())
}

/// `cron::Schedule::after(t).next()` for the parsed `expr` and the instant
/// `after_millis`, in milliseconds. The contract claims the result is the
/// named [`cron_next`] of the arguments and, as the crate's `next_after`
/// starts one second past its argument, strictly later than `after_millis`.
#[verifier::external_body]
fn cron_next_after(expr: &str, after_millis: i64) -> (r: Option<i64>)
    requires
        cron_valid(expr@),
        CRON_MIN_MILLIS <= after_millis <= CRON_MAX_MILLIS,
    ensures
        widen(r) == cron_next(expr@, after_millis as int),
        r matches Some(t) ==> t > after_millis,
{
    let schedule = cron::Schedule::from_str(expr).ok()?;
    let after = chrono::DateTime::<chrono::Utc>::from_timestamp_millis(after_millis)?;
    schedule.after(&after).next().map(|t| t.timestamp_millis())
}

/// `std::time::SystemTime::now().duration_since(UNIX_EPOCH)` in whole
/// milliseconds: `Ok` with the time since the epoch, or, for a clock set
/// before it, `Err` with the time until it. Nothing is promised of the
/// value: it is the clock.
#[verifier::external_body]
fn clock_millis() -> (r: Result<u128, u128>) {
    match std::time::SystemTime::now().duration_since(std::time::UNIX_EPOCH) {
        Ok(d) => Ok(d.as_millis()),
        Err(e) => Err(e.duration().as_millis()),
    }
}

/// The current time in milliseconds since the Unix epoch (negative before
/// it), held to the range of `i64`.
pub(crate) fn now_millis() -> (t: i64) {
    match clock_millis() {
        Ok(m) => if m <= 0x7fff_ffff_ffff_ffffu128 {
            m as i64
        } else {
            i64::MAX
        },
        Err(m) => if m <= 0x7fff_ffff_ffff_ffffu128 {
            -(m as i64)
        } else {
            i64::MIN
        },
    }
}

/// How a schedule fires.
#[derive(Clone, Debug, PartialEq, Eq)]
pub enum ScheduleTrigger {
    /// At the times a cron expression describes.
    Cron(String),
    /// A fixed number of minutes after each run.
    Interval { minutes: u32 },
}

/// Why a schedule could not be created.
#[derive(Debug)]
pub enum ScheduleError {
    /// The cron expression did not parse.
    Cron(cron::error::Error),
}

/// A recurring job for one key.
#[derive(Debug)]
pub struct Schedule {
    id: usize,
    last_run: Option<i64>,
    trigger: ScheduleTrigger,
    key: u64,
}

/// The state of a task that has been handed out.
#[derive(Clone, Copy, Debug, PartialEq, Eq)]
pub enum TaskState {
    Pending,
    Running,
    Finished,
}

impl Default for TaskState {
    fn default() -> (s: Self)
        ensures
            s == TaskState::Pending,
    {
        TaskState::Pending
    }
}

/// One run of a schedule, due at a time.
#[derive(Debug)]
pub struct Task {
    pub schedule: Schedule,
    pub due_time: i64,
}

/// Whether a task went to a key's existing queue or opened a new one.
#[derive(Clone, Copy, Debug, PartialEq, Eq)]
pub enum QueueType {
    Exising,
    New,
}

pub open spec fn trigger_wf(t: ScheduleTrigger) -> bool {
    match t {
        ScheduleTrigger::Cron(e) => cron_valid(e@),
        ScheduleTrigger::Interval { .. } => true,
    }
}

/// When a schedule fires next, seen from `now`: the cron expression's next
/// time, or `now` plus the interval. `None` when the cron expression has no
/// next time or the time lies outside what can be represented.
pub open spec fn spec_next_run_time(t: ScheduleTrigger, now: int) -> Option<int> {
    match t {
        ScheduleTrigger::Cron(e) => if CRON_MIN_MILLIS <= now <= CRON_MAX_MILLIS {
            cron_next(e@, now)
        } else {
            None
        },
        ScheduleTrigger::Interval { minutes } => {
            let t = now + minutes * 60000;
            if i64::MIN <= t <= i64::MAX {
                Some(t)
            } else {
                None
            }
        },
    }
}

impl Schedule {
    #[verifier::type_invariant]
    spec fn inv(self) -> bool {
        trigger_wf(self.trigger)
    }

    pub closed spec fn spec_id(self) -> usize {
        self.id
    }

    pub closed spec fn spec_key(self) -> u64 {
        self.key
    }

    pub closed spec fn spec_trigger(self) -> ScheduleTrigger {
        self.trigger
    }

    pub closed spec fn spec_last_run(self) -> Option<i64> {
        self.last_run
    }

    /// A schedule with this id, key and trigger; fails exactly when the
    /// trigger is a cron expression that does not parse.
    pub fn new(id: usize, key: u64, trigger: ScheduleTrigger) -> (r: Result<Self, ScheduleError>)
        ensures
            r is Err <==> !trigger_wf(trigger),
            r matches Ok(s) ==> s.spec_id() == id && s.spec_key() == key && s.spec_trigger()
                == trigger && s.spec_last_run() is None,
    {
        match &trigger {
            ScheduleTrigger::Cron(expr) => {
                if let Err(e) = cron_check(expr.as_str()) {
                    return Err(ScheduleError::Cron(e));
                }
            },
            ScheduleTrigger::Interval { .. } => {},
        }
        Ok(Schedule { id, last_run: None, trigger, key })
    }

    pub fn key(&self) -> (k: u64)
        ensures
            k == self.spec_key(),
    {
        self.key
    }

    pub fn id(&self) -> (i: usize)
        ensures
            i == self.spec_id(),
    {
        self.id
    }

    pub fn last_run(&self) -> (r: Option<i64>)
        ensures
            r == self.spec_last_run(),
    {
        self.last_run
    }

    pub fn trigger(&self) -> (t: &ScheduleTrigger)
        ensures
            *t == self.spec_trigger(),
    {
        &self.trigger
    }

    /// An identical schedule.
    pub fn duplicate(&self) -> (s: Schedule)
        ensures
            s == *self,
    {
        proof {
            use_type_invariant(self);
        }
        let trigger = match &self.trigger {
            ScheduleTrigger::Cron(e) => ScheduleTrigger::Cron(e.clone()),
            ScheduleTrigger::Interval { minutes } => ScheduleTrigger::Interval { minutes: *minutes },
        };
        Schedule { id: self.id, last_run: self.last_run, trigger, key: self.key }
    }

    /// When this schedule fires next, seen from `now`.
    pub fn next_run_time_at(&self, now: i64) -> (r: Option<i64>)
        ensures
            widen(r) == spec_next_run_time(self.spec_trigger(), now as int),
            r matches Some(t) ==> t > now || self.spec_trigger() == (ScheduleTrigger::Interval {
                minutes: 0,
            }),
    {
        proof {
            use_type_invariant(self);
        }
        match &self.trigger {
            ScheduleTrigger::Cron(expr) => {
                if CRON_MIN_MILLIS <= now && now <= CRON_MAX_MILLIS {
                    cron_next_after(expr.as_str(), now)
                } else {
                    None
                }
            },
            ScheduleTrigger::Interval { minutes } => {
                let delta: i64 = (*minutes as i64) * 60000;
                now.checked_add(delta)
            },
        }
    }

    /// When this schedule fires next, seen from the current time.
    pub fn get_next_run_time(&self) -> (r: Option<i64>)
        ensures
            exists|now: i64| widen(r) == #[trigger] spec_next_run_time(self.spec_trigger(), now as int),
    {
        let now = now_millis();
        self.next_run_time_at(now)
    }
}

/// How long to wait, in milliseconds, until `due` when it is `now`: nothing
/// when the due time has passed.
pub fn wait_millis(due: i64, now: i64) -> (w: u64)
    ensures
        w == (if due > now {
            due - now
        } else {
            0
        }),
{
    if due > now {
        (due as i128 - now as i128) as u64
    } else {
        0
    }
}

impl Task {
    pub open spec fn spec_schedule(self) -> Schedule {
        self.schedule
    }

    pub open spec fn spec_due_time(self) -> i64 {
        self.due_time
    }

    /// A run of `schedule` due at `now`.
    pub fn immediate_at(schedule: Schedule, now: i64) -> (t: Task)
        ensures
            t.spec_schedule() == schedule,
            t.spec_due_time() == now,
    {
        Task { schedule, due_time: now }
    }

    /// A run of `schedule` due now.
    pub fn for_immediate_run(schedule: Schedule) -> (t: Task)
        ensures
            t.spec_schedule() == schedule,
    {
        let now = now_millis();
        Task::immediate_at(schedule, now)
    }

    /// The next run of `schedule` after `now`, if it has one.
    pub fn next_run_at(schedule: Schedule, now: i64) -> (t: Option<Task>)
        ensures
            t matches Some(t) ==> t.spec_schedule() == schedule && spec_next_run_time(
                schedule.spec_trigger(),
                now as int,
            ) == Some(t.spec_due_time() as int),
            t is None <==> spec_next_run_time(schedule.spec_trigger(), now as int) is None,
    {
        match schedule.next_run_time_at(now) {
            Some(due_time) => Some(Task { schedule, due_time }),
            None => None,
        }
    }

    /// The next run of `schedule` after the current time, if it has one.
    pub fn for_next_schedule_run(schedule: Schedule) -> (t: Option<Task>)
        ensures
            t matches Some(t) ==> t.spec_schedule() == schedule,
            exists|now: i64|
                {
                    &&& t is None <==> #[trigger] spec_next_run_time(schedule.spec_trigger(), now as int)
                        is None
                    &&& t matches Some(t) ==> spec_next_run_time(schedule.spec_trigger(), now as int)
                        == Some(t.spec_due_time() as int)
                },
    {
        let now = now_millis();
        Task::next_run_at(schedule, now)
    }

    pub fn due_time(&self) -> (d: i64)
        ensures
            d == self.spec_due_time(),
    {
        self.due_time
    }

    pub fn schedule(&self) -> (s: &Schedule)
        ensures
            *s == self.spec_schedule(),
    {
        &self.schedule
    }

    /// Two tasks are the same run: same schedule id and due time.
    pub fn same_run(&self, other: &Task) -> (b: bool)
        ensures
            b == (self.spec_schedule().spec_id() == other.spec_schedule().spec_id()
                && self.spec_due_time() == other.spec_due_time()),
    {
        self.schedule.id() == other.schedule.id() && self.due_time == other.due_time
    }

    /// The milliseconds left before this run, seen from the instant `now`.
    pub fn wait_at(&self, now: i64) -> (w: u64)
        ensures
            w == (if self.spec_due_time() > now {
                self.spec_due_time() - now
            } else {
                0
            }),
    {
        wait_millis(self.due_time, now)
    }

    /// An identical task.
    pub fn duplicate(&self) -> (t: Task)
        ensures
            t == *self,
    {
        Task { schedule: self.schedule.duplicate(), due_time: self.due_time }
    }
}

/// The earliest due time among `tasks`, `None` for no task: the task to
/// run next.
pub open spec fn earliest_due(tasks: Seq<Task>) -> Option<int>
    decreases tasks.len(),
{
    if tasks.len() == 0 {
        None
    } else {
        let rest = earliest_due(tasks.drop_last());
        let d = tasks.last().spec_due_time() as int;
        match rest {
            Some(r) => Some(if r <= d { r } else { d }),
            None => Some(d),
        }
    }
}

/// An optional instant, widened to a mathematical integer.
pub open spec fn widen(o: Option<i64>) -> Option<int> {
    match o {
        Some(t) => Some(t as int),
        None => None,
    }
}

/// `None` orders before every `Some`, and `Some`s by their value.
pub open spec fn opt_le(a: Option<int>, b: Option<int>) -> bool {
    match (a, b) {
        (None, _) => true,
        (Some(_), None) => false,
        (Some(x), Some(y)) => x <= y,
    }
}

proof fn lemma_earliest_due(tasks: Seq<Task>)
    ensures
        tasks.len() == 0 <==> earliest_due(tasks) is None,
        earliest_due(tasks) matches Some(m) ==> (forall|j: int|
            0 <= j < tasks.len() ==> #[trigger] tasks[j].spec_due_time() >= m) && (exists|j: int|
            0 <= j < tasks.len() && #[trigger] tasks[j].spec_due_time() == m),
    decreases tasks.len(),
{
    if tasks.len() > 0 {
        let init = tasks.drop_last();
        lemma_earliest_due(init);
        let m = earliest_due(tasks)->0;
        assert forall|j: int| 0 <= j < tasks.len() implies #[trigger] tasks[j].spec_due_time()
            >= m by {
            if j < init.len() {
                assert(tasks[j] == init[j]);
            }
        }
        if earliest_due(init) is Some && earliest_due(init)->0 <= tasks.last().spec_due_time() {
            let j = choose|j: int| 0 <= j < init.len() && #[trigger] init[j].spec_due_time()
                == earliest_due(init)->0;
            assert(tasks[j] == init[j]);
        } else {
            assert(tasks[tasks.len() - 1].spec_due_time() == m);
        }
    }
}

/// Index of a task with the earliest due time (the first such).
fn earliest_index(tasks: &Vec<Task>) -> (i: usize)
    requires
        tasks.len() > 0,
    ensures
        i < tasks.len(),
        forall|j: int| 0 <= j < tasks.len() ==> #[trigger] tasks@[j].spec_due_time()
            >= tasks@[i as int].spec_due_time(),
        earliest_due(tasks@) == Some(tasks@[i as int].spec_due_time() as int),
{
    let mut best: usize = 0;
    let mut j: usize = 1;
    while j < tasks.len()
        invariant
            best < j <= tasks.len(),
            forall|k: int| 0 <= k < j ==> #[trigger] tasks@[k].spec_due_time()
                >= tasks@[best as int].spec_due_time(),
        decreases tasks.len() - j,
    {
        if tasks[j].due_time() < tasks[best].due_time() {
            best = j;
        }
        j = j + 1;
    }
    proof {
        lemma_earliest_due(tasks@);
    }
    best
}

/// Removes and returns a task with the earliest due time.
fn pop_earliest(tasks: &mut Vec<Task>) -> (t: Option<Task>)
    ensures
        old(tasks)@.len() == 0 ==> t is None && final(tasks)@ == old(tasks)@,
        old(tasks)@.len() > 0 ==> exists|i: int|
            0 <= i < old(tasks)@.len() && t == Some(old(tasks)@[i]) && final(tasks)@ == old(tasks)@.remove(i) && old(tasks)@[i].spec_due_time() as int == earliest_due(old(tasks)@)->0,
{
    if tasks.len() == 0 {
        return None;
    }
    let i = earliest_index(tasks);
    let t = tasks.remove(i);
    Some(t)
}

/// The pending tasks of one key.
struct TaskQueue {
    key: u64,
    tasks: Vec<Task>,
}

/// The queues, as a map from key to tasks.
spec fn queues_map(qs: Seq<TaskQueue>) -> Map<u64, Seq<Task>>
    decreases qs.len(),
{
    if qs.len() == 0 {
        Map::empty()
    } else {
        queues_map(qs.drop_last()).insert(qs.last().key, qs.last().tasks@)
    }
}

spec fn keys_distinct(qs: Seq<TaskQueue>) -> bool {
    forall|i: int, j: int| 0 <= i < j < qs.len() ==> qs[i].key != qs[j].key
}

proof fn lemma_queues_map_index(qs: Seq<TaskQueue>, i: int)
    requires
        keys_distinct(qs),
        0 <= i < qs.len(),
    ensures
        queues_map(qs).contains_key(qs[i].key),
        queues_map(qs)[qs[i].key] == qs[i].tasks@,
    decreases qs.len(),
{
    let init = qs.drop_last();
    if i < qs.len() - 1 {
        assert(init[i] == qs[i]);
        lemma_queues_map_index(init, i);
    }
}

proof fn lemma_queues_map_absent(qs: Seq<TaskQueue>, key: u64)
    requires
        forall|i: int| 0 <= i < qs.len() ==> qs[i].key != key,
    ensures
        !queues_map(qs).contains_key(key),
    decreases qs.len(),
{
    if qs.len() > 0 {
        lemma_queues_map_absent(qs.drop_last(), key);
    }
}

proof fn lemma_queues_map_dom(qs: Seq<TaskQueue>, key: u64)
    ensures
        queues_map(qs).contains_key(key) <==> exists|i: int| 0 <= i < qs.len() && qs[i].key == key,
    decreases qs.len(),
{
    if qs.len() > 0 {
        lemma_queues_map_dom(qs.drop_last(), key);
        if queues_map(qs.drop_last()).contains_key(key) {
            let i = choose|i: int| 0 <= i < qs.len() - 1 && qs.drop_last()[i].key == key;
            assert(qs[i].key == key);
        }
        if exists|i: int| 0 <= i < qs.len() && qs[i].key == key {
            let i = choose|i: int| 0 <= i < qs.len() && qs[i].key == key;
            if i < qs.len() - 1 {
                assert(qs.drop_last()[i].key == key);
            }
        }
    }
}

proof fn lemma_queues_map_update(qs: Seq<TaskQueue>, i: int, q: TaskQueue)
    requires
        keys_distinct(qs),
        0 <= i < qs.len(),
        q.key == qs[i].key,
    ensures
        keys_distinct(qs.update(i, q)),
        queues_map(qs.update(i, q)) == queues_map(qs).insert(q.key, q.tasks@),
    decreases qs.len(),
{
    let u = qs.update(i, q);
    if i == qs.len() - 1 {
        assert(u.drop_last() =~= qs.drop_last());
    } else {
        let init = qs.drop_last();
        lemma_queues_map_update(init, i, q);
        assert(u.drop_last() =~= init.update(i, q));
        assert(queues_map(u) =~= queues_map(qs).insert(q.key, q.tasks@));
    }
}

proof fn lemma_queues_map_push(qs: Seq<TaskQueue>, q: TaskQueue)
    requires
        keys_distinct(qs),
        forall|i: int| 0 <= i < qs.len() ==> qs[i].key != q.key,
    ensures
        keys_distinct(qs.push(q)),
        queues_map(qs.push(q)) == queues_map(qs).insert(q.key, q.tasks@),
{
    assert(qs.push(q).drop_last() =~= qs);
}

/// The scheduler: its schedules and each key's queue of pending tasks.
pub struct Scheduler {
    schedules: Vec<Schedule>,
    task_queue: Vec<TaskQueue>,
}

/// The schedules' ids are pairwise distinct.
pub open spec fn ids_distinct(s: Seq<Schedule>) -> bool {
    forall|i: int, j: int| 0 <= i < j < s.len() ==> s[i].spec_id() != s[j].spec_id()
}

/// The largest schedule id, 0 for none.
pub open spec fn max_id(s: Seq<Schedule>) -> nat
    decreases s.len(),
{
    if s.len() == 0 {
        0
    } else {
        let m = max_id(s.drop_last());
        let i = s.last().spec_id() as nat;
        if m >= i {
            m
        } else {
            i
        }
    }
}

/// What the queues hold after `from_schedules`: each key's schedules, in
/// order, each as a run due at `now`.
pub open spec fn immediate_queue(s: Seq<Schedule>, key: u64, now: i64) -> Seq<Task>
    decreases s.len(),
{
    if s.len() == 0 {
        seq![]
    } else {
        let rest = immediate_queue(s.drop_last(), key, now);
        if s.last().spec_key() == key {
            rest.push(Task { schedule: s.last(), due_time: now })
        } else {
            rest
        }
    }
}

/// Whether a rescheduling notice cancels the wait for the current task: the
/// rescheduled schedule must concern the polled key (any key when polling
/// all of them) and fire before the current task is due.
pub open spec fn spec_preempts(
    polled: Option<u64>,
    schedule_key: u64,
    next_run: Option<i64>,
    current_due: i64,
) -> bool {
    (polled is None || polled == Some(schedule_key)) && (next_run matches Some(t) && t
        < current_due)
}

/// Whether a rescheduling notice cancels the wait for the current task.
pub fn preempts(polled: Option<u64>, schedule_key: u64, next_run: Option<i64>, current_due: i64) -> (b: bool)
    ensures
        b == spec_preempts(polled, schedule_key, next_run, current_due),
{
    let key_matches = match polled {
        None => true,
        Some(k) => k == schedule_key,
    };
    let earlier = match next_run {
        Some(t) => t < current_due,
        None => false,
    };
    key_matches && earlier
}

/// Index of the queue for `key`, if there is one.
fn find_queue(qs: &Vec<TaskQueue>, key: u64) -> (r: Option<usize>)
    ensures
        r matches Some(i) ==> i < qs@.len() && qs@[i as int].key == key,
        r is None ==> forall|i: int| 0 <= i < qs@.len() ==> qs@[i].key != key,
{
    let mut i: usize = 0;
    while i < qs.len()
        invariant
            i <= qs@.len(),
            forall|j: int| 0 <= j < i ==> qs@[j].key != key,
        decreases qs@.len() - i,
    {
        if qs[i].key == key {
            return Some(i);
        }
        i = i + 1;
    }
    None
}

/// Appends `task` to its key's queue, opening the queue if needed.
fn queue_push(qs: &mut Vec<TaskQueue>, task: Task) -> (q: QueueType)
    requires
        keys_distinct(old(qs)@),
    ensures
        keys_distinct(final(qs)@),
        ({
            let k = task.spec_schedule().spec_key();
            let before = queues_map(old(qs)@);
            &&& before.contains_key(k) ==> q == QueueType::Exising && queues_map(final(qs)@)
                == before.insert(k, before[k].push(task))
            &&& !before.contains_key(k) ==> q == QueueType::New && queues_map(final(qs)@)
                == before.insert(k, seq![task])
        }),
{
    let key = task.schedule.key();
    match find_queue(qs, key) {
        Some(i) => {
            proof {
                lemma_queues_map_index(qs@, i as int);
            }
            let mut queue = qs.remove(i);
            queue.tasks.push(task);
            qs.insert(i, queue);
            proof {
                let old_qs = old(qs)@;
                assert(qs@ =~= old_qs.update(i as int, queue));
                lemma_queues_map_update(old_qs, i as int, queue);
            }
            QueueType::Exising
        },
        None => {
            proof {
                lemma_queues_map_absent(qs@, key);
            }
            let mut tasks = Vec::new();
            tasks.push(task);
            let queue = TaskQueue { key, tasks };
            proof {
                lemma_queues_map_push(qs@, queue);
            }
            qs.push(queue);
            QueueType::New
        },
    }
}

/// The earliest due time of a queue.
fn peek(tasks: &Vec<Task>) -> (d: Option<i64>)
    ensures
        widen(d) == earliest_due(tasks@),
{
    if tasks.len() == 0 {
        None
    } else {
        let i = earliest_index(tasks);
        Some(tasks[i].due_time())
    }
}

/// Index of the queue whose earliest task is earliest of all (the first
/// such; an empty queue counts as earliest).
fn earliest_queue(qs: &Vec<TaskQueue>) -> (c: usize)
    requires
        qs@.len() > 0,
        keys_distinct(qs@),
    ensures
        c < qs@.len(),
        forall|k2: u64| #[trigger]
            queues_map(qs@).contains_key(k2) ==> opt_le(
                earliest_due(qs@[c as int].tasks@),
                earliest_due(queues_map(qs@)[k2]),
            ),
{
    let mut best: usize = 0;
    let mut best_due = peek(&qs[0].tasks);
    let mut j: usize = 1;
    while j < qs.len()
        invariant
            best < j <= qs@.len(),
            widen(best_due) == earliest_due(qs@[best as int].tasks@),
            forall|i: int|
                0 <= i < j ==> opt_le(
                    earliest_due(qs@[best as int].tasks@),
                    earliest_due(#[trigger] qs@[i].tasks@),
                ),
        decreases qs@.len() - j,
    {
        let d = peek(&qs[j].tasks);
        let better = match (d, best_due) {
            (None, None) => false,
            (None, Some(_)) => true,
            (Some(_), None) => false,
            (Some(x), Some(y)) => x < y,
        };
        if better {
            best = j;
            best_due = d;
        }
        j = j + 1;
    }
    proof {
        assert forall|k2: u64| #[trigger]
            queues_map(qs@).contains_key(k2) implies opt_le(
            earliest_due(qs@[best as int].tasks@),
            earliest_due(queues_map(qs@)[k2]),
        ) by {
            lemma_queues_map_dom(qs@, k2);
            let i = choose|i: int| 0 <= i < qs@.len() && qs@[i].key == k2;
            lemma_queues_map_index(qs@, i);
        }
    }
    best
}

/// What taking the next task does to the queues `qs` (as a map), for a
/// given key or for all keys, with `r` the task taken.
pub open spec fn next_task_result(
    qs: Map<u64, Seq<Task>>,
    key: Option<u64>,
    r: Option<Task>,
    after: Map<u64, Seq<Task>>,
) -> bool {
    match key {
        Some(k) => {
            &&& (!qs.contains_key(k) || qs[k].len() == 0) ==> r is None && after == qs
            &&& (qs.contains_key(k) && qs[k].len() > 0) ==> exists|i: int|
                0 <= i < qs[k].len() && r == Some(qs[k][i]) && qs[k][i].spec_due_time() as int
                    == earliest_due(qs[k])->0 && after == qs.insert(k, qs[k].remove(i))
        },
        None => {
            &&& qs.dom().len() == 0 ==> r is None && after == qs
            &&& qs.dom().len() > 0 ==> exists|c: u64| #[trigger]
                qs.contains_key(c) && (forall|k2: u64| #[trigger]
                    qs.contains_key(k2) ==> opt_le(earliest_due(qs[c]), earliest_due(qs[k2])))
                    && (qs[c].len() == 0 ==> r is None && after == qs) && (qs[c].len() > 0
                    ==> exists|i: int|
                    0 <= i < qs[c].len() && r == Some(qs[c][i]) && qs[c][i].spec_due_time()
                        as int == earliest_due(qs[c])->0 && after == qs.insert(
                        c,
                        qs[c].remove(i),
                    ))
        },
    }
}

/// Takes the next task from the queues `qs`.
fn queue_take(qs: &mut Vec<TaskQueue>, key: Option<u64>) -> (r: Option<Task>)
    requires
        keys_distinct(old(qs)@),
    ensures
        keys_distinct(final(qs)@),
        next_task_result(queues_map(old(qs)@), key, r, queues_map(final(qs)@)),
{
    let idx = match key {
        Some(k) => match find_queue(qs, k) {
            Some(i) => i,
            None => {
                proof {
                    lemma_queues_map_absent(qs@, k);
                }
                return None;
            },
        },
        None => {
            if qs.len() == 0 {
                proof {
                    assert(queues_map(qs@) =~= Map::<u64, Seq<Task>>::empty());
                }
                return None;
            }
            earliest_queue(qs)
        },
    };
    proof {
        lemma_queues_map_index(qs@, idx as int);
        lemma_earliest_due(qs@[idx as int].tasks@);
        if key is None {
            lemma_queues_map_dom_len(qs@);
        }
    }
    let mut queue = qs.remove(idx);
    let t = pop_earliest(&mut queue.tasks);
    qs.insert(idx, queue);
    proof {
        let old_qs = old(qs)@;
        assert(qs@ =~= old_qs.update(idx as int, queue));
        lemma_queues_map_update(old_qs, idx as int, queue);
        if t is None {
            assert(queues_map(old_qs).insert(queue.key, queue.tasks@) =~= queues_map(old_qs));
        }
        if key is None {
            let c = old_qs[idx as int].key;
            assert(queues_map(old_qs).contains_key(c));
        }
    }
    t
}

/// Whether the ids of `schedules` are pairwise distinct.
pub fn distinct_ids(schedules: &Vec<Schedule>) -> (b: bool)
    ensures
        b == ids_distinct(schedules@),
{
    let mut i: usize = 0;
    while i < schedules.len()
        invariant
            i <= schedules@.len(),
            forall|a: int, b: int| 0 <= a < b < i ==> schedules@[a].spec_id() != schedules@[b].spec_id(),
        decreases schedules@.len() - i,
    {
        let mut j: usize = 0;
        while j < i
            invariant
                i < schedules@.len(),
                j <= i,
                forall|a: int| 0 <= a < j ==> schedules@[a].spec_id() != schedules@[i as int].spec_id(),
            decreases i - j,
        {
            if schedules[j].id() == schedules[i].id() {
                return false;
            }
            j = j + 1;
        }
        i = i + 1;
    }
    true
}

/// An id that two of the schedules share, if any: the id of the first
/// schedule whose id an earlier one already has.
pub fn duplicate_id(schedules: &Vec<Schedule>) -> (r: Option<usize>)
    ensures
        r is None <==> ids_distinct(schedules@),
        r matches Some(id) ==> exists|a: int, b: int|
            0 <= a < b < schedules@.len() && schedules@[a].spec_id() == id && schedules@[b].spec_id()
                == id,
{
    let mut i: usize = 0;
    while i < schedules.len()
        invariant
            i <= schedules@.len(),
            forall|a: int, b: int| 0 <= a < b < i ==> schedules@[a].spec_id() != schedules@[b].spec_id(),
        decreases schedules@.len() - i,
    {
        let mut j: usize = 0;
        while j < i
            invariant
                i < schedules@.len(),
                j <= i,
                forall|a: int| 0 <= a < j ==> schedules@[a].spec_id() != schedules@[i as int].spec_id(),
            decreases i - j,
        {
            if schedules[j].id() == schedules[i].id() {
                return Some(schedules[i].id());
            }
            j = j + 1;
        }
        i = i + 1;
    }
    None
}

/// The queues with `t` appended to the queue of key `k` (opened if need be).
pub open spec fn queue_insert(qs: Map<u64, Seq<Task>>, k: u64, t: Task) -> Map<u64, Seq<Task>> {
    qs.insert(
        k,
        if qs.contains_key(k) {
            qs[k].push(t)
        } else {
            seq![t]
        },
    )
}

/// What adding schedule `s` (for `key`, firing on `trigger`) at time `now`
/// does: `s` gets the next id and is appended, and its next run after
/// `now`, if any, is queued (`q` telling which queue took it).
pub open spec fn add_effect(
    old_s: Seq<Schedule>,
    old_q: Map<u64, Seq<Task>>,
    new_s: Seq<Schedule>,
    new_q: Map<u64, Seq<Task>>,
    trigger: ScheduleTrigger,
    key: u64,
    now: int,
    s: Schedule,
    q: Option<QueueType>,
) -> bool {
    &&& s.spec_id() == max_id(old_s) + 1
    &&& s.spec_key() == key
    &&& s.spec_trigger() == trigger
    &&& s.spec_last_run() is None
    &&& new_s == old_s.push(s)
    &&& match spec_next_run_time(trigger, now) {
        None => q is None && new_q == old_q,
        Some(due) => q is Some && new_q == queue_insert(old_q, key, Task { schedule: s, due_time: due as i64 }),
    }
}

/// What an immediate run of the schedule with id `id` at time `now` does:
/// `None` when no schedule has that id, otherwise a run of it due at `now`
/// is queued.
pub open spec fn run_now_effect(
    old_s: Seq<Schedule>,
    old_q: Map<u64, Seq<Task>>,
    new_q: Map<u64, Seq<Task>>,
    id: usize,
    now: int,
    r: Option<(Task, QueueType)>,
) -> bool {
    &&& r is None <==> forall|i: int| 0 <= i < old_s.len() ==> old_s[i].spec_id() != id
    &&& r is None ==> new_q == old_q
    &&& r matches Some((t, q)) ==> {
        &&& t.spec_due_time() == now
        &&& t.spec_schedule().spec_id() == id
        &&& old_s.contains(t.spec_schedule())
        &&& new_q == queue_insert(old_q, t.spec_schedule().spec_key(), t)
    }
}

impl Scheduler {
    #[verifier::type_invariant]
    spec fn inv(self) -> bool {
        &&& keys_distinct(self.task_queue@)
        &&& ids_distinct(self.schedules@)
    }

    pub closed spec fn spec_schedules(self) -> Seq<Schedule> {
        self.schedules@
    }

    /// The pending tasks, per key.
    pub closed spec fn spec_queues(self) -> Map<u64, Seq<Task>> {
        queues_map(self.task_queue@)
    }

    /// A scheduler without schedules or tasks.
    pub fn new() -> (s: Self)
        ensures
            s.spec_schedules().len() == 0,
            s.spec_queues() == Map::<u64, Seq<Task>>::empty(),
    {
        Scheduler { schedules: Vec::new(), task_queue: Vec::new() }
    }

    /// Puts `task` in its schedule's key queue, opening the queue if needed.
    pub fn add_to_task_queue(&mut self, task: Task) -> (q: QueueType)
        ensures
            final(self).spec_schedules() == old(self).spec_schedules(),
            ({
                let k = task.spec_schedule().spec_key();
                &&& old(self).spec_queues().contains_key(k) ==> q == QueueType::Exising
                    && final(self).spec_queues() == old(self).spec_queues().insert(
                    k,
                    old(self).spec_queues()[k].push(task),
                )
                &&& !old(self).spec_queues().contains_key(k) ==> q == QueueType::New
                    && final(self).spec_queues() == old(self).spec_queues().insert(k, seq![task])
            }),
    {
        proof {
            use_type_invariant(&*self);
        }
        let mut qs: Vec<TaskQueue> = Vec::new();
        std::mem::swap(&mut qs, &mut self.task_queue);
        let q = queue_push(&mut qs, task);
        self.task_queue = qs;
        q
    }

    /// A scheduler holding `schedules`, each with a run due at `now` in its
    /// key's queue (keys' runs in the order of the schedules). The ids must
    /// be distinct.
    pub fn from_schedules(schedules: Vec<Schedule>, now: i64) -> (s: Self)
        requires
            ids_distinct(schedules@),
        ensures
            s.spec_schedules() == schedules@,
            forall|k: u64| #[trigger]
                s.spec_queues().contains_key(k) <==> exists|i: int|
                    0 <= i < schedules@.len() && schedules@[i].spec_key() == k,
            forall|k: u64| #[trigger]
                s.spec_queues().contains_key(k) ==> s.spec_queues()[k] == immediate_queue(
                    schedules@,
                    k,
                    now,
                ),
    {
        let mut qs: Vec<TaskQueue> = Vec::new();
        let mut i: usize = 0;
        while i < schedules.len()
            invariant
                i <= schedules@.len(),
                keys_distinct(qs@),
                forall|k: u64| #[trigger]
                    queues_map(qs@).contains_key(k) <==> exists|j: int|
                        0 <= j < i && schedules@[j].spec_key() == k,
                forall|k: u64| #[trigger]
                    queues_map(qs@).contains_key(k) ==> queues_map(qs@)[k] == immediate_queue(
                        schedules@.take(i as int),
                        k,
                        now,
                    ),
            decreases schedules@.len() - i,
        {
            let task = Task::immediate_at(schedules[i].duplicate(), now);
            let ghost before = queues_map(qs@);
            queue_push(&mut qs, task);
            proof {
                let pre = schedules@.take(i as int);
                let post = schedules@.take(i + 1);
                assert(post.drop_last() =~= pre);
                assert(post.last() == schedules@[i as int]);
                assert forall|k: u64| #[trigger]
                    queues_map(qs@).contains_key(k) <==> exists|j: int|
                        0 <= j < i + 1 && schedules@[j].spec_key() == k by {
                    if k == schedules@[i as int].spec_key() {
                        assert(0 <= i < i + 1 && schedules@[i as int].spec_key() == k);
                    } else if exists|j: int| 0 <= j < i + 1 && schedules@[j].spec_key() == k {
                        let j = choose|j: int| 0 <= j < i + 1 && schedules@[j].spec_key() == k;
                        assert(j < i);
                    }
                }
                assert forall|k: u64| #[trigger]
                    queues_map(qs@).contains_key(k) implies queues_map(qs@)[k] == immediate_queue(
                    post,
                    k,
                    now,
                ) by {
                    if k == schedules@[i as int].spec_key() {
                        if before.contains_key(k) {
                            assert(queues_map(qs@)[k] == before[k].push(task));
                        } else {
                            assert(forall|j: int| 0 <= j < i ==> schedules@[j].spec_key() != k);
                            lemma_immediate_queue_empty(pre, k, now);
                            assert(queues_map(qs@)[k] =~= immediate_queue(post, k, now));
                        }
                    }
                }
            }
            i = i + 1;
        }
        proof {
            assert(schedules@.take(schedules@.len() as int) =~= schedules@);
        }
        Scheduler { schedules, task_queue: qs }
    }

    /// Adds a schedule for `key` with an id one above the largest so far
    /// (1 for the first), and queues its next run after `now`, if any.
    /// Returns the schedule and, when a run was queued, which queue took it.
    pub fn add_schedule_at(&mut self, trigger: ScheduleTrigger, key: u64, now: i64) -> (r: Result<
        (Schedule, Option<QueueType>),
        ScheduleError,
    >)
        requires
            max_id(old(self).spec_schedules()) < usize::MAX,
        ensures
            r is Err <==> !trigger_wf(trigger),
            r is Err ==> *final(self) == *old(self),
            r matches Ok((s, q)) ==> add_effect(
                old(self).spec_schedules(),
                old(self).spec_queues(),
                final(self).spec_schedules(),
                final(self).spec_queues(),
                trigger,
                key,
                now as int,
                s,
                q,
            ),
    {
        proof {
            use_type_invariant(&*self);
        }
        let mut m: usize = 0;
        let mut i: usize = 0;
        while i < self.schedules.len()
            invariant
                i <= self.schedules@.len(),
                m == max_id(self.schedules@.take(i as int)),
            decreases self.schedules@.len() - i,
        {
            proof {
                assert(self.schedules@.take(i + 1).drop_last() =~= self.schedules@.take(i as int));
            }
            if self.schedules[i].id() > m {
                m = self.schedules[i].id();
            }
            i = i + 1;
        }
        proof {
            assert(self.schedules@.take(i as int) =~= self.schedules@);
            lemma_max_id_bound(self.schedules@);
        }
        let id = m + 1;
        let s = match Schedule::new(id, key, trigger) {
            Ok(s) => s,
            Err(e) => return Err(e),
        };
        let mut ss: Vec<Schedule> = Vec::new();
        std::mem::swap(&mut ss, &mut self.schedules);
        ss.push(s.duplicate());
        proof {
            assert forall|a: int, b: int| 0 <= a < b < ss@.len() implies ss@[a].spec_id()
                != ss@[b].spec_id() by {
                if b == ss@.len() - 1 {
                    assert(ss@[a] == old(self).schedules@[a]);
                }
            }
        }
        self.schedules = ss;
        let q = match Task::next_run_at(s.duplicate(), now) {
            Some(t) => Some(self.add_to_task_queue(t)),
            None => None,
        };
        Ok((s, q))
    }

    /// Adds a schedule and queues its next run after the current time.
    pub fn add_schedule(&mut self, trigger: ScheduleTrigger, key: u64) -> (r: Result<
        (Schedule, Option<QueueType>),
        ScheduleError,
    >)
        requires
            max_id(old(self).spec_schedules()) < usize::MAX,
        ensures
            r is Err <==> !trigger_wf(trigger),
            r is Err ==> *final(self) == *old(self),
            r matches Ok((s, q)) ==> exists|now: i64|
                #[trigger] add_effect(
                    old(self).spec_schedules(),
                    old(self).spec_queues(),
                    final(self).spec_schedules(),
                    final(self).spec_queues(),
                    trigger,
                    key,
                    now as int,
                    s,
                    q,
                ),
    {
        let now = now_millis();
        self.add_schedule_at(trigger, key, now)
    }

    /// Queues an immediate run (due at `now`) of the schedule with this id.
    /// Returns the task and the queue it went to, or `None` when no schedule
    /// has that id.
    pub fn run_now_at(&mut self, id: usize, now: i64) -> (r: Option<(Task, QueueType)>)
        ensures
            final(self).spec_schedules() == old(self).spec_schedules(),
            run_now_effect(
                old(self).spec_schedules(),
                old(self).spec_queues(),
                final(self).spec_queues(),
                id,
                now as int,
                r,
            ),
    {
        let mut i: usize = 0;
        while i < self.schedules.len()
            invariant
                *self == *old(self),
                i <= self.schedules@.len(),
                forall|j: int| 0 <= j < i ==> self.schedules@[j].spec_id() != id,
            decreases self.schedules@.len() - i,
        {
            if self.schedules[i].id() == id {
                let t = Task::immediate_at(self.schedules[i].duplicate(), now);
                proof {
                    assert(self.schedules@[i as int] == t.spec_schedule());
                }
                let q = self.add_to_task_queue(t.duplicate());
                return Some((t, q));
            }
            i = i + 1;
        }
        None
    }

    /// Queues an immediate run of `schedule` if the scheduler knows its id.
    pub fn run_now(&mut self, schedule: &Schedule) -> (r: Option<(Task, QueueType)>)
        ensures
            final(self).spec_schedules() == old(self).spec_schedules(),
            exists|now: i64|
                #[trigger] run_now_effect(
                    old(self).spec_schedules(),
                    old(self).spec_queues(),
                    final(self).spec_queues(),
                    schedule.spec_id(),
                    now as int,
                    r,
                ),
    {
        let now = now_millis();
        self.run_now_at(schedule.id(), now)
    }

    /// All schedules, in the order they were added.
    pub fn schedules(&self) -> (v: Vec<Schedule>)
        ensures
            v@ == self.spec_schedules(),
    {
        let mut v: Vec<Schedule> = Vec::new();
        let mut i: usize = 0;
        while i < self.schedules.len()
            invariant
                i <= self.schedules@.len(),
                v@ == self.schedules@.take(i as int),
            decreases self.schedules@.len() - i,
        {
            v.push(self.schedules[i].duplicate());
            proof {
                assert(v@ =~= self.schedules@.take(i + 1));
            }
            i = i + 1;
        }
        proof {
            assert(self.schedules@.take(i as int) =~= self.schedules@);
        }
        v
    }

    /// A task came due at `now`: queues the next run of its schedule after
    /// `now`, if it has one. Returns which queue took it.
    pub fn complete_run_at(&mut self, task: &Task, now: i64) -> (q: Option<QueueType>)
        ensures
            final(self).spec_schedules() == old(self).spec_schedules(),
            ({
                let s = task.spec_schedule();
                let k = s.spec_key();
                match spec_next_run_time(s.spec_trigger(), now as int) {
                    None => q is None && final(self).spec_queues() == old(self).spec_queues(),
                    Some(due) => q is Some && final(self).spec_queues() == queue_insert(
                        old(self).spec_queues(),
                        k,
                        Task { schedule: s, due_time: due as i64 },
                    ),
                }
            }),
    {
        match Task::next_run_at(task.schedule.duplicate(), now) {
            Some(next) => Some(self.add_to_task_queue(next)),
            None => None,
        }
    }

    /// Takes the next task to wait for. For a given key: an earliest task
    /// of its queue (`None` if it has no queue or the queue is empty). For
    /// all keys: `None` when there are no queues; otherwise the queue whose
    /// earliest task is earliest of all is chosen (an empty queue counts as
    /// earliest) and an earliest task of it is taken, `None` if it is
    /// empty.
    pub fn next_task(&mut self, key: Option<u64>) -> (r: Option<Task>)
        ensures
            final(self).spec_schedules() == old(self).spec_schedules(),
            next_task_result(old(self).spec_queues(), key, r, final(self).spec_queues()),
    {
        proof {
            use_type_invariant(&*self);
        }
        let mut qs: Vec<TaskQueue> = Vec::new();
        std::mem::swap(&mut qs, &mut self.task_queue);
        let r = queue_take(&mut qs, key);
        self.task_queue = qs;
        r
    }
}


proof fn lemma_queues_map_dom_len(qs: Seq<TaskQueue>)
    requires
        keys_distinct(qs),
    ensures
        queues_map(qs).dom().finite(),
        queues_map(qs).dom().len() == qs.len(),
    decreases qs.len(),
{
    if qs.len() > 0 {
        let init = qs.drop_last();
        lemma_queues_map_dom_len(init);
        lemma_queues_map_absent(init, qs.last().key);
    }
}

proof fn lemma_immediate_queue_empty(s: Seq<Schedule>, k: u64, now: i64)
    requires
        forall|j: int| 0 <= j < s.len() ==> s[j].spec_key() != k,
    ensures
        immediate_queue(s, k, now) == Seq::<Task>::empty(),
    decreases s.len(),
{
    if s.len() > 0 {
        lemma_immediate_queue_empty(s.drop_last(), k, now);
    }
}

proof fn lemma_max_id_bound(s: Seq<Schedule>)
    ensures
        forall|i: int| 0 <= i < s.len() ==> s[i].spec_id() <= max_id(s),
    decreases s.len(),
{
    if s.len() > 0 {
        lemma_max_id_bound(s.drop_last());
        assert forall|i: int| 0 <= i < s.len() implies s[i].spec_id() <= max_id(s) by {
            if i < s.len() - 1 {
                assert(s[i] == s.drop_last()[i]);
            }
        }
    }
}

/// A polling wait that a rescheduling cancelled.
#[derive(Debug)]
pub struct TaskCancellationError;

impl TaskCancellationError {
    /// The error in words.
    pub fn to_string(&self) -> (s: String)
        ensures
            s@ == "Task cancelled"@,
    {
        let v = crate::text::str_chars("Task cancelled");
        crate::text::chars_to_string(&v)
    }
}

pub open spec fn is_digit(c: char) -> bool {
    '0' <= c <= '9'
}

/// The value of a string of decimal digits.
pub open spec fn digits_value(s: Seq<char>) -> int
    decreases s.len(),
{
    if s.len() == 0 {
        0
    } else {
        digits_value(s.drop_last()) * 10 + (s.last() as int - '0' as int)
    }
}

/// Whether every character is a decimal digit.
pub open spec fn all_digits(d: Seq<char>) -> bool {
    forall|i: int| 0 <= i < d.len() ==> is_digit(#[trigger] d[i])
}

/// The text without a leading `+`.
pub open spec fn unsigned_digits(s: Seq<char>) -> Seq<char> {
    if s.len() > 0 && s[0] == '+' {
        s.drop_first()
    } else {
        s
    }
}

/// What `str::parse::<u32>` reads: an optional `+`, then one or more
/// decimal digits whose value fits in a `u32`.
pub open spec fn spec_parse_u32(s: Seq<char>) -> Option<u32> {
    let d = unsigned_digits(s);
    if d.len() > 0 && all_digits(d) && digits_value(d) <= u32::MAX {
        Some(digits_value(d) as u32)
    } else {
        None
    }
}

proof fn lemma_digits_value_mono(s: Seq<char>, k: int)
    requires
        0 <= k <= s.len(),
        forall|i: int| 0 <= i < s.len() ==> is_digit(#[trigger] s[i]),
    ensures
        0 <= digits_value(s.take(k)) <= digits_value(s),
    decreases s.len(),
{
    if k < s.len() {
        assert(s.drop_last().take(k) =~= s.take(k));
        lemma_digits_value_mono(s.drop_last(), k);
    } else {
        assert(s.take(k) =~= s);
    }
    if s.len() > 0 {
        lemma_digits_value_mono(s.drop_last(), s.len() - 1);
        assert(s.drop_last().take(s.len() - 1) =~= s.drop_last());
    }
}

/// `str::parse::<u32>`: a decimal number with an optional `+`.
pub fn parse_u32(text: &str) -> (r: Option<u32>)
    ensures
        r == spec_parse_u32(text@),
{
    let s = crate::text::str_chars(text);
    let start: usize = if s.len() > 0 && s[0] == '+' { 1 } else { 0 };
    let ghost d = if s@.len() > 0 && s@[0] == '+' { s@.drop_first() } else { s@ };
    proof {
        assert(d =~= s@.skip(start as int));
    }
    if start >= s.len() {
        return None;
    }
    let mut value: u64 = 0;
    let mut i: usize = start;
    while i < s.len()
        invariant
            start <= i <= s@.len(),
            s@ == text@,
            d == unsigned_digits(text@),
            d == s@.skip(start as int),
            forall|j: int| 0 <= j < i - start ==> is_digit(#[trigger] d[j]),
            value == digits_value(d.take(i - start)),
            value <= u32::MAX,
        decreases s@.len() - i,
    {
        let c = s[i];
        if !('0' <= c && c <= '9') {
            proof {
                assert(d[i - start] == c);
                assert(!is_digit(d[i - start]));
                assert(!(forall|j: int| 0 <= j < d.len() ==> is_digit(#[trigger] d[j])));
            }
            return None;
        }
        proof {
            assert(d.take(i - start + 1).drop_last() =~= d.take(i - start));
            assert(d.take(i - start + 1).last() == c);
        }
        let digit = (c as u32 - '0' as u32) as u64;
        let next = value * 10 + digit;
        if next > 0xffff_ffffu64 {
            proof {
                assert(next == digits_value(d.take(i - start + 1)));
                assert forall|j: int| 0 <= j < i - start + 1 implies is_digit(#[trigger] d[j]) by {
                    if j == i - start {
                        assert(d[j] == c);
                    }
                }
                if all_digits(d) {
                    lemma_digits_value_mono(d, i - start + 1);
                }
            }
            return None;
        }
        value = next;
        proof {
            assert(d[i - start] == c);
        }
        i = i + 1;
    }
    proof {
        assert(d.take(i - start) =~= d);
    }
    Some(value as u32)
}

/// What a lock file found in place tells a process that wants the lock.
#[derive(Debug, PartialEq, Eq)]
pub enum LockVerdict {
    /// The lock is free to take.
    Take,
    /// The lock is held by this process unless it is gone.
    HeldBy(u32),
}

/// How reaching the lock file failed, as far as trying again goes.
#[derive(Debug, Clone, Copy, PartialEq, Eq)]
pub enum LockIoError {
    Interrupted,
    AlreadyExists,
    IsADirectory,
    ResourceBusy,
    PermissionDenied,
    Other,
}

/// Whether to wait and try again after such a failure: for every kind but
/// `Other`, which ends the attempt to lock.
pub fn lock_io_retryable(e: LockIoError) -> (b: bool)
    ensures
        b == !(e is Other),
{
    match e {
        LockIoError::Other => false,
        _ => true,
    }
}

/// A lock file longer than ten bytes is no pid file: the lock is free.
pub fn lock_file_oversized(len: u64) -> (b: bool)
    ensures
        b == (len > 10),
{
    len > 10
}

/// What the pid file's text says: free when it holds no pid or this
/// process's own pid, otherwise held by the pid it names.
pub fn pid_file_verdict(content: &str, own_pid: u32) -> (v: LockVerdict)
    ensures
        v == (match spec_parse_u32(content@) {
            None => LockVerdict::Take,
            Some(p) => if p == own_pid {
                LockVerdict::Take
            } else {
                LockVerdict::HeldBy(p)
            },
        }),
{
    match parse_u32(content) {
        None => LockVerdict::Take,
        Some(p) => if p == own_pid {
            LockVerdict::Take
        } else {
            LockVerdict::HeldBy(p)
        },
    }
}

/// A task put in a key's empty (or absent) queue is the next task taken
/// for that key, which leaves the queue empty.
pub proof fn law_queued_task_is_taken(
    qs: Map<u64, Seq<Task>>,
    task: Task,
    r: Option<Task>,
    after: Map<u64, Seq<Task>>,
)
    requires
        !qs.contains_key(task.spec_schedule().spec_key()) || qs[task.spec_schedule().spec_key()].len() == 0,
        next_task_result(
            qs.insert(task.spec_schedule().spec_key(), seq![task]),
            Some(task.spec_schedule().spec_key()),
            r,
            after,
        ),
    ensures
        r == Some(task),
        after == qs.insert(task.spec_schedule().spec_key(), Seq::<Task>::empty()),
{
    let k = task.spec_schedule().spec_key();
    let q = qs.insert(k, seq![task]);
    assert(q.contains_key(k) && q[k].len() == 1);
    let i = choose|i: int|
        0 <= i < q[k].len() && r == Some(q[k][i]) && q[k][i].spec_due_time() as int == earliest_due(
            q[k],
        )->0 && after == q.insert(k, q[k].remove(i));
    assert(i == 0);
    assert(q[k].remove(0) =~= Seq::<Task>::empty());
    assert(q.insert(k, Seq::<Task>::empty()) =~= qs.insert(k, Seq::<Task>::empty()));
}

/// The task taken for a key is due no later than any task of its queue,
/// and the queue loses exactly that one task.
pub proof fn law_taken_task_is_earliest(
    qs: Map<u64, Seq<Task>>,
    k: u64,
    r: Option<Task>,
    after: Map<u64, Seq<Task>>,
)
    requires
        next_task_result(qs, Some(k), r, after),
        qs.contains_key(k),
        qs[k].len() > 0,
    ensures
        r is Some,
        forall|j: int| 0 <= j < qs[k].len() ==> #[trigger] qs[k][j].spec_due_time() >= r->0.spec_due_time(),
        after.contains_key(k) && after[k].len() == qs[k].len() - 1,
{
    lemma_earliest_due(qs[k]);
}

/// Polling every key, when every queue holds a task, the task taken is due
/// no later than any task of any queue.
pub proof fn law_taken_task_is_earliest_of_all(
    qs: Map<u64, Seq<Task>>,
    r: Option<Task>,
    after: Map<u64, Seq<Task>>,
)
    requires
        next_task_result(qs, None, r, after),
        qs.dom().len() > 0,
        forall|k: u64| #[trigger] qs.contains_key(k) ==> qs[k].len() > 0,
    ensures
        r is Some,
        forall|k: u64, j: int|
            qs.contains_key(k) && 0 <= j < qs[k].len() ==> #[trigger] qs[k][j].spec_due_time()
                >= r->0.spec_due_time(),
{
    let c = choose|c: u64| #[trigger]
        qs.contains_key(c) && (forall|k2: u64| #[trigger]
            qs.contains_key(k2) ==> opt_le(earliest_due(qs[c]), earliest_due(qs[k2]))) && (qs[c].len()
            == 0 ==> r is None && after == qs) && (qs[c].len() > 0 ==> exists|i: int|
            0 <= i < qs[c].len() && r == Some(qs[c][i]) && qs[c][i].spec_due_time() as int
                == earliest_due(qs[c])->0 && after == qs.insert(c, qs[c].remove(i)));
    assert(qs[c].len() > 0);
    assert forall|k: u64, j: int|
        qs.contains_key(k) && 0 <= j < qs[k].len() implies #[trigger] qs[k][j].spec_due_time()
            >= r->0.spec_due_time() by {
        lemma_earliest_due(qs[k]);
        lemma_earliest_due(qs[c]);
        assert(opt_le(earliest_due(qs[c]), earliest_due(qs[k])));
    }
}

/// A rescheduling that concerns the polled key (any key when polling all
/// of them) and fires before the task waited for cancels the wait.
pub proof fn law_earlier_run_preempts(polled: Option<u64>, key: u64, next_run: i64, current_due: i64)
    requires
        polled is None || polled == Some(key),
        next_run < current_due,
    ensures
        spec_preempts(polled, key, Some(next_run), current_due),
{
}

/// The earlier of two runs of a schedule is not preempted by a
/// rescheduling that fires no earlier.
pub proof fn law_no_preemption_by_later_run(polled: Option<u64>, key: u64, next_run: i64, current_due: i64)
    requires
        next_run >= current_due,
    ensures
        !spec_preempts(polled, key, Some(next_run), current_due),
{
}

} // verus!
