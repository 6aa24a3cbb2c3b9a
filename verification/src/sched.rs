//! The scheduler core: cached task records, due detection, the mode
//! machine and the tick cadence.

use vstd::prelude::*;

verus! {

/// The mathematical shape of a cached task record.
pub struct TaskRec {
    pub id: Seq<char>,
    pub last_notified: int,
    pub interval_minutes: int,
    pub file_path: Seq<char>,
}

/// The in-memory record the scheduler keeps for one interval task.
pub struct CachedTask {
    pub id: String,
    pub last_notified: i64,
    pub interval_minutes: i64,
    pub file_path: String,
}

impl View for CachedTask {
    type V = TaskRec;

    open spec fn view(&self) -> TaskRec {
        TaskRec {
            id: self.id@,
            last_notified: self.last_notified as int,
            interval_minutes: self.interval_minutes as int,
            file_path: self.file_path@,
        }
    }
}

/// A record equal, at the level of the model, to the given one.
pub fn task_clone(t: &CachedTask) -> (r: CachedTask)
    ensures
        r@ == t@,
{
    CachedTask {
        id: t.id.clone(),
        last_notified: t.last_notified,
        interval_minutes: t.interval_minutes,
        file_path: t.file_path.clone(),
    }
}

/// The moment a task next becomes due: its baseline plus its interval,
/// clamped to at least one minute.
pub open spec fn spec_next_trigger(last_notified: int, interval_minutes: int) -> int {
    last_notified + (if interval_minutes > 1 {
        interval_minutes
    } else {
        1
    }) * 60
}

/// A task is due when the current time has reached its next trigger.
pub open spec fn spec_is_due(last_notified: int, interval_minutes: int, now: int) -> bool {
    now >= spec_next_trigger(last_notified, interval_minutes)
}

/// The bound under which the trigger arithmetic cannot overflow.
pub open spec fn trigger_fits(last_notified: int, interval_minutes: int) -> bool {
    &&& i64::MIN <= spec_next_trigger(last_notified, interval_minutes) <= i64::MAX
    &&& (if interval_minutes > 1 {
        interval_minutes
    } else {
        1
    }) * 60 <= i64::MAX
}

impl CachedTask {
    /// The moment the record next becomes due.
    pub fn next_trigger_time(&self) -> (r: i64)
        requires
            trigger_fits(self.last_notified as int, self.interval_minutes as int),
        ensures
            r as int == spec_next_trigger(self.last_notified as int, self.interval_minutes as int),
    {
        let interval_minutes: i64 = if self.interval_minutes > 1 {
            self.interval_minutes
        } else {
            1
        };
        self.last_notified + interval_minutes * 60
    }

    /// Whether the record is due at the given time.
    pub fn is_due(&self, current_time: i64) -> (r: bool)
        requires
            trigger_fits(self.last_notified as int, self.interval_minutes as int),
        ensures
            r == spec_is_due(
                self.last_notified as int,
                self.interval_minutes as int,
                current_time as int,
            ),
    {
        current_time >= self.next_trigger_time()
    }
}

/// Due detection is monotone in time: a task that is not due at some
/// moment was not due at any earlier moment either.
pub proof fn lemma_due_monotone(last_notified: int, interval_minutes: int, t: int, earlier: int)
    requires
        !spec_is_due(last_notified, interval_minutes, t),
        earlier < t,
    ensures
        !spec_is_due(last_notified, interval_minutes, earlier),
{
}

/// The polling mode the scheduler sits in.
#[derive(Debug, Clone, Copy, PartialEq, Eq, Structural)]
pub enum SchedulerMode {
    Idle,
    Active,
    Background,
}

/// The error a failed scheduler start reports.
#[derive(Debug)]
pub enum SchedulerError {
    Io(String),
}

/// The mode the pair of observations maps to: no tasks means idle, a
/// visible window means active, otherwise background.
pub fn derive_scheduler_mode(window_visible: bool, has_tasks: bool) -> (r: SchedulerMode)
    ensures
        !has_tasks ==> r == SchedulerMode::Idle,
        has_tasks && window_visible ==> r == SchedulerMode::Active,
        has_tasks && !window_visible ==> r == SchedulerMode::Background,
{
    if !has_tasks {
        SchedulerMode::Idle
    } else if window_visible {
        SchedulerMode::Active
    } else {
        SchedulerMode::Background
    }
}

/// Seconds between ticks for each mode: none while idle, one second
/// while active, ten seconds in the background.
pub fn calculate_tick_interval(window_visible: bool, has_tasks: bool) -> (r: Option<u64>)
    ensures
        !has_tasks ==> r is None,
        has_tasks && window_visible ==> r == Some(1u64),
        has_tasks && !window_visible ==> r == Some(10u64),
{
    match derive_scheduler_mode(window_visible, has_tasks) {
        SchedulerMode::Idle => None,
        SchedulerMode::Active => Some(1),
        SchedulerMode::Background => Some(10),
    }
}

/// The name a mode change is announced under.
pub fn mode_name(mode: SchedulerMode) -> (r: String)
    ensures
        mode == SchedulerMode::Idle ==> r@ == "Idle"@,
        mode == SchedulerMode::Active ==> r@ == "Active"@,
        mode == SchedulerMode::Background ==> r@ == "Background"@,
{
    match mode {
        SchedulerMode::Idle => String::from_str("Idle"),
        SchedulerMode::Active => String::from_str("Active"),
        SchedulerMode::Background => String::from_str("Background"),
    }
}

} // verus!

verus! {

/// The scheduler's whole state: the task cache, the pending queue, the
/// two flags, the rescan stamp and the vault location.
pub struct SchedulerState {
    pub pending_notifications: crate::queue::PendingQueue,
    pub task_cache: Vec<CachedTask>,
    pub window_visible: bool,
    pub last_scan_timestamp: u64,
    pub running: bool,
    pub vault_path: String,
}

impl SchedulerState {
    /// A fresh scheduler over the given vault: nothing cached, nothing
    /// pending, window taken as visible, not yet running.
    pub fn new(vault_path: String) -> (r: SchedulerState)
        ensures
            r.pending_notifications@ == Seq::<TaskRec>::empty(),
            r.task_cache@.len() == 0,
            r.window_visible == true,
            r.last_scan_timestamp == 0,
            r.running == false,
            r.vault_path@ == vault_path@,
    {
        SchedulerState {
            pending_notifications: crate::queue::PendingQueue::new(),
            task_cache: Vec::new(),
            window_visible: true,
            last_scan_timestamp: 0,
            running: false,
            vault_path,
        }
    }

    /// Whether the host window is visible.
    pub fn is_window_visible(&self) -> (r: bool)
        ensures
            r == self.window_visible,
    {
        self.window_visible
    }

    /// Records the host window's visibility.
    pub fn set_window_visible(&mut self, visible: bool)
        ensures
            *final(self) == (SchedulerState { window_visible: visible, ..*old(self) }),
    {
        self.window_visible = visible;
    }

    /// The modification stamp of the last completed scan.
    pub fn last_scan_timestamp(&self) -> (r: u64)
        ensures
            r == self.last_scan_timestamp,
    {
        self.last_scan_timestamp
    }

    /// Records the modification stamp of a completed scan.
    pub fn set_last_scan_timestamp(&mut self, timestamp: u64)
        ensures
            *final(self) == (SchedulerState { last_scan_timestamp: timestamp, ..*old(self) }),
    {
        self.last_scan_timestamp = timestamp;
    }

    /// Whether the polling loop should keep going.
    pub fn is_running(&self) -> (r: bool)
        ensures
            r == self.running,
    {
        self.running
    }

    /// Starts or stops the polling loop at its next check.
    pub fn set_running(&mut self, running: bool)
        ensures
            *final(self) == (SchedulerState { running, ..*old(self) }),
    {
        self.running = running;
    }
}

/// Stops the scheduler: the loop exits at its next iteration boundary.
pub fn stop_scheduler(state: &mut SchedulerState)
    ensures
        *final(state) == (SchedulerState { running: false, ..*old(state) }),
{
    state.set_running(false);
}

/// The startup baseline reset: the pending queue and cache are
/// replaced by the scanned tasks, every scanned task gets a baseline
/// write at the given moment, and the scan stamp is cleared so the
/// first tick re-reads the vault. Reports how many tasks were found.
pub fn reset_interval_baselines(state: &mut SchedulerState, tasks: &Vec<CachedTask>, timestamp: i64) -> (r: (usize, Vec<(String, i64)>))
    ensures
        r.0 == tasks@.len(),
        final(state).pending_notifications@ == Seq::<TaskRec>::empty(),
        final(state).task_cache@.map_values(|t: CachedTask| t@) == tasks@.map_values(
            |t: CachedTask| t@,
        ),
        final(state).last_scan_timestamp == 0,
        final(state).running == old(state).running,
        final(state).window_visible == old(state).window_visible,
        final(state).vault_path == old(state).vault_path,
        r.1@.len() == tasks@.len(),
        forall|j: int|
            0 <= j < tasks@.len() ==> (#[trigger] r.1@[j]).0@ == crate::paths::spec_join(
                tasks@[j]@.file_path,
                "meta.json"@,
            ) && r.1@[j].1 == timestamp,
{
    state.pending_notifications.clear();
    crate::scanner::update_cache(&mut state.task_cache, tasks);
    state.set_last_scan_timestamp(0);
    let n = tasks.len();
    let mut writes: Vec<(String, i64)> = Vec::new();
    let mut j: usize = 0;
    while j < n
        invariant
            j <= n,
            n == tasks@.len(),
            writes@.len() == j,
            forall|k: int|
                0 <= k < j ==> (#[trigger] writes@[k]).0@ == crate::paths::spec_join(
                    tasks@[k]@.file_path,
                    "meta.json"@,
                ) && writes@[k].1 == timestamp,
        decreases n - j,
    {
        let meta_path = crate::paths::join_path(tasks[j].file_path.as_str(), "meta.json");
        writes.push((meta_path, timestamp));
        j = j + 1;
    }
    (n, writes)
}


/// Some task in the first `k` cache entries is due at `now` and
/// carries this id.
pub open spec fn due_in_prefix(c: Seq<CachedTask>, k: int, id: Seq<char>, now: int) -> bool {
    exists|j: int|
        0 <= j < k && spec_is_due(
            (#[trigger] c[j])@.last_notified,
            c[j]@.interval_minutes,
            now,
        ) && c[j]@.id == id
}

proof fn lemma_due_in_prefix_step(c: Seq<CachedTask>, k: int, id: Seq<char>, now: int)
    requires
        0 <= k < c.len(),
    ensures
        due_in_prefix(c, k + 1, id, now) <==> (due_in_prefix(c, k, id, now) || (spec_is_due(
            c[k]@.last_notified,
            c[k]@.interval_minutes,
            now,
        ) && c[k]@.id == id)),
{
    if due_in_prefix(c, k + 1, id, now) {
        let j = choose|j: int|
            0 <= j < k + 1 && spec_is_due(
                (#[trigger] c[j])@.last_notified,
                c[j]@.interval_minutes,
                now,
            ) && c[j]@.id == id;
        if j < k {
            assert(due_in_prefix(c, k, id, now));
        }
    }
    if due_in_prefix(c, k, id, now) {
        let j = choose|j: int|
            0 <= j < k && spec_is_due(
                (#[trigger] c[j])@.last_notified,
                c[j]@.interval_minutes,
                now,
            ) && c[j]@.id == id;
        assert(due_in_prefix(c, k + 1, id, now));
    }
}

/// The write pair records a due task among the first `k` cache
/// entries: its metadata path, stamped `now`.
pub open spec fn write_from_prefix(
    c: Seq<CachedTask>,
    k: int,
    p: Seq<char>,
    v: int,
    now: int,
) -> bool {
    exists|j: int|
        0 <= j < k && spec_is_due(
            (#[trigger] c[j])@.last_notified,
            c[j]@.interval_minutes,
            now,
        ) && p == crate::paths::spec_join(c[j]@.file_path, "meta.json"@) && v == now
}

proof fn lemma_write_from_prefix_mono(c: Seq<CachedTask>, k: int, p: Seq<char>, v: int, now: int)
    requires
        write_from_prefix(c, k, p, v, now),
        k <= c.len(),
    ensures
        write_from_prefix(c, k + 1, p, v, now),
{
    let j = choose|j: int|
        0 <= j < k && spec_is_due(
            (#[trigger] c[j])@.last_notified,
            c[j]@.interval_minutes,
            now,
        ) && p == crate::paths::spec_join(c[j]@.file_path, "meta.json"@) && v == now;
    assert(0 <= j < k + 1 && spec_is_due(
        (c[j])@.last_notified,
        c[j]@.interval_minutes,
        now,
    ) && p == crate::paths::spec_join(c[j]@.file_path, "meta.json"@) && v == now);
}

/// What one polling tick decided: the ids whose due events fire now,
/// and the baseline writes to persist.
pub struct TickOutcome {
    pub emitted: Vec<String>,
    pub writes: Vec<(String, i64)>,
}

/// One polling tick over the cache. Every due task gets a baseline
/// write at `now` and enters the pending queue; an event fires for
/// every task that was not already pending, and at most once per id.
/// Tasks that are not due are untouched.
#[verifier::rlimit(100)]
#[verifier::spinoff_prover]
pub fn process_due_tasks(
    cache: &mut Vec<CachedTask>,
    pending: &mut crate::queue::PendingQueue,
    now: i64,
) -> (r: TickOutcome)
    requires
        forall|j: int|
            0 <= j < old(cache)@.len() ==> trigger_fits(
                (#[trigger] old(cache)@[j])@.last_notified,
                old(cache)@[j]@.interval_minutes,
            ),
        crate::queue::spec_ids_unique(old(pending)@),
    ensures
        crate::queue::spec_ids_unique(final(pending)@),
        final(cache)@.len() == old(cache)@.len(),
        forall|j: int|
            0 <= j < old(cache)@.len() ==> (#[trigger] final(cache)@[j])@ == (if spec_is_due(
                old(cache)@[j]@.last_notified,
                old(cache)@[j]@.interval_minutes,
                now as int,
            ) {
                TaskRec { last_notified: now as int, ..old(cache)@[j]@ }
            } else {
                old(cache)@[j]@
            }),
        forall|w: int|
            0 <= w < r.writes@.len() ==> write_from_prefix(
                old(cache)@,
                old(cache)@.len() as int,
                (#[trigger] r.writes@[w]).0@,
                r.writes@[w].1 as int,
                now as int,
            ),
        forall|id: Seq<char>|
            #[trigger] crate::queue::spec_contains_id(final(pending)@, id)
                <==> crate::queue::spec_contains_id(old(pending)@, id) || due_in_prefix(
                old(cache)@,
                old(cache)@.len() as int,
                id,
                now as int,
            ),
        forall|e: int|
            0 <= e < r.emitted@.len() ==> !crate::queue::spec_contains_id(
                old(pending)@,
                (#[trigger] r.emitted@[e])@,
            ) && crate::queue::spec_contains_id(final(pending)@, r.emitted@[e]@),
        forall|a: int, b: int|
            0 <= a < b < r.emitted@.len() ==> (#[trigger] r.emitted@[a])@ != (
            #[trigger] r.emitted@[b])@,
        forall|j: int|
            0 <= j < old(cache)@.len() && spec_is_due(
                (#[trigger] old(cache)@[j])@.last_notified,
                old(cache)@[j]@.interval_minutes,
                now as int,
            ) ==> exists|w: int|
                0 <= w < r.writes@.len() && (#[trigger] r.writes@[w]).0@ == crate::paths::spec_join(
                    old(cache)@[j]@.file_path,
                    "meta.json"@,
                ) && r.writes@[w].1 == now,
        forall|j: int|
            0 <= j < old(cache)@.len() && spec_is_due(
                (#[trigger] old(cache)@[j])@.last_notified,
                old(cache)@[j]@.interval_minutes,
                now as int,
            ) && !crate::queue::spec_contains_id(old(pending)@, old(cache)@[j]@.id) ==> exists|
                e: int,
            |
                0 <= e < r.emitted@.len() && (#[trigger] r.emitted@[e])@ == old(cache)@[j]@.id,
{
    let ghost cache0 = cache@;
    let ghost pending0 = pending@;
    let n = cache.len();
    let mut emitted: Vec<String> = Vec::new();
    let mut writes: Vec<(String, i64)> = Vec::new();
    let mut i: usize = 0;
    while i < n
        invariant
            i <= n,
            n == cache0.len(),
            cache@.len() == cache0.len(),
            crate::queue::spec_ids_unique(pending@),
            forall|j: int|
                0 <= j < cache0.len() ==> trigger_fits(
                    (#[trigger] cache0[j])@.last_notified,
                    cache0[j]@.interval_minutes,
                ),
            forall|j: int| i <= j < cache0.len() ==> (#[trigger] cache@[j]) == cache0[j],
            forall|j: int|
                0 <= j < i ==> (#[trigger] cache@[j])@ == (if spec_is_due(
                    cache0[j]@.last_notified,
                    cache0[j]@.interval_minutes,
                    now as int,
                ) {
                    TaskRec { last_notified: now as int, ..cache0[j]@ }
                } else {
                    cache0[j]@
                }),
            forall|w: int|
                0 <= w < writes@.len() ==> write_from_prefix(
                    cache0,
                    i as int,
                    (#[trigger] writes@[w]).0@,
                    writes@[w].1 as int,
                    now as int,
                ),
            forall|id: Seq<char>|
                #[trigger] crate::queue::spec_contains_id(pending@, id)
                    <==> crate::queue::spec_contains_id(pending0, id) || due_in_prefix(
                    cache0,
                    i as int,
                    id,
                    now as int,
                ),
            forall|e: int|
                0 <= e < emitted@.len() ==> !crate::queue::spec_contains_id(
                    pending0,
                    (#[trigger] emitted@[e])@,
                ) && crate::queue::spec_contains_id(pending@, emitted@[e]@),
            forall|a: int, b: int|
                0 <= a < b < emitted@.len() ==> (#[trigger] emitted@[a])@ != (
                #[trigger] emitted@[b])@,
            forall|j: int|
                0 <= j < i && spec_is_due(
                    (#[trigger] cache0[j])@.last_notified,
                    cache0[j]@.interval_minutes,
                    now as int,
                ) ==> exists|w: int|
                    0 <= w < writes@.len() && (#[trigger] writes@[w]).0@
                        == crate::paths::spec_join(cache0[j]@.file_path, "meta.json"@)
                        && writes@[w].1 == now,
            forall|j: int|
                0 <= j < i && spec_is_due(
                    (#[trigger] cache0[j])@.last_notified,
                    cache0[j]@.interval_minutes,
                    now as int,
                ) && !crate::queue::spec_contains_id(pending0, cache0[j]@.id) ==> exists|e: int|
                    0 <= e < emitted@.len() && (#[trigger] emitted@[e])@ == cache0[j]@.id,
        decreases n - i,
    {
        let due = cache[i].is_due(now);
        if due {
            let meta_path = crate::paths::join_path(cache[i].file_path.as_str(), "meta.json");
            let ghost old_writes = writes@;
            writes.push((meta_path, now));
            let t = task_clone(&cache[i]);
            let ghost pending_before = pending@;
            let ghost old_emitted = emitted@;
            let inserted = crate::queue::add_pending_notification(pending, t);
            if inserted {
                emitted.push(cache[i].id.clone());
            }
            let old_task = task_clone(&cache[i]);
            let updated = CachedTask { last_notified: now, ..old_task };
            let ghost old_cache_view = cache@;
            cache.set(i, updated);
            proof {
                assert(forall|w: int|
                    0 <= w < old_writes.len() ==> #[trigger] writes@[w] == old_writes[w]);
                assert(writes@[writes@.len() - 1].0@ == crate::paths::spec_join(
                    cache0[i as int]@.file_path,
                    "meta.json"@,
                ));
                assert forall|w: int| 0 <= w < writes@.len() implies write_from_prefix(
                    cache0,
                    i + 1,
                    (#[trigger] writes@[w]).0@,
                    writes@[w].1 as int,
                    now as int,
                ) by {
                    if w < old_writes.len() {
                        lemma_write_from_prefix_mono(
                            cache0,
                            i as int,
                            writes@[w].0@,
                            writes@[w].1 as int,
                            now as int,
                        );
                    } else {
                        assert(spec_is_due(
                            cache0[i as int]@.last_notified,
                            cache0[i as int]@.interval_minutes,
                            now as int,
                        ));
                        assert(write_from_prefix(
                            cache0,
                            i + 1,
                            writes@[w].0@,
                            writes@[w].1 as int,
                            now as int,
                        ));
                    }
                }
                assert(cache@[i as int]@ == (TaskRec {
                    last_notified: now as int,
                    ..cache0[i as int]@
                }));
                assert forall|id: Seq<char>|
                    #[trigger] crate::queue::spec_contains_id(pending@, id)
                        <==> crate::queue::spec_contains_id(pending0, id) || due_in_prefix(
                        cache0,
                        i + 1,
                        id,
                        now as int,
                    ) by {
                    lemma_due_in_prefix_step(cache0, i as int, id, now as int);
                    if id == cache0[i as int]@.id {
                        assert(crate::queue::spec_contains_id(pending@, id));
                        assert(spec_is_due(
                            cache0[i as int]@.last_notified,
                            cache0[i as int]@.interval_minutes,
                            now as int,
                        ) && cache0[i as int]@.id == id);
                    } else {
                        assert(crate::queue::spec_contains_id(pending@, id)
                            <==> crate::queue::spec_contains_id(pending_before, id));
                    }
                }
                if inserted {
                    assert(emitted@[emitted@.len() - 1]@ == cache0[i as int]@.id);
                    assert(forall|e: int|
                        0 <= e < old_emitted.len() ==> #[trigger] emitted@[e] == old_emitted[e]);
                    assert forall|e: int| 0 <= e < emitted@.len() implies
                        !crate::queue::spec_contains_id(pending0, (#[trigger] emitted@[e])@)
                            && crate::queue::spec_contains_id(pending@, emitted@[e]@) by {
                        if e < old_emitted.len() {
                            assert(!crate::queue::spec_contains_id(
                                pending_before,
                                emitted@[e]@,
                            ) ==> !crate::queue::spec_contains_id(pending0, emitted@[e]@));
                        } else {
                            assert(emitted@[e]@ == cache0[i as int]@.id);
                        }
                    }
                    assert forall|a: int, b: int| 0 <= a < b < emitted@.len() implies (
                    #[trigger] emitted@[a])@ != (#[trigger] emitted@[b])@ by {
                        if b == emitted@.len() - 1 {
                            assert(crate::queue::spec_contains_id(pending_before, emitted@[a]@));
                            assert(!crate::queue::spec_contains_id(
                                pending_before,
                                emitted@[b]@,
                            ));
                        }
                    }
                }
                assert forall|j: int|
                    0 <= j < i + 1 && spec_is_due(
                        (#[trigger] cache0[j])@.last_notified,
                        cache0[j]@.interval_minutes,
                        now as int,
                    ) implies exists|w: int|
                    0 <= w < writes@.len() && (#[trigger] writes@[w]).0@
                        == crate::paths::spec_join(cache0[j]@.file_path, "meta.json"@)
                        && writes@[w].1 == now by {
                    if j < i {
                        let w0 = choose|w: int|
                            0 <= w < old_writes.len() && (#[trigger] old_writes[w]).0@
                                == crate::paths::spec_join(cache0[j]@.file_path, "meta.json"@)
                                && old_writes[w].1 == now;
                        assert(writes@[w0].0@ == crate::paths::spec_join(
                            cache0[j]@.file_path,
                            "meta.json"@,
                        ));
                        assert(writes@[w0].1 == now);
                    } else {
                        assert(writes@[writes@.len() - 1].0@ == crate::paths::spec_join(
                            cache0[j]@.file_path,
                            "meta.json"@,
                        ));
                        assert(writes@[writes@.len() - 1].1 == now);
                    }
                }
                assert forall|j: int|
                    0 <= j < i + 1 && spec_is_due(
                        (#[trigger] cache0[j])@.last_notified,
                        cache0[j]@.interval_minutes,
                        now as int,
                    ) && !crate::queue::spec_contains_id(pending0, cache0[j]@.id) implies exists|
                    e: int,
                |
                    0 <= e < emitted@.len() && (#[trigger] emitted@[e])@ == cache0[j]@.id by {
                    if j < i {
                        let e0 = choose|e: int|
                            0 <= e < old_emitted.len() && (#[trigger] old_emitted[e])@
                                == cache0[j]@.id;
                        assert(emitted@[e0]@ == cache0[j]@.id);
                    } else {
                        if inserted {
                            assert(emitted@[emitted@.len() - 1]@ == cache0[j]@.id);
                        } else {
                            assert(crate::queue::spec_contains_id(
                                pending_before,
                                cache0[j]@.id,
                            ));
                            assert(due_in_prefix(cache0, i as int, cache0[j]@.id, now as int));
                            let j0 = choose|jx: int|
                                0 <= jx < i && spec_is_due(
                                    (#[trigger] cache0[jx])@.last_notified,
                                    cache0[jx]@.interval_minutes,
                                    now as int,
                                ) && cache0[jx]@.id == cache0[j]@.id;
                            let e0 = choose|e: int|
                                0 <= e < old_emitted.len() && (#[trigger] old_emitted[e])@
                                    == cache0[j0]@.id;
                            assert(emitted@[e0]@ == cache0[j]@.id);
                        }
                    }
                }
            }
        } else {
            proof {
                assert(cache@[i as int] == cache0[i as int]);
                assert forall|id: Seq<char>|
                    #[trigger] crate::queue::spec_contains_id(pending@, id)
                        <==> crate::queue::spec_contains_id(pending0, id) || due_in_prefix(
                        cache0,
                        i + 1,
                        id,
                        now as int,
                    ) by {
                    lemma_due_in_prefix_step(cache0, i as int, id, now as int);
                }
                assert forall|w: int| 0 <= w < writes@.len() implies write_from_prefix(
                    cache0,
                    i + 1,
                    (#[trigger] writes@[w]).0@,
                    writes@[w].1 as int,
                    now as int,
                ) by {
                    lemma_write_from_prefix_mono(
                        cache0,
                        i as int,
                        writes@[w].0@,
                        writes@[w].1 as int,
                        now as int,
                    );
                }
            }
        }
        i = i + 1;
    }
    let r = TickOutcome { emitted, writes };
    proof {
        assert forall|j: int|
            0 <= j < cache0.len() && spec_is_due(
                (#[trigger] cache0[j])@.last_notified,
                cache0[j]@.interval_minutes,
                now as int,
            ) && !crate::queue::spec_contains_id(pending0, cache0[j]@.id) implies exists|e: int|
            0 <= e < r.emitted@.len() && (#[trigger] r.emitted@[e])@ == cache0[j]@.id by {
            let e0 = choose|e: int|
                0 <= e < r.emitted@.len() && (#[trigger] r.emitted@[e])@ == cache0[j]@.id;
            assert(r.emitted@[e0]@ == cache0[j]@.id);
        }
    }
    r
}

} // verus!
