//! Due evaluation over full task metadata records.

use vstd::prelude::*;

verus! {

/// The mathematical shape of a task metadata record.
pub struct TaskMetaRec {
    pub id: Seq<char>,
    pub title: Seq<char>,
    pub prompt: Seq<char>,
    pub last_notified: Option<int>,
    pub interval_minutes: int,
    pub file_path: Seq<char>,
}

/// A task document's scheduling-relevant metadata. The baseline is UNIX
/// seconds; `None` means the task has never been notified.
pub struct TaskMetadata {
    pub id: String,
    pub title: String,
    pub prompt: String,
    pub last_notified: Option<i64>,
    pub interval_minutes: i64,
    pub file_path: String,
}

impl View for TaskMetadata {
    type V = TaskMetaRec;

    open spec fn view(&self) -> TaskMetaRec {
        TaskMetaRec {
            id: self.id@,
            title: self.title@,
            prompt: self.prompt@,
            last_notified: match self.last_notified {
                Some(n) => Some(n as int),
                None => None,
            },
            interval_minutes: self.interval_minutes as int,
            file_path: self.file_path@,
        }
    }
}

impl TaskMetadata {
    /// The baseline as UNIX seconds, when one has been recorded.
    pub fn last_notified_timestamp(&self) -> (r: Option<i64>)
        ensures
            r == self.last_notified,
    {
        self.last_notified
    }

    /// Records the baseline from UNIX seconds.
    pub fn set_last_notified_timestamp(&mut self, timestamp: i64)
        ensures
            final(self).last_notified == Some(timestamp),
            final(self).id == old(self).id,
            final(self).title == old(self).title,
            final(self).prompt == old(self).prompt,
            final(self).interval_minutes == old(self).interval_minutes,
            final(self).file_path == old(self).file_path,
    {
        self.last_notified = Some(timestamp);
    }
}

/// A record equal, at the level of the model, to the given one.
pub fn task_meta_clone(t: &TaskMetadata) -> (r: TaskMetadata)
    ensures
        r@ == t@,
{
    TaskMetadata {
        id: t.id.clone(),
        title: t.title.clone(),
        prompt: t.prompt.clone(),
        last_notified: t.last_notified,
        interval_minutes: t.interval_minutes,
        file_path: t.file_path.clone(),
    }
}

/// The moment a task next becomes due: its baseline plus its interval
/// in minutes; a task without a baseline is due at once (its due time
/// is taken to be `now`).
pub open spec fn spec_due_time(last_notified: Option<int>, interval_minutes: int, now: int) -> int {
    match last_notified {
        Some(l) => l + interval_minutes * 60,
        None => now,
    }
}

/// The bound under which the due-time arithmetic cannot overflow.
pub open spec fn due_fits(last_notified: Option<int>, interval_minutes: int) -> bool {
    match last_notified {
        Some(l) => {
            &&& i64::MIN <= interval_minutes * 60 <= i64::MAX
            &&& i64::MIN <= l + interval_minutes * 60 <= i64::MAX
        },
        None => true,
    }
}

/// The moment a task next becomes due; `now` stands in when no
/// baseline has been recorded.
pub fn calculate_due_time(last_notified: Option<i64>, interval_minutes: i64, now: i64) -> (r: i64)
    requires
        due_fits(
            match last_notified {
                Some(l) => Some(l as int),
                None => None,
            },
            interval_minutes as int,
        ),
    ensures
        r as int == spec_due_time(
            match last_notified {
                Some(l) => Some(l as int),
                None => None,
            },
            interval_minutes as int,
            now as int,
        ),
{
    match last_notified {
        Some(l) => l + interval_minutes * 60,
        None => now,
    }
}

/// A task is due when the current time has reached its due time; a
/// task without a baseline is always due.
pub open spec fn spec_task_due(t: TaskMetaRec, current_time: int) -> bool {
    match t.last_notified {
        Some(l) => current_time >= l + t.interval_minutes * 60,
        None => true,
    }
}

/// Whether the task is due at the given time.
pub fn is_task_due(task: &TaskMetadata, current_time: i64) -> (r: bool)
    requires
        due_fits(task@.last_notified, task@.interval_minutes),
    ensures
        r == spec_task_due(task@, current_time as int),
{
    match task.last_notified {
        Some(_) => {
            let due = calculate_due_time(task.last_notified, task.interval_minutes, current_time);
            current_time >= due
        },
        None => true,
    }
}

/// The records of the input that are due, in order.
pub open spec fn spec_due_filter(s: Seq<TaskMetaRec>, current_time: int) -> Seq<TaskMetaRec>
    decreases s.len(),
{
    if s.len() == 0 {
        Seq::empty()
    } else {
        let rest = spec_due_filter(s.drop_first(), current_time);
        if spec_task_due(s[0], current_time) {
            seq![s[0]] + rest
        } else {
            rest
        }
    }
}

proof fn lemma_due_filter_concat(a: Seq<TaskMetaRec>, b: Seq<TaskMetaRec>, current_time: int)
    ensures
        spec_due_filter(a + b, current_time) == spec_due_filter(a, current_time) + spec_due_filter(
            b,
            current_time,
        ),
    decreases a.len(),
{
    if a.len() == 0 {
        assert(a + b =~= b);
        assert(spec_due_filter(a, current_time) + spec_due_filter(b, current_time)
            =~= spec_due_filter(b, current_time));
    } else {
        assert((a + b).drop_first() =~= a.drop_first() + b);
        assert((a + b)[0] == a[0]);
        assert((a + b).len() > 0);
        lemma_due_filter_concat(a.drop_first(), b, current_time);
        if spec_task_due(a[0], current_time) {
            assert(spec_due_filter(a + b, current_time) =~= seq![a[0]] + spec_due_filter(
                a.drop_first(),
                current_time,
            ) + spec_due_filter(b, current_time));
            assert(spec_due_filter(a, current_time) + spec_due_filter(b, current_time)
                =~= seq![a[0]] + spec_due_filter(a.drop_first(), current_time) + spec_due_filter(
                b,
                current_time,
            ));
        }
    }
}

/// The tasks of the input that are due at the given time, in input
/// order.
pub fn check_due_tasks(tasks: &Vec<TaskMetadata>, current_time: i64) -> (r: Vec<TaskMetadata>)
    requires
        forall|i: int|
            0 <= i < tasks@.len() ==> due_fits(
                (#[trigger] tasks@[i])@.last_notified,
                tasks@[i]@.interval_minutes,
            ),
    ensures
        r@.map_values(|t: TaskMetadata| t@) == spec_due_filter(
            tasks@.map_values(|t: TaskMetadata| t@),
            current_time as int,
        ),
{
    let ghost views = tasks@.map_values(|t: TaskMetadata| t@);
    let n = tasks.len();
    let mut out: Vec<TaskMetadata> = Vec::new();
    let mut i: usize = 0;
    proof {
        assert(views.subrange(0, 0) =~= Seq::<TaskMetaRec>::empty());
        assert(out@.map_values(|t: TaskMetadata| t@) =~= spec_due_filter(
            views.subrange(0, 0),
            current_time as int,
        ));
    }
    while i < n
        invariant
            i <= n,
            n == tasks@.len(),
            views == tasks@.map_values(|t: TaskMetadata| t@),
            forall|j: int|
                0 <= j < tasks@.len() ==> due_fits(
                    (#[trigger] tasks@[j])@.last_notified,
                    tasks@[j]@.interval_minutes,
                ),
            out@.map_values(|t: TaskMetadata| t@) == spec_due_filter(
                views.subrange(0, i as int),
                current_time as int,
            ),
        decreases n - i,
    {
        proof {
            assert(views.subrange(0, i + 1) =~= views.subrange(0, i as int)
                + seq![views[i as int]]);
            lemma_due_filter_concat(
                views.subrange(0, i as int),
                seq![views[i as int]],
                current_time as int,
            );
            assert(seq![views[i as int]].drop_first() =~= Seq::<TaskMetaRec>::empty());
            assert(spec_due_filter(Seq::<TaskMetaRec>::empty(), current_time as int)
                =~= Seq::<TaskMetaRec>::empty());
        }
        if is_task_due(&tasks[i], current_time) {
            proof {
                assert(spec_due_filter(seq![views[i as int]], current_time as int)
                    =~= seq![views[i as int]]);
            }
            let copy = task_meta_clone(&tasks[i]);
            out.push(copy);
            proof {
                assert(out@.map_values(|t: TaskMetadata| t@) =~= spec_due_filter(
                    views.subrange(0, i as int),
                    current_time as int,
                ) + seq![views[i as int]]);
            }
        } else {
            proof {
                assert(spec_due_filter(seq![views[i as int]], current_time as int)
                    =~= Seq::<TaskMetaRec>::empty());
                assert(out@.map_values(|t: TaskMetadata| t@) =~= spec_due_filter(
                    views.subrange(0, i + 1),
                    current_time as int,
                ));
            }
        }
        i = i + 1;
    }
    proof {
        assert(views.subrange(0, n as int) =~= views);
    }
    out
}

/// When the task is due, the baseline is advanced to the current time
/// and the update is reported; otherwise nothing changes.
pub fn update_last_notified_if_due(task: &mut TaskMetadata, current_time: i64) -> (r: bool)
    requires
        due_fits(old(task)@.last_notified, old(task)@.interval_minutes),
    ensures
        r == spec_task_due(old(task)@, current_time as int),
        r ==> final(task)@ == (TaskMetaRec {
            last_notified: Some(current_time as int),
            ..old(task)@
        }),
        !r ==> final(task)@ == old(task)@,
{
    if is_task_due(task, current_time) {
        task.last_notified = Some(current_time);
        return true;
    }
    false
}

} // verus!
