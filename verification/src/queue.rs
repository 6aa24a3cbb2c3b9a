//! The pending-notification queue: a set of task records keyed by id,
//! deduplicating insertion and acknowledgement with baseline
//! persistence.

use vstd::prelude::*;
use crate::json::{JsonObj, JVal};
use crate::meta::{spec_last_notified, spec_meta_valid, update_last_notified_meta};
use crate::sched::{CachedTask, TaskRec};
use crate::strutil::streq;

verus! {

/// The error an acknowledgement reports.
#[derive(Debug)]
pub enum AcknowledgeError {
    Io(String),
    MissingTask,
}

/// Some record in the sequence carries this id.
pub open spec fn spec_contains_id(s: Seq<TaskRec>, id: Seq<char>) -> bool {
    exists|i: int| 0 <= i < s.len() && (#[trigger] s[i]).id == id
}

/// Ids are pairwise distinct.
pub open spec fn spec_ids_unique(s: Seq<TaskRec>) -> bool {
    forall|i: int, j: int|
        0 <= i < j < s.len() ==> (#[trigger] s[i]).id != (#[trigger] s[j]).id
}

/// The deduplicated set of tasks awaiting acknowledgement.
pub struct PendingQueue {
    pub items: Vec<CachedTask>,
}

impl View for PendingQueue {
    type V = Seq<TaskRec>;

    open spec fn view(&self) -> Seq<TaskRec> {
        self.items@.map_values(|t: CachedTask| t@)
    }
}

impl PendingQueue {
    /// An empty queue.
    pub fn new() -> (r: PendingQueue)
        ensures
            r@ == Seq::<TaskRec>::empty(),
            spec_ids_unique(r@),
    {
        let r = PendingQueue { items: Vec::new() };
        proof {
            assert(r@ =~= Seq::<TaskRec>::empty());
        }
        r
    }

    /// Drops every record.
    pub fn clear(&mut self)
        ensures
            final(self)@ == Seq::<TaskRec>::empty(),
            spec_ids_unique(final(self)@),
    {
        self.items = Vec::new();
        proof {
            assert(self@ =~= Seq::<TaskRec>::empty());
        }
    }

    /// The number of records held.
    pub fn len(&self) -> (r: usize)
        ensures
            r == self@.len(),
    {
        self.items.len()
    }

    /// Whether a record with this id is held.
    pub fn contains_id(&self, id: &str) -> (r: bool)
        ensures
            r == spec_contains_id(self@, id@),
    {
        let n = self.items.len();
        let mut i: usize = 0;
        while i < n
            invariant
                i <= n,
                n == self.items@.len(),
                self@.len() == n,
                forall|j: int| 0 <= j < i ==> (#[trigger] self@[j]).id != id@,
            decreases n - i,
        {
            if streq(self.items[i].id.as_str(), id) {
                assert(self@[i as int].id == id@);
                return true;
            }
            i = i + 1;
        }
        false
    }
}

/// What an insertion into the queue does: it reports whether the id was
/// new; afterwards the id is held; every other id is held exactly as
/// before; a new id is appended, a known id has its record replaced.
pub open spec fn spec_add_post(
    old_q: Seq<TaskRec>,
    new_q: Seq<TaskRec>,
    task: TaskRec,
    r: bool,
) -> bool {
    &&& r == !spec_contains_id(old_q, task.id)
    &&& spec_contains_id(new_q, task.id)
    &&& forall|id2: Seq<char>|
        id2 != task.id ==> (spec_contains_id(new_q, id2) <==> spec_contains_id(old_q, id2))
    &&& (r ==> new_q == old_q.push(task))
    &&& (!r ==> exists|i: int|
        0 <= i < old_q.len() && (#[trigger] old_q[i]).id == task.id && new_q == old_q.update(
            i,
            task,
        ))
}

/// Inserts the record, keyed by id: reports true exactly when the id
/// was not yet pending; a known id has its record replaced without a
/// new event.
pub fn add_pending_notification(pending: &mut PendingQueue, task: CachedTask) -> (r: bool)
    requires
        spec_ids_unique(old(pending)@),
    ensures
        spec_add_post(old(pending)@, final(pending)@, task@, r),
        spec_ids_unique(final(pending)@),
{
    let ghost old_view = pending@;
    let n = pending.items.len();
    let mut i: usize = 0;
    while i < n
        invariant
            i <= n,
            n == pending.items@.len(),
            pending@ == old_view,
            old_view == old(pending)@,
            spec_ids_unique(old_view),
            forall|j: int| 0 <= j < i ==> (#[trigger] pending@[j]).id != task@.id,
        decreases n - i,
    {
        if streq(pending.items[i].id.as_str(), task.id.as_str()) {
            assert(old_view[i as int].id == task@.id);
            pending.items.set(i, task);
            proof {
                assert(pending@ =~= old_view.update(i as int, task@));
                assert(spec_contains_id(pending@, task@.id)) by {
                    assert(pending@[i as int].id == task@.id);
                }
                assert forall|id2: Seq<char>| id2 != task@.id implies (spec_contains_id(
                    pending@,
                    id2,
                ) <==> spec_contains_id(old_view, id2)) by {
                    if spec_contains_id(pending@, id2) {
                        let w = choose|w: int|
                            0 <= w < pending@.len() && (#[trigger] pending@[w]).id == id2;
                        assert(old_view[w].id == id2);
                    }
                    if spec_contains_id(old_view, id2) {
                        let w = choose|w: int|
                            0 <= w < old_view.len() && (#[trigger] old_view[w]).id == id2;
                        assert(pending@[w].id == id2);
                    }
                }
            }
            return false;
        }
        i = i + 1;
    }
    let ghost pre = pending.items@;
    pending.items.push(task);
    proof {
        assert(pending@ =~= old_view.push(task@));
        assert(pending@[old_view.len() as int].id == task@.id);
        assert forall|id2: Seq<char>| id2 != task@.id implies (spec_contains_id(pending@, id2)
            <==> spec_contains_id(old_view, id2)) by {
            if spec_contains_id(pending@, id2) {
                let w = choose|w: int| 0 <= w < pending@.len() && (#[trigger] pending@[w]).id
                    == id2;
                assert(w < old_view.len());
                assert(old_view[w].id == id2);
            }
            if spec_contains_id(old_view, id2) {
                let w = choose|w: int| 0 <= w < old_view.len() && (#[trigger] old_view[w]).id
                    == id2;
                assert(pending@[w].id == id2);
            }
        }
    }
    true
}

/// For any run of insertions without an acknowledgement, a task id
/// yields at most one fresh-insertion report: once an insertion has
/// reported true, a later insertion of the same id reports false.
pub proof fn lemma_pending_dedup(
    q0: Seq<TaskRec>,
    q1: Seq<TaskRec>,
    q2: Seq<TaskRec>,
    t1: TaskRec,
    t2: TaskRec,
    r1: bool,
    r2: bool,
)
    requires
        spec_add_post(q0, q1, t1, r1),
        spec_add_post(q1, q2, t2, r2),
        t2.id == t1.id,
        r1,
    ensures
        !r2,
{
}

/// Removes the record with the given id and reports it; an unknown id
/// is rejected and the queue is unchanged.
pub fn remove_pending(pending: &mut PendingQueue, task_id: &str) -> (r: Result<
    CachedTask,
    AcknowledgeError,
>)
    requires
        spec_ids_unique(old(pending)@),
    ensures
        r is Ok <==> spec_contains_id(old(pending)@, task_id@),
        r matches Ok(t) ==> t@.id == task_id@ && (exists|i: int|
            0 <= i < old(pending)@.len() && (#[trigger] old(pending)@[i]) == t@ && final(pending)@
                == old(pending)@.remove(i)),
        r is Err ==> (r matches Err(AcknowledgeError::MissingTask)) && final(pending)@ == old(
            pending,
        )@,
        !spec_contains_id(final(pending)@, task_id@),
        spec_ids_unique(final(pending)@),
{
    let ghost old_view = pending@;
    let n = pending.items.len();
    let mut i: usize = 0;
    while i < n
        invariant
            i <= n,
            n == pending.items@.len(),
            pending@ == old_view,
            old_view == old(pending)@,
            spec_ids_unique(old_view),
            forall|j: int| 0 <= j < i ==> (#[trigger] pending@[j]).id != task_id@,
        decreases n - i,
    {
        if streq(pending.items[i].id.as_str(), task_id) {
            assert(old_view[i as int].id == task_id@);
            let t = pending.items.remove(i);
            proof {
                assert(pending@ =~= old_view.remove(i as int));
                assert forall|j: int| 0 <= j < pending@.len() implies (#[trigger] pending@[j]).id
                    != task_id@ by {
                    if j < i {
                        assert(pending@[j] == old_view[j]);
                    } else {
                        assert(pending@[j] == old_view[j + 1]);
                    }
                }
            }
            return Ok(t);
        }
        i = i + 1;
    }
    Err(AcknowledgeError::MissingTask)
}

/// Acknowledgement: the record leaves the queue, and the document's
/// metadata has its baseline set to the acknowledgement time. An
/// unknown id is rejected with the queue unchanged; metadata without
/// `id` and `type` is rejected after removal, as the baseline write
/// refuses it.
pub fn acknowledge_task(
    pending: &mut PendingQueue,
    task_id: &str,
    meta: &mut JsonObj,
    now: i64,
) -> (r: Result<CachedTask, AcknowledgeError>)
    requires
        spec_ids_unique(old(pending)@),
    ensures
        r is Ok <==> spec_contains_id(old(pending)@, task_id@) && spec_meta_valid(old(meta)@),
        !spec_contains_id(old(pending)@, task_id@) ==> final(pending)@ == old(pending)@
            && final(meta)@ == old(meta)@ && (r matches Err(AcknowledgeError::MissingTask)),
        (spec_contains_id(old(pending)@, task_id@) && !spec_meta_valid(old(meta)@)) ==> (
        r matches Err(AcknowledgeError::Io(_))) && final(meta)@ == old(meta)@,
        !spec_contains_id(final(pending)@, task_id@),
        r matches Ok(t) ==> t@.id == task_id@,
        r is Ok ==> spec_last_notified(final(meta)@) == now as int,
        r is Ok ==> forall|k: Seq<char>|
            k != "last_notified"@ ==> crate::json::jlookup(final(meta)@, k) == crate::json::jlookup(
                old(meta)@,
                k,
            ),
        spec_ids_unique(final(pending)@),
{
    let t = match remove_pending(pending, task_id) {
        Ok(t) => t,
        Err(e) => {
            return Err(e);
        },
    };
    match update_last_notified_meta(meta, now) {
        Ok(()) => {
            proof {
                crate::meta::lemma_meta_keys_distinct();
            }
            Ok(t)
        },
        Err(_) => Err(AcknowledgeError::Io(String::from_str("invalid meta"))),
    }
}


/// The full document payload a due event carries to the host.
pub struct TaskPayload {
    pub id: String,
    pub meta: JsonObj,
    pub content: String,
    pub path: String,
}

/// Builds the payload for one pending task from its re-read document:
/// the id is taken from the metadata, or left empty when the metadata
/// lacks one.
pub fn load_task_payload(meta: JsonObj, content: String, path: String) -> (r: TaskPayload)
    ensures
        r.meta@ == meta@,
        r.content@ == content@,
        r.path@ == path@,
        match crate::scanner::spec_prompt_id(meta@) {
            Some(id) => r.id@ == id,
            None => r.id@ == Seq::<char>::empty(),
        },
{
    let id: String = match crate::scanner::prompt_id(&meta) {
        Some(s) => s,
        None => String::new(),
    };
    TaskPayload { id, meta, content, path }
}

/// Acknowledgement persists the baseline: once `acknowledge_task`
/// succeeds at time `t`, the metadata it updated records a baseline of
/// at least `t`.
pub proof fn lemma_ack_baseline_persists(m: Seq<(Seq<char>, JVal)>, t: int)
    requires
        crate::json::jlookup(m, "last_notified"@) == Some(JVal::Int(t)),
    ensures
        spec_last_notified(m) >= t,
{
}

} // verus!
