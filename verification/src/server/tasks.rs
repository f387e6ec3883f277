//! Long-running work on an index: one task at a time, and what became of the last ones.

use crate::json::{Json, JsonView};
use crate::query_metrics::elapsed_us;
use ahash::{AHashMap, RandomState};
use std::collections::VecDeque;
use std::time::Instant;
use vstd::prelude::*;
use vstd::string::*;

verus! {

/// How many finished tasks are remembered.
pub const HISTORY_LIMIT: usize = 20;

/// The number of a task.
pub type TaskId = u64;

/// What a task does.
#[derive(Debug, Clone, Copy, PartialEq, Eq, Structural)]
pub enum TaskType {
    Load,
    Rebuild,
    AddFields,
    RemoveFields,
    Dump,
    Compact,
}

/// Where a task stands.
#[derive(Debug, Clone, Copy, PartialEq, Eq, Structural)]
pub enum TaskStatus {
    Running,
    Saving,
    Complete,
    Error,
}

/// How far a task is.
#[derive(Debug, Clone, Copy, PartialEq, Eq, Structural)]
pub struct TaskProgress {
    pub records_processed: u64,
    pub total_estimate: Option<u64>,
}

/// What is known of a task.
#[derive(Debug)]
pub struct TaskInfo {
    pub task_id: TaskId,
    pub task_type: TaskType,
    pub status: TaskStatus,
    pub progress: TaskProgress,
    pub elapsed_us: u64,
    pub result: Option<Json>,
    pub error: Option<String>,
}

/// What is known of a task, as a mathematical value.
pub struct TaskView {
    pub task_id: TaskId,
    pub task_type: TaskType,
    pub status: TaskStatus,
    pub progress: TaskProgress,
    pub elapsed_us: u64,
    pub result: Option<JsonView>,
    pub error: Option<Seq<char>>,
}

impl View for TaskInfo {
    type V = TaskView;

    open spec fn view(&self) -> TaskView {
        TaskView {
            task_id: self.task_id,
            task_type: self.task_type,
            status: self.status,
            progress: self.progress,
            elapsed_us: self.elapsed_us,
            result: match self.result {
                Some(j) => Some(j@),
                None => None,
            },
            error: match self.error {
                Some(e) => Some(e@),
                None => None,
            },
        }
    }
}

impl Clone for TaskInfo {
    fn clone(&self) -> (r: Self)
        ensures
            r@ == self@,
    {
        let result = match &self.result {
            Some(j) => Some(j.clone()),
            None => None,
        };
        let error = match &self.error {
            Some(e) => Some(e.clone()),
            None => None,
        };
        TaskInfo {
            task_id: self.task_id,
            task_type: self.task_type,
            status: self.status,
            progress: self.progress,
            elapsed_us: self.elapsed_us,
            result,
            error,
        }
    }
}

/// The active tasks and the finished ones, newest first.
#[derive(Debug, Clone)]
pub struct TaskSnapshot {
    pub active: Vec<TaskInfo>,
    pub history: Vec<TaskInfo>,
}

/// A task that is not finished.
#[derive(Debug, Clone, Copy)]
pub struct ActiveTask {
    pub id: TaskId,
    pub task_type: TaskType,
    pub status: TaskStatus,
    pub started_at: Instant,
    pub progress: u64,
}

impl ActiveTask {
    /// What is known of the task, so long after its start.
    pub open spec fn info(self, elapsed_us: u64) -> TaskView {
        TaskView {
            task_id: self.id,
            task_type: self.task_type,
            status: self.status,
            progress: TaskProgress { records_processed: self.progress, total_estimate: None },
            elapsed_us,
            result: None,
            error: if self.status is Error {
                Some("Task in error state"@)
            } else {
                None
            },
        }
    }

    /// What is known of the task so long after its start.
    pub fn info_at(&self, elapsed_us: u64) -> (r: TaskInfo)
        ensures
            r@ == self.info(elapsed_us),
    {
        let error = if self.status == TaskStatus::Error { Some("Task in error state".to_owned()) } else { None };
        TaskInfo {
            task_id: self.id,
            task_type: self.task_type,
            status: self.status,
            progress: TaskProgress { records_processed: self.progress, total_estimate: None },
            elapsed_us,
            result: None,
            error,
        }
    }

    /// What is known of the task now.
    pub fn build_task_info(&self) -> (r: TaskInfo)
        ensures
            r@ == self.info(r.elapsed_us),
    {
        let elapsed = elapsed_us(&self.started_at);
        self.info_at(elapsed)
    }
}

/// A map that hashes its keys.
#[verifier::external_type_specification]
#[verifier::external_body]
#[verifier::reject_recursive_types(K)]
#[verifier::reject_recursive_types(V)]
#[verifier::reject_recursive_types(S)]
pub struct ExAHashMap<K, V, S>(ahash::AHashMap<K, V, S>);

/// What seeds the hashes.
#[verifier::external_type_specification]
#[verifier::external_body]
pub struct ExRandomState(ahash::RandomState);

/// The tasks that a map holds, by number.
pub uninterp spec fn tasks_in(map: AHashMap<u64, ActiveTask, RandomState>) -> Map<u64, ActiveTask>;

/// `AHashMap::new` makes a map without entries.
#[verifier::external_body]
fn map_new() -> (r: AHashMap<u64, ActiveTask, RandomState>)
    ensures
        tasks_in(r).dom() == Set::<u64>::empty(),
{
    AHashMap::new()
}

/// The first of what `AHashMap::keys` walks: some key, where there is one.
#[verifier::external_body]
fn map_any(map: &AHashMap<u64, ActiveTask, RandomState>) -> (r: Option<u64>)
    ensures
        r is Some ==> tasks_in(*map).contains_key(r->0),
        r is None ==> tasks_in(*map).dom() == Set::<u64>::empty(),
{
    map.keys().next().copied()
}

/// `AHashMap::get` gives the entry under a key.
#[verifier::external_body]
fn map_get(map: &AHashMap<u64, ActiveTask, RandomState>, id: u64) -> (r: Option<ActiveTask>)
    ensures
        r == (if tasks_in(*map).contains_key(id) { Some(tasks_in(*map)[id]) } else { None }),
{
    map.get(&id).copied()
}

/// `AHashMap::insert` puts an entry under a key, in place of the one there.
#[verifier::external_body]
fn map_insert(map: &mut AHashMap<u64, ActiveTask, RandomState>, id: u64, task: ActiveTask)
    ensures
        tasks_in(*final(map)) == tasks_in(*old(map)).insert(id, task),
{
    map.insert(id, task);
}

/// `AHashMap::remove` takes the entry under a key out.
#[verifier::external_body]
fn map_remove(map: &mut AHashMap<u64, ActiveTask, RandomState>, id: u64)
    ensures
        tasks_in(*final(map)) == tasks_in(*old(map)).remove(id),
{
    map.remove(&id);
}

/// The tasks of an index.
pub struct TaskRegistry {
    next_id: u64,
    active: AHashMap<u64, ActiveTask, RandomState>,
    history: VecDeque<TaskInfo>,
}

/// Finished tasks as mathematical values.
pub open spec fn task_views(tasks: Seq<TaskInfo>) -> Seq<TaskView> {
    Seq::new(tasks.len(), |i: int| tasks[i]@)
}

/// The number after `id`: one more, or zero after the last.
pub open spec fn following(id: TaskId) -> TaskId {
    if id == u64::MAX {
        0
    } else {
        (id + 1) as TaskId
    }
}

/// The history with one task more at the front, cut to its limit.
pub open spec fn remembered(history: Seq<TaskView>, task: TaskView) -> Seq<TaskView> {
    let all = seq![task] + history;
    if all.len() > HISTORY_LIMIT {
        all.drop_last()
    } else {
        all
    }
}

/// The first task of a number, from position `n` on.
pub open spec fn past_task(history: Seq<TaskView>, id: TaskId, n: int) -> Option<TaskView>
    decreases history.len() - n,
{
    if n >= history.len() {
        None
    } else if history[n].task_id == id {
        Some(history[n])
    } else {
        past_task(history, id, n + 1)
    }
}

impl TaskRegistry {
    /// The tasks that are not finished.
    pub closed spec fn active_tasks(self) -> Map<TaskId, ActiveTask> {
        tasks_in(self.active)
    }

    /// The finished tasks, newest first.
    pub closed spec fn past(self) -> Seq<TaskView> {
        task_views(self.history@)
    }

    /// The number of the next task.
    pub closed spec fn next(self) -> TaskId {
        self.next_id
    }

    /// At most one task is active, under its own number, and the history keeps to its limit.
    pub open spec fn wf(self) -> bool {
        &&& forall|a: TaskId, b: TaskId|
            self.active_tasks().contains_key(a) && self.active_tasks().contains_key(b) ==> a == b
        &&& forall|a: TaskId| #[trigger]
            self.active_tasks().contains_key(a) ==> self.active_tasks()[a].id == a
        &&& self.past().len() <= HISTORY_LIMIT
    }

    /// Whether the next number is greater than that of every task that is known. So it is until the
    /// numbers start over.
    pub open spec fn numbered(self) -> bool {
        &&& forall|a: TaskId| #[trigger] self.active_tasks().contains_key(a) ==> a < self.next()
        &&& forall|i: int| 0 <= i < self.past().len() ==> (#[trigger] self.past()[i]).task_id < self.next()
    }

    /// No tasks.
    pub fn new() -> (r: Self)
        ensures
            r.wf(),
            r.numbered(),
            r.active_tasks() == Map::<TaskId, ActiveTask>::empty(),
            r.past() == Seq::<TaskView>::empty(),
            r.next() == 1,
    {
        let r = TaskRegistry { next_id: 1, active: map_new(), history: VecDeque::new() };
        assert(r.past() =~= Seq::<TaskView>::empty());
        assert(r.active_tasks() =~= Map::<TaskId, ActiveTask>::empty());
        r
    }

    /// Starts a task where none is active, and gives its number. Otherwise tells the active
    /// task. After the last number they start over.
    pub fn try_start(&mut self, task_type: TaskType) -> (r: Result<TaskId, TaskInfo>)
        requires
            old(self).wf(),
        ensures
            final(self).wf(),
            final(self).past() == old(self).past(),
            r is Ok <==> old(self).active_tasks().dom() == Set::<TaskId>::empty(),
            match r {
                Ok(id) => {
                    &&& id == old(self).next()
                    &&& final(self).next() == following(id)
                    &&& old(self).numbered() && id < u64::MAX ==> final(self).numbered()
                    &&& final(self).active_tasks().dom() == set![id]
                    &&& final(self).active_tasks()[id].task_type == task_type
                    &&& final(self).active_tasks()[id].status is Running
                    &&& final(self).active_tasks()[id].progress == 0
                },
                Err(info) => {
                    &&& final(self).next() == old(self).next()
                    &&& final(self).active_tasks() == old(self).active_tasks()
                    &&& old(self).active_tasks().contains_key(info.task_id)
                    &&& info@ == old(self).active_tasks()[info.task_id].info(info.elapsed_us)
                },
            },
    {
        if let Some(id) = map_any(&self.active) {
            if let Some(task) = map_get(&self.active, id) {
                return Err(task.build_task_info());
            }
            assert(false);
        }
        let id = self.next_id;
        self.next_id = if id == u64::MAX { 0 } else { id + 1 };
        let task = ActiveTask {
            id,
            task_type,
            status: TaskStatus::Running,
            started_at: Instant::now(),
            progress: 0,
        };
        map_insert(&mut self.active, id, task);
        assert(self.active_tasks().dom() =~= set![id]);
        assert(self.past() == old(self).past());
        Ok(id)
    }

    /// Tells how many records a task has processed.
    pub fn set_progress(&mut self, task_id: TaskId, records: u64)
        requires
            old(self).wf(),
        ensures
            final(self).wf(),
            old(self).numbered() ==> final(self).numbered(),
            final(self).past() == old(self).past(),
            final(self).next() == old(self).next(),
            final(self).active_tasks() == (if old(self).active_tasks().contains_key(task_id) {
                old(self).active_tasks().insert(
                    task_id,
                    (ActiveTask { progress: records, ..old(self).active_tasks()[task_id] }),
                )
            } else {
                old(self).active_tasks()
            }),
    {
        if let Some(task) = map_get(&self.active, task_id) {
            map_insert(&mut self.active, task_id, ActiveTask { progress: records, ..task });
        }
        assert(self.past() == old(self).past());
    }

    /// Tells that a task is saving its work.
    pub fn set_saving(&mut self, task_id: TaskId)
        requires
            old(self).wf(),
        ensures
            final(self).wf(),
            old(self).numbered() ==> final(self).numbered(),
            final(self).past() == old(self).past(),
            final(self).next() == old(self).next(),
            final(self).active_tasks() == (if old(self).active_tasks().contains_key(task_id) {
                old(self).active_tasks().insert(
                    task_id,
                    (ActiveTask { status: TaskStatus::Saving, ..old(self).active_tasks()[task_id] }),
                )
            } else {
                old(self).active_tasks()
            }),
    {
        if let Some(task) = map_get(&self.active, task_id) {
            map_insert(&mut self.active, task_id, ActiveTask { status: TaskStatus::Saving, ..task });
        }
        assert(self.past() == old(self).past());
    }

    fn remember(&mut self, info: TaskInfo)
        ensures
            final(self).past() == remembered(old(self).past(), info@),
            final(self).next() == old(self).next(),
            final(self).active_tasks() == old(self).active_tasks(),
    {
        let ghost before = self.history@;
        self.history.push_front(info);
        if self.history.len() > HISTORY_LIMIT {
            let _ = self.history.pop_back();
        }
        assert(self.past() =~= remembered(task_views(before), info@));
    }

    /// Ends a task with what it made of its work.
    pub fn set_complete(&mut self, task_id: TaskId, result: Option<Json>)
        requires
            old(self).wf(),
        ensures
            final(self).wf(),
            old(self).numbered() ==> final(self).numbered(),
            final(self).next() == old(self).next(),
            final(self).active_tasks() == old(self).active_tasks().remove(task_id),
            if old(self).active_tasks().contains_key(task_id) {
                exists|elapsed_us: u64|
                    final(self).past() == remembered(
                        old(self).past(),
                        TaskView {
                            status: TaskStatus::Complete,
                            result: match result {
                                Some(j) => Some(j@),
                                None => None,
                            },
                            ..#[trigger] old(self).active_tasks()[task_id].info(elapsed_us)
                        },
                    )
            } else {
                final(self).past() == old(self).past()
            },
    {
        if let Some(task) = map_get(&self.active, task_id) {
            map_remove(&mut self.active, task_id);
            let mut info = task.build_task_info();
            let ghost base = info@;
            info.status = TaskStatus::Complete;
            info.result = result;
            assert(base == task.info(info.elapsed_us));
            let ghost shown = info@;
            self.remember(info);
            proof {
                lemma_remembered(old(self).past(), shown);
            }
        } else {
            assert(self.active_tasks().remove(task_id) =~= self.active_tasks());
        }
    }

    /// Ends a task that failed.
    pub fn set_error(&mut self, task_id: TaskId, message: String)
        requires
            old(self).wf(),
        ensures
            final(self).wf(),
            old(self).numbered() ==> final(self).numbered(),
            final(self).next() == old(self).next(),
            final(self).active_tasks() == old(self).active_tasks().remove(task_id),
            if old(self).active_tasks().contains_key(task_id) {
                exists|elapsed_us: u64|
                    final(self).past() == remembered(
                        old(self).past(),
                        TaskView {
                            status: TaskStatus::Error,
                            error: Some(message@),
                            ..#[trigger] old(self).active_tasks()[task_id].info(elapsed_us)
                        },
                    )
            } else {
                final(self).past() == old(self).past()
            },
    {
        if let Some(task) = map_get(&self.active, task_id) {
            map_remove(&mut self.active, task_id);
            let mut info = task.build_task_info();
            let ghost base = info@;
            info.status = TaskStatus::Error;
            info.error = Some(message);
            assert(base == task.info(info.elapsed_us));
            let ghost shown = info@;
            self.remember(info);
            proof {
                lemma_remembered(old(self).past(), shown);
            }
        } else {
            assert(self.active_tasks().remove(task_id) =~= self.active_tasks());
        }
    }

    /// Ends a task whose work was given up without a word; nothing where it had been settled.
    pub fn abandon(&mut self, guarded: Option<TaskId>)
        requires
            old(self).wf(),
        ensures
            final(self).wf(),
            old(self).numbered() ==> final(self).numbered(),
            final(self).next() == old(self).next(),
            match guarded {
                Some(id) => {
                    &&& final(self).active_tasks() == old(self).active_tasks().remove(id)
                    &&& if old(self).active_tasks().contains_key(id) {
                        exists|elapsed_us: u64|
                            final(self).past() == remembered(
                                old(self).past(),
                                TaskView {
                                    status: TaskStatus::Error,
                                    error: Some("Task panicked"@),
                                    ..#[trigger] old(self).active_tasks()[id].info(elapsed_us)
                                },
                            )
                    } else {
                        final(self).past() == old(self).past()
                    }
                },
                None => final(self).active_tasks() == old(self).active_tasks() && final(self).past() == old(
                    self,
                ).past(),
            },
    {
        if let Some(id) = guarded {
            self.set_error(id, "Task panicked".to_owned());
        }
    }

    /// What is known of a task: an active one, or else a finished one that is remembered.
    pub fn get(&self, task_id: TaskId) -> (r: Option<TaskInfo>)
        requires
            self.wf(),
        ensures
            match r {
                Some(info) => if self.active_tasks().contains_key(task_id) {
                    info@ == self.active_tasks()[task_id].info(info.elapsed_us)
                } else {
                    past_task(self.past(), task_id, 0) == Some(info@)
                },
                None => !self.active_tasks().contains_key(task_id) && past_task(self.past(), task_id, 0) is None,
            },
    {
        if let Some(task) = map_get(&self.active, task_id) {
            return Some(task.build_task_info());
        }
        let mut i: usize = 0;
        while i < self.history.len()
            invariant
                i <= self.history@.len(),
                !self.active_tasks().contains_key(task_id),
                past_task(self.past(), task_id, 0) == past_task(self.past(), task_id, i as int),
            decreases self.history@.len() - i,
        {
            assert(self.past()[i as int] == self.history@[i as int]@);
            if self.history[i].task_id == task_id {
                return Some(self.history[i].clone());
            }
            i = i + 1;
        }
        None
    }

    /// The active task, where there is one, and the finished ones.
    pub fn snapshot(&self) -> (r: TaskSnapshot)
        requires
            self.wf(),
        ensures
            r.active@.len() == 0 <==> self.active_tasks().dom() == Set::<TaskId>::empty(),
            r.active@.len() <= 1,
            r.active@.len() == 1 ==> self.active_tasks().contains_key(r.active@[0].task_id) && r.active@[0]@
                == self.active_tasks()[r.active@[0].task_id].info(r.active@[0].elapsed_us),
            task_views(r.history@) == self.past(),
    {
        let mut active: Vec<TaskInfo> = Vec::new();
        if let Some(id) = map_any(&self.active) {
            assert(self.active_tasks().contains_key(id));
            if let Some(task) = map_get(&self.active, id) {
                active.push(task.build_task_info());
            }
        }
        let mut history: Vec<TaskInfo> = Vec::new();
        let mut i: usize = 0;
        while i < self.history.len()
            invariant
                i <= self.history@.len(),
                history@.len() == i,
                forall|j: int| 0 <= j < i ==> #[trigger] history@[j]@ == self.history@[j]@,
            decreases self.history@.len() - i,
        {
            history.push(self.history[i].clone());
            i = i + 1;
        }
        assert(task_views(history@) =~= self.past());
        TaskSnapshot { active, history }
    }
}

proof fn lemma_remembered(history: Seq<TaskView>, task: TaskView)
    requires
        history.len() <= HISTORY_LIMIT,
    ensures
        remembered(history, task).len() <= HISTORY_LIMIT,
        remembered(history, task).len() > 0,
        remembered(history, task)[0] == task,
        forall|i: int| 0 < i < remembered(history, task).len() ==> #[trigger] remembered(history, task)[i] == history[i
            - 1],
{
}

/// A task that is forgotten was followed by as many others as are remembered.
pub proof fn law_history_keeps_the_newest(history: Seq<TaskView>, task: TaskView)
    requires
        history.len() <= HISTORY_LIMIT,
    ensures
        remembered(history, task)[0] == task,
        remembered(history, task).skip(1) == (if history.len() == HISTORY_LIMIT {
            history.drop_last()
        } else {
            history
        }),
{
}

/// A task is told under its own number and type, with how far it is and how it stands; only one that
/// stands in error has an error to tell, and none has a result before it ends.
pub proof fn law_tasks_are_told_as_they_stand(task: ActiveTask, elapsed_us: u64)
    ensures
        ({
            let info = task.info(elapsed_us);
            &&& info.task_id == task.id
            &&& info.task_type == task.task_type
            &&& info.status == task.status
            &&& info.progress.records_processed == task.progress
            &&& info.progress.total_estimate is None
            &&& info.elapsed_us == elapsed_us
            &&& info.result is None
            &&& info.error is Some <==> task.status is Error
            &&& info.error matches Some(e) ==> e == "Task in error state"@
        }),
{
}

/// Numbers go up by one and start over at zero behind the last: no two numbers are followed by the
/// same one.
pub proof fn law_numbers_follow_each_other(a: TaskId, b: TaskId)
    ensures
        a < u64::MAX ==> following(a) == a + 1,
        following(u64::MAX) == 0,
        following(a) == following(b) ==> a == b,
{
}

/// The history holds twenty tasks at most, the one that ended last in front.
pub proof fn law_twenty_tasks_are_remembered(history: Seq<TaskView>, task: TaskView)
    ensures
        history.len() < 20 ==> remembered(history, task) == seq![task] + history,
        history.len() == 20 ==> remembered(history, task) == seq![task] + history.drop_last(),
{
    assert((seq![task] + history).drop_last() =~= if history.len() > 0 {
        seq![task] + history.drop_last()
    } else {
        Seq::empty()
    });
}

/// A finished task is found by its number, the one that ended last where a number came twice; a number
/// that is not remembered is not found.
pub proof fn law_finished_tasks_are_found_by_number(history: Seq<TaskView>, id: TaskId, k: int, n: int)
    requires
        0 <= n <= k <= history.len(),
        forall|i: int| 0 <= i < k ==> (#[trigger] history[i]).task_id != id,
    ensures
        k < history.len() && history[k].task_id == id ==> past_task(history, id, n) == Some(history[k]),
        k == history.len() ==> past_task(history, id, n) is None,
    decreases k - n,
{
    if n < k {
        assert(history[n].task_id != id);
        law_finished_tasks_are_found_by_number(history, id, k, n + 1);
    }
}

} // verus!
