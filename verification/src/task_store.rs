use vstd::prelude::*;
use vstd::pervasive::VecAdditionalExecFns;
use crate::task::{Task, TaskId, TaskModel, TaskStatus};

verus! {

/// Error of the task store.
#[derive(Clone, Copy, Debug, PartialEq, Eq, Structural)]
pub enum TaskStoreError {
    /// The identifier space is exhausted; no further task can ever be
    /// registered, because an identifier must never be reused.
    TaskIdsExhausted,
}

/// Narrows which tasks a reader may see: when a set of index names is
/// given, only tasks of those indexes are visible.
pub struct TaskFilter {
    pub indexes: Option<Vec<String>>,
}

pub ghost struct TaskFilterModel {
    pub indexes: Option<Seq<Seq<char>>>,
}

impl View for TaskFilter {
    type V = TaskFilterModel;

    open spec fn view(&self) -> TaskFilterModel {
        TaskFilterModel { indexes: self.indexes.deep_view() }
    }
}

/// Whether a task is visible under an optional filter.
pub open spec fn spec_task_allowed(f: Option<TaskFilterModel>, t: TaskModel) -> bool {
    match f {
        None => true,
        Some(fm) => match fm.indexes {
            None => true,
            Some(ixs) => ixs.contains(t.index_uid),
        },
    }
}

impl TaskFilter {
    /// Runtime check matching `spec_task_allowed` for this filter.
    pub fn task_matches(&self, task: &Task) -> (r: bool)
        ensures
            r == spec_task_allowed(Some(self@), task@),
    {
        match &self.indexes {
            None => {
                proof {
                    assert(self@.indexes is None);
                }
                true
            },
            Some(ixs) => {
                proof {
                    assert(self@.indexes == Some(ixs.deep_view()));
                }
                let mut i: usize = 0;
                while i < ixs.len()
                    invariant
                        i <= ixs@.len(),
                        self@.indexes == Some(ixs.deep_view()),
                        forall|q: int| 0 <= q < i ==> (#[trigger] ixs@[q])@ != task.index_uid@,
                    decreases ixs@.len() - i,
                {
                    proof {
                        crate::key::lemma_string_vec_deep_view(ixs, i as int);
                    }
                    if ixs[i].eq(&task.index_uid) {
                        proof {
                            assert(ixs.deep_view()[i as int] == task@.index_uid);
                            assert(ixs.deep_view().contains(task@.index_uid));
                            assert(self@.indexes == Some(ixs.deep_view()));
                        }
                        return true;
                    }
                    i = i + 1;
                }
                proof {
                    if ixs.deep_view().contains(task@.index_uid) {
                        let q = choose|q: int|
                            0 <= q < ixs.deep_view().len() && ixs.deep_view()[q] == task@.index_uid;
                        crate::key::lemma_string_vec_deep_view(ixs, q);
                    }
                }
                false
            },
        }
    }
}

/// Mathematical abstraction of the task queue: the next identifier to
/// assign and the tasks in registration order.
pub ghost struct TaskStoreModel {
    pub next_id: TaskId,
    pub tasks: Seq<TaskModel>,
}

/// Every stored identifier was assigned before `next_id`, and the queue
/// is strictly ordered by identifier, so identifiers never repeat.
pub open spec fn task_store_wf(m: TaskStoreModel) -> bool {
    &&& forall|i: int| 0 <= i < m.tasks.len() ==> (#[trigger] m.tasks[i]).id < m.next_id
    &&& forall|i: int, j: int|
        0 <= i < j < m.tasks.len() ==> (#[trigger] m.tasks[i]).id < (#[trigger] m.tasks[j]).id
}

/// Durable, strictly-ordered queue of task records. Registration assigns
/// the next identifier and appends the record in the same step, so a task
/// is never visible with an unassigned or reused identifier.
pub struct TaskStore {
    next_id: TaskId,
    tasks: Vec<Task>,
}

impl View for TaskStore {
    type V = TaskStoreModel;

    closed spec fn view(&self) -> TaskStoreModel {
        TaskStoreModel {
            next_id: self.next_id,
            tasks: Seq::new(self.tasks@.len(), |i: int| self.tasks@[i]@),
        }
    }
}

/// Cursor and filter applied to the queue, most recent first: walking the
/// queue from its back, tasks past the cursor or hidden by the filter are
/// skipped, and at most `limit` tasks are taken.
pub open spec fn spec_list_tasks(
    tasks: Seq<TaskModel>,
    f: Option<TaskFilterModel>,
    from: Option<TaskId>,
    limit: nat,
) -> Seq<TaskModel>
    decreases tasks.len(),
{
    if tasks.len() == 0 || limit == 0 {
        Seq::empty()
    } else {
        let t = tasks.last();
        let within = match from {
            None => true,
            Some(c) => t.id <= c,
        };
        if within && spec_task_allowed(f, t) {
            seq![t] + spec_list_tasks(tasks.drop_last(), f, from, (limit - 1) as nat)
        } else {
            spec_list_tasks(tasks.drop_last(), f, from, limit)
        }
    }
}

impl TaskStore {
    /// An empty queue; the first task will get identifier 0.
    pub fn new() -> (r: TaskStore)
        ensures
            task_store_wf(r@),
            r@.next_id == 0,
            r@.tasks == Seq::<TaskModel>::empty(),
    {
        let r = TaskStore { next_id: 0, tasks: Vec::new() };
        proof {
            assert(r@.tasks =~= Seq::<TaskModel>::empty());
        }
        r
    }

    /// Assigns the next identifier and appends the new task in one step:
    /// the identifier becomes visible only together with the record, and
    /// is never handed out twice. The caller supplies the clock reading
    /// stamped as creation time. The returned task is the stored snapshot.
    pub fn register(&mut self, index_uid: String, content: crate::task::TaskContent, now: i64) -> (r:
        Result<Task, TaskStoreError>)
        requires
            task_store_wf(old(self)@),
        ensures
            task_store_wf(final(self)@),
            old(self)@.next_id < TaskId::MAX ==> r is Ok,
            r is Ok ==> ({
                let t = r.unwrap()@;
                &&& t.id == old(self)@.next_id
                &&& t.index_uid == index_uid@
                &&& t.content == content@
                &&& t.status == TaskStatus::Enqueued
                &&& t.created_at == now as int
                &&& t.finished_at is None
                &&& t.error is None
                &&& final(self)@.tasks == old(self)@.tasks.push(t)
                &&& final(self)@.next_id == old(self)@.next_id + 1
            }),
            r is Err ==> old(self)@.next_id == TaskId::MAX && r == Err::<Task, TaskStoreError>(
                TaskStoreError::TaskIdsExhausted,
            ) && *final(self) == *old(self),
    {
        if self.next_id == TaskId::MAX {
            return Err(TaskStoreError::TaskIdsExhausted);
        }
        let task = Task {
            id: self.next_id,
            index_uid,
            content,
            status: TaskStatus::Enqueued,
            created_at: now,
            finished_at: None,
            error: None,
        };
        let snapshot = task.clone();
        self.tasks.push(task);
        self.next_id = self.next_id + 1;
        proof {
            assert(final(self)@.tasks =~= old(self)@.tasks.push(snapshot@));
        }
        Ok(snapshot)
    }

    /// The identifier the next registration will receive.
    pub fn next_task_id(&self) -> (r: TaskId)
        ensures
            r == self@.next_id,
    {
        self.next_id
    }

    fn find_task_index(&self, id: TaskId) -> (r: Option<usize>)
        ensures
            match r {
                Some(i) => i < self@.tasks.len() && self@.tasks[i as int].id == id,
                None => forall|j: int|
                    0 <= j < self@.tasks.len() ==> (#[trigger] self@.tasks[j]).id != id,
            },
    {
        let mut i: usize = 0;
        while i < self.tasks.len()
            invariant
                i <= self.tasks@.len(),
                self@.tasks.len() == self.tasks@.len(),
                forall|j: int| 0 <= j < i ==> (#[trigger] self@.tasks[j]).id != id,
            decreases self.tasks@.len() - i,
        {
            if self.tasks[i].id == id {
                return Some(i);
            }
            i = i + 1;
        }
        None
    }

    /// Point lookup with an optional visibility filter. A task that exists
    /// but is hidden by the filter is reported exactly like one that never
    /// existed: lookups must not leak the existence of foreign tasks.
    pub fn get_task(&self, id: TaskId, filter: Option<&TaskFilter>) -> (r: Option<Task>)
        requires
            task_store_wf(self@),
        ensures
            ({
                let fm = match filter {
                    Some(f) => Some(f@),
                    None => None::<TaskFilterModel>,
                };
                match r {
                    Some(t) => (exists|i: int|
                        0 <= i < self@.tasks.len() && #[trigger] self@.tasks[i] == t@) && t@.id == id
                        && spec_task_allowed(fm, t@),
                    None => forall|i: int|
                        0 <= i < self@.tasks.len() ==> !((#[trigger] self@.tasks[i]).id == id
                            && spec_task_allowed(fm, self@.tasks[i])),
                }
            }),
    {
        match self.find_task_index(id) {
            None => None,
            Some(i) => {
                let task = &self.tasks[i];
                let visible = match filter {
                    None => true,
                    Some(f) => f.task_matches(task),
                };
                if visible {
                    let found = task.clone();
                    proof {
                        assert(self@.tasks[i as int] == found@);
                    }
                    Some(found)
                } else {
                    proof {
                        assert forall|j: int|
                            0 <= j < self@.tasks.len() implies !((#[trigger] self@.tasks[j]).id
                            == id && spec_task_allowed(
                            match filter {
                                Some(f) => Some(f@),
                                None => None::<TaskFilterModel>,
                            },
                            self@.tasks[j],
                        )) by {
                            if self@.tasks[j].id == id && j != i {
                                if j < i {
                                    assert(self@.tasks[j].id < self@.tasks[i as int].id);
                                } else {
                                    assert(self@.tasks[i as int].id < self@.tasks[j].id);
                                }
                            }
                        }
                    }
                    None
                }
            },
        }
    }

    /// At most `limit` tasks, most recent first, resumable via the cursor
    /// `from`: only tasks with identifier at or below the cursor appear,
    /// and only those the filter lets through.
    pub fn list_tasks(
        &self,
        filter: Option<&TaskFilter>,
        limit: usize,
        from: Option<TaskId>,
    ) -> (r: Vec<Task>)
        ensures
            ({
                let fm = match filter {
                    Some(f) => Some(f@),
                    None => None::<TaskFilterModel>,
                };
                Seq::new(r@.len(), |q: int| r@[q]@) == spec_list_tasks(
                    self@.tasks,
                    fm,
                    from,
                    limit as nat,
                )
            }),
    {
        let ghost fm = match filter {
            Some(f) => Some(f@),
            None => None::<TaskFilterModel>,
        };
        let mut out: Vec<Task> = Vec::new();
        let mut i: usize = self.tasks.len();
        proof {
            assert(self@.tasks.subrange(0, self.tasks@.len() as int) =~= self@.tasks);
            assert(Seq::new(0, |q: int| out@[q]@) + spec_list_tasks(self@.tasks, fm, from, limit as nat)
                =~= spec_list_tasks(self@.tasks, fm, from, limit as nat));
        }
        while i > 0 && out.len() < limit
            invariant
                i <= self.tasks@.len(),
                self@.tasks.len() == self.tasks@.len(),
                out@.len() <= limit,
                fm == (match filter {
                    Some(f) => Some(f@),
                    None => None::<TaskFilterModel>,
                }),
                spec_list_tasks(self@.tasks, fm, from, limit as nat) == Seq::new(
                    out@.len(),
                    |q: int| out@[q]@,
                ) + spec_list_tasks(
                    self@.tasks.subrange(0, i as int),
                    fm,
                    from,
                    (limit - out@.len()) as nat,
                ),
            decreases i,
        {
            let task = &self.tasks[i - 1];
            let within = match from {
                None => true,
                Some(c) => task.id <= c,
            };
            let visible = within && (match filter {
                None => true,
                Some(f) => f.task_matches(task),
            });
            let ghost pre = self@.tasks.subrange(0, i as int);
            proof {
                assert(pre.last() == self@.tasks[i - 1]);
                assert(pre.drop_last() =~= self@.tasks.subrange(0, i - 1));
            }
            if visible {
                let ghost opre = out@;
                out.push(task.clone());
                proof {
                    assert(Seq::new(out@.len(), |q: int| out@[q]@) =~= Seq::new(
                        opre.len(),
                        |q: int| opre[q]@,
                    ) + seq![self@.tasks[i - 1]]);
                    assert(spec_list_tasks(pre, fm, from, (limit - opre.len()) as nat) == seq![
                        self@.tasks[i - 1],
                    ] + spec_list_tasks(pre.drop_last(), fm, from, (limit - opre.len() - 1) as nat));
                }
            } else {
                proof {
                    assert(spec_list_tasks(pre, fm, from, (limit - out@.len()) as nat)
                        == spec_list_tasks(pre.drop_last(), fm, from, (limit - out@.len()) as nat));
                }
            }
            i = i - 1;
        }
        proof {
            if i == 0 {
                assert(self@.tasks.subrange(0, 0) =~= Seq::<TaskModel>::empty());
            }
            assert(spec_list_tasks(
                self@.tasks.subrange(0, i as int),
                fm,
                from,
                (limit - out@.len()) as nat,
            ) =~= Seq::<TaskModel>::empty());
            assert(Seq::new(out@.len(), |q: int| out@[q]@) + Seq::<TaskModel>::empty() =~= Seq::new(
                out@.len(),
                |q: int| out@[q]@,
            ));
        }
        out
    }

    /// Write-back entry point for the external execution worker: stamps a
    /// terminal status, completion time and optional failure reason on the
    /// task. Nothing else of the record changes, and no task is ever
    /// deleted. Returns whether the task existed.
    pub fn finish_task(
        &mut self,
        id: TaskId,
        success: bool,
        error: Option<String>,
        finished_at: i64,
    ) -> (r: bool)
        requires
            task_store_wf(old(self)@),
        ensures
            task_store_wf(final(self)@),
            final(self)@.next_id == old(self)@.next_id,
            r == (exists|i: int|
                0 <= i < old(self)@.tasks.len() && (#[trigger] old(self)@.tasks[i]).id == id),
            !r ==> final(self)@.tasks == old(self)@.tasks,
            r ==> (exists|i: int|
                {
                    &&& 0 <= i < old(self)@.tasks.len()
                    &&& (#[trigger] old(self)@.tasks[i]).id == id
                    &&& final(self)@.tasks == old(self)@.tasks.update(
                        i,
                        TaskModel {
                            status: if success {
                                TaskStatus::Succeeded
                            } else {
                                TaskStatus::Failed
                            },
                            finished_at: Some(finished_at as int),
                            error: error.deep_view(),
                            ..old(self)@.tasks[i]
                        },
                    )
                }),
    {
        match self.find_task_index(id) {
            None => {
                proof {
                    assert(final(self)@.tasks =~= old(self)@.tasks);
                }
                false
            },
            Some(i) => {
                let old_task = &self.tasks[i];
                let updated = Task {
                    id: old_task.id,
                    index_uid: old_task.index_uid.clone(),
                    content: old_task.content.clone(),
                    status: if success {
                        TaskStatus::Succeeded
                    } else {
                        TaskStatus::Failed
                    },
                    created_at: old_task.created_at,
                    finished_at: Some(finished_at),
                    error: crate::key::clone_opt_string(&error),
                };
                proof {
                    assert(updated@ == TaskModel {
                        status: if success {
                            TaskStatus::Succeeded
                        } else {
                            TaskStatus::Failed
                        },
                        finished_at: Some(finished_at as int),
                        error: error.deep_view(),
                        ..old(self)@.tasks[i as int]
                    });
                }
                self.tasks.set(i, updated);
                proof {
                    let post = final(self)@.tasks;
                    assert(post =~= old(self)@.tasks.update(i as int, post[i as int]));
                }
                true
            },
        }
    }
}

/// Identifiers in the queue are strictly increasing, and the identifier
/// the store will assign next is fresh: it differs from every identifier
/// already in the queue. Registrations run one at a time against the
/// store, so no interleaving of callers can observe a repeated identifier.
pub proof fn lemma_task_ids_strictly_increasing(m: TaskStoreModel)
    requires
        task_store_wf(m),
    ensures
        forall|i: int, j: int|
            0 <= i < j < m.tasks.len() ==> (#[trigger] m.tasks[i]).id < (#[trigger] m.tasks[j]).id,
        forall|i: int| 0 <= i < m.tasks.len() ==> (#[trigger] m.tasks[i]).id != m.next_id,
{
}

} // verus!
