//! The tasks of the kernel: which there are, which of them runs next, and
//! which identifier a new task gets.

use vstd::prelude::*;

verus! {

/// The largest identifier of a task.
pub const MAX_TASKS: usize = usize::MAX - 1;

/// The identifier of a task.
#[derive(Debug, Clone, Copy, PartialEq, Eq, Structural)]
pub struct TaskId(pub usize);

/// A task.
#[derive(Debug, Clone, Copy, PartialEq, Eq, Structural)]
pub struct Task {
    pub id: TaskId,
    /// Whether the task has run to its end.
    pub finished: bool,
}

impl Task {
    /// A task with the identifier `id` that has not run yet.
    pub fn new(id: TaskId) -> (task: Task)
        ensures
            task == (Task { id, finished: false }),
    {
        Task { id, finished: false }
    }
}

/// Why no task could be made.
#[derive(Debug, Clone, Copy, PartialEq, Eq, Structural)]
pub enum TaskError {
    /// Every identifier from the one last given on is taken.
    TooManyTasks,
}

/// Whether `tasks` holds a task with the identifier `id`.
pub open spec fn has_task(tasks: Seq<Task>, id: int) -> bool {
    exists|i: int| 0 <= i < tasks.len() && (#[trigger] tasks[i]).id.0 == id
}

/// Whether `tasks` holds a task with the identifier `id` that has not run
/// to its end.
pub open spec fn can_run(tasks: Seq<Task>, id: int) -> bool {
    exists|i: int| 0 <= i < tasks.len() && (#[trigger] tasks[i]).id.0 == id && !tasks[i].finished
}

/// Whether the identifiers of `tasks` ascend.
pub open spec fn ascending(tasks: Seq<Task>) -> bool {
    forall|i: int, j: int| 0 <= i < j < tasks.len() ==> tasks[i].id.0 < tasks[j].id.0
}

/// The identifier from which the search for a free one starts: `next_id`,
/// or zero where `next_id` lies above the largest identifier.
pub open spec fn search_start(next_id: int) -> int {
    if next_id > MAX_TASKS {
        0
    } else {
        next_id
    }
}

/// The tasks of the kernel, by ascending identifier.
pub struct TaskList {
    tasks: Vec<Task>,
    next_id: usize,
}

impl TaskList {
    #[verifier::type_invariant]
    spec fn ordered(self) -> bool {
        &&& ascending(self.tasks@)
        &&& forall|i: int| 0 <= i < self.tasks@.len() ==> (#[trigger] self.tasks@[i]).id.0 <= MAX_TASKS
    }

    /// The tasks, by ascending identifier.
    pub closed spec fn tasks(&self) -> Seq<Task> {
        self.tasks@
    }

    /// The identifier at which the search for a free one starts next.
    pub closed spec fn next_id(&self) -> int {
        self.next_id as int
    }

    /// No task.
    pub fn new() -> (list: TaskList)
        ensures
            list.tasks() == Seq::<Task>::empty(),
            list.next_id() == 0,
    {
        TaskList { tasks: Vec::new(), next_id: 0 }
    }

    /// The task with the identifier `id`.
    #[verifier::loop_isolation(false)]
    pub fn get(&self, id: TaskId) -> (task: Option<Task>)
        ensures
            task.is_some() <==> has_task(self.tasks(), id.0 as int),
            task matches Some(t) ==> t.id == id && self.tasks().contains(t),
            ascending(self.tasks()),
    {
        proof {
            use_type_invariant(self);
        }
        let mut i: usize = 0;
        while i < self.tasks.len()
            invariant
                i <= self.tasks@.len(),
                forall|k: int| 0 <= k < i ==> (#[trigger] self.tasks@[k]).id.0 != id.0,
            decreases self.tasks@.len() - i,
        {
            if self.tasks[i].id.0 == id.0 {
                return Some(self.tasks[i]);
            }
            i += 1;
        }
        None
    }

    /// The task that runs, given its identifier.
    pub fn current(&self, current_task_id: TaskId) -> (task: Option<Task>)
        ensures
            task.is_some() <==> has_task(self.tasks(), current_task_id.0 as int),
            task matches Some(t) ==> t.id == current_task_id && self.tasks().contains(t),
    {
        self.get(current_task_id)
    }

    /// The task that runs after the task with the identifier
    /// `current_task_id`: of the tasks that have not run to their end, the
    /// one with the lowest identifier above `current_task_id`; where there
    /// is none, the one with the lowest identifier below it; and `None` where
    /// there is none either.
    #[verifier::loop_isolation(false)]
    #[verifier::rlimit(30)]
    pub fn next(&self, current_task_id: TaskId) -> (task: Option<TaskId>)
        ensures
            match task {
                Some(id) => {
                    &&& can_run(self.tasks(), id.0 as int)
                    &&& id.0 > current_task_id.0 ==> forall|other: int|
                        current_task_id.0 < other < id.0 ==> !can_run(self.tasks(), other)
                    &&& id.0 <= current_task_id.0 ==> id.0 < current_task_id.0 && forall|
                        other: int,
                    |
                        other < id.0 || other > current_task_id.0 ==> !can_run(
                            self.tasks(),
                            other,
                        )
                },
                None => forall|other: int|
                    other != current_task_id.0 ==> !can_run(self.tasks(), other),
            },
    {
        proof {
            use_type_invariant(self);
        }
        let current_id = current_task_id.0;
        let mut i: usize = 0;
        while i < self.tasks.len()
            invariant
                i <= self.tasks@.len(),
                ascending(self.tasks@),
                forall|k: int|
                    0 <= k < i ==> (#[trigger] self.tasks@[k]).id.0 <= current_id
                        || self.tasks@[k].finished,
            decreases self.tasks@.len() - i,
        {
            let task = self.tasks[i];
            if task.id.0 > current_id && !task.finished {
                assert forall|other: int| current_id < other < task.id.0 implies !can_run(
                    self.tasks(),
                    other,
                ) by {
                    if can_run(self.tasks(), other) {
                        let k = choose|k: int|
                            0 <= k < self.tasks@.len() && (#[trigger] self.tasks@[k]).id.0 == other
                                && !self.tasks@[k].finished;
                        if k > i {
                            assert(self.tasks@[i as int].id.0 < self.tasks@[k].id.0);
                        }
                        assert(k < i);
                    }
                }
                assert(self.tasks@[i as int].id.0 == task.id.0 && !self.tasks@[i as int].finished);
                assert(can_run(self.tasks(), task.id.0 as int));
                return Some(task.id);
            }
            i += 1;
        }
        let mut j: usize = 0;
        while j < self.tasks.len()
            invariant
                j <= self.tasks@.len(),
                ascending(self.tasks@),
                forall|k: int|
                    0 <= k < self.tasks@.len() ==> (#[trigger] self.tasks@[k]).id.0 <= current_id
                        || self.tasks@[k].finished,
                forall|k: int|
                    0 <= k < j ==> (#[trigger] self.tasks@[k]).id.0 >= current_id
                        || self.tasks@[k].finished,
            decreases self.tasks@.len() - j,
        {
            let task = self.tasks[j];
            if task.id.0 < current_id && !task.finished {
                assert forall|other: int|
                    other < task.id.0 || other > current_id implies !can_run(
                    self.tasks(),
                    other,
                ) by {
                    if can_run(self.tasks(), other) {
                        let k = choose|k: int|
                            0 <= k < self.tasks@.len() && (#[trigger] self.tasks@[k]).id.0 == other
                                && !self.tasks@[k].finished;
                        if other < task.id.0 {
                            if k > j {
                                assert(self.tasks@[j as int].id.0 < self.tasks@[k].id.0);
                            }
                            assert(k < j);
                        }
                    }
                }
                assert(self.tasks@[j as int].id.0 == task.id.0 && !self.tasks@[j as int].finished);
                assert(can_run(self.tasks(), task.id.0 as int));
                return Some(task.id);
            }
            j += 1;
        }
        assert forall|other: int| other != current_id implies !can_run(self.tasks(), other) by {
            if can_run(self.tasks(), other) {
                let k = choose|k: int|
                    0 <= k < self.tasks@.len() && (#[trigger] self.tasks@[k]).id.0 == other
                        && !self.tasks@[k].finished;
            }
        }
        None
    }

    /// Makes a task.  Its identifier is the lowest one that no task has,
    /// from the identifier after that of the task made last on; the search
    /// starts over at zero once it has passed the largest identifier.
    /// Refused where every identifier from there on is taken.
    #[verifier::loop_isolation(false)]
    #[verifier::rlimit(30)]
    pub fn new_task(&mut self) -> (result: Result<TaskId, TaskError>)
        ensures
            match result {
                Ok(id) => {
                    &&& search_start(old(self).next_id()) <= id.0 <= MAX_TASKS
                    &&& !has_task(old(self).tasks(), id.0 as int)
                    &&& forall|other: int|
                        search_start(old(self).next_id()) <= other < id.0 ==> has_task(
                            old(self).tasks(),
                            other,
                        )
                    &&& final(self).next_id() == id.0 + 1
                    &&& final(self).tasks().contains(Task { id, finished: false })
                    &&& final(self).tasks().len() == old(self).tasks().len() + 1
                    &&& forall|task: Task|
                        final(self).tasks().contains(task) <==> old(self).tasks().contains(task)
                            || task == (Task { id, finished: false })
                },
                Err(_) => {
                    &&& forall|other: int|
                        search_start(old(self).next_id()) <= other <= MAX_TASKS ==> has_task(
                            old(self).tasks(),
                            other,
                        )
                    &&& final(self).tasks() == old(self).tasks()
                },
            },
    {
        proof {
            use_type_invariant(&*self);
        }
        if self.next_id > MAX_TASKS {
            self.next_id = 0;
        }
        let ghost start = self.next_id as int;
        // the place of the first task whose identifier is not below the one
        // that is tried
        let mut place: usize = 0;
        while place < self.tasks.len() && self.tasks[place].id.0 < self.next_id
            invariant
                place <= self.tasks@.len(),
                self.tasks@ == old(self).tasks@,
                self.next_id == start,
                forall|k: int| 0 <= k < place ==> (#[trigger] self.tasks@[k]).id.0 < self.next_id,
            decreases self.tasks@.len() - place,
        {
            place += 1;
        }
        while place < self.tasks.len() && self.tasks[place].id.0 == self.next_id
            invariant
                place <= self.tasks@.len(),
                self.tasks@ == old(self).tasks@,
                ascending(self.tasks@),
                start <= self.next_id <= usize::MAX,
                forall|k: int| 0 <= k < self.tasks@.len() ==> (#[trigger] self.tasks@[k]).id.0
                    <= MAX_TASKS,
                forall|k: int| 0 <= k < place ==> (#[trigger] self.tasks@[k]).id.0 < self.next_id,
                forall|other: int| start <= other < self.next_id ==> has_task(self.tasks@, other),
                place < self.tasks@.len() ==> self.tasks@[place as int].id.0 >= self.next_id,
            decreases self.tasks@.len() - place,
        {
            proof {
                assert(self.tasks@[place as int].id.0 == self.next_id);
                assert(has_task(self.tasks@, self.next_id as int));
                if place + 1 < self.tasks@.len() {
                    assert(self.tasks@[place as int].id.0 < self.tasks@[place + 1].id.0);
                }
            }
            self.next_id += 1;
            place += 1;
        }
        if self.next_id > MAX_TASKS {
            return Err(TaskError::TooManyTasks);
        }
        let id = TaskId(self.next_id);
        assert(!has_task(self.tasks@, id.0 as int)) by {
            if has_task(self.tasks@, id.0 as int) {
                let k = choose|k: int|
                    0 <= k < self.tasks@.len() && (#[trigger] self.tasks@[k]).id.0 == id.0;
                if k > place {
                    assert(self.tasks@[place as int].id.0 < self.tasks@[k].id.0);
                }
            }
        }
        self.next_id += 1;
        let mut tasks: Vec<Task> = Vec::new();
        core::mem::swap(&mut tasks, &mut self.tasks);
        tasks.insert(place, Task::new(id));
        proof {
            let before = old(self).tasks@;
            let after = tasks@;
            let made = Task { id, finished: false };
            assert(after[place as int] == made);
            assert forall|i: int, j: int| 0 <= i < j < after.len() implies after[i].id.0
                < after[j].id.0 by {
                if i < place && j > place {
                    assert(before[i].id.0 < before[j - 1].id.0);
                } else if i < place && j < place {
                    assert(before[i].id.0 < before[j].id.0);
                } else if i > place {
                    assert(before[i - 1].id.0 < before[j - 1].id.0);
                } else if i == place {
                    if j - 1 > place {
                        assert(before[place as int].id.0 < before[j - 1].id.0);
                    }
                }
            }
            assert forall|task: Task| after.contains(task) <==> before.contains(task) || task
                == made by {
                if after.contains(task) {
                    let k = choose|k: int| 0 <= k < after.len() && after[k] == task;
                    if k < place {
                        assert(before[k] == task);
                    } else if k > place {
                        assert(before[k - 1] == task);
                    }
                }
                if before.contains(task) {
                    let k = choose|k: int| 0 <= k < before.len() && before[k] == task;
                    if k < place {
                        assert(after[k] == task);
                    } else {
                        assert(after[k + 1] == task);
                    }
                }
            }
        }
        core::mem::swap(&mut tasks, &mut self.tasks);
        Ok(id)
    }

    /// Notes that the task with the identifier `id` has run to its end.
    /// Gives whether there is such a task.
    #[verifier::loop_isolation(false)]
    #[verifier::rlimit(30)]
    pub fn exit(&mut self, id: TaskId) -> (found: bool)
        ensures
            found == has_task(old(self).tasks(), id.0 as int),
            final(self).next_id() == old(self).next_id(),
            final(self).tasks().len() == old(self).tasks().len(),
            forall|i: int|
                0 <= i < old(self).tasks().len() ==> #[trigger] final(self).tasks()[i] == (
                if old(self).tasks()[i].id == id {
                    Task { id, finished: true }
                } else {
                    old(self).tasks()[i]
                }),
    {
        proof {
            use_type_invariant(&*self);
        }
        let mut i: usize = 0;
        while i < self.tasks.len()
            invariant
                i <= self.tasks@.len(),
                self.tasks@ == old(self).tasks@,
                self.next_id == old(self).next_id,
                ascending(self.tasks@),
                forall|k: int| 0 <= k < self.tasks@.len() ==> (#[trigger] self.tasks@[k]).id.0
                    <= MAX_TASKS,
                forall|k: int| 0 <= k < i ==> (#[trigger] self.tasks@[k]).id.0 != id.0,
            decreases self.tasks@.len() - i,
        {
            if self.tasks[i].id.0 == id.0 {
                let mut tasks: Vec<Task> = Vec::new();
                core::mem::swap(&mut tasks, &mut self.tasks);
                tasks[i] = Task { id, finished: true };
                assert forall|a: int, b: int| 0 <= a < b < tasks@.len() implies tasks@[a].id.0
                    < tasks@[b].id.0 by {
                    assert(old(self).tasks@[a].id.0 < old(self).tasks@[b].id.0);
                }
                core::mem::swap(&mut tasks, &mut self.tasks);
                assert forall|k: int| 0 <= k < old(self).tasks().len() implies #[trigger] self.tasks()[k]
                    == (if old(self).tasks()[k].id == id {
                    Task { id, finished: true }
                } else {
                    old(self).tasks()[k]
                }) by {
                    if k != i && old(self).tasks()[k].id == id {
                        if k < i {
                            assert(old(self).tasks()[k].id.0 < old(self).tasks()[i as int].id.0);
                        } else {
                            assert(old(self).tasks()[i as int].id.0 < old(self).tasks()[k].id.0);
                        }
                    }
                }
                return true;
            }
            i += 1;
        }
        false
    }
}

} // verus!
