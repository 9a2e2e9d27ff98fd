//! A small task list: numbered tasks with a title and a completion flag,
//! added under a growing id counter and addressed by id.

use vstd::prelude::*;

verus! {

/// One task: a fixed id, a title, and whether it has been completed.
pub struct Task {
    pub id: u32,
    pub title: String,
    pub completed: bool,
}

/// True when some task in `s` carries `id`.
pub open spec fn contains_task(s: Seq<Task>, id: u32) -> bool {
    exists|i: int| 0 <= i < s.len() && s[i].id == id
}

/// True when `k` is the position of the first task in `s` that carries `id`.
pub open spec fn is_first_match(s: Seq<Task>, id: u32, k: int) -> bool {
    &&& 0 <= k < s.len()
    &&& s[k].id == id
    &&& forall|j: int| 0 <= j < k ==> s[j].id != id
}

impl Task {
    /// A fresh, not yet completed task.
    pub fn new(id: u32, title: String) -> (t: Task)
        ensures
            t.id == id,
            t.title == title,
            !t.completed,
    {
        Task { id, title, completed: false }
    }

    /// Marks the task completed; id and title stay as they are.
    pub fn mark_completed(&mut self)
        ensures
            final(self).id == old(self).id,
            final(self).title == old(self).title,
            final(self).completed,
    {
        self.completed = true;
    }
}

/// The tasks in the order they were added, and the id the next added task
/// will get.
pub struct TaskList {
    pub tasks: Vec<Task>,
    pub next_task_id: u32,
}

impl TaskList {
    /// An empty list; ids are handed out from 1.
    pub fn new() -> (l: TaskList)
        ensures
            l.tasks@ == Seq::<Task>::empty(),
            l.next_task_id == 1,
    {
        TaskList { tasks: Vec::new(), next_task_id: 1 }
    }

    /// Appends a fresh task under the next free id and advances the counter.
    pub fn add_task(&mut self, title: String)
        requires
            old(self).next_task_id < u32::MAX,
        ensures
            final(self).tasks@ == old(self).tasks@.push(
                (Task { id: old(self).next_task_id, title: title, completed: false }),
            ),
            final(self).next_task_id == old(self).next_task_id + 1,
    {
        let task = Task::new(self.next_task_id, title);
        self.tasks.push(task);
        self.next_task_id = self.next_task_id + 1;
    }

    /// Removes the first task that carries `id`; a list without such a task
    /// is left as it is.
    pub fn remove_task(&mut self, id: u32)
        ensures
            final(self).next_task_id == old(self).next_task_id,
            !contains_task(old(self).tasks@, id) ==> final(self).tasks@ == old(self).tasks@,
            contains_task(old(self).tasks@, id) ==> exists|k: int|
                #[trigger] is_first_match(old(self).tasks@, id, k) && final(self).tasks@ == old(
                    self,
                ).tasks@.remove(k),
    {
        let n = self.tasks.len();
        let mut i: usize = 0;
        while i < n
            invariant
                *self == *old(self),
                n == self.tasks@.len(),
                i <= n,
                forall|j: int| 0 <= j < i ==> self.tasks@[j].id != id,
            decreases n - i,
        {
            if self.tasks[i].id == id {
                proof {
                    assert(is_first_match(old(self).tasks@, id, i as int));
                }
                self.tasks.remove(i);
                return ;
            }
            i = i + 1;
        }
    }

    /// The first task that carries `id`, where one exists.
    pub fn get_task(&self, id: u32) -> (r: Option<&Task>)
        ensures
            match r {
                Some(t) => exists|k: int|
                    #[trigger] is_first_match(self.tasks@, id, k) && *t == self.tasks@[k],
                None => !contains_task(self.tasks@, id),
            },
    {
        let n = self.tasks.len();
        let mut i: usize = 0;
        while i < n
            invariant
                n == self.tasks@.len(),
                i <= n,
                forall|j: int| 0 <= j < i ==> self.tasks@[j].id != id,
            decreases n - i,
        {
            if self.tasks[i].id == id {
                proof {
                    assert(is_first_match(self.tasks@, id, i as int));
                }
                return Some(&self.tasks[i]);
            }
            i = i + 1;
        }
        None
    }

    /// Marks the first task that carries `id` completed; reports whether one
    /// was there. Everything else is left in place.
    pub fn complete_task(&mut self, id: u32) -> (found: bool)
        ensures
            final(self).next_task_id == old(self).next_task_id,
            found == contains_task(old(self).tasks@, id),
            !found ==> final(self).tasks@ == old(self).tasks@,
            found ==> exists|k: int|
                #[trigger] is_first_match(old(self).tasks@, id, k) && final(self).tasks@ == old(
                    self,
                ).tasks@.update(
                    k,
                    (Task {
                        id: old(self).tasks@[k].id,
                        title: old(self).tasks@[k].title,
                        completed: true,
                    }),
                ),
    {
        let n = self.tasks.len();
        let mut i: usize = 0;
        while i < n
            invariant
                *self == *old(self),
                n == self.tasks@.len(),
                i <= n,
                forall|j: int| 0 <= j < i ==> self.tasks@[j].id != id,
            decreases n - i,
        {
            if self.tasks[i].id == id {
                proof {
                    assert(is_first_match(old(self).tasks@, id, i as int));
                }
                self.tasks[i].completed = true;
                return true;
            }
            i = i + 1;
        }
        false
    }

    /// All tasks, in the order they were added.
    pub fn list_tasks(&self) -> (r: &Vec<Task>)
        ensures
            r == &self.tasks,
    {
        &self.tasks
    }
}

} // verus!
