//! Tasks and the store that owns them.
//!
//! A store is modelled by the sequence of its tasks in display order; a
//! task's identity is its position in that sequence.

use crate::text::{is_blank, text_is_blank};
use vstd::prelude::*;

verus! {

/// Why the store refused an operation.
#[derive(Clone, Copy, Debug, PartialEq, Eq, Structural)]
pub enum StoreError {
    /// The name offered for a new task was empty or held only white space.
    InvalidInput,
    /// The position named no task of the store.
    IndexOutOfRange,
}

/// What a task is, mathematically: a label and a completion flag.
pub struct TaskView {
    pub name: Seq<char>,
    pub completed: bool,
}

/// One entry of the list. Its name is fixed when it is made.
#[derive(Debug, PartialEq, Eq)]
pub struct Task {
    name: String,
    completed: bool,
}

impl View for Task {
    type V = TaskView;

    closed spec fn view(&self) -> TaskView {
        TaskView { name: self.name@, completed: self.completed }
    }
}

impl Clone for Task {
    fn clone(&self) -> (r: Task)
        ensures
            r@ == self@,
    {
        Task { name: self.name.clone(), completed: self.completed }
    }
}

impl Task {
    /// A task that is not yet completed, or nothing where the name is
    /// blank.
    pub fn new(name: String) -> (r: Option<Task>)
        ensures
            r is Some <==> !is_blank(name@),
            r matches Some(t) ==> t@ == open_task(name@),
    {
        Task::restore(name, false)
    }

    /// A task with the flag given, or nothing where the name is blank.
    pub fn restore(name: String, completed: bool) -> (r: Option<Task>)
        ensures
            r is Some <==> !is_blank(name@),
            r matches Some(t) ==> t@ == (TaskView { name: name@, completed }),
    {
        if text_is_blank(name.as_str()) {
            None
        } else {
            Some(Task { name, completed })
        }
    }

    /// The task's label.
    pub fn name(&self) -> (s: &str)
        ensures
            s@ == self@.name,
    {
        self.name.as_str()
    }

    /// Whether the task is done.
    pub fn completed(&self) -> (b: bool)
        ensures
            b == self@.completed,
    {
        self.completed
    }
}

/// The task that is made for a new name: not completed.
pub open spec fn open_task(name: Seq<char>) -> TaskView {
    TaskView { name, completed: false }
}

/// The same task with its completion flag flipped.
pub open spec fn flipped(t: TaskView) -> TaskView {
    TaskView { name: t.name, completed: !t.completed }
}

/// The list after the task at `index` has been toggled.
pub open spec fn toggled(tasks: Seq<TaskView>, index: int) -> Seq<TaskView>
    recommends
        0 <= index < tasks.len(),
{
    tasks.update(index, flipped(tasks[index]))
}

/// Every task of the list has a name that is not blank.
pub open spec fn names_valid(tasks: Seq<TaskView>) -> bool {
    forall|i: int| 0 <= i < tasks.len() ==> !is_blank(#[trigger] tasks[i].name)
}

/// The views of a sequence of tasks, position by position.
pub open spec fn views_of(tasks: Seq<Task>) -> Seq<TaskView> {
    Seq::new(tasks.len(), |i: int| tasks[i]@)
}

/// The ordered collection of all current tasks, and the only way to
/// change it. No task of a store has a blank name.
#[derive(Debug, PartialEq, Eq)]
pub struct TaskStore {
    tasks: Vec<Task>,
}

impl View for TaskStore {
    type V = Seq<TaskView>;

    closed spec fn view(&self) -> Seq<TaskView> {
        views_of(self.tasks@)
    }
}

impl Clone for TaskStore {
    fn clone(&self) -> (r: TaskStore)
        ensures
            r@ == self@,
    {
        proof {
            use_type_invariant(self);
        }
        let mut tasks: Vec<Task> = Vec::new();
        let mut i: usize = 0;
        while i < self.tasks.len()
            invariant
                i <= self.tasks.len(),
                views_of(tasks@) == views_of(self.tasks@).take(i as int),
            decreases self.tasks.len() - i,
        {
            let ghost before = views_of(tasks@);
            let copy = self.tasks[i].clone();
            tasks.push(copy);
            assert(views_of(tasks@) =~= before.push(self.tasks@[i as int]@));
            i = i + 1;
        }
        assert(views_of(self.tasks@).take(i as int) =~= views_of(self.tasks@));
        TaskStore { tasks }
    }
}

impl TaskStore {
    #[verifier::type_invariant]
    spec fn names_are_valid(&self) -> bool {
        names_valid(views_of(self.tasks@))
    }

    /// A store without tasks.
    pub fn new() -> (s: TaskStore)
        ensures
            s@ == Seq::<TaskView>::empty(),
    {
        TaskStore { tasks: Vec::new() }
    }

    /// A store that holds the tasks given, in their order.
    pub(crate) fn from_tasks(tasks: Vec<Task>) -> (s: TaskStore)
        requires
            names_valid(views_of(tasks@)),
        ensures
            s@ == views_of(tasks@),
    {
        TaskStore { tasks }
    }

    /// Hands the tasks out to be changed; the store holds none until
    /// they are put back.
    fn take_tasks(&mut self) -> (tasks: Vec<Task>)
        ensures
            views_of(tasks@) == old(self)@,
            names_valid(old(self)@),
    {
        proof {
            use_type_invariant(&*self);
        }
        let mut tasks: Vec<Task> = Vec::new();
        std::mem::swap(&mut self.tasks, &mut tasks);
        tasks
    }

    /// Appends a task named `name`, not completed, and returns its
    /// position. A blank name is refused and the store stays as it was.
    /// The name is stored as given, without trimming.
    pub fn add(&mut self, name: String) -> (r: Result<usize, StoreError>)
        ensures
            names_valid(final(self)@),
            is_blank(name@) ==> r == Err::<usize, StoreError>(StoreError::InvalidInput)
                && final(self)@ == old(self)@,
            !is_blank(name@) ==> r == Ok::<usize, StoreError>(old(self)@.len() as usize)
                && final(self)@ == old(self)@.push(open_task(name@)),
    {
        proof {
            use_type_invariant(&*self);
        }
        match Task::new(name) {
            None => Err(StoreError::InvalidInput),
            Some(task) => {
                let mut tasks = self.take_tasks();
                let index = tasks.len();
                tasks.push(task);
                assert(views_of(tasks@) =~= old(self)@.push(open_task(name@)));
                self.tasks = tasks;
                Ok(index)
            },
        }
    }

    /// Flips the completion flag of the task at `index`. A position
    /// outside the list is refused and the store stays as it was.
    pub fn toggle_complete(&mut self, index: usize) -> (r: Result<(), StoreError>)
        ensures
            names_valid(final(self)@),
            index < old(self)@.len() ==> r == Ok::<(), StoreError>(())
                && final(self)@ == toggled(old(self)@, index as int),
            index >= old(self)@.len() ==> r == Err::<(), StoreError>(StoreError::IndexOutOfRange)
                && final(self)@ == old(self)@,
    {
        proof {
            use_type_invariant(&*self);
        }
        if index >= self.tasks.len() {
            return Err(StoreError::IndexOutOfRange);
        }
        let mut tasks = self.take_tasks();
        let flag = tasks[index].completed;
        tasks[index].completed = !flag;
        assert(views_of(tasks@) =~= toggled(old(self)@, index as int));
        self.tasks = tasks;
        Ok(())
    }

    /// Deletes the task at `index`; the tasks behind it move one position
    /// forward. A position outside the list is refused and the store
    /// stays as it was.
    pub fn remove(&mut self, index: usize) -> (r: Result<(), StoreError>)
        ensures
            names_valid(final(self)@),
            index < old(self)@.len() ==> r == Ok::<(), StoreError>(())
                && final(self)@ == old(self)@.remove(index as int),
            index >= old(self)@.len() ==> r == Err::<(), StoreError>(StoreError::IndexOutOfRange)
                && final(self)@ == old(self)@,
    {
        proof {
            use_type_invariant(&*self);
        }
        if index >= self.tasks.len() {
            return Err(StoreError::IndexOutOfRange);
        }
        let mut tasks = self.take_tasks();
        let _ = tasks.remove(index);
        assert(views_of(tasks@) =~= old(self)@.remove(index as int));
        self.tasks = tasks;
        Ok(())
    }

    /// The tasks in display order, to read.
    pub fn list(&self) -> (tasks: &Vec<Task>)
        ensures
            views_of(tasks@) == self@,
            names_valid(self@),
    {
        proof {
            use_type_invariant(self);
        }
        &self.tasks
    }

    /// How many tasks the store holds.
    pub fn len(&self) -> (n: usize)
        ensures
            n == self@.len(),
    {
        self.tasks.len()
    }
}

/// Adding a task lengthens the list by exactly one: the earlier tasks
/// stay where they were, and the new one stands last, with the name
/// given and not completed.
pub proof fn add_appends_one_open_task(tasks: Seq<TaskView>, name: Seq<char>)
    ensures
        tasks.push(open_task(name)).len() == tasks.len() + 1,
        tasks.push(open_task(name)).last().name == name,
        !tasks.push(open_task(name)).last().completed,
        forall|j: int| 0 <= j < tasks.len() ==> tasks.push(open_task(name))[j] == tasks[j],
{
}

/// Toggling a task changes its flag and nothing else, so one toggle
/// never leaves the list as it was.
pub proof fn toggle_flips_one_flag(tasks: Seq<TaskView>, index: int)
    requires
        0 <= index < tasks.len(),
    ensures
        toggled(tasks, index).len() == tasks.len(),
        toggled(tasks, index)[index].completed == !tasks[index].completed,
        toggled(tasks, index)[index].name == tasks[index].name,
        forall|j: int| 0 <= j < tasks.len() && j != index ==> toggled(tasks, index)[j] == tasks[j],
        toggled(tasks, index) != tasks,
{
}

/// Toggling the same task twice restores the list.
pub proof fn toggle_twice_restores(tasks: Seq<TaskView>, index: int)
    requires
        0 <= index < tasks.len(),
    ensures
        toggled(toggled(tasks, index), index) == tasks,
{
    assert(toggled(toggled(tasks, index), index) =~= tasks);
}

/// Removing a task shortens the list by exactly one: the tasks before
/// it stay where they were, and each task behind it moves one position
/// forward.
pub proof fn remove_shifts_followers(tasks: Seq<TaskView>, index: int)
    requires
        0 <= index < tasks.len(),
    ensures
        tasks.remove(index).len() == tasks.len() - 1,
        forall|j: int| 0 <= j < index ==> tasks.remove(index)[j] == tasks[j],
        forall|j: int| index <= j < tasks.len() - 1 ==> tasks.remove(index)[j] == tasks[j + 1],
{
}

/// Every operation keeps the names of the list valid.
pub proof fn operations_keep_names_valid(tasks: Seq<TaskView>, name: Seq<char>, index: int)
    requires
        names_valid(tasks),
    ensures
        !is_blank(name) ==> names_valid(tasks.push(open_task(name))),
        0 <= index < tasks.len() ==> names_valid(toggled(tasks, index)),
        0 <= index < tasks.len() ==> names_valid(tasks.remove(index)),
{
}

} // verus!
