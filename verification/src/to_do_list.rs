//! A priority-ordered to-do list.  Tasks carry a description of at most 40
//! characters and a priority in 1..=5; the list keeps itself sorted by
//! ascending priority, ties preserving insertion order.

use crate::tasks::{
    completed, inserted, keep_undone, lemma_filter_push_undone, lemma_insert_index_unique,
    lemma_inserted_preserves_wf, lemma_marked_first_marks_first, lemma_marked_first_preserves_wf,
    lemma_marked_first_unchanged,
    lemma_merged_preserves_wf, lemma_merged_push, lemma_pruned_preserves_wf, list_wf, marked_first,
    merge_step, merged, undone_match, TaskModel,
};
use vstd::prelude::*;
use vstd::string::{StrSliceExecFns, StringExecFns};

verus! {

/// A stored task.
struct Task {
    description: String,
    priority: u8,
    done: bool,
}

impl View for Task {
    type V = TaskModel;

    closed spec fn view(&self) -> TaskModel {
        TaskModel { description: self.description@, priority: self.priority, done: self.done }
    }
}

/// The spec-level contents of a task vector.
spec fn tasks_view(v: Seq<Task>) -> Seq<TaskModel> {
    v.map_values(|t: Task| t@)
}

proof fn lemma_tasks_view_insert(v: Seq<Task>, i: int, t: Task)
    requires
        0 <= i <= v.len(),
    ensures
        tasks_view(v.insert(i, t)) =~= tasks_view(v).insert(i, t@),
{
    assert forall|k: int| 0 <= k < v.len() + 1 implies tasks_view(v.insert(i, t))[k] == tasks_view(
        v,
    ).insert(i, t@)[k] by {
        if k < i {
        } else if k == i {
        } else {
        }
    }
}

proof fn lemma_tasks_view_update(v: Seq<Task>, i: int, t: Task)
    requires
        0 <= i < v.len(),
    ensures
        tasks_view(v.update(i, t)) =~= tasks_view(v).update(i, t@),
{
}

proof fn lemma_tasks_view_remove(v: Seq<Task>, i: int)
    requires
        0 <= i < v.len(),
    ensures
        tasks_view(v.remove(i)) =~= tasks_view(v).remove(i),
{
    assert forall|k: int| 0 <= k < v.len() - 1 implies tasks_view(v.remove(i))[k] == tasks_view(
        v,
    ).remove(i)[k] by {
        if k < i {
        } else {
        }
    }
}

/// The priority-ordered task list.
pub struct ToDoList {
    tasks: Vec<Task>,
}

impl View for ToDoList {
    type V = Seq<TaskModel>;

    closed spec fn view(&self) -> Seq<TaskModel> {
        tasks_view(self.tasks@)
    }
}

impl ToDoList {
    /// Creates a new, empty list.
    pub fn new() -> (r: Self)
        ensures
            r@ == Seq::<TaskModel>::empty(),
            list_wf(r@),
    {
        let r = ToDoList { tasks: Vec::new() };
        proof {
            assert(r@ =~= Seq::<TaskModel>::empty());
        }
        r
    }

    /// Adds a task.  A description longer than 40 characters or a priority
    /// outside 1..=5 is rejected and leaves the list unchanged; otherwise
    /// the task starts undone and is inserted just before the first task of
    /// strictly greater priority, so the list stays sorted and equal
    /// priorities keep their insertion order.
    pub fn add_task(&mut self, description: &str, priority: u8) -> (r: Result<(), &'static str>)
        ensures
            description@.len() > 40 ==> final(self)@ == old(self)@ && (r matches Err(m) && m@
                == "Description is too long"@),
            description@.len() <= 40 && !(1 <= priority <= 5) ==> final(self)@ == old(self)@ && (
            r matches Err(m) && m@ == "Priority must be between 1 and 5"@),
            description@.len() <= 40 && 1 <= priority <= 5 ==> r is Ok && final(self)@ == inserted(
                old(self)@,
                description@,
                priority,
            ),
            list_wf(old(self)@) ==> list_wf(final(self)@),
    {
        if description.unicode_len() > 40 {
            return Err("Description is too long");
        }
        if priority < 1 || priority > 5 {
            return Err("Priority must be between 1 and 5");
        }
        let entry = Task { description: String::from_str(description), priority, done: false };
        let ghost old_list = self@;
        let ghost entry_model = entry@;
        let mut index: usize = 0;
        while index < self.tasks.len() && self.tasks[index].priority <= priority
            invariant
                0 <= index <= self.tasks.len(),
                forall|k: int| 0 <= k < index ==> #[trigger] old_list[k].priority <= priority,
                self@ == old_list,
                self.tasks@.len() == old_list.len(),
            decreases self.tasks.len() - index,
        {
            assert(old_list[index as int] == self.tasks@[index as int]@);
            index = index + 1;
        }
        proof {
            if index < self.tasks.len() {
                assert(old_list[index as int] == self.tasks@[index as int]@);
            }
            lemma_insert_index_unique(old_list, priority, index as int);
        }
        let ghost tasks_before = self.tasks@;
        self.tasks.insert(index, entry);
        proof {
            assert(self@ == inserted(old_list, description@, priority)) by {
                assert(self.tasks@ == tasks_before.insert(index as int, self.tasks@[index as int]));
                lemma_tasks_view_insert(
                    tasks_before,
                    index as int,
                    self.tasks@[index as int],
                );
                assert(self.tasks@[index as int]@ == entry_model);
                assert(entry_model == crate::tasks::new_task(description@, priority));
            }
            if list_wf(old_list) {
                lemma_inserted_preserves_wf(old_list, description@, priority);
            }
        }
        Ok(())
    }

    /// The display lines of the list, one per task and in list order: a
    /// completion marker, the priority, and the description.
    pub fn render(&self) -> (r: Vec<String>)
        requires
            list_wf(self@),
        ensures
            r@.len() == self@.len(),
            forall|i: int| 0 <= i < self@.len() ==> #[trigger] r@[i]@ == rendered_line(self@[i]),
    {
        let mut lines: Vec<String> = Vec::new();
        let mut i: usize = 0;
        while i < self.tasks.len()
            invariant
                list_wf(self@),
                0 <= i <= self.tasks.len(),
                self@.len() == self.tasks@.len(),
                lines@.len() == i,
                forall|k: int| 0 <= k < i ==> #[trigger] lines@[k]@ == rendered_line(self@[k]),
            decreases self.tasks.len() - i,
    {
            assert(self@[i as int] == self.tasks@[i as int]@);
            let task = &self.tasks[i];
            let mut line = String::from_str(
                if task.done {
                    "[X] "
                } else {
                    "[ ] "
                },
            );
            line.append(priority_label(task.priority));
            line.append(" - ");
            line.append(task.description.as_str());
            lines.push(line);
            i = i + 1;
        }
        lines
    }

    /// Merges another list into this one.  Every task of the other list is
    /// re-inserted with its own description and priority, always starting
    /// undone; entries the validation would reject are silently skipped, so
    /// merging never fails, whatever the source holds.
    pub fn merge(&mut self, other: &ToDoList)
        ensures
            final(self)@ == merged(old(self)@, other@),
            list_wf(old(self)@) ==> list_wf(final(self)@),
    {
        let ghost old_list = old(self)@;
        let mut j: usize = 0;
        while j < other.tasks.len()
            invariant
                0 <= j <= other.tasks.len(),
                other@.len() == other.tasks@.len(),
                self@ == merged(old_list, other@.subrange(0, j as int)),
                list_wf(old_list) ==> list_wf(self@),
            decreases other.tasks.len() - j,
        {
            assert(other@[j as int] == other.tasks@[j as int]@);
            let source = &other.tasks[j];
            let ghost before = self@;
            let _ = self.add_task(source.description.as_str(), source.priority);
            proof {
                assert(self@ == merge_step(before, other@[j as int]));
                assert(other@.subrange(0, j + 1) =~= other@.subrange(0, j as int).push(
                    other@[j as int],
                ));
                lemma_merged_push(old_list, other@.subrange(0, j as int), other@[j as int]);
            }
            j = j + 1;
        }
        proof {
            assert(other@.subrange(0, other@.len() as int) =~= other@);
            if list_wf(old_list) {
                lemma_merged_preserves_wf(old_list, other@);
            }
        }
    }

    /// Marks the first undone task with the given description as done; a
    /// list without such a task is left unchanged.  Later duplicates are
    /// not affected.
    pub fn mark_done(&mut self, description: &str)
        ensures
            final(self)@ == marked_first(old(self)@, description@),
            list_wf(old(self)@) ==> list_wf(final(self)@),
    {
        let ghost old_list = old(self)@;
        let wanted = String::from_str(description);
        let mut i: usize = 0;
        while i < self.tasks.len() && !(self.tasks[i].description == wanted && !self.tasks[i].done)
            invariant
                0 <= i <= self.tasks.len(),
                self@ == old_list,
                self.tasks@.len() == old_list.len(),
                wanted@ == description@,
                forall|k: int| 0 <= k < i ==> !undone_match(#[trigger] old_list[k], description@),
            decreases self.tasks.len() - i,
        {
            assert(old_list[i as int] == self.tasks@[i as int]@);
            i = i + 1;
        }
        if i < self.tasks.len() {
            assert(old_list[i as int] == self.tasks@[i as int]@);
            assert(undone_match(old_list[i as int], description@));
            let ghost tasks_before = self.tasks@;
            let mut task = self.tasks.remove(i);
            task.done = true;
            let ghost done_task = task@;
            self.tasks.insert(i, task);
            proof {
                assert(done_task == completed(old_list[i as int]));
                assert(self.tasks@ =~= tasks_before.update(i as int, self.tasks@[i as int]));
                lemma_tasks_view_update(tasks_before, i as int, self.tasks@[i as int]);
                assert(self@ == old_list.update(i as int, completed(old_list[i as int])));
                lemma_marked_first_marks_first(old_list, description@, i as int);
            }
        } else {
            proof {
                lemma_marked_first_unchanged(old_list, description@);
            }
        }
        proof {
            if list_wf(old_list) {
                lemma_marked_first_preserves_wf(old_list, description@);
            }
        }
    }

    /// Removes every task that is marked done, preserving the relative
    /// order of the remaining tasks.
    pub fn remove_done(&mut self)
        ensures
            final(self)@ == old(self)@.filter(keep_undone()),
            list_wf(old(self)@) ==> list_wf(final(self)@),
    {
        let ghost old_list = old(self)@;
        let mut i: usize = 0;
        let ghost mut j: int = 0;
        while i < self.tasks.len()
            invariant
                0 <= i <= self.tasks.len(),
                0 <= j <= old_list.len(),
                self@ =~= old_list.subrange(0, j).filter(keep_undone()) + old_list.subrange(
                    j,
                    old_list.len() as int,
                ),
                self@.len() == self.tasks@.len(),
                i as int == old_list.subrange(0, j).filter(keep_undone()).len(),
            decreases self.tasks.len() - i,
        {
            proof {
                assert(old_list.subrange(0, j + 1) =~= old_list.subrange(0, j).push(old_list[j]));
                lemma_filter_push_undone(old_list.subrange(0, j), old_list[j]);
            }
            assert(self@[i as int] == self.tasks@[i as int]@);
            assert(self@[i as int] == old_list[j]);
            if self.tasks[i].done {
                let ghost tasks_before = self.tasks@;
                self.tasks.remove(i);
                proof {
                    lemma_tasks_view_remove(tasks_before, i as int);
                    assert(self@ =~= old_list.subrange(0, j + 1).filter(keep_undone())
                        + old_list.subrange(j + 1, old_list.len() as int));
                    j = j + 1;
                }
            } else {
                proof {
                    assert(self@ =~= old_list.subrange(0, j + 1).filter(keep_undone())
                        + old_list.subrange(j + 1, old_list.len() as int));
                    j = j + 1;
                }
                i = i + 1;
            }
        }
        proof {
            assert(j == old_list.len());
            assert(old_list.subrange(0, old_list.len() as int) =~= old_list);
            assert(self@ =~= old_list.filter(keep_undone()));
            if list_wf(old_list) {
                lemma_pruned_preserves_wf(old_list);
            }
        }
    }
}

/// The display line of one task: `[X]` or `[ ]`, the priority, a dash, and
/// the description.
pub open spec fn rendered_line(t: TaskModel) -> Seq<char> {
    (if t.done {
        "[X] "@
    } else {
        "[ ] "@
    }) + priority_digit(t.priority) + " - "@ + t.description
}

/// The single digit for a priority in 1..=5; greater priorities, which the
/// list invariant rules out, share the label of 5.
pub open spec fn priority_digit(p: u8) -> Seq<char> {
    if p == 1 {
        "1"@
    } else if p == 2 {
        "2"@
    } else if p == 3 {
        "3"@
    } else if p == 4 {
        "4"@
    } else {
        "5"@
    }
}

fn priority_label(p: u8) -> (r: &'static str)
    ensures
        r@ == priority_digit(p),
{
    if p == 1 {
        "1"
    } else if p == 2 {
        "2"
    } else if p == 3 {
        "3"
    } else if p == 4 {
        "4"
    } else {
        "5"
    }
}

} // verus!
