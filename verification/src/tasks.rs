//! The mathematical model shared by the two to-do list implementations:
//! tasks as description/priority/done triples, the ordering invariant, and
//! the structural laws of inserting, marking and pruning.

use vstd::prelude::*;

verus! {

/// The model of a stored task: its description as a sequence of characters,
/// its priority, and its completion flag.
#[verifier::ext_equal]
pub ghost struct TaskModel {
    pub description: Seq<char>,
    pub priority: u8,
    pub done: bool,
}

/// A task is valid when its priority lies in 1..=5 and its description has
/// at most 40 characters.
pub open spec fn task_valid(t: TaskModel) -> bool {
    &&& 1 <= t.priority <= 5
    &&& t.description.len() <= 40
}

/// A freshly inserted task: never done.
pub open spec fn new_task(description: Seq<char>, priority: u8) -> TaskModel {
    TaskModel { description, priority, done: false }
}

/// The list is sorted by ascending priority.
pub open spec fn sorted_by_priority(s: Seq<TaskModel>) -> bool {
    forall|i: int, j: int| 0 <= i < j < s.len() ==> s[i].priority <= s[j].priority
}

/// The invariant of a to-do list: every stored task is valid and the list
/// is sorted by ascending priority.
pub open spec fn list_wf(s: Seq<TaskModel>) -> bool {
    &&& sorted_by_priority(s)
    &&& forall|i: int| 0 <= i < s.len() ==> task_valid(#[trigger] s[i])
}

/// The position where a task of the given priority is inserted: just before
/// the first stored task whose priority is strictly greater, or at the end.
/// Equal priorities therefore keep their insertion order.
pub open spec fn insert_index(s: Seq<TaskModel>, priority: u8) -> int
    decreases s.len(),
{
    if s.len() == 0 {
        0
    } else if s[0].priority > priority {
        0
    } else {
        1 + insert_index(s.drop_first(), priority)
    }
}

/// The list after a successful insertion.
pub open spec fn inserted(s: Seq<TaskModel>, description: Seq<char>, priority: u8) -> Seq<
    TaskModel,
> {
    s.insert(insert_index(s, priority), new_task(description, priority))
}

/// The insertion point is the first position whose task has a strictly
/// greater priority.
pub proof fn lemma_insert_index_props(s: Seq<TaskModel>, priority: u8)
    ensures
        0 <= insert_index(s, priority) <= s.len(),
        forall|i: int| 0 <= i < insert_index(s, priority) ==> #[trigger] s[i].priority <= priority,
        insert_index(s, priority) < s.len() ==> s[insert_index(s, priority)].priority > priority,
    decreases s.len(),
{
    if s.len() > 0 && s[0].priority <= priority {
        lemma_insert_index_props(s.drop_first(), priority);
        assert forall|i: int| 0 <= i < insert_index(s, priority) implies #[trigger] s[i].priority
            <= priority by {
            if i > 0 {
                assert(s.drop_first()[i - 1] == s[i]);
            }
        }
    }
}

/// The insertion point is the only position with its characteristics, so an
/// executable search that finds such a position has found it.
pub proof fn lemma_insert_index_unique(s: Seq<TaskModel>, priority: u8, k: int)
    requires
        0 <= k <= s.len(),
        forall|i: int| 0 <= i < k ==> #[trigger] s[i].priority <= priority,
        k < s.len() ==> s[k].priority > priority,
    ensures
        k == insert_index(s, priority),
    decreases s.len(),
{
    if s.len() > 0 && s[0].priority <= priority {
        lemma_insert_index_unique(s.drop_first(), priority, k - 1);
    }
}

/// Law: a valid insertion keeps the list sorted by priority and keeps every
/// stored task valid, so the list invariant survives every successful
/// insert.
pub proof fn lemma_inserted_preserves_wf(s: Seq<TaskModel>, description: Seq<char>, priority: u8)
    requires
        list_wf(s),
        1 <= priority <= 5,
        description.len() <= 40,
    ensures
        list_wf(inserted(s, description, priority)),
        inserted(s, description, priority).len() == s.len() + 1,
{
    lemma_insert_index_props(s, priority);
    let k = insert_index(s, priority);
    let t = inserted(s, description, priority);
    assert forall|i: int, j: int| 0 <= i < j < t.len() implies t[i].priority <= t[j].priority by {
        if i < k && j > k {
            assert(t[i] == s[i] && t[j] == s[j - 1]);
        }
    }
}

/// Whether a stored task is an undone match for the given description.
pub open spec fn undone_match(t: TaskModel, description: Seq<char>) -> bool {
    t.description == description && !t.done
}

/// The same task with its completion flag set.
pub open spec fn completed(t: TaskModel) -> TaskModel {
    TaskModel { done: true, ..t }
}

/// The list after marking the first undone task with the given description
/// as done; the list is unchanged when there is no such task.
pub open spec fn marked_first(s: Seq<TaskModel>, description: Seq<char>) -> Seq<TaskModel>
    decreases s.len(),
{
    if s.len() == 0 {
        s
    } else if undone_match(s[0], description) {
        s.update(0, completed(s[0]))
    } else {
        seq![s[0]] + marked_first(s.drop_first(), description)
    }
}

/// Law, first half: when no undone task matches, marking changes nothing.
pub proof fn lemma_marked_first_unchanged(s: Seq<TaskModel>, description: Seq<char>)
    requires
        forall|i: int| 0 <= i < s.len() ==> !undone_match(#[trigger] s[i], description),
    ensures
        marked_first(s, description) == s,
    decreases s.len(),
{
    if s.len() == 0 {
        assert(marked_first(s, description) =~= s);
    } else {
        let r = s.drop_first();
        assert forall|i: int| 0 <= i < r.len() implies !undone_match(
            #[trigger] r[i],
            description,
        ) by {
            assert(r[i] == s[i + 1]);
        }
        lemma_marked_first_unchanged(r, description);
        assert(marked_first(s, description) =~= s);
    }
}

/// Law, second half: one application of marking changes at most one task.
/// When the first undone match sits at position `k`, exactly that task
/// flips to done and every other task keeps its value.
pub proof fn lemma_marked_first_marks_first(s: Seq<TaskModel>, description: Seq<char>, k: int)
    requires
        0 <= k < s.len(),
        undone_match(s[k], description),
        forall|i: int| 0 <= i < k ==> !undone_match(#[trigger] s[i], description),
    ensures
        marked_first(s, description) == s.update(k, completed(s[k])),
    decreases s.len(),
{
    if k == 0 {
    } else {
        let r = s.drop_first();
        assert(r[k - 1] == s[k]);
        assert forall|i: int| 0 <= i < k - 1 implies !undone_match(
            #[trigger] r[i],
            description,
        ) by {
            assert(r[i] == s[i + 1]);
        }
        lemma_marked_first_marks_first(r, description, k - 1);
        assert(marked_first(s, description) =~= s.update(k, completed(s[k])));
    }
}

/// Marking keeps every description and priority, and never unmarks a task.
pub proof fn lemma_marked_first_shape(s: Seq<TaskModel>, description: Seq<char>)
    ensures
        marked_first(s, description).len() == s.len(),
        forall|i: int|
            0 <= i < s.len() ==> (#[trigger] marked_first(s, description)[i]).description
                == s[i].description && marked_first(s, description)[i].priority == s[i].priority,
        forall|i: int|
            0 <= i < s.len() ==> (s[i].done ==> (#[trigger] marked_first(s, description)[i]).done),
    decreases s.len(),
{
    if s.len() > 0 && !undone_match(s[0], description) {
        lemma_marked_first_shape(s.drop_first(), description);
        assert(forall|i: int|
            1 <= i < s.len() ==> marked_first(s, description)[i] == marked_first(
                s.drop_first(),
                description,
            )[i - 1] && s.drop_first()[i - 1] == s[i]);
    }
}

/// Law: marking preserves the list invariant.
pub proof fn lemma_marked_first_preserves_wf(s: Seq<TaskModel>, description: Seq<char>)
    requires
        list_wf(s),
    ensures
        list_wf(marked_first(s, description)),
{
    lemma_marked_first_shape(s, description);
}

/// Law: marking a description twice marks at most one task when the list
/// holds at most one undone task with that description: the second
/// application finds no undone match and changes nothing.
pub proof fn lemma_marked_first_twice(s: Seq<TaskModel>, description: Seq<char>)
    requires
        forall|i: int, j: int|
            0 <= i < j < s.len() && undone_match(#[trigger] s[i], description) ==> !undone_match(
                #[trigger] s[j],
                description,
            ),
    ensures
        marked_first(marked_first(s, description), description) == marked_first(s, description),
    decreases s.len(),
{
    if s.len() == 0 {
    } else if undone_match(s[0], description) {
        let m = s.update(0, completed(s[0]));
        assert(marked_first(s, description) == m);
        assert forall|i: int| 0 <= i < m.len() implies !undone_match(
            #[trigger] m[i],
            description,
        ) by {
            if i > 0 {
                assert(m[i] == s[i]);
                assert(undone_match(s[0], description));
            }
        }
        lemma_marked_first_unchanged(m, description);
    } else {
        let r = s.drop_first();
        assert forall|i: int, j: int|
            0 <= i < j < r.len() && undone_match(#[trigger] r[i], description) implies
            !undone_match(#[trigger] r[j], description) by {
            assert(r[i] == s[i + 1] && r[j] == s[j + 1]);
        }
        lemma_marked_first_twice(r, description);
        let once = seq![s[0]] + marked_first(r, description);
        assert(marked_first(s, description) == once);
        assert(once.len() > 0 && once[0] == s[0]);
        assert(once.drop_first() =~= marked_first(r, description));
        assert(marked_first(once, description) == seq![once[0]] + marked_first(
            once.drop_first(),
            description,
        ));
    }
}

/// The predicate that `remove_done` keeps: the task is not done.
pub open spec fn keep_undone() -> spec_fn(TaskModel) -> bool {
    |t: TaskModel| !t.done
}

/// Extending a list by one task extends its pruned form exactly when the
/// task is undone.
pub proof fn lemma_filter_push_undone(s: Seq<TaskModel>, t: TaskModel)
    ensures
        !t.done ==> s.push(t).filter(keep_undone()) =~= s.filter(keep_undone()).push(t),
        t.done ==> s.push(t).filter(keep_undone()) =~= s.filter(keep_undone()),
{
    reveal_with_fuel(Seq::filter, 2);
    assert(s.push(t).drop_last() =~= s);
    assert(s.push(t).last() == t);
    assert(keep_undone()(t) == !t.done);
}

/// Every survivor of pruning was a task of the original list.
pub proof fn lemma_filter_membership(s: Seq<TaskModel>, i: int)
    requires
        0 <= i < s.filter(keep_undone()).len(),
    ensures
        s.contains(s.filter(keep_undone())[i]),
    decreases s.len(),
{
    broadcast use vstd::seq_lib::group_filter_ensures;

    let rest = s.drop_last();
    assert(s.len() > 0);
    assert(rest.push(s.last()) =~= s);
    lemma_filter_push_undone(rest, s.last());
    let f = rest.filter(keep_undone());
    if !s.last().done {
        if i < f.len() {
            lemma_filter_membership(rest, i);
            let w = choose|w: int| 0 <= w < rest.len() && rest[w] == f[i];
            assert(s[w] == rest[w]);
        } else {
            assert(s.filter(keep_undone())[i] == s.last());
            assert(s[s.len() - 1] == s.last());
        }
    } else {
        lemma_filter_membership(rest, i);
        let w = choose|w: int| 0 <= w < rest.len() && rest[w] == f[i];
        assert(s[w] == rest[w]);
    }
}

/// Law: pruning removes exactly the done tasks.  The survivors are the
/// undone tasks in their original order, so pruning also preserves the
/// list invariant.
pub proof fn lemma_pruned_preserves_wf(s: Seq<TaskModel>)
    requires
        list_wf(s),
    ensures
        list_wf(s.filter(keep_undone())),
    decreases s.len(),
{
    broadcast use vstd::seq_lib::group_filter_ensures;

    if s.len() > 0 {
        let rest = s.drop_last();
        assert(list_wf(rest)) by {
            assert(forall|i: int| 0 <= i < rest.len() ==> rest[i] == s[i]);
        }
        lemma_pruned_preserves_wf(rest);
        assert(rest.push(s.last()) =~= s);
        lemma_filter_push_undone(rest, s.last());
        let f = rest.filter(keep_undone());
        assert forall|i: int| 0 <= i < f.len() implies task_valid(#[trigger] f[i]) by {
            lemma_filter_membership(rest, i);
            let w = choose|w: int| 0 <= w < rest.len() && rest[w] == f[i];
            assert(rest[w] == s[w]);
        }
        if !s.last().done {
            let g = f.push(s.last());
            assert(s.filter(keep_undone()) == g);
            assert forall|i: int, j: int| 0 <= i < j < g.len() implies g[i].priority
                <= g[j].priority by {
                if j < f.len() {
                } else if i < f.len() {
                    lemma_filter_membership(rest, i);
                    let w = choose|w: int| 0 <= w < rest.len() && rest[w] == f[i];
                    assert(rest[w] == s[w]);
                    assert(s[w].priority <= s[s.len() - 1].priority);
                }
            }
            assert(task_valid(s[s.len() - 1]));
        }
    }
}

/// One step of a merge: attempt one insertion, silently skipping a task
/// whose description or priority would be rejected.
pub open spec fn merge_step(s: Seq<TaskModel>, t: TaskModel) -> Seq<TaskModel> {
    if t.description.len() <= 40 && 1 <= t.priority <= 5 {
        inserted(s, t.description, t.priority)
    } else {
        s
    }
}

/// The list after merging another list into this one: every task of the
/// source is re-inserted in order with its own description and priority,
/// always starting undone; invalid source entries are skipped.
pub open spec fn merged(s: Seq<TaskModel>, other: Seq<TaskModel>) -> Seq<TaskModel>
    decreases other.len(),
{
    if other.len() == 0 {
        s
    } else {
        merged(merge_step(s, other[0]), other.drop_first())
    }
}

/// Unrolling a merge from the back, which is the shape an iterating loop
/// produces.
pub proof fn lemma_merged_push(s: Seq<TaskModel>, other: Seq<TaskModel>, t: TaskModel)
    ensures
        merged(s, other.push(t)) == merge_step(merged(s, other), t),
    decreases other.len(),
{
    if other.len() == 0 {
        assert(other.push(t).drop_first() =~= Seq::<TaskModel>::empty());
        assert(merged(s, other.push(t)) == merged(merge_step(s, t), other.push(t).drop_first()));
    } else {
        assert(other.push(t).drop_first() =~= other.drop_first().push(t));
        lemma_merged_push(merge_step(s, other[0]), other.drop_first(), t);
    }
}

/// Law: merging preserves the list invariant of the destination, whatever
/// the source holds.
pub proof fn lemma_merged_preserves_wf(s: Seq<TaskModel>, other: Seq<TaskModel>)
    requires
        list_wf(s),
    ensures
        list_wf(merged(s, other)),
    decreases other.len(),
{
    if other.len() > 0 {
        let t = other[0];
        if t.description.len() <= 40 && 1 <= t.priority <= 5 {
            lemma_inserted_preserves_wf(s, t.description, t.priority);
        }
        lemma_merged_preserves_wf(merge_step(s, t), other.drop_first());
    }
}

} // verus!
