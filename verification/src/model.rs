//! The task-list data model and its mutating operations.

use vstd::prelude::*;
use crate::date::Date;

verus! {

/// How urgent a task is. The levels are ordered `Low < Medium < High`.
#[derive(Debug, Clone, Copy, PartialEq, Eq, PartialOrd, Ord, Structural)]
pub enum Priority {
    Low,
    Medium,
    High,
}

impl Priority {
    /// The position of a level in the order `Low < Medium < High`.
    pub open spec fn rank(self) -> int {
        match self {
            Priority::Low => 0,
            Priority::Medium => 1,
            Priority::High => 2,
        }
    }

    /// The lowercase name under which a level is shown and stored.
    pub open spec fn name_text(self) -> Seq<char> {
        match self {
            Priority::Low => "low"@,
            Priority::Medium => "medium"@,
            Priority::High => "high"@,
        }
    }

    /// Computes `rank`.
    pub fn rank_value(self) -> (r: u8)
        ensures
            r == self.rank(),
    {
        match self {
            Priority::Low => 0,
            Priority::Medium => 1,
            Priority::High => 2,
        }
    }

    /// Computes `name_text`.
    pub fn name(self) -> (s: &'static str)
        ensures
            s@ == self.name_text(),
    {
        match self {
            Priority::Low => "low",
            Priority::Medium => "medium",
            Priority::High => "high",
        }
    }
}

/// The priority of a task for which none was given.
pub fn default_priority() -> (p: Priority)
    ensures
        p == Priority::Medium,
{
    Priority::Medium
}

/// One task.
#[derive(Debug)]
pub struct Task {
    pub id: u32,
    pub text: String,
    pub done: bool,
    pub due: Option<Date>,
    pub priority: Priority,
}

/// A task as a mathematical value.
pub struct TaskView {
    pub id: nat,
    pub text: Seq<char>,
    pub done: bool,
    pub due: Option<Date>,
    pub priority: Priority,
}

impl TaskView {
    /// The same task, completed.
    pub open spec fn finished(self) -> TaskView {
        TaskView { done: true, ..self }
    }
}

impl View for Task {
    type V = TaskView;

    open spec fn view(&self) -> TaskView {
        TaskView {
            id: self.id as nat,
            text: self.text@,
            done: self.done,
            due: self.due,
            priority: self.priority,
        }
    }
}

/// All tasks, and the id that the next new task will get.
#[derive(Debug)]
pub struct TaskList {
    pub next_id: u32,
    pub tasks: Vec<Task>,
}

/// A task list as a mathematical value.
pub struct TaskListView {
    pub next_id: nat,
    pub tasks: Seq<TaskView>,
}

impl View for TaskList {
    type V = TaskListView;

    open spec fn view(&self) -> TaskListView {
        TaskListView {
            next_id: self.next_id as nat,
            tasks: self.tasks@.map_values(|t: Task| t@),
        }
    }
}

impl TaskListView {
    /// The list without tasks, whose first task will get the id 1.
    pub open spec fn fresh() -> TaskListView {
        TaskListView { next_id: 1, tasks: Seq::empty() }
    }

    /// Some task of the list has the id `id`.
    pub open spec fn contains_id(self, id: nat) -> bool {
        exists|i: int| 0 <= i < self.tasks.len() && (#[trigger] self.tasks[i]).id == id
    }

    /// The task at `i` has the id `id`, and no task before it has.
    pub open spec fn is_first_match(self, id: nat, i: int) -> bool {
        &&& 0 <= i < self.tasks.len()
        &&& self.tasks[i].id == id
        &&& forall|j: int| 0 <= j < i ==> (#[trigger] self.tasks[j]).id != id
    }

    /// The list after a task with the given text, due date and priority was
    /// added: the new task takes the id `next_id`, is not done, and stands
    /// last; `next_id` grows by one.
    pub open spec fn added(
        self,
        text: Seq<char>,
        due: Option<Date>,
        priority: Priority,
    ) -> TaskListView {
        TaskListView {
            next_id: self.next_id + 1,
            tasks: self.tasks.push(
                TaskView { id: self.next_id, text, done: false, due, priority },
            ),
        }
    }

    /// The list after the first task with the id `id` was completed; the
    /// list itself where no task has that id.
    pub open spec fn completed(self, id: nat) -> TaskListView {
        TaskListView {
            tasks: Seq::new(
                self.tasks.len(),
                |i: int|
                    if self.is_first_match(id, i) {
                        self.tasks[i].finished()
                    } else {
                        self.tasks[i]
                    },
            ),
            ..self
        }
    }

    /// The list without the tasks that have the id `id`; the others keep
    /// their order, and `next_id` stays.
    pub open spec fn deleted(self, id: nat) -> TaskListView {
        TaskListView { tasks: self.tasks.filter(keeps(id)), ..self }
    }

    /// Every id is below `next_id`, and no two tasks share an id.
    pub open spec fn wf(self) -> bool {
        &&& forall|i: int|
            0 <= i < self.tasks.len() ==> (#[trigger] self.tasks[i]).id < self.next_id
        &&& forall|i: int, j: int|
            0 <= i < j < self.tasks.len() ==> (#[trigger] self.tasks[i]).id != (
            #[trigger] self.tasks[j]).id
    }

    /// Every id is at least 1, and so is the one that the next task will get.
    pub open spec fn ids_positive(self) -> bool {
        &&& forall|i: int| 0 <= i < self.tasks.len() ==> 1 <= (#[trigger] self.tasks[i]).id
        &&& 1 <= self.next_id
    }

    /// Every due date is a day of the calendar.
    pub open spec fn dates_valid(self) -> bool {
        forall|i: int|
            0 <= i < self.tasks.len() ==> ((#[trigger] self.tasks[i]).due matches Some(d)
                ==> d.wf())
    }

    /// Adding a task keeps a list well formed and its ids positive, and keeps
    /// its due dates valid where the new one is.
    pub proof fn lemma_added(self, text: Seq<char>, due: Option<Date>, priority: Priority)
        ensures
            self.wf() ==> self.added(text, due, priority).wf(),
            self.ids_positive() ==> self.added(text, due, priority).ids_positive(),
            self.dates_valid() && (due matches Some(d) ==> d.wf()) ==> self.added(
                text,
                due,
                priority,
            ).dates_valid(),
    {
    }

    /// Completing an id changes no id and no place, takes back no
    /// completion, and keeps a list well formed, its ids positive and its due
    /// dates valid. In a well-formed list the task with that id, if there is
    /// one, is done afterwards.
    pub proof fn lemma_completed(self, id: nat)
        ensures
            self.completed(id).next_id == self.next_id,
            self.completed(id).tasks.len() == self.tasks.len(),
            forall|i: int|
                0 <= i < self.tasks.len() ==> (#[trigger] self.completed(id).tasks[i]).id
                    == self.tasks[i].id,
            forall|i: int|
                0 <= i < self.tasks.len() && self.tasks[i].done ==> (
                #[trigger] self.completed(id).tasks[i]).done,
            forall|other: nat| self.completed(id).contains_id(other) == self.contains_id(other),
            !self.contains_id(id) ==> self.completed(id) == self,
            self.wf() ==> self.completed(id).wf(),
            self.ids_positive() ==> self.completed(id).ids_positive(),
            self.dates_valid() ==> self.completed(id).dates_valid(),
            self.wf() ==> forall|i: int|
                0 <= i < self.tasks.len() && self.tasks[i].id == id ==> (
                #[trigger] self.completed(id).tasks[i]).done,
    {
        let after = self.completed(id);
        assert forall|other: nat| after.contains_id(other) == self.contains_id(other) by {
            if self.contains_id(other) {
                let i = choose|i: int|
                    0 <= i < self.tasks.len() && (#[trigger] self.tasks[i]).id == other;
                assert(after.tasks[i].id == other);
            }
            if after.contains_id(other) {
                let i = choose|i: int|
                    0 <= i < after.tasks.len() && (#[trigger] after.tasks[i]).id == other;
                assert(self.tasks[i].id == other);
            }
        }
        if !self.contains_id(id) {
            assert forall|i: int| 0 <= i < self.tasks.len() implies !self.is_first_match(
                id,
                i,
            ) by {
                if self.is_first_match(id, i) {
                    assert(self.tasks[i].id == id);
                }
            }
            assert(after.tasks =~= self.tasks);
        }
        if self.wf() {
            assert forall|i: int|
                0 <= i < self.tasks.len() && self.tasks[i].id == id implies (
            #[trigger] after.tasks[i]).done by {
                assert forall|j: int| 0 <= j < i implies (#[trigger] self.tasks[j]).id != id by {}
                assert(self.is_first_match(id, i));
            }
            assert forall|i: int, j: int| 0 <= i < j < after.tasks.len() implies (
            #[trigger] after.tasks[i]).id != (#[trigger] after.tasks[j]).id by {
                assert(self.tasks[i].id != self.tasks[j].id);
            }
        }
    }

    /// Completing an id a second time changes nothing.
    pub proof fn lemma_completed_twice(self, id: nat)
        ensures
            self.completed(id).completed(id) == self.completed(id),
            self.completed(id).contains_id(id) == self.contains_id(id),
    {
        self.lemma_completed(id);
        let once = self.completed(id);
        let twice = once.completed(id);
        assert forall|i: int| 0 <= i < self.tasks.len() implies once.is_first_match(id, i)
            == self.is_first_match(id, i) by {
            if self.is_first_match(id, i) {
                assert forall|j: int| 0 <= j < i implies (#[trigger] once.tasks[j]).id != id by {
                    assert(self.tasks[j].id != id);
                }
            }
            if once.is_first_match(id, i) {
                assert forall|j: int| 0 <= j < i implies (#[trigger] self.tasks[j]).id != id by {
                    assert(once.tasks[j].id != id);
                }
            }
        }
        assert(twice.tasks =~= once.tasks);
    }

    /// Deleting an id leaves no task with it, keeps the tasks with other
    /// ids, shortens the list exactly where the id was there, and keeps a
    /// list well formed, its ids positive and its due dates valid.
    pub proof fn lemma_deleted(self, id: nat)
        ensures
            self.deleted(id).next_id == self.next_id,
            !self.deleted(id).contains_id(id),
            self.deleted(id).tasks.len() <= self.tasks.len(),
            self.contains_id(id) <==> self.deleted(id).tasks.len() < self.tasks.len(),
            !self.contains_id(id) ==> self.deleted(id) == self,
            forall|other: nat|
                other != id ==> (self.deleted(id).contains_id(other) <==> self.contains_id(other)),
            self.wf() ==> self.deleted(id).wf(),
            self.ids_positive() ==> self.deleted(id).ids_positive(),
            self.dates_valid() ==> self.deleted(id).dates_valid(),
    {
        let rest = self.deleted(id).tasks;
        let origin = lemma_filter_origin(self.tasks, keeps(id));
        if self.deleted(id).contains_id(id) {
            let k = choose|k: int| 0 <= k < rest.len() && (#[trigger] rest[k]).id == id;
            assert(keeps(id)(rest[k]));
        }
        assert forall|other: nat| other != id implies (self.deleted(id).contains_id(other)
            <==> self.contains_id(other)) by {
            if self.contains_id(other) {
                let i = choose|i: int|
                    0 <= i < self.tasks.len() && (#[trigger] self.tasks[i]).id == other;
                assert(keeps(id)(self.tasks[i]));
                let k = choose|k: int| 0 <= k < origin.len() && origin[k] == i;
                assert(rest[k].id == other);
            }
            if self.deleted(id).contains_id(other) {
                let k = choose|k: int| 0 <= k < rest.len() && (#[trigger] rest[k]).id == other;
                assert(self.tasks[origin[k]].id == other);
            }
        }
        if self.contains_id(id) {
            let i = choose|i: int| 0 <= i < self.tasks.len() && (#[trigger] self.tasks[i]).id == id;
            assert(!keeps(id)(self.tasks[i]));
        } else {
            assert forall|i: int| 0 <= i < self.tasks.len() implies keeps(id)(
                #[trigger] self.tasks[i],
            ) by {}
        }
        if self.wf() {
            assert forall|a: int, b: int| 0 <= a < b < rest.len() implies (#[trigger] rest[a]).id
                != (#[trigger] rest[b]).id by {
                assert(origin[a] < origin[b]);
                assert(self.tasks[origin[a]].id != self.tasks[origin[b]].id);
            }
            assert forall|a: int| 0 <= a < rest.len() implies (#[trigger] rest[a]).id
                < self.next_id by {
                assert(self.tasks[origin[a]].id < self.next_id);
            }
        }
        if self.ids_positive() {
            assert forall|a: int| 0 <= a < rest.len() implies 1 <= (#[trigger] rest[a]).id by {
                assert(1 <= self.tasks[origin[a]].id);
            }
        }
        if self.dates_valid() {
            assert forall|a: int| 0 <= a < rest.len() implies ((#[trigger] rest[a]).due matches Some(
                d,
            ) ==> d.wf()) by {
                assert(self.tasks[origin[a]].due == rest[a].due);
            }
        }
    }
}

/// The test that a task passes when its id is not `id`.
pub open spec fn keeps(id: nat) -> spec_fn(TaskView) -> bool {
    |t: TaskView| t.id != id
}

/// What `filter` keeps of a sequence: the result lists, for each place of
/// the filtered sequence, the place in `s` that its item came from. Those
/// places rise, every item that passes the test has one, and the filtered
/// sequence is as long as `s` exactly where every item passes.
pub proof fn lemma_filter_origin<A>(s: Seq<A>, pred: spec_fn(A) -> bool) -> (origin: Seq<int>)
    ensures
        origin.len() == s.filter(pred).len(),
        s.filter(pred).len() <= s.len(),
        forall|k: int|
            0 <= k < origin.len() ==> 0 <= (#[trigger] origin[k]) < s.len() && s.filter(pred)[k]
                == s[origin[k]],
        forall|k: int| 0 <= k < origin.len() ==> pred(#[trigger] s.filter(pred)[k]),
        forall|a: int, b: int|
            0 <= a < b < origin.len() ==> (#[trigger] origin[a]) < (#[trigger] origin[b]),
        forall|i: int|
            0 <= i < s.len() && pred(#[trigger] s[i]) ==> exists|k: int|
                0 <= k < origin.len() && origin[k] == i,
        s.filter(pred).len() == s.len() <==> forall|i: int|
            0 <= i < s.len() ==> pred(#[trigger] s[i]),
        s.filter(pred).len() == s.len() ==> s.filter(pred) == s,
    decreases s.len(),
{
    reveal(Seq::filter);
    if s.len() == 0 {
        Seq::empty()
    } else {
        let init = s.drop_last();
        let last = s.len() - 1;
        let shorter = lemma_filter_origin(init, pred);
        let origin = if pred(s.last()) {
            shorter.push(last)
        } else {
            shorter
        };
        assert forall|i: int| 0 <= i < s.len() && pred(#[trigger] s[i]) implies exists|k: int|
            0 <= k < origin.len() && origin[k] == i by {
            if i < last {
                assert(pred(init[i]));
                let k = choose|k: int| 0 <= k < shorter.len() && shorter[k] == i;
                assert(origin[k] == i);
            } else {
                assert(origin[origin.len() - 1] == i);
            }
        }
        if s.filter(pred).len() == s.len() {
            assert forall|i: int| 0 <= i < s.len() implies pred(#[trigger] s[i]) by {
                if i < last {
                    assert(pred(init[i]));
                }
            }
        }
        if forall|i: int| 0 <= i < s.len() ==> pred(#[trigger] s[i]) {
            assert forall|i: int| 0 <= i < init.len() implies pred(#[trigger] init[i]) by {
                assert(pred(s[i]));
            }
        }
        if s.filter(pred).len() == s.len() {
            assert(s.filter(pred) =~= init.push(s.last()));
            assert(init.push(s.last()) =~= s);
        }
        origin
    }
}

impl TaskList {
    /// The list without tasks, whose first task will get the id 1.
    pub fn new() -> (list: TaskList)
        ensures
            list@ == TaskListView::fresh(),
            list@.wf(),
            list@.ids_positive(),
            list@.dates_valid(),
    {
        let list = TaskList { next_id: 1, tasks: Vec::new() };
        assert(list@.tasks =~= Seq::<TaskView>::empty());
        list
    }

    /// Adds a task that is not done, gives it the id `next_id` and returns
    /// that id.
    pub fn add(&mut self, text: String, due: Option<Date>, priority: Priority) -> (id: u32)
        requires
            old(self).next_id < u32::MAX,
        ensures
            id == old(self).next_id,
            final(self)@ == old(self)@.added(text@, due, priority),
            old(self)@.wf() ==> final(self)@.wf(),
            old(self)@.ids_positive() ==> final(self)@.ids_positive(),
            old(self)@.dates_valid() && (due matches Some(d) ==> d.wf())
                ==> final(self)@.dates_valid(),
    {
        let id = self.next_id;
        self.next_id = self.next_id + 1;
        self.tasks.push(Task { id, text, done: false, due, priority });
        proof {
            assert(self@.tasks =~= old(self)@.added(text@, due, priority).tasks);
            old(self)@.lemma_added(text@, due, priority);
        }
        id
    }

    /// Completes the first task with the id `id`, and says whether there was
    /// one. A task that was done stays done.
    pub fn complete(&mut self, id: u32) -> (found: bool)
        ensures
            found == old(self)@.contains_id(id as nat),
            final(self)@ == old(self)@.completed(id as nat),
            final(self)@.contains_id(id as nat) == found,
            !found ==> final(self)@ == old(self)@,
            old(self)@.wf() ==> final(self)@.wf(),
            old(self)@.ids_positive() ==> final(self)@.ids_positive(),
            old(self)@.dates_valid() ==> final(self)@.dates_valid(),
            old(self)@.wf() ==> forall|i: int|
                0 <= i < final(self)@.tasks.len() && (#[trigger] final(self)@.tasks[i]).id == id
                    ==> final(self)@.tasks[i].done,
    {
        proof {
            old(self)@.lemma_completed(id as nat);
        }
        let mut i: usize = 0;
        while i < self.tasks.len()
            invariant
                i <= self.tasks.len(),
                self.tasks@ == old(self).tasks@,
                self.next_id == old(self).next_id,
                forall|j: int| 0 <= j < i ==> (#[trigger] self@.tasks[j]).id != id,
            decreases self.tasks.len() - i,
        {
            if self.tasks[i].id == id {
                proof {
                    assert(self@.tasks =~= old(self)@.tasks);
                    assert(old(self)@.is_first_match(id as nat, i as int));
                    assert forall|k: int| old(self)@.is_first_match(id as nat, k) implies k
                        == i by {
                        if k < i {
                            assert(old(self)@.tasks[k].id != id);
                        } else if i < k {
                            assert(old(self)@.tasks[i as int].id == id);
                        }
                    }
                }
                self.tasks[i].done = true;
                proof {
                    assert(self@.tasks =~= old(self)@.completed(id as nat).tasks);
                    assert(self@.tasks[i as int].id == id);
                }
                return true;
            }
            i = i + 1;
        }
        proof {
            assert(self@.tasks =~= old(self)@.tasks);
        }
        false
    }

    /// Removes the tasks with the id `id`, and says whether there was one.
    /// `next_id` stays, so the id is not given out again.
    pub fn delete(&mut self, id: u32) -> (removed: bool)
        ensures
            removed == old(self)@.contains_id(id as nat),
            final(self)@ == old(self)@.deleted(id as nat),
            !final(self)@.contains_id(id as nat),
            !removed ==> final(self)@ == old(self)@,
            final(self).next_id == old(self).next_id,
            old(self)@.wf() ==> final(self)@.wf(),
            old(self)@.ids_positive() ==> final(self)@.ids_positive(),
            old(self)@.dates_valid() ==> final(self)@.dates_valid(),
    {
        let before = self.tasks.len();
        let ghost all = old(self)@.tasks;
        let ghost keep = keeps(id as nat);
        let ghost mut seen: int = 0;
        let mut i: usize = 0;
        proof {
            reveal(Seq::filter);
            assert(all.take(0).filter(keep) =~= Seq::<TaskView>::empty());
            assert(self@.tasks =~= all.take(0).filter(keep) + all.skip(0));
        }
        while i < self.tasks.len()
            invariant
                self.next_id == old(self).next_id,
                all == old(self)@.tasks,
                keep == keeps(id as nat),
                0 <= seen <= all.len(),
                i == all.take(seen).filter(keep).len(),
                self@.tasks == all.take(seen).filter(keep) + all.skip(seen),
            decreases all.len() - seen,
        {
            proof {
                reveal(Seq::filter);
                assert(self@.tasks[i as int] == all.skip(seen)[0]);
                assert(seen < all.len());
                assert(all.take(seen + 1).drop_last() =~= all.take(seen));
                assert(all.take(seen + 1).last() == all[seen]);
            }
            let ghost prior = self@.tasks;
            if self.tasks[i].id == id {
                self.tasks.remove(i);
                proof {
                    assert(self@.tasks =~= prior.remove(i as int));
                    assert(self@.tasks =~= all.take(seen + 1).filter(keep) + all.skip(seen + 1));
                }
            } else {
                i = i + 1;
                proof {
                    assert(self@.tasks =~= all.take(seen + 1).filter(keep) + all.skip(seen + 1));
                }
            }
            proof {
                seen = seen + 1;
            }
        }
        proof {
            assert(all.skip(seen).len() == 0);
            assert(all.take(seen) =~= all);
            assert(self@.tasks =~= all.filter(keep));
            old(self)@.lemma_deleted(id as nat);
        }
        before != self.tasks.len()
    }
}

} // verus!
