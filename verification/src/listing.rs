//! The order in which tasks are shown, and the line that shows a task.
//!
//! Unfinished tasks come before finished ones; among those, a higher
//! priority comes first; among those, an earlier due date comes first and a
//! task without a due date comes after every task that has one. Tasks that
//! are alike in all three keep the order in which they were added. The order
//! is computed for showing only: the list itself keeps its tasks as they are.

use vstd::prelude::*;
use crate::date::Date;
use crate::model::{Task, TaskList, TaskView};
use crate::text::{append_decimal, decimal};

verus! {

/// A due date `a` is shown before a due date `b`: both are set and `a` is
/// the earlier day, or only `a` is set.
pub open spec fn due_precedes(a: Option<Date>, b: Option<Date>) -> bool {
    match (a, b) {
        (Some(x), Some(y)) => x.earlier(y),
        (Some(_), None) => true,
        _ => false,
    }
}

/// The fields of `a` put it before `b`.
pub open spec fn precedes(a: TaskView, b: TaskView) -> bool {
    if a.done != b.done {
        !a.done
    } else if a.priority != b.priority {
        a.priority.rank() > b.priority.rank()
    } else {
        due_precedes(a.due, b.due)
    }
}

/// The task at `i` is shown before the task at `j`: its fields put it first,
/// or the fields of neither decide and it stands first in the list.
pub open spec fn shown_before(tasks: Seq<TaskView>, i: int, j: int) -> bool {
    precedes(tasks[i], tasks[j]) || (!precedes(tasks[j], tasks[i]) && i < j)
}

/// Some entry of `order` is the place `i`.
pub open spec fn names(order: Seq<usize>, i: int) -> bool {
    exists|k: int| 0 <= k < order.len() && #[trigger] order[k] == i
}

/// `order` names every place of `tasks` once, each one before all that are
/// shown after it.
pub open spec fn is_display_order(tasks: Seq<TaskView>, order: Seq<usize>) -> bool {
    &&& order.len() == tasks.len()
    &&& forall|k: int| 0 <= k < order.len() ==> (#[trigger] order[k]) < tasks.len()
    &&& forall|i: int| 0 <= i < tasks.len() ==> #[trigger] names(order, i)
    &&& forall|a: int, b: int|
        0 <= a < b < order.len() ==> shown_before(
            tasks,
            (#[trigger] order[a]) as int,
            (#[trigger] order[b]) as int,
        )
}

/// The order in which the tasks are shown, as places in `tasks`.
pub open spec fn display_order_of(tasks: Seq<TaskView>) -> Seq<usize> {
    choose|order: Seq<usize>| is_display_order(tasks, order)
}

/// The mark in front of a line.
pub open spec fn status_text(done: bool) -> Seq<char> {
    if done {
        "[x]"@
    } else {
        "[ ]"@
    }
}

/// What a line says of the due date: nothing where none is set.
pub open spec fn due_text(due: Option<Date>) -> Seq<char> {
    match due {
        Some(d) => " (due "@ + d.text() + ")"@,
        None => Seq::empty(),
    }
}

/// The line that shows a task: mark, id, priority in square brackets, text
/// and, where one is set, the due date in round brackets.
pub open spec fn line_text(t: TaskView) -> Seq<char> {
    status_text(t.done) + " "@ + decimal(t.id) + " ["@ + t.priority.name_text() + "] "@ + t.text
        + due_text(t.due)
}

/// What is shown for a list: one line where it is empty, else the line of
/// each task, in display order.
pub open spec fn list_lines(tasks: Seq<TaskView>) -> Seq<Seq<char>> {
    if tasks.len() == 0 {
        seq!["No tasks yet."@]
    } else {
        Seq::new(tasks.len(), |k: int| line_text(tasks[display_order_of(tasks)[k] as int]))
    }
}

/// No two different orders are display orders of the same tasks.
pub proof fn lemma_display_order_unique(tasks: Seq<TaskView>, first: Seq<usize>, second: Seq<usize>)
    requires
        is_display_order(tasks, first),
        is_display_order(tasks, second),
    ensures
        first == second,
{
    lemma_orders_agree(tasks, first, second, tasks.len() as int);
    assert(first =~= second);
}

/// In display order no finished task stands before an unfinished one,
/// whatever their priorities and due dates.
pub proof fn lemma_unfinished_first(tasks: Seq<TaskView>, order: Seq<usize>, a: int, b: int)
    requires
        is_display_order(tasks, order),
        0 <= a < b < order.len(),
    ensures
        tasks[order[a] as int].done ==> tasks[order[b] as int].done,
{
    assert(shown_before(tasks, order[a] as int, order[b] as int));
}

/// Among tasks that are alike in completion, in display order none stands
/// before one of higher priority; and among those alike in priority too,
/// none without a due date stands before one that has a due date, and none
/// stands before one that is due earlier.
pub proof fn lemma_priority_then_due(tasks: Seq<TaskView>, order: Seq<usize>, a: int, b: int)
    requires
        is_display_order(tasks, order),
        0 <= a < b < order.len(),
        tasks[order[a] as int].done == tasks[order[b] as int].done,
    ensures
        tasks[order[a] as int].priority.rank() >= tasks[order[b] as int].priority.rank(),
        tasks[order[a] as int].priority == tasks[order[b] as int].priority ==> !due_precedes(
            tasks[order[b] as int].due,
            tasks[order[a] as int].due,
        ),
{
    assert(shown_before(tasks, order[a] as int, order[b] as int));
}

/// Two display orders of the same tasks agree on their first `n` places.
proof fn lemma_orders_agree(tasks: Seq<TaskView>, first: Seq<usize>, second: Seq<usize>, n: int)
    requires
        is_display_order(tasks, first),
        is_display_order(tasks, second),
        0 <= n <= tasks.len(),
    ensures
        forall|k: int| 0 <= k < n ==> first[k] == second[k],
    decreases n,
{
    if n > 0 {
        lemma_orders_agree(tasks, first, second, n - 1);
        let a = n - 1;
        let x = first[a];
        let y = second[a];
        if x != y {
            assert(names(second, x as int));
            assert(names(first, y as int));
            let b = choose|b: int| 0 <= b < second.len() && #[trigger] second[b] == x as int;
            let c = choose|c: int| 0 <= c < first.len() && #[trigger] first[c] == y as int;
            if b < a {
                assert(shown_before(tasks, first[b] as int, first[a] as int));
            }
            if c < a {
                assert(shown_before(tasks, second[c] as int, second[a] as int));
            }
            assert(shown_before(tasks, second[a] as int, second[b] as int));
            assert(shown_before(tasks, first[a] as int, first[c] as int));
        }
    }
}

/// Computes `precedes`.
pub fn comes_first(a: &Task, b: &Task) -> (r: bool)
    ensures
        r == precedes(a@, b@),
{
    if a.done != b.done {
        !a.done
    } else if a.priority.rank_value() != b.priority.rank_value() {
        a.priority.rank_value() > b.priority.rank_value()
    } else {
        match (&a.due, &b.due) {
            (Some(x), Some(y)) => x.is_before(y),
            (Some(_), None) => true,
            _ => false,
        }
    }
}

/// The line that shows `task`.
pub fn render_line(task: &Task) -> (line: String)
    ensures
        line@ == line_text(task@),
{
    let mut line = String::new();
    if task.done {
        line.append("[x]");
    } else {
        line.append("[ ]");
    }
    line.append(" ");
    append_decimal(&mut line, task.id);
    line.append(" [");
    line.append(task.priority.name());
    line.append("] ");
    line.append(task.text.as_str());
    match &task.due {
        Some(d) => {
            line.append(" (due ");
            d.append_to(&mut line);
            line.append(")");
        },
        None => {},
    }
    assert(line@ =~= line_text(task@));
    line
}

impl TaskList {
    /// The places of the tasks in the order in which they are shown.
    pub fn display_order(&self) -> (order: Vec<usize>)
        ensures
            is_display_order(self@.tasks, order@),
            order@ == display_order_of(self@.tasks),
    {
        let ghost tasks = self@.tasks;
        let mut order: Vec<usize> = Vec::new();
        let mut n: usize = 0;
        while n < self.tasks.len()
            invariant
                tasks == self@.tasks,
                n <= self.tasks.len(),
                order.len() == n,
                forall|k: int| 0 <= k < n ==> (#[trigger] order[k]) < n,
                forall|i: int| 0 <= i < n ==> #[trigger] names(order@, i),
                forall|a: int, b: int|
                    0 <= a < b < n ==> shown_before(
                        tasks,
                        (#[trigger] order[a]) as int,
                        (#[trigger] order[b]) as int,
                    ),
            decreases self.tasks.len() - n,
        {
            let mut p: usize = 0;
            while p < n && !comes_first(&self.tasks[n], &self.tasks[order[p]])
                invariant
                    tasks == self@.tasks,
                    n < self.tasks.len(),
                    order.len() == n,
                    p <= n,
                    forall|k: int| 0 <= k < n ==> (#[trigger] order[k]) < n,
                    forall|a: int|
                        0 <= a < p ==> !precedes(tasks[n as int], tasks[(#[trigger] order[a]) as int]),
                decreases n - p,
            {
                p = p + 1;
            }
            let ghost prior = order@;
            order.insert(p, n);
            proof {
                assert forall|a: int, b: int| 0 <= a < b < n + 1 implies shown_before(
                    tasks,
                    (#[trigger] order[a]) as int,
                    (#[trigger] order[b]) as int,
                ) by {
                    if b < p {
                        assert(order[a] == prior[a] && order[b] == prior[b]);
                    } else if b == p {
                        assert(order[a] == prior[a]);
                    } else if a < p {
                        assert(order[a] == prior[a] && order[b] == prior[b - 1]);
                    } else if a == p {
                        assert(order[b] == prior[b - 1]);
                        if b - 1 > p {
                            assert(shown_before(tasks, prior[p as int] as int, prior[b - 1] as int));
                        }
                    } else {
                        assert(order[a] == prior[a - 1] && order[b] == prior[b - 1]);
                    }
                }
                assert forall|i: int| 0 <= i < n + 1 implies #[trigger] names(order@, i) by {
                    if i < n {
                        assert(names(prior, i));
                        let k = choose|k: int| 0 <= k < prior.len() && #[trigger] prior[k] == i;
                        if k < p {
                            assert(order[k] == i);
                        } else {
                            assert(order[k + 1] == i);
                        }
                    } else {
                        assert(order[p as int] == i);
                    }
                }
                assert forall|k: int| 0 <= k < n + 1 implies (#[trigger] order[k]) < n + 1 by {
                    if k < p {
                        assert(order[k] == prior[k]);
                    } else if k > p {
                        assert(order[k] == prior[k - 1]);
                    }
                }
            }
            n = n + 1;
        }
        proof {
            assert(is_display_order(tasks, order@));
            lemma_display_order_unique(tasks, order@, display_order_of(tasks));
        }
        order
    }

    /// The lines that show the list: the line of each task, in display
    /// order, or a single line saying that there is none.
    pub fn listing(&self) -> (lines: Vec<String>)
        ensures
            lines.deep_view() == list_lines(self@.tasks),
    {
        let mut lines: Vec<String> = Vec::new();
        if self.tasks.len() == 0 {
            lines.push("No tasks yet.".to_owned());
            assert(lines.deep_view() =~= list_lines(self@.tasks));
            return lines;
        }
        let order = self.display_order();
        let mut k: usize = 0;
        while k < order.len()
            invariant
                order@ == display_order_of(self@.tasks),
                is_display_order(self@.tasks, order@),
                k <= order.len(),
                lines.len() == k,
                forall|j: int|
                    0 <= j < k ==> (#[trigger] lines[j])@ == line_text(
                        self@.tasks[order[j] as int],
                    ),
            decreases order.len() - k,
        {
            let line = render_line(&self.tasks[order[k]]);
            lines.push(line);
            k = k + 1;
        }
        assert(lines.deep_view() =~= list_lines(self@.tasks));
        lines
    }
}

} // verus!
