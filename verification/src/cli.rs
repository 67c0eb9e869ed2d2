//! Commands, and what each one does to a task list and says to the user.

use vstd::prelude::*;
use crate::date::{valid_ymd, Date};
use crate::listing::list_lines;
use crate::model::{Priority, TaskList, TaskListView};
use crate::text::{append_decimal, decimal};

verus! {

/// The format in which a due date is given.
pub const DATE_FORMAT: &'static str = "%Y-%m-%d";

/// What the user is told of a due date that cannot be read.
pub const DATE_ERROR: &'static str = "Date must be in YYYY-MM-DD format";

/// Year, month and day that `chrono::NaiveDate::parse_from_str` reads from
/// `text` under `format`, or `None` where it reports an error.
pub uninterp spec fn parsed_ymd(text: Seq<char>, format: Seq<char>) -> Option<(i32, u32, u32)>;

/// Calls `chrono::NaiveDate::parse_from_str(text, format)` and hands back the
/// year, month and day of the date it returns, or `None` where it returns an
/// error. Nothing is claimed of the outcome but that it depends on the two
/// texts alone. Only `DATE_FORMAT` is let in as the format: under it the
/// call returns for every text, which does not hold of every format.
#[verifier::external_body]
fn chrono_parse(text: &str, format: &str) -> (r: Option<(i32, u32, u32)>)
    requires
        format@ == DATE_FORMAT@,
    ensures
        r == parsed_ymd(text@, format@),
{
    match chrono::NaiveDate::parse_from_str(text, format) {
        Ok(d) => Some(
            (chrono::Datelike::year(&d), chrono::Datelike::month(&d), chrono::Datelike::day(&d)),
        ),
        Err(_) => None,
    }
}

/// The date that a parse came to: the day it names, where it names one.
pub open spec fn date_of_parsed(parsed: Option<(i32, u32, u32)>) -> Option<Date> {
    match parsed {
        Some((year, month, day)) => if valid_ymd(year as int, month as int, day as int) {
            Some(Date { year, month, day })
        } else {
            None
        },
        None => None,
    }
}

/// Turns what a parse came to into a date, or into the message for the user.
pub fn date_from_parsed(parsed: Option<(i32, u32, u32)>) -> (r: Result<Date, String>)
    ensures
        match date_of_parsed(parsed) {
            Some(d) => r == Ok::<Date, String>(d),
            None => r matches Err(e) && e@ == DATE_ERROR@,
        },
{
    let date = match parsed {
        Some((year, month, day)) => Date::new(year, month, day),
        None => None,
    };
    match date {
        Some(d) => Ok(d),
        None => Err(DATE_ERROR.to_owned()),
    }
}

/// Reads a due date given as year, month and day joined by `-`.
pub fn parse_date(s: &str) -> (r: Result<Date, String>)
    ensures
        match date_of_parsed(parsed_ymd(s@, DATE_FORMAT@)) {
            Some(d) => r == Ok::<Date, String>(d),
            None => r matches Err(e) && e@ == DATE_ERROR@,
        },
        r matches Ok(d) ==> d.wf(),
{
    date_from_parsed(chrono_parse(s, DATE_FORMAT))
}

/// One command of the user.
#[derive(Debug)]
pub enum Commands {
    Add { text: String, due: Option<Date>, priority: Priority },
    List,
    Done { id: u32 },
    Delete { id: u32 },
}

/// A command as a mathematical value.
pub enum CommandView {
    Add { text: Seq<char>, due: Option<Date>, priority: Priority },
    List,
    Done { id: nat },
    Delete { id: nat },
}

impl View for Commands {
    type V = CommandView;

    open spec fn view(&self) -> CommandView {
        match *self {
            Commands::Add { text, due, priority } => CommandView::Add { text: text@, due, priority },
            Commands::List => CommandView::List,
            Commands::Done { id } => CommandView::Done { id: id as nat },
            Commands::Delete { id } => CommandView::Delete { id: id as nat },
        }
    }
}

/// What a command came to: the lines to show, and whether the list is to be
/// stored again.
#[derive(Debug)]
pub struct Outcome {
    pub lines: Vec<String>,
    pub save: bool,
}

/// The line after a task was added.
pub open spec fn added_text(id: nat) -> Seq<char> {
    "Added task #"@ + decimal(id)
}

/// The line after a task was completed.
pub open spec fn completed_text(id: nat) -> Seq<char> {
    "Completed task #"@ + decimal(id)
}

/// The line after a task was deleted.
pub open spec fn deleted_text(id: nat) -> Seq<char> {
    "Deleted task #"@ + decimal(id)
}

/// The line for an id that no task has.
pub open spec fn not_found_text(id: nat) -> Seq<char> {
    "Task #"@ + decimal(id) + " not found"@
}

impl CommandView {
    /// The due date, where the command gives one, is a day of the calendar.
    pub open spec fn wf(self) -> bool {
        self matches CommandView::Add { due: Some(d), .. } ==> d.wf()
    }

    /// The list after the command.
    pub open spec fn next_list(self, list: TaskListView) -> TaskListView {
        match self {
            CommandView::Add { text, due, priority } => list.added(text, due, priority),
            CommandView::List => list,
            CommandView::Done { id } => list.completed(id),
            CommandView::Delete { id } => list.deleted(id),
        }
    }

    /// The lines that the command shows.
    pub open spec fn output(self, list: TaskListView) -> Seq<Seq<char>> {
        match self {
            CommandView::Add { .. } => seq![added_text(list.next_id)],
            CommandView::List => list_lines(list.tasks),
            CommandView::Done { id } => if list.contains_id(id) {
                seq![completed_text(id)]
            } else {
                seq![not_found_text(id)]
            },
            CommandView::Delete { id } => if list.contains_id(id) {
                seq![deleted_text(id)]
            } else {
                seq![not_found_text(id)]
            },
        }
    }

    /// Whether the list is stored again after the command: after every
    /// `Add`, after a `Done` or `Delete` that found its task, never after
    /// `List`.
    pub open spec fn stores(self, list: TaskListView) -> bool {
        match self {
            CommandView::Add { .. } => true,
            CommandView::List => false,
            CommandView::Done { id } => list.contains_id(id),
            CommandView::Delete { id } => list.contains_id(id),
        }
    }
}

/// The list that a fresh list becomes under the commands, first to last.
pub open spec fn replay(commands: Seq<CommandView>) -> TaskListView
    decreases commands.len(),
{
    if commands.len() == 0 {
        TaskListView::fresh()
    } else {
        commands.last().next_list(replay(commands.drop_last()))
    }
}

/// How many of the commands are an `Add`.
pub open spec fn adds(commands: Seq<CommandView>) -> nat
    decreases commands.len(),
{
    if commands.len() == 0 {
        0
    } else if commands.last() is Add {
        adds(commands.drop_last()) + 1
    } else {
        adds(commands.drop_last())
    }
}

/// Ids are given out in order, from 1 on and without gaps, whatever was
/// completed or deleted in between: after any commands on a fresh list, the
/// id that the next `Add` gets is one more than the number of `Add`s so far.
pub proof fn lemma_ids_count_adds(commands: Seq<CommandView>)
    ensures
        replay(commands).next_id == adds(commands) + 1,
    decreases commands.len(),
{
    if commands.len() > 0 {
        lemma_ids_count_adds(commands.drop_last());
    }
}

/// Whatever commands a fresh list went through, every id in it is at least
/// 1 and below `next_id`, and no two tasks share an id.
pub proof fn lemma_replay_wf(commands: Seq<CommandView>)
    ensures
        replay(commands).wf(),
        replay(commands).ids_positive(),
    decreases commands.len(),
{
    if commands.len() > 0 {
        lemma_replay_wf(commands.drop_last());
        let before = replay(commands.drop_last());
        match commands.last() {
            CommandView::Add { text, due, priority } => {
                before.lemma_added(text, due, priority);
            },
            CommandView::Done { id } => {
                before.lemma_completed(id);
            },
            CommandView::Delete { id } => {
                before.lemma_deleted(id);
            },
            CommandView::List => {},
        }
    }
}

/// A fresh list holds only valid due dates after any commands whose own due
/// dates are days of the calendar.
pub proof fn lemma_replay_dates_valid(commands: Seq<CommandView>)
    requires
        forall|k: int| 0 <= k < commands.len() ==> (#[trigger] commands[k]).wf(),
    ensures
        replay(commands).dates_valid(),
    decreases commands.len(),
{
    if commands.len() > 0 {
        assert forall|k: int| 0 <= k < commands.drop_last().len() implies (
        #[trigger] commands.drop_last()[k]).wf() by {
            assert(commands[k].wf());
        }
        lemma_replay_dates_valid(commands.drop_last());
        let before = replay(commands.drop_last());
        assert(commands[commands.len() - 1].wf());
        match commands.last() {
            CommandView::Add { text, due, priority } => {
                before.lemma_added(text, due, priority);
            },
            CommandView::Done { id } => {
                before.lemma_completed(id);
            },
            CommandView::Delete { id } => {
                before.lemma_deleted(id);
            },
            CommandView::List => {},
        }
    }
}

/// A line made of `prefix`, the decimal digits of `id`, and `suffix`.
fn numbered_line(prefix: &str, id: u32, suffix: &str) -> (line: String)
    ensures
        line@ == prefix@ + decimal(id as nat) + suffix@,
{
    let mut line = String::new();
    line.append(prefix);
    append_decimal(&mut line, id);
    line.append(suffix);
    assert(line@ =~= prefix@ + decimal(id as nat) + suffix@);
    line
}

/// Carries out one command on `list`, and returns the lines to show and
/// whether the list is to be stored again. An id that no task has is no
/// failure: the lines say so, and the list stays as it was.
pub fn dispatch(list: &mut TaskList, command: Commands) -> (outcome: Outcome)
    requires
        command is Add ==> old(list).next_id < u32::MAX,
    ensures
        final(list)@ == command@.next_list(old(list)@),
        outcome.lines.deep_view() == command@.output(old(list)@),
        outcome.save == command@.stores(old(list)@),
        old(list)@.wf() ==> final(list)@.wf(),
        old(list)@.ids_positive() ==> final(list)@.ids_positive(),
        old(list)@.dates_valid() && command@.wf() ==> final(list)@.dates_valid(),
{
    let mut lines: Vec<String> = Vec::new();
    proof {
        reveal_strlit("");
    }
    let save = match command {
        Commands::Add { text, due, priority } => {
            let id = list.add(text, due, priority);
            lines.push(numbered_line("Added task #", id, ""));
            assert(lines[0]@ =~= added_text(id as nat));
            true
        },
        Commands::List => {
            lines = list.listing();
            false
        },
        Commands::Done { id } => {
            let found = list.complete(id);
            if found {
                lines.push(numbered_line("Completed task #", id, ""));
                assert(lines[0]@ =~= completed_text(id as nat));
            } else {
                lines.push(numbered_line("Task #", id, " not found"));
            }
            found
        },
        Commands::Delete { id } => {
            let removed = list.delete(id);
            if removed {
                lines.push(numbered_line("Deleted task #", id, ""));
                assert(lines[0]@ =~= deleted_text(id as nat));
            } else {
                lines.push(numbered_line("Task #", id, " not found"));
            }
            removed
        },
    };
    assert(lines.deep_view() =~= command@.output(old(list)@));
    Outcome { lines, save }
}

} // verus!
