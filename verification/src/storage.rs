//! What a stored task list is taken for when a command starts.
//!
//! Reading and writing the store is left to the caller. This module decides
//! what follows from what was found there.

use vstd::prelude::*;
use crate::model::{TaskList, TaskListView};

verus! {

/// What was found in the place where the list is stored.
#[derive(Debug)]
pub enum Stored {
    /// Nothing is stored there.
    Missing,
    /// What is stored there cannot be read.
    Unreadable,
    /// What is stored there was read, and holds no list of tasks.
    Malformed,
    /// What is stored there was read, and holds the list given here.
    List(TaskList),
}

/// The list to work on, or `None` where the command cannot go on.
///
/// A store that holds nothing yet gives the fresh list, and so does one that
/// holds something other than a task list: what it held is given up without
/// a word. A store that cannot be read stops the command.
pub fn load_tasks(found: Stored) -> (r: Option<TaskList>)
    ensures
        match found {
            Stored::Missing | Stored::Malformed => r matches Some(list) && list@
                == TaskListView::fresh(),
            Stored::Unreadable => r is None,
            Stored::List(list) => r == Some(list),
        },
{
    match found {
        Stored::Missing => Some(TaskList::new()),
        Stored::Malformed => Some(TaskList::new()),
        Stored::Unreadable => None,
        Stored::List(list) => Some(list),
    }
}

} // verus!
