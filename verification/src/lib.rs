//! A verified task list: tasks with an id, a text, a completion flag, an
//! optional due date and a priority, together with the operations that add,
//! complete, delete and list them.

pub mod cli;
pub mod date;
pub mod listing;
pub mod model;
pub mod storage;
pub mod text;
