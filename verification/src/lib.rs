//! A persistent, priority-ordered task list: todos with a priority, a done
//! flag, a message and at most one attachment (a content-addressed note or a
//! nested list of sub-tasks), kept in priority order and stored one per line.

pub mod storage;
pub mod text;
pub mod todo_list;
