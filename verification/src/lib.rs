//! Run-to-completion scheduling for a script engine embedded in a host, the
//! stack records the host reports when a task fails, and the names under
//! which native methods reach scripts.

pub mod event_loop;
pub mod names;
pub mod stack;
pub mod text;
