//! Activity tracking core.
//!
//! - `time`: calendar instants and their exact conversion to and from a
//!   linear count of seconds, with pure integer arithmetic.
//! - `duration`: signed spans of seconds.
//! - `task`: a task's lifecycle, Incomplete to InProgress to Complete.
//! - `app`: the task store, with increasing ids and the cascading start.
//! - `summary`: completion summaries, their pending images and the rewrite
//!   of their links once the images are stored.
//! - `upload`: decoding of uploaded image data.
//! - `text`: character and numeral helpers.

pub mod text;
pub mod time;
pub mod duration;
pub mod task;
pub mod app;
pub mod summary;
pub mod upload;
