//! An ordered todo collection: todos with text, completion, due date, tags and an order
//! value; adding, editing and removing them; moving one into another's slot while the order
//! values stay a permutation; and the views that a user interface shows of them.

pub mod constants;
pub mod editing;
pub mod laws;
pub mod list;
pub mod shortcuts;
pub mod storage;
pub mod tag_choices;
pub mod text;
pub mod theme;
pub mod todo;
pub mod visibility;
