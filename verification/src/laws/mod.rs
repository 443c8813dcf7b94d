//! What the operations come to, said of their inputs and results alone: how texts
//! that are put together are taken apart again, and how two calls relate.
pub mod answers;
pub mod database;
pub mod folders;
pub mod hook;
pub mod operations;
pub mod paths;
pub mod roots;
pub mod searches;
pub mod texts;
pub mod tools;
pub mod views;
