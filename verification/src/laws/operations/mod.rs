//! Laws of the operations: what a call gives for what it was handed, whatever the
//! contract of the operation is written over.
pub mod answers;
pub mod database;
pub mod folders;
pub mod hook;
pub mod pieces;
pub mod roots;
pub mod searches;
pub mod settings;
pub mod tools;
