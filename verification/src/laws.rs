//! What the functions of the library are for, said of their inputs and results.
//!
//! The contracts say what a function computes; the laws here say what the result is good for, in
//! terms that no contract uses: the value that a text of digits has, the bytes that a path begins
//! with, the actions that are asked for in answer to each event.
pub mod meta;
pub mod path;
pub mod task;
pub mod text;
