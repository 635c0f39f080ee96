//! A collection of small, fully verified programming katas.
//!
//! The crate gathers the kind of exercises that usually live in a practice
//! repository: number theory warm-ups, array and string manipulation,
//! classic interview questions, and a priority-ordered to-do list.  Every
//! executable function carries a contract that pins its result down, and
//! the to-do list comes with proved structural laws (ordering, validation,
//! completion marking, pruning).

pub mod anagrams;
pub mod array_ops;
pub mod classics;
pub mod counting;
pub mod frequency;
pub mod grids;
pub mod numbers;
pub mod pairs;
pub mod solution;
pub mod slices;
pub mod strings;
pub mod substrings;
pub mod tasks;
pub mod another_to_do_list;
pub mod text_ops;
pub mod to_do_list;
pub mod whitespace;
