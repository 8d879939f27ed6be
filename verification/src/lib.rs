//! A verified compiler front end for the ink narrative scripting language.
use vstd::prelude::*;

pub mod ast;
pub mod blocks;
pub mod choice;
pub mod choice_export;
pub mod conditional;
pub mod conditional_export;
pub mod content;
pub mod content_list;
pub mod declarations;
pub mod error;
pub mod expression;
pub mod header;
pub mod hierarchy;
pub mod inline;
pub mod lines;
pub mod list_definition;
pub mod object;
pub mod parsed_expressions;
pub mod parsed_object;
pub mod path;
pub mod ported;
pub mod sequence;
pub mod sequence_export;
pub mod statement;
pub mod stats;
pub mod runtime_tree;
pub mod story;
pub mod text;
pub mod weave;
pub mod weave_export;

verus! {

} // verus!
