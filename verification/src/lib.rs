//! SedX core: a stream editor's expression parser, regex-flavor converters,
//! and the line-cycle execution engine, with their contracts.
use vstd::prelude::*;

pub mod text;
pub mod cli;
pub mod capability;
pub mod regex_engine;
pub mod regex_error;
pub mod command;
pub mod bre_converter;
pub mod ere_converter;
pub mod parser;
pub mod file_processor;
pub mod path_policy;
pub mod config;
pub mod error_helpers;
pub mod backup_manager;
pub mod plan;
pub mod diff_formatter;

verus! {
} // verus!
