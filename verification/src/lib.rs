//! A rule-driven file organiser, as a library.
//!
//! Rules name watched directories, say which of their children belong there
//! and where the others go. [`planner`] turns rules and directory listings
//! into a plan, [`executor`] carries a plan out step by step, and [`report`]
//! says what happened. None of them touches the disk: each states what it
//! needs, and is handed the answer. [`world`] and [`disk`] say what planning
//! and carrying out come to when those answers are fixed.

pub mod cli;
pub mod config;
pub mod disk;
pub mod executor;
pub mod grouping;
pub mod path;
pub mod plan;
pub mod planner;
pub mod report;
pub mod rule;
pub mod seqs;
pub mod style;
pub mod text;
pub mod world;
