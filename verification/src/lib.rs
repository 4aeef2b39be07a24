//! A resumable pipeline that sorts the entries of a directory into a
//! two-level taxonomy (cabinets holding shelves), records every decision in a
//! store, derives a reorganization plan from the store, and decides the moves
//! that carry the plan out.
pub mod batch_processor;
pub mod config;
pub mod database;
pub mod executor;
pub mod file_analyzer;
pub mod models;
pub mod order;
pub mod planner;
pub mod providers;
pub mod scanner;
pub mod text;
