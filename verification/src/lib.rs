//! A memory store for software agents: five memory kinds, typed links
//! between records, and a query planner.
pub mod seqs;
pub mod text;
pub mod scope;
pub mod time;
pub mod float;
pub mod json;
pub mod predicate;
pub mod memory;
pub mod link;
pub mod links;
pub mod error;
pub mod backend;
pub mod config;
pub mod order;
pub mod records;
pub mod working;
pub mod episodic;
pub mod ast;
pub mod plan;
pub mod planner;
pub mod result;
pub mod tools;
pub mod similarity;
pub mod split;
pub mod procedural;
pub mod semantic;
pub mod adb;
pub mod executor;
pub mod steps;
pub mod mcp;
