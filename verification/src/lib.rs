//! Verified core of the VinRouge audit workbench: prompt building, SOP
//! chunking, audit-plan merging, DSL script repair, column mapping and the
//! small decisions behind the data grid and result charts.
pub mod text;
pub mod unicode;
pub mod model;
pub mod seqs;
pub mod prompts;
pub mod order;
pub mod keywords;
pub mod plan_prompt;
pub mod repair;
pub mod table_match;
pub mod files;
pub mod summary;
pub mod assistant;
pub mod charts;
pub mod script_fix;
pub mod generation;
pub mod dsl_syntax;
pub mod chunking;
pub mod json;
pub mod plans;
pub mod results;
pub mod distribution;
pub mod mapping;
pub mod grid;
pub mod pbc;
pub mod requests;
pub mod projects;
pub mod review;
pub mod status;
pub mod setup;
pub mod sections;
pub mod findings;
