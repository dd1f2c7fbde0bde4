//! Launcher form logic for starting a new herdr workspace: directory
//! matching, branch-name rules, harness configuration and the form's state
//! machine, each with its contract.

pub mod text;
pub mod git;
pub mod filter;
pub mod fuzzy;
pub mod config;
pub mod app;
pub mod app_laws;
pub mod json;
pub mod herdr;
pub mod harness;
pub mod ui;
pub mod startup;
