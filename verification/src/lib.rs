//! Core library for tfrm, an HCP Terraform / Terraform Enterprise runs
//! client: error and exit-code mapping, credential and workspace
//! resolution, the plan model with its redaction boundary, plan diffing
//! and text rendering.

pub mod error;
pub mod text;

pub use error::Error;
pub mod json;
pub mod order;
pub mod credentials;
pub mod config;
pub mod table;
pub mod cli;
pub mod plan;
pub mod diff;
pub mod show;
pub mod runs;
pub mod workspaces;
pub mod client;
pub mod credfile;
pub mod actions;
pub mod login;
