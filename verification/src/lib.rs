//! Analysis of a source repository: resolving the target, checking the
//! toolchain and turning the output of the tools into one report.

pub mod command;
pub mod dependencies;
pub mod download;
pub mod issues;
pub mod json;
pub mod quality;
pub mod report;
pub mod target;
pub mod text;
