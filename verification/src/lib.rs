//! Enforces atomic cross-file changes through `LINT.IfChange` /
//! `LINT.ThenChange` comment directives.
pub mod text;
pub mod check;
pub mod diagnostic;
pub mod directive;
pub mod ext;
pub mod languages;
pub mod lines;
pub mod msg;
pub mod pairs;
pub mod parser;
pub mod skip;
pub mod vcs;
pub mod vcs_mock;
pub mod udiff;
pub mod git;
pub mod jj;
pub mod reports;
pub mod run;
