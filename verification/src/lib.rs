//! Verified core of a small command-line utility that creates files and
//! directories from path-like arguments, optionally applies permission
//! modes, and bootstraps project scaffolding (version control and
//! package-manager initialization) in newly created directories.
//!
//! The core works over an explicit model of its surroundings: the
//! filesystem is a value ([`fsmodel::Fs`]) and the external-process
//! runner is a value ([`runner::Runner`]) that records every spawn and
//! yields a configured outcome per tool. Every decision the utility
//! makes — file-versus-directory intent, idempotent creation, permission
//! application, which scaffolding tools run and in what order, and the
//! isolation of one path's failure from the rest of the batch — is
//! verified here. The unverified shell around the library only moves
//! bytes between this core and the real filesystem and processes.

pub mod pathname;
pub mod report;
pub mod settings;
pub mod fsmodel;
pub mod runner;
pub mod init;
pub mod processor;
