//! The core of a small package manager.
//!
//! A package database ([`pkgdb`]) holds the records ([`pkginfo`]) of the
//! packages of one set ([`set`]): those that a repository offers, or those that
//! are installed. A selection of packages is resolved ([`resolve`]) to the part
//! of a database that it needs ([`subgraph`]), following dependencies, which
//! are package references ([`query`]) with version requirements
//! ([`requirement`], [`version`]). A record is written to and read from the
//! form that a database file holds ([`record`]). What is installed already is
//! filtered out ([`install`]); an installation is then run step by step ([`pipeline`]), and
//! a removal is planned and finished ([`remove`]). The work on files, on the
//! network and on child processes is left to the caller, who is told what to
//! do ([`files`], [`utils`], [`config`], [`repo`]).
//!
//! Every function comes with a contract that is proved of its body. The
//! `semver` and `sha2` crates are called through a few functions whose
//! contracts are stated and not proved; each says so.

pub mod config;
pub mod errors;
pub mod files;
pub mod graph;
pub mod install;
pub mod package;
pub mod pipeline;
pub mod pkgdb;
pub mod pkginfo;
pub mod query;
pub mod record;
pub mod remove;
pub mod repo;
pub mod requirement;
pub mod resolve;
pub mod set;
pub mod subgraph;
pub mod text;
pub mod utils;
pub mod version;
pub mod wrappers;
