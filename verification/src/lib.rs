//! Upstream version checks for OpenWrt package makefiles.
//!
//! A makefile is read into its variables ([`vars`], [`expand`]) and into what it
//! says of its package: name, version, and where its source comes from
//! ([`makefile_parser`]).  The answers of the source's host or registry give the
//! latest version ([`tags`], [`github`], [`forges`], [`registries`], [`pages`]),
//! which is compared with the current one ([`version`], [`markers`]) under the rules of the
//! configuration ([`config`], [`upstream`]).  The results are reported
//! ([`reporter`], [`i18n`]), held to those of the run before ([`snapshot`]), and
//! written back into makefiles ([`makefile_updater`], [`rereading`]).  What a user
//! decides on the way stands in [`session`].
//!
//! The library makes no request and touches no file: it takes texts and answers,
//! and returns results.  Contracts speak of texts as sequences of characters
//! ([`text`]).  Calls into other crates stand in [`outside`], with the patterns
//! that they are given in [`patterns`].
//!
//! What the functions do together is stated as laws, proof functions whose names
//! start with `law_`.  Those on one module stand in it; the others stand by their
//! subject: texts ([`laws_of_texts`]), make expressions ([`laws_of_make`],
//! [`laws_of_expansion`]), makefiles and their sources ([`laws_of_makefiles`],
//! [`laws_of_sources`], [`laws_of_updates`]), versions ([`laws_of_versions`]), answers
//! ([`laws_of_answers`], [`laws_of_forges`]), and the course of a check and of a
//! session ([`laws_of_checks`], [`laws_of_sessions`]).

pub mod config;
pub mod expand;
pub mod forges;
pub mod github;
pub mod i18n;
pub mod laws_of_answers;
pub mod laws_of_checks;
pub mod laws_of_expansion;
pub mod laws_of_forges;
pub mod laws_of_make;
pub mod laws_of_makefiles;
pub mod laws_of_sessions;
pub mod laws_of_sources;
pub mod laws_of_texts;
pub mod laws_of_updates;
pub mod laws_of_versions;
pub mod makefile_parser;
pub mod makefile_updater;
pub mod markers;
pub mod outside;
pub mod pages;
pub mod patterns;
pub mod registries;
pub mod rereading;
pub mod reporter;
pub mod session;
pub mod snapshot;
pub mod tags;
pub mod text;
pub mod upstream;
pub mod vars;
pub mod version;
