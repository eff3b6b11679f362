//! A card is one run's immutable record: what it came from, what it cost, the samples it
//! produced, how it scored, the checkpoint it left. Cards are kept in an append-only log, so
//! that a card exists from the moment a run starts rather than only when one succeeds, and so
//! that nothing depending on a card can be written without it.
//!
//! This crate is the mechanism: the decisions that must hold at the instant a write lands, the
//! fold that keeps the read models in step with the log, and the moving out, bringing back and
//! removing of history. It does no I/O. What talks to the log, to the database and to the
//! file system asks it what to do and hands back what came of it.
//!
//! - [`rule`] and [`command`] decide what may be written, [`history`] is what that promises.
//! - [`projection`] folds an event into statements of [`sql`], [`tables`] is what they make of
//!   the read models, [`pruning`] what a prune takes out of them and leaves, [`carry`] brings a
//!   database of an older name up to this one.
//! - [`export`], [`import`] and [`wire`] move the log out and back, [`retain`] removes what the
//!   exports vouch for, [`blobs`] names bytes and collects those nothing points at.
//! - [`json`], [`print`], [`record`], [`reading`] are events and values, [`digest`] is the
//!   fingerprint of a value, [`stamp`], [`lines`] and [`text`] are about text, [`root`] is where a
//!   store is opened.
//! - What all of it promises is said once more from outside, of what goes in and what comes out:
//!   [`said`] of the fields of an event, [`rows`] of the columns they end up in, [`written`] of
//!   the events that are built and the decisions they hang on, [`texts`] and [`canon`] of JSON as
//!   text, [`files`] of names and lines, [`refusals`] of what is said where something is refused.
pub mod blobs;
pub mod canon;
pub mod carry;
pub mod command;
pub mod digest;
pub mod export;
pub mod files;
pub mod history;
pub mod import;
pub mod json;
pub mod lines;
pub mod print;
pub mod projection;
pub mod pruning;
pub mod reading;
pub mod record;
pub mod refusals;
pub mod retain;
pub mod root;
pub mod rows;
pub mod rule;
pub mod said;
pub mod sql;
pub mod stamp;
pub mod tables;
pub mod text;
pub mod texts;
pub mod wire;
pub mod written;

pub use blobs::Blob;
pub use json::Value;
pub use record::Recorded;
