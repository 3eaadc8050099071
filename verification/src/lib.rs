//! A verified core for a partition / fetch / filter / aggregate pipeline.
//!
//! A fixed list of remote-resource identifiers is split into one striped
//! partition per worker; each worker fetches one record at a time, decodes
//! and filters it, and emits accepted records plus the secondary identifiers
//! found inside them onto a single channel; a single aggregator deduplicates
//! the secondary identifiers, streams the accepted records to an output, and
//! stops once every worker has reported completion.
//!
//! The crate holds the decisions of that pipeline — partitioning, filtering,
//! message construction, and the aggregator's state machine — as verified
//! functions over plain values. Network reads, threads and files live with
//! the caller, which hands in fetch outcomes and carries messages between
//! the verified pieces.

pub mod aggregate;

pub mod input;

pub mod message;

pub mod partition;

pub mod record;

pub mod urls;

pub mod worker;
