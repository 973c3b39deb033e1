//! Keeps a plain-text DNS zone manifest and a managed DNS server process in step:
//! a lossless codec for the manifest's line grammar, a mutation builder for new
//! manifest revisions, and the decision logic of the watch/reconcile/restart loop.

pub mod text;
pub mod record;
pub mod manifest;
pub mod control;
