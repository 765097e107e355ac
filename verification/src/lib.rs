//! Reconstruction of per-peer Bitswap wantlists from monitored traffic.
//!
//! Monitors on a content-addressed network record the wantlist messages and
//! the connection events of the peers that they see. From a stream of such
//! records the engine of this crate rebuilds, peer by peer, what each peer
//! wants at every moment, and writes one row for every wantlist entry and
//! every connection event, each entry marked as the duplicate that it is.
//!
//! - [`wantlist`] holds the messages as they come and the rows as they go.
//! - [`ledger`] holds the state of one peer and the four operations on it.
//! - [`detectors`] finds the duplicates within sliding windows and marks rows.
//! - [`engine`] holds one ledger for every peer and takes in the messages.
//! - [`model`] says, as a mathematical function of the state and the
//!   message, what the engine does; [`laws`] proves what follows from it.
//! - [`driver`] numbers the messages of a run and closes the run.
//! - [`naming`] names the files that a run reads and writes.
//! - [`monitoring`] and [`archive`] serve the collectors that publish and keep
//!   the records; [`probing`] finds the peers behind gateways among them;
//!   [`unixfs`] describes the nodes found inside blocks.
//! - [`sorted`], [`text`] and [`timestamp`] are what the others stand on:
//!   sequences sorted by key, the order of strings, and points in time.
//!
//! Everything here is verified: every function is proved to meet the
//! contract that it states. Three functions are taken on trust, each a call
//! of functions from elsewhere under a contract that is stated and not
//! proved: `text::push_char`, the formatting of a time in `archive`, and the
//! later form of an identifier in `probing`.

pub mod archive;
pub mod detectors;
pub mod driver;
pub mod engine;
pub mod error;
pub mod laws;
pub mod ledger;
pub mod model;
pub mod monitoring;
pub mod naming;
pub mod probing;
pub mod sorted;
pub mod text;
pub mod timestamp;
pub mod unixfs;
pub mod wantlist;
