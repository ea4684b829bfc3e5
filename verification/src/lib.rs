//! A minimal partitioned, append-only message broker core.
//!
//! Topics are published into and tailed by independent consumers; what a
//! partition retains is bounded by age and by byte count. The crate is the
//! logic of such a broker, free of I/O and of clocks: time and bytes come in as
//! arguments, bytes and decisions go out as results.
//!
//! The modules, leaves first:
//!
//! * [`message`]: the immutable record stored in a partition.
//! * [`router`]: the pure mapping from a message key to a partition index.
//! * [`log`]: the append-only, gap-free log of one partition.
//! * [`retention`]: the retention policy and the sweep that enforces it.
//! * [`store`]: the log segment store, the partition logs by topic and index.
//! * [`subscriber`]: the bounded delivery queue of one subscription.
//! * [`registry`]: the topic registry, with subscribe, unsubscribe and fan-out.
//! * [`broker`]: the publish path over store, router and registry.
//! * [`connection`]: the per-connection protocol state machine.
//! * [`frame`] and [`wire`]: the layout of requests and replies in bytes.

pub mod broker;
pub mod connection;
pub mod frame;
pub mod log;
pub mod message;
pub mod registry;
pub mod retention;
pub mod router;
pub mod store;
pub mod subscriber;
pub mod wire;
