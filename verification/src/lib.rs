//! Scoring and coordination logic of an HTTP benchmark runner.
//!
//! A benchmark drives a target service through three phases (prepare, load,
//! validation). Every step of a scenario reports the points it gained and the
//! failures it met; this crate keeps those books and decides, for the load
//! phase, how a bounded pool of workers is fed and drained.
//!
//! - [`score`] and [`errors`] hold the two accumulators: the point table
//!   with its log of events, and the ledger of failures and penalties.
//! - [`agent`] holds the settings of the agent that sends the requests.
//! - [`benchmark`] holds the scenarios, the three phases and the result, and
//!   below it [`benchmark::load`], the decisions of the actors of the load
//!   phase, with a model of their interplay.
//! - [`tally`] holds the facts about sums that the totals rest on.
//!
//! Nothing here touches the network, a channel or a thread: a program that
//! runs a benchmark supplies the steps, which send the requests, and the
//! workers of the load phase.
pub mod agent;
pub mod benchmark;
pub mod errors;
pub mod score;
pub mod tally;

