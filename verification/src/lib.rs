//! Sliding-window rate accounting and alert-decision engine for a passive
//! TLS-fingerprint rate monitor.
//!
//! The crate keeps a per-key table of bounded rolling windows of per-second
//! counts, evaluates a strict threshold over each window, and decides when a
//! block alert must be emitted, deduplicated, or re-emitted. All timestamps
//! are whole seconds supplied by the caller, which keeps the engine
//! deterministic and testable.

pub mod args;
pub mod bucket;
pub mod cidr;
pub mod clock;
pub mod keymap;
pub mod keys;
pub mod logdata;
pub mod monitor;
pub mod poster;
pub mod rollingwindow;
pub mod strutil;
pub mod whitelist;
