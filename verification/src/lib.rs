//! Pricing-support core of a concentrated-liquidity pool that synchronizes
//! with an external order-book venue: time-weighted price observation
//! accumulation (a fixed-capacity rolling history with a simple moving
//! average), the one-way readiness gate for the order-book integration, and
//! dual-venue balance reconciliation.

pub mod accumulate;
pub mod buffer;
pub mod decimal;
pub mod error;
pub mod laws;
pub mod msg;
pub mod observation;
pub mod reconcile;
pub mod state;
