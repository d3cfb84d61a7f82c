//! Verified core of a community item-sharing coordinator: a registry of who
//! wants which cosmetic, a paginated selection flow, a time-boxed claim
//! negotiation, and a confirmation-gated bulk erasure.

pub mod category;
pub mod erasure;
pub mod negotiation;
pub mod registry;
pub mod selection;
pub mod strcmp;
pub mod text;
