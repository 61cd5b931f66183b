//! A non-interactive Schnorr proof of knowledge of a discrete logarithm over
//! the Ristretto group, bound to a message by the Fiat-Shamir transform.
pub mod codec;
pub mod group;
pub mod model;
pub mod schnorr;
