//! Chaum-Pedersen proof of knowledge of a discrete logarithm, used as a
//! password-free login: the proof arithmetic, the group constants and the
//! verifier's per-user and per-session state.

pub mod auth;
pub mod bignum;
pub mod laws;
pub mod params;
pub mod zkp;
