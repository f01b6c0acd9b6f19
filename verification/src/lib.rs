//! Distributed key generation and BLS threshold signatures over BLS12-381.
//!
//! Each participant runs a local DKG state machine ([`NodeInfo`]): it deals a
//! random polynomial, exchanges Feldman commitments and shares with its peers,
//! qualifies the dealers whose shares verify, and derives a secret share
//! `sk`, a public share `pk` and the master public key `mpk`.  Partial
//! signatures made with `sk` can be verified against `pk` and combined by
//! Lagrange interpolation into a signature valid under `mpk`.
//!
//! Group and field elements are carried opaquely from the `pairing` crate;
//! every element is tracked in specifications by its discrete logarithm with
//! respect to the fixed generator of its (prime-order, cyclic) group, a
//! natural number below [`math::fr_order`].  All protocol logic is verified
//! against that model.

pub mod algebra;
pub mod error;
pub mod idmap;
pub mod math;
pub mod node;
pub mod polynomial;

pub use error::Error;
pub use node::NodeInfo;

