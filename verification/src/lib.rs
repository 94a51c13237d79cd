//! Groth16 proof verification on the alt_bn128 curve for the Zeropool pallet: the byte
//! format of keys, proofs and curve inputs, the curve operations, and the pallet's calls.
pub mod types;
pub mod curve;
pub mod codec;
pub mod layout;
pub mod decode;
pub mod encode;
pub mod alt_bn128;
pub mod groth16;
pub mod pallet;
pub mod curve_calls;

pub use types::{U256, G1, G2, VU256, VK, Proof};
pub use groth16::{
    alt_bn128_g1_neg, alt_bn128_g1_sum, alt_bn128_g1_multiexp, alt_bn128_pairing_check,
    groth16verify,
};
