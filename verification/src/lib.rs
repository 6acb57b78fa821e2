//! Exact arithmetic for small modular rings.
//!
//! The crate has two parts. [`ring`] holds the capability traits of a finite
//! ring and of its elements, together with the bounded modular ring over
//! `u64` residues and a `u32` modulus. [`euclid`] holds the extended
//! Euclidean algorithm, which finds the Bezout coefficients from which a
//! modular inverse is read off, and records every division and substitution
//! step it took. [`divisibility`] is the number theory that the algorithm
//! rests on, and [`decimal`] writes numbers for the labels of rings and
//! elements.
pub mod decimal;
pub mod divisibility;
pub mod euclid;
pub mod ring;
