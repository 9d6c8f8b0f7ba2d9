//! Finds visually duplicate photographs, independent of file name,
//! resolution, compression or format.
//!
//! The library computes a perceptual fingerprint for each image (an 8x8
//! average hash plus colour samples), decides whether two fingerprints
//! depict the same photo, groups a collection of fingerprints into clusters
//! with one of two interchangeable strategies, and orders the result so that
//! each cluster's best version comes first.

pub mod config;
pub mod image_error;
pub mod imagehash;
pub mod grouping;
pub mod ordering;
pub mod pipeline;
