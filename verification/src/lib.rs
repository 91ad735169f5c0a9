//! Verified core of the cathar audio-restoration toolbox.
//!
//! The numeric signal processing of the toolbox works on floating-point
//! samples; this crate holds the parts of it that are decisions, layouts and
//! file formats over integers and bytes, each with a contract proved by Verus.

pub mod aac;
pub mod buffer;
pub mod clicks;
pub mod edit;
pub mod container;
pub mod error;
pub mod analysis;
pub mod frames;
pub mod gaps;
pub mod methods;
pub mod noise;
pub mod plosive;
pub mod quiet;
pub mod voice;
