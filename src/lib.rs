//! Docking-layout engine: a tree of dockable panel containers, the rules that
//! rearrange it, and the two pointer-driven controllers that edit it.
//!
//! Fractions (split ratios, positions normalised to a container's bounds) are
//! fixed-point integers where `fixed::ONE` stands for 1.0.

pub mod fixed;
pub mod model;
pub mod tree;
pub mod zones;
pub mod layout;
pub mod drag;
pub mod divider;
pub mod persistence;
