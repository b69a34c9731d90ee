//! Interaction core of a small 2D map viewer.
//!
//! The library models the pointer-driven part of the viewer: a pointer
//! tracker that turns raw device events into a world-space cursor state,
//! a registry of scene objects that can be picked up and dragged with the
//! mouse, a zoom controller that rescales objects about the cursor, and a
//! slide-out menu toggle.  All coordinates and scales are exact rationals,
//! so the drag and zoom transforms are stated and proved exactly.
//!
//! The host windowing and rendering layer is deliberately out of scope:
//! it delivers plain input events once per tick and applies the resulting
//! transforms to whatever it draws.

pub mod menu;
pub mod pointer;
pub mod rational;
pub mod registry;
pub mod session;
pub mod vec2;
pub mod zoom;
