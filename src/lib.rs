//! An on-device UI engine core: a declarative view tree parsed from JSON,
//! laid out as boxes, painted into a software framebuffer, and hit-tested
//! back to the stable ids that the scripting layer assigned.
pub mod color;
pub mod canvas;
pub mod json;
pub mod style;
pub mod tree;
pub mod layout;
pub mod paint;
pub mod timers;
pub mod host;
pub mod input;
