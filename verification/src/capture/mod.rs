//! Capturing local input once the cursor leaves the screen towards a neighbour.
pub mod edge;
pub mod geometry;
pub mod hooks;
pub mod indicator;
pub mod keys;
pub mod laws;
pub mod settings;
pub mod transitions;
