//! Sliding windows over sequences of samples, with padding strategies for the
//! boundaries. The element type is generic: the window arithmetic never looks
//! at the values it moves around.

pub mod config;
pub mod padding;
pub mod window;

pub use config::WindowConfig;
pub use padding::PaddingStrategy;
pub use window::Window;
