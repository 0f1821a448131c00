//! Verified core of a terminal visualiser for a chain pendulum: the cell
//! rasteriser, the viewport arithmetic, the scene composer and the frame
//! driver's state machine.

pub mod chain;
pub mod circle;
pub mod driver;
pub mod line;
pub mod paint;
pub mod scene;
pub mod viewport;
