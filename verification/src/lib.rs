//! Drag-to-capture core: turns pointer events into a selection rectangle,
//! throttles rectangle updates, plans a timed burst of screenshots and
//! assembles the captured frames into a looping GIF.

pub mod assembler;
pub mod capture;
pub mod codec;
pub mod drag;
pub mod geometry;
pub mod listing;
pub mod naming;
pub mod raster;
