//! Detection of shared content in the pixels of a captured window. Captures rest on the
//! accessibility tree alone; what the pixels show serves diagnosis.

pub mod analysis;
pub mod background;
pub mod color;
pub mod edges;
pub mod exclusion;
pub mod margins;
pub mod mask;
pub mod picture;
pub mod projection;
pub mod sampling;
pub mod scoring;
pub mod select;
pub mod separator;
pub mod teams;
pub mod theme;
pub mod visual;
