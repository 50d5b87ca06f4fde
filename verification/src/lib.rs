//! Download-engine logic of a segmented download manager: file classification,
//! per-site rules, byte-range segmentation, the sliding-window speed meter,
//! aligned write buffers, response-header interpretation and task planning.

pub mod cli;
pub mod engine;
pub mod server;
pub mod text;
