//! Serving core of a video recorder's HTTP layer: request-path routing, the
//! compact segment-selection language, validation and clipping of stored
//! recording rows into composed container segments, listing rendering, and
//! byte-range addressing of composed entities.

pub mod bytestr;
pub mod segments;
pub mod stitch;
pub mod path;
pub mod query;
pub mod listing;
pub mod vfile;
pub mod uifiles;
