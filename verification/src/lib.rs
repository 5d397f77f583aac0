//! Planning and text logic of a media-to-sticker converter: parameter
//! validation, ffmpeg argument and filter construction, the size-fitting
//! encoder loop as a state machine, analysis of ffprobe reports, job
//! bookkeeping for cancellation, file-name handling, and the steps of the
//! preview cache.

pub mod text;
pub mod platform;
pub mod params;
pub mod filters;
pub mod plan;
pub mod probe;
pub mod ffmpeg;
pub mod jobs;
pub mod names;
pub mod preview;
