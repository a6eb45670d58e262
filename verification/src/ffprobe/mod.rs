//! What the probe tool reports about a container, and the model that the
//! selection rules read.

pub mod error;
pub mod mkv;

use vstd::prelude::*;

verus! {

/// The probe's whole answer for one file.
pub struct FFProbeResult {
    pub format: FFProbeFormat,
    pub streams: Vec<FFProbeStream>,
}

/// One entry of the probe's stream list, as reported.
pub struct FFProbeStream {
    pub codec_name: String,
    pub codec_type: String,
    pub channels: u64,
    pub tags: FFProbeStreamTags,
}

/// The tags of one reported stream; each may be missing.
pub struct FFProbeStreamTags {
    pub language: Option<String>,
    pub title: Option<String>,
    pub filename: Option<String>,
    pub mimetype: Option<String>,
}

/// The container-level numbers, still as text.
pub struct FFProbeFormat {
    pub duration: String,
    pub size: String,
}

} // verus!
