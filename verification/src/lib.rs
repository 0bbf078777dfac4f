//! Verified core of a multi-connection download manager: file names and
//! categories, probe responses, segment planning and resume, the download
//! queue, batch and page link extraction, yt-dlp argument building, the
//! scheduler, and the browser bridge's message framing.

use vstd::prelude::*;

pub mod text;
pub mod batch;
pub mod category;
pub mod probe;
pub mod sidecar;
pub mod download;
pub mod names;
pub mod queue;
pub mod grabber;
pub mod youtube;
pub mod playlist;
pub mod schedule;
pub mod settings;
pub mod autostart;
pub mod bridge;
pub mod engine;

verus! {

/// Version of the engine, reported in answers to `ping`.
pub fn version() -> (r: &'static str)
    ensures
        r@ == "0.1.0"@,
{
    "0.1.0"
}

} // verus!
