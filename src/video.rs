//! Classified metadata of one video.

use vstd::prelude::*;

verus! {

/// Longest duration, in seconds, that a short-form video can have.
pub const SHORT_MAX_SECONDS: u64 = 180;

/// What is known of one video, fixed once it has been fetched.
#[derive(Clone, Copy, Debug, PartialEq, Eq, Structural)]
pub struct VideoRecord {
    /// When the metadata was fetched, in seconds since the Unix epoch.
    pub timestamp: i64,
    /// Length in seconds.
    pub length: u64,
    /// Whether the video is a short.
    pub is_short: bool,
}

/// A video is short when it lasts at most three minutes and is portrait or square.
pub open spec fn short_video(duration: u64, width: u64, height: u64) -> bool {
    duration <= SHORT_MAX_SECONDS && height >= width
}

/// Classifies a video by its duration and frame size.
pub fn is_short_video(duration: u64, width: u64, height: u64) -> (r: bool)
    ensures
        r == short_video(duration, width, height),
{
    duration <= SHORT_MAX_SECONDS && height >= width
}

impl VideoRecord {
    /// The record of a video with the given metadata, fetched at `timestamp`.
    pub fn from_metadata(duration: u64, width: u64, height: u64, timestamp: i64) -> (r: VideoRecord)
        ensures
            r.timestamp == timestamp,
            r.length == duration,
            r.is_short == short_video(duration, width, height),
    {
        VideoRecord { timestamp, length: duration, is_short: is_short_video(duration, width, height) }
    }
}

/// The page of a video, from which its metadata is fetched.
pub open spec fn video_url_text(id: Seq<char>) -> Seq<char> {
    "https://www.youtube.com/watch?v="@ + id
}

/// Builds the canonical page address of a video.
pub fn video_url(id: &str) -> (r: String)
    ensures
        r@ == video_url_text(id@),
{
    let base = String::from_str("https://www.youtube.com/watch?v=");
    base.concat(id)
}

} // verus!
