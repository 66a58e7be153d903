//! Request routing, error kinds and their response statuses.

use vstd::prelude::*;
use crate::text::str_eq;
use crate::video::{short_video, VideoRecord};

verus! {

/// The kinds of failure a request can meet.
#[derive(Clone, Copy, Debug, PartialEq, Eq, Structural)]
pub enum ErrorKind {
    /// A required request parameter is missing.
    Config,
    /// The upstream feed could not be fetched.
    UpstreamFetch,
    /// The upstream feed is not a well-formed document.
    FeedParse,
    /// A feed entry lacks its video id or title.
    MalformedEntry,
    /// The metadata tool could not be started.
    ToolUnavailable,
    /// The metadata tool reported failure.
    ToolFailed,
    /// The metadata tool's output could not be read.
    ToolParse,
    /// The store could not be written.
    Persistence,
    /// The transformed feed could not be written out as a document.
    Serialize,
}

/// The status of a response to a failed request: a missing parameter is the
/// client's error, every other failure the server's.
pub open spec fn status_of(kind: ErrorKind) -> u16 {
    if kind == ErrorKind::Config {
        400
    } else {
        500
    }
}

/// The response status for a failure of kind `kind`.
pub fn status_code(kind: ErrorKind) -> (r: u16)
    ensures
        r == status_of(kind),
{
    match kind {
        ErrorKind::Config => 400,
        _ => 500,
    }
}

/// Status of a request for a path that is not served.
pub const NOT_FOUND_STATUS: u16 = 404;

/// What to do with a request.
#[derive(Debug)]
pub enum Route {
    /// Serve the transformed feed of this channel.
    Feed(String),
    /// The feed path without a channel id: a failure of kind `Config`.
    MissingChannel,
    /// Any other path.
    NotFound,
}

/// The one path that is served.
pub open spec fn feed_path() -> Seq<char> {
    "/www.youtube.com/feeds/videos.xml"@
}

/// Routes a request by its path and its `channel_id` parameter.
pub fn route(path: &str, channel_id: Option<String>) -> (r: Route)
    ensures
        path@ != feed_path() ==> r is NotFound,
        path@ == feed_path() && channel_id is None ==> r is MissingChannel,
        path@ == feed_path() && channel_id is Some ==> (r matches Route::Feed(c) && c@ == channel_id.unwrap()@),
{
    if !str_eq(path, "/www.youtube.com/feeds/videos.xml") {
        return Route::NotFound;
    }
    match channel_id {
        Some(c) => Route::Feed(c),
        None => Route::MissingChannel,
    }
}

/// What the metadata tool printed, read as numbers.
#[derive(Clone, Copy, Debug, PartialEq, Eq, Structural)]
pub struct ToolMetadata {
    pub duration: u64,
    pub width: u64,
    pub height: u64,
}

/// The record of a finished run of the metadata tool, fetched at
/// `fetched_at` (seconds since the Unix epoch). A run that did not succeed is
/// a tool failure whatever it printed; a successful run must have printed
/// readable output.
pub fn record_from_tool(output: Option<ToolMetadata>, succeeded: bool, fetched_at: i64) -> (r: Result<VideoRecord, ErrorKind>)
    ensures
        !succeeded ==> r == Err::<VideoRecord, ErrorKind>(ErrorKind::ToolFailed),
        succeeded && output is None ==> r == Err::<VideoRecord, ErrorKind>(ErrorKind::ToolParse),
        succeeded && output is Some ==> (r matches Ok(rec) && rec.timestamp == fetched_at
            && rec.length == output.unwrap().duration
            && rec.is_short == short_video(output.unwrap().duration, output.unwrap().width, output.unwrap().height)),
{
    if !succeeded {
        return Err(ErrorKind::ToolFailed);
    }
    match output {
        None => Err(ErrorKind::ToolParse),
        Some(m) => Ok(VideoRecord::from_metadata(m.duration, m.width, m.height, fetched_at)),
    }
}

} // verus!
