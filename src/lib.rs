//! A proxy for video-channel feeds: entries are enriched with cached video
//! metadata, short-form videos are removed and titles carry the duration.

pub mod duration;
pub mod text;
pub mod video;
pub mod store;
pub mod xml;
pub mod feed;
pub mod service;
