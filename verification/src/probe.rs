//! The raw output of a media probe, as plain values.

use vstd::prelude::*;

verus! {

/// Tag metadata of one stream.
#[derive(Debug, Clone)]
pub struct StreamTags {
    pub language: Option<String>,
}

/// One stream descriptor of a probed file.
#[derive(Debug, Clone)]
pub struct StreamInfo {
    pub codec_type: Option<String>,
    pub codec_name: Option<String>,
    pub width: Option<i64>,
    pub height: Option<i64>,
    pub tags: Option<StreamTags>,
}

/// The format descriptor of a probed file: duration in seconds and size in
/// bytes, both as text.
#[derive(Debug, Clone)]
pub struct FormatInfo {
    pub duration: Option<String>,
    pub size: String,
}

/// Everything a probe reports about one file.
#[derive(Debug, Clone)]
pub struct RawProbeResult {
    pub streams: Vec<StreamInfo>,
    pub format: FormatInfo,
}

/// Whether the stream's codec type is the given kind.
pub open spec fn has_kind(s: StreamInfo, kind: Seq<char>) -> bool {
    s.codec_type matches Some(t) && t@ == kind
}

/// The language a stream is tagged with, or `N/A`.
pub open spec fn stream_language(s: StreamInfo) -> Seq<char> {
    match s.tags {
        Some(t) => match t.language {
            Some(l) => l@,
            None => "N/A"@,
        },
        None => "N/A"@,
    }
}

/// The height of the first stream that has one.
pub open spec fn first_height(streams: Seq<StreamInfo>) -> Option<i64>
    decreases streams.len(),
{
    if streams.len() == 0 {
        None
    } else if streams[0].height is Some {
        streams[0].height
    } else {
        first_height(streams.drop_first())
    }
}

/// The width of the first stream that has one.
pub open spec fn first_width(streams: Seq<StreamInfo>) -> Option<i64>
    decreases streams.len(),
{
    if streams.len() == 0 {
        None
    } else if streams[0].width is Some {
        streams[0].width
    } else {
        first_width(streams.drop_first())
    }
}

/// The codec name of the first video stream; `N/A` where there is no video
/// stream or it has no codec name.
pub open spec fn video_codec(streams: Seq<StreamInfo>) -> Seq<char>
    decreases streams.len(),
{
    if streams.len() == 0 {
        "N/A"@
    } else if has_kind(streams[0], "video"@) {
        match streams[0].codec_name {
            Some(c) => c@,
            None => "N/A"@,
        }
    } else {
        video_codec(streams.drop_first())
    }
}

/// The languages of the streams of one kind, one entry per stream, in
/// stream order.
pub open spec fn languages_of(streams: Seq<StreamInfo>, kind: Seq<char>) -> Seq<Seq<char>>
    decreases streams.len(),
{
    if streams.len() == 0 {
        Seq::empty()
    } else {
        let rest = languages_of(streams.drop_last(), kind);
        if has_kind(streams.last(), kind) {
            rest.push(stream_language(streams.last()))
        } else {
            rest
        }
    }
}

} // verus!
