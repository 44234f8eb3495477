//! Normalisation of raw probe output into one record per file.

use vstd::prelude::*;
use vstd::string::*;
use crate::probe::{RawProbeResult, StreamInfo, first_height, first_width, video_codec,
    languages_of, stream_language};
use crate::text::{texts, all_digits, digits_in_range, decimal_text, parse_digits, parse_u64,
    parse_u64_spec, to_decimal};

verus! {

/// Why a probed file yields no record.
#[derive(Debug, Clone, Copy, PartialEq, Eq, Structural)]
pub enum ExtractionError {
    /// No stream has a height.
    MissingHeight,
    /// No stream has a width.
    MissingWidth,
    /// The duration is present and is not a non-negative decimal number.
    MalformedDuration,
}

impl ExtractionError {
    /// The wording of the failure.
    pub open spec fn reason(self) -> Seq<char> {
        match self {
            ExtractionError::MissingHeight => "no stream has a height"@,
            ExtractionError::MissingWidth => "no stream has a width"@,
            ExtractionError::MalformedDuration => "the duration is not a decimal number"@,
        }
    }

    /// The diagnostic for a file: the wording of the failure, then the path.
    pub fn message(&self, path: &str) -> (r: String)
        ensures
            r@ == self.reason() + ": "@ + path@,
    {
        let mut out = match self {
            ExtractionError::MissingHeight => String::from_str("no stream has a height"),
            ExtractionError::MissingWidth => String::from_str("no stream has a width"),
            ExtractionError::MalformedDuration => String::from_str(
                "the duration is not a decimal number",
            ),
        };
        out.append(": ");
        out.append(path);
        out
    }
}

/// The normalised record of one file.
#[derive(Debug, Clone)]
pub struct MediaStats {
    pub height: i64,
    pub width: i64,
    pub duration: String,
    pub file_size_bytes: u64,
    pub codec_name: String,
    pub audio_languages: Vec<String>,
    pub subtitles: Vec<String>,
}

/// A record as mathematical values.
pub struct MediaStatsView {
    pub height: i64,
    pub width: i64,
    pub duration: Seq<char>,
    pub file_size_bytes: u64,
    pub codec_name: Seq<char>,
    pub audio_languages: Seq<Seq<char>>,
    pub subtitles: Seq<Seq<char>>,
}

impl MediaStats {
    /// No subtitle language is listed twice.
    pub open spec fn well_formed(&self) -> bool {
        texts(self.subtitles@).no_duplicates()
    }
}

impl View for MediaStats {
    type V = MediaStatsView;

    open spec fn view(&self) -> MediaStatsView {
        MediaStatsView {
            height: self.height,
            width: self.width,
            duration: self.duration@,
            file_size_bytes: self.file_size_bytes,
            codec_name: self.codec_name@,
            audio_languages: texts(self.audio_languages@),
            subtitles: texts(self.subtitles@),
        }
    }
}

/// The position of the first `.`, or the length where there is none.
pub open spec fn first_dot(s: Seq<char>) -> int
    decreases s.len(),
{
    if s.len() == 0 {
        0
    } else if s[0] == '.' {
        0
    } else {
        1 + first_dot(s.drop_first())
    }
}

/// The first `.` lies within the text, and a `.` stands there.
pub proof fn lemma_first_dot_bounds(s: Seq<char>)
    ensures
        0 <= first_dot(s) <= s.len(),
        first_dot(s) < s.len() ==> s[first_dot(s)] == '.',
    decreases s.len(),
{
    if s.len() > 0 && s[0] != '.' {
        lemma_first_dot_bounds(s.drop_first());
    }
}

/// The digits before the first `.`.
pub open spec fn whole_part(s: Seq<char>) -> Seq<char> {
    s.subrange(0, first_dot(s))
}

/// What follows the first `.`; empty where there is none.
pub open spec fn fraction_part(s: Seq<char>) -> Seq<char> {
    if first_dot(s) < s.len() {
        s.subrange(first_dot(s) + 1, s.len() as int)
    } else {
        Seq::empty()
    }
}

/// Whether a digit other than `0` occurs.
pub open spec fn has_nonzero(s: Seq<char>) -> bool {
    exists|i: int| 0 <= i < s.len() && #[trigger] s[i] != '0'
}

/// The quotient of `whole` (plus a positive fraction below one, where
/// `more` holds) by `unit`, rounded to the nearest integer, a tie to the
/// even one.
pub open spec fn round_half_even(whole: nat, more: bool, unit: nat) -> nat
    recommends
        unit > 0,
        unit % 2 == 0,
{
    let q = whole / unit;
    let r = whole % unit;
    if r < unit / 2 {
        q
    } else if r > unit / 2 || more {
        q + 1
    } else if q % 2 == 0 {
        q
    } else {
        q + 1
    }
}

/// The rounded quotient lies within half a unit of the exact one.
pub proof fn lemma_round_is_nearest(whole: nat, more: bool, unit: nat)
    requires
        unit >= 2,
        unit % 2 == 0,
    ensures
        round_half_even(whole, more, unit) * unit <= whole + unit / 2,
        whole <= round_half_even(whole, more, unit) * unit + unit / 2,
        more ==> whole < round_half_even(whole, more, unit) * unit + unit / 2,
{
    let q = whole / unit;
    let r = whole % unit;
    assert(whole == q * unit + r && 0 <= r < unit) by (nonlinear_arith)
        requires
            q == whole / unit,
            r == whole % unit,
            unit >= 2,
    ;
    assert((q + 1) * unit == q * unit + unit) by (nonlinear_arith);
}

/// A duration text is digits with at most one `.` among them and at least
/// one digit, whose whole seconds fit 64 bits.
pub open spec fn is_duration(s: Seq<char>) -> bool {
    &&& whole_part(s).len() + fraction_part(s).len() >= 1
    &&& all_digits(fraction_part(s))
    &&& digits_in_range(whole_part(s)) is Some
}

/// The whole minutes nearest to an unsigned duration in seconds, in decimal
/// digits.
pub open spec fn unsigned_minutes_spec(s: Seq<char>) -> Option<Seq<char>> {
    if is_duration(s) {
        Some(
            decimal_text(
                round_half_even(
                    digits_in_range(whole_part(s)).unwrap() as nat,
                    has_nonzero(fraction_part(s)),
                    60,
                ),
            ),
        )
    } else {
        None
    }
}

/// Rounds a count of units to the nearest multiple of `unit`, in units of it.
pub fn round_div(whole: u64, more: bool, unit: u64) -> (r: u64)
    requires
        unit >= 2,
        unit % 2 == 0,
    ensures
        r == round_half_even(whole as nat, more, unit as nat),
{
    let q: u64 = whole / unit;
    let r: u64 = whole % unit;
    let half: u64 = unit / 2;
    assert(q < u64::MAX) by (nonlinear_arith)
        requires
            q == whole / unit,
            unit >= 2,
            whole <= u64::MAX,
    ;
    if r < half {
        q
    } else if r > half || more {
        q + 1
    } else if q % 2 == 0 {
        q
    } else {
        q + 1
    }
}

/// The text without one leading `+`, if it has one.
pub open spec fn strip_plus(s: Seq<char>) -> Seq<char> {
    if s.len() > 0 && s[0] == '+' {
        s.subrange(1, s.len() as int)
    } else {
        s
    }
}

/// The whole minutes nearest to a duration in seconds, in decimal digits.
/// The duration may begin with one `+`; a `-` or an exponent makes it
/// malformed.
pub open spec fn duration_minutes_spec(s: Seq<char>) -> Option<Seq<char>> {
    unsigned_minutes_spec(strip_plus(s))
}

/// Converts a duration in seconds, given as decimal text, to whole minutes.
pub fn duration_minutes(s: &str) -> (r: Option<String>)
    ensures
        r is Some == duration_minutes_spec(s@) is Some,
        r matches Some(m) ==> Some(m@) == duration_minutes_spec(s@),
{
    let n: usize = s.unicode_len();
    if n > 0 && s.get_char(0) == '+' {
        unsigned_minutes(s.substring_char(1, n))
    } else {
        unsigned_minutes(s)
    }
}

/// Converts an unsigned duration in seconds, given as decimal text, to
/// whole minutes.
pub fn unsigned_minutes(s: &str) -> (r: Option<String>)
    ensures
        r is Some == unsigned_minutes_spec(s@) is Some,
        r matches Some(m) ==> Some(m@) == unsigned_minutes_spec(s@),
{
    let n: usize = s.unicode_len();
    let mut dot: usize = 0;
    proof {
        assert(s@.subrange(0, n as int) =~= s@);
    }
    while dot < n && s.get_char(dot) != '.'
        invariant
            dot <= n == s@.len(),
            first_dot(s@) == dot + first_dot(s@.subrange(dot as int, n as int)),
        decreases n - dot,
    {
        proof {
            assert(s@.subrange(dot as int, n as int).drop_first() =~= s@.subrange(
                dot as int + 1,
                n as int,
            ));
        }
        dot += 1;
    }
    proof {
        assert(s@.subrange(0, n as int) =~= s@);
        lemma_first_dot_bounds(s@);
        if dot < n {
            assert(s@.subrange(dot as int, n as int)[0] == '.');
        }
        assert(first_dot(s@) == dot);
    }
    let whole = parse_digits(s, 0, dot);
    let from: usize = if dot < n { dot + 1 } else { n };
    proof {
        assert(fraction_part(s@) =~= s@.subrange(from as int, n as int));
    }
    let ghost frac = s@.subrange(from as int, n as int);
    let mut more = false;
    let mut i: usize = from;
    while i < n
        invariant
            from <= i <= n == s@.len(),
            frac == s@.subrange(from as int, n as int),
            frac == fraction_part(s@),
            all_digits(frac.subrange(0, i - from)),
            more == has_nonzero(frac.subrange(0, i - from)),
        decreases n - i,
    {
        let c = s.get_char(i);
        proof {
            assert(frac[i - from] == c);
        }
        if !(c >= '0' && c <= '9') {
            return None;
        }
        proof {
            let prev = frac.subrange(0, i - from);
            let next = frac.subrange(0, i - from + 1);
            assert(next[i - from] == c);
            assert forall|j: int| 0 <= j < next.len() implies crate::text::is_digit(
                #[trigger] next[j],
            ) by {
                if j < i - from {
                    assert(next[j] == prev[j]);
                }
            }
            if has_nonzero(prev) {
                let j = choose|j: int| 0 <= j < prev.len() && #[trigger] prev[j] != '0';
                assert(next[j] == prev[j]);
            }
            if has_nonzero(next) && c == '0' {
                let j = choose|j: int| 0 <= j < next.len() && #[trigger] next[j] != '0';
                assert(prev[j] == next[j]);
            }
        }
        if c != '0' {
            more = true;
        }
        i += 1;
    }
    proof {
        assert(frac.subrange(0, i - from) =~= frac);
    }
    if dot + (n - from) == 0 {
        return None;
    }
    match whole {
        None => None,
        Some(w) => Some(to_decimal(round_div(w, more, 60))),
    }
}

/// The entries in order of first occurrence, each once.
pub open spec fn dedup(s: Seq<Seq<char>>) -> Seq<Seq<char>>
    decreases s.len(),
{
    if s.len() == 0 {
        Seq::empty()
    } else {
        let rest = dedup(s.drop_last());
        if rest.contains(s.last()) {
            rest
        } else {
            rest.push(s.last())
        }
    }
}

/// Deduplication keeps every distinct entry and repeats none.
pub proof fn lemma_dedup_is_set(s: Seq<Seq<char>>)
    ensures
        dedup(s).no_duplicates(),
        dedup(s).to_set() == s.to_set(),
        dedup(s).len() == s.to_set().len(),
    decreases s.len(),
{
    if s.len() > 0 {
        let rest = dedup(s.drop_last());
        lemma_dedup_is_set(s.drop_last());
        assert forall|x: Seq<char>| s.to_set().contains(x) <==> (s.drop_last().to_set().contains(x)
            || x == s.last()) by {
            if s.to_set().contains(x) {
                let i = choose|i: int| 0 <= i < s.len() && s[i] == x;
                if i < s.len() - 1 {
                    assert(s.drop_last()[i] == x);
                }
            }
            if s.drop_last().to_set().contains(x) {
                let i = choose|i: int| 0 <= i < s.len() - 1 && s.drop_last()[i] == x;
                assert(s[i] == x);
            }
            if x == s.last() {
                assert(s[s.len() - 1] == x);
            }
        }
        if rest.contains(s.last()) {
            assert(dedup(s).to_set() =~= s.to_set());
        } else {
            let out = rest.push(s.last());
            assert forall|x: Seq<char>| out.to_set().contains(x) <==> (rest.to_set().contains(x)
                || x == s.last()) by {
                if out.to_set().contains(x) {
                    let i = choose|i: int| 0 <= i < out.len() && out[i] == x;
                    if i < rest.len() {
                        assert(rest[i] == x);
                    }
                }
                if rest.to_set().contains(x) {
                    let i = choose|i: int| 0 <= i < rest.len() && rest[i] == x;
                    assert(out[i] == x);
                }
                if x == s.last() {
                    assert(out[out.len() - 1] == x);
                }
            }
            assert(out.to_set() =~= s.to_set());
        }
        dedup(s).unique_seq_to_set();
    } else {
        assert(s.to_set() =~= Set::<Seq<char>>::empty());
        assert(dedup(s).to_set() =~= Set::<Seq<char>>::empty());
    }
}

/// Whether a text occurs among the entries.
fn contains_text(v: &Vec<String>, s: &String) -> (r: bool)
    ensures
        r == texts(v@).contains(s@),
{
    let mut i: usize = 0;
    while i < v.len()
        invariant
            i <= v.len(),
            forall|j: int| 0 <= j < i ==> texts(v@)[j] != s@,
        decreases v.len() - i,
    {
        if v[i] == *s {
            assert(texts(v@)[i as int] == s@);
            return true;
        }
        i += 1;
    }
    false
}

/// Drops every entry that occurred before, keeping the order of the rest.
pub fn dedup_texts(raw: &Vec<String>) -> (r: Vec<String>)
    ensures
        texts(r@) == dedup(texts(raw@)),
{
    let mut out: Vec<String> = Vec::new();
    let mut i: usize = 0;
    proof {
        assert(texts(out@) =~= dedup(texts(raw@).subrange(0, 0)));
    }
    while i < raw.len()
        invariant
            i <= raw.len(),
            texts(out@) == dedup(texts(raw@).subrange(0, i as int)),
        decreases raw.len() - i,
    {
        let ghost before = texts(out@);
        proof {
            let cur = texts(raw@).subrange(0, i as int + 1);
            assert(cur.drop_last() =~= texts(raw@).subrange(0, i as int));
            assert(cur.last() == raw@[i as int]@);
        }
        if !contains_text(&out, &raw[i]) {
            out.push(raw[i].clone());
            assert(texts(out@) =~= before.push(raw@[i as int]@));
        }
        i += 1;
    }
    proof {
        assert(texts(raw@).subrange(0, i as int) =~= texts(raw@));
    }
    out
}

/// The languages of the streams of one kind, in stream order.
pub fn stream_languages(streams: &Vec<StreamInfo>, kind: &str) -> (r: Vec<String>)
    ensures
        texts(r@) == languages_of(streams@, kind@),
{
    let wanted = String::from_str(kind);
    let mut out: Vec<String> = Vec::new();
    let mut i: usize = 0;
    proof {
        assert(texts(out@) =~= languages_of(streams@.subrange(0, 0), kind@));
    }
    while i < streams.len()
        invariant
            i <= streams.len(),
            wanted@ == kind@,
            texts(out@) == languages_of(streams@.subrange(0, i as int), kind@),
        decreases streams.len() - i,
    {
        let ghost before = texts(out@);
        proof {
            let cur = streams@.subrange(0, i as int + 1);
            assert(cur.drop_last() =~= streams@.subrange(0, i as int));
            assert(cur.last() == streams@[i as int]);
        }
        let stream = &streams[i];
        let of_kind = match &stream.codec_type {
            Some(t) => *t == wanted,
            None => false,
        };
        if of_kind {
            let language = match &stream.tags {
                Some(t) => match &t.language {
                    Some(l) => l.clone(),
                    None => String::from_str("N/A"),
                },
                None => String::from_str("N/A"),
            };
            out.push(language);
            assert(texts(out@) =~= before.push(stream_language(streams@[i as int])));
        }
        i += 1;
    }
    proof {
        assert(streams@.subrange(0, i as int) =~= streams@);
    }
    out
}

/// Scans for the first stream with a height.
fn find_height(streams: &Vec<StreamInfo>) -> (r: Option<i64>)
    ensures
        r == first_height(streams@),
{
    let mut i: usize = 0;
    proof {
        assert(streams@.subrange(0, streams@.len() as int) =~= streams@);
    }
    while i < streams.len()
        invariant
            i <= streams.len(),
            first_height(streams@) == first_height(
                streams@.subrange(i as int, streams@.len() as int),
            ),
        decreases streams.len() - i,
    {
        proof {
            assert(streams@.subrange(i as int, streams@.len() as int).drop_first()
                =~= streams@.subrange(i as int + 1, streams@.len() as int));
        }
        if streams[i].height.is_some() {
            return streams[i].height;
        }
        i += 1;
    }
    None
}

/// Scans for the first stream with a width.
fn find_width(streams: &Vec<StreamInfo>) -> (r: Option<i64>)
    ensures
        r == first_width(streams@),
{
    let mut i: usize = 0;
    proof {
        assert(streams@.subrange(0, streams@.len() as int) =~= streams@);
    }
    while i < streams.len()
        invariant
            i <= streams.len(),
            first_width(streams@) == first_width(
                streams@.subrange(i as int, streams@.len() as int),
            ),
        decreases streams.len() - i,
    {
        proof {
            assert(streams@.subrange(i as int, streams@.len() as int).drop_first()
                =~= streams@.subrange(i as int + 1, streams@.len() as int));
        }
        if streams[i].width.is_some() {
            return streams[i].width;
        }
        i += 1;
    }
    None
}

/// Scans for the first video stream and takes its codec name.
fn find_video_codec(streams: &Vec<StreamInfo>) -> (r: String)
    ensures
        r@ == video_codec(streams@),
{
    let video = String::from_str("video");
    let mut i: usize = 0;
    proof {
        assert(streams@.subrange(0, streams@.len() as int) =~= streams@);
    }
    while i < streams.len()
        invariant
            i <= streams.len(),
            video@ == "video"@,
            video_codec(streams@) == video_codec(
                streams@.subrange(i as int, streams@.len() as int),
            ),
        decreases streams.len() - i,
    {
        proof {
            assert(streams@.subrange(i as int, streams@.len() as int).drop_first()
                =~= streams@.subrange(i as int + 1, streams@.len() as int));
        }
        let stream = &streams[i];
        let is_video = match &stream.codec_type {
            Some(t) => *t == video,
            None => false,
        };
        if is_video {
            return match &stream.codec_name {
                Some(c) => c.clone(),
                None => String::from_str("N/A"),
            };
        }
        i += 1;
    }
    String::from_str("N/A")
}

/// The whole minutes of a file: `0` where the probe gave no duration.
pub open spec fn minutes_of(duration: Option<String>) -> Option<Seq<char>> {
    match duration {
        Some(d) => duration_minutes_spec(d@),
        None => Some(seq!['0']),
    }
}

/// The size in bytes: 0 where the text is no unsigned decimal number.
pub open spec fn size_of(size: Seq<char>) -> u64 {
    match parse_u64_spec(size) {
        Some(v) => v,
        None => 0,
    }
}

/// The record that a probe result yields, or why it yields none. A missing
/// height is reported before a missing width, and either before a malformed
/// duration.
pub open spec fn extract_spec(info: RawProbeResult) -> Result<MediaStatsView, ExtractionError> {
    let streams = info.streams@;
    if first_height(streams) is None {
        Err(ExtractionError::MissingHeight)
    } else if first_width(streams) is None {
        Err(ExtractionError::MissingWidth)
    } else if minutes_of(info.format.duration) is None {
        Err(ExtractionError::MalformedDuration)
    } else {
        Ok(
            MediaStatsView {
                height: first_height(streams).unwrap(),
                width: first_width(streams).unwrap(),
                duration: minutes_of(info.format.duration).unwrap(),
                file_size_bytes: size_of(info.format.size@),
                codec_name: video_codec(streams),
                audio_languages: languages_of(streams, "audio"@),
                subtitles: dedup(languages_of(streams, "subtitle"@)),
            },
        )
    }
}

/// The outcome of an extraction as mathematical values.
pub open spec fn outcome_view(r: Result<MediaStats, ExtractionError>) -> Result<
    MediaStatsView,
    ExtractionError,
> {
    match r {
        Ok(m) => Ok(m@),
        Err(e) => Err(e),
    }
}

/// Normalises the raw output of a probe into one record. The outcome is a
/// function of the probe result alone.
pub fn extract_media_stats(info: &RawProbeResult) -> (r: Result<MediaStats, ExtractionError>)
    ensures
        outcome_view(r) == extract_spec(*info),
        r matches Ok(m) ==> m.well_formed() && m@.subtitles.to_set() == languages_of(
            info.streams@,
            "subtitle"@,
        ).to_set(),
{
    let height = match find_height(&info.streams) {
        Some(h) => h,
        None => {
            return Err(ExtractionError::MissingHeight);
        },
    };
    let width = match find_width(&info.streams) {
        Some(w) => w,
        None => {
            return Err(ExtractionError::MissingWidth);
        },
    };
    let minutes = match &info.format.duration {
        Some(d) => duration_minutes(d.as_str()),
        None => {
            proof {
                reveal_strlit("0");
                assert("0"@ =~= seq!['0']);
            }
            Some(String::from_str("0"))
        },
    };
    let duration = match minutes {
        Some(m) => m,
        None => {
            return Err(ExtractionError::MalformedDuration);
        },
    };
    let file_size_bytes: u64 = match parse_u64(info.format.size.as_str()) {
        Some(v) => v,
        None => 0,
    };
    let codec_name = find_video_codec(&info.streams);
    let audio_languages = stream_languages(&info.streams, "audio");
    let raw_subtitles = stream_languages(&info.streams, "subtitle");
    let subtitles = dedup_texts(&raw_subtitles);
    proof {
        lemma_dedup_is_set(languages_of(info.streams@, "subtitle"@));
    }
    Ok(MediaStats { height, width, duration, file_size_bytes, codec_name, audio_languages, subtitles })
}

} // verus!
