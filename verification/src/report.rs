//! Report rows and their accumulation.

use vstd::prelude::*;
use vstd::string::*;
use crate::paths::FileInfo;
use crate::stats::{MediaStats, MediaStatsView, round_half_even, round_div};
use crate::text::{join, join_spec, decimal_text, digit_char, to_decimal, texts, signed_text,
    to_signed_decimal, padded_text, to_padded_decimal, lemma_padded_width,
    pow10};

verus! {

/// One line of the report.
#[derive(Debug, Clone)]
pub struct ReportRow {
    pub filename: String,
    pub width: i64,
    pub height: i64,
    pub duration: String,
    pub size_gb: String,
    pub codec_name: String,
    pub audio: String,
    pub subtitles: String,
}

/// A report line as mathematical values.
pub struct ReportRowView {
    pub filename: Seq<char>,
    pub width: i64,
    pub height: i64,
    pub duration: Seq<char>,
    pub size_gb: Seq<char>,
    pub codec_name: Seq<char>,
    pub audio: Seq<char>,
    pub subtitles: Seq<char>,
}

impl View for ReportRow {
    type V = ReportRowView;

    open spec fn view(&self) -> ReportRowView {
        ReportRowView {
            filename: self.filename@,
            width: self.width,
            height: self.height,
            duration: self.duration@,
            size_gb: self.size_gb@,
            codec_name: self.codec_name@,
            audio: self.audio@,
            subtitles: self.subtitles@,
        }
    }
}

/// The titles of the report's columns, in order.
pub open spec fn column_titles_spec() -> Seq<Seq<char>> {
    seq![
        "Filename"@,
        "Width"@,
        "Height"@,
        "Duration (min)"@,
        "Size (GB)"@,
        "Codec"@,
        "Audio"@,
        "Subtitles"@,
    ]
}

/// The titles of the report's columns.
pub fn column_titles() -> (r: Vec<String>)
    ensures
        texts(r@) == column_titles_spec(),
{
    let mut titles: Vec<String> = Vec::new();
    titles.push(String::from_str("Filename"));
    titles.push(String::from_str("Width"));
    titles.push(String::from_str("Height"));
    titles.push(String::from_str("Duration (min)"));
    titles.push(String::from_str("Size (GB)"));
    titles.push(String::from_str("Codec"));
    titles.push(String::from_str("Audio"));
    titles.push(String::from_str("Subtitles"));
    assert(texts(titles@) =~= column_titles_spec());
    titles
}

/// The cells of a report line, one per column, numbers in decimal digits.
pub open spec fn cells_spec(row: ReportRowView) -> Seq<Seq<char>> {
    seq![
        row.filename,
        signed_text(row.width as int),
        signed_text(row.height as int),
        row.duration,
        row.size_gb,
        row.codec_name,
        row.audio,
        row.subtitles,
    ]
}

impl ReportRow {
    /// The cells of the line, one per column.
    pub fn cells(&self) -> (r: Vec<String>)
        ensures
            texts(r@) == cells_spec(self@),
    {
        let mut out: Vec<String> = Vec::new();
        out.push(self.filename.clone());
        out.push(to_signed_decimal(self.width));
        out.push(to_signed_decimal(self.height));
        out.push(self.duration.clone());
        out.push(self.size_gb.clone());
        out.push(self.codec_name.clone());
        out.push(self.audio.clone());
        out.push(self.subtitles.clone());
        assert(texts(out@) =~= cells_spec(self@));
        out
    }
}

/// A size in decimal gigabytes with two decimal places: the bytes in
/// hundredths of a gigabyte, rounded to the nearest, a tie to the even one.
/// The quotient is exact. Binary floating point would round some sizes
/// that lie exactly between two hundredths the other way: 5,000,000 bytes
/// are `0.00` here, and 15,000,000 are `0.02`.
pub open spec fn gigabytes_text(bytes: nat) -> Seq<char> {
    let hundredths = round_half_even(bytes, false, 10_000_000);
    decimal_text(hundredths / 100) + seq![
        '.',
        digit_char(hundredths / 10 % 10),
        digit_char(hundredths % 10),
    ]
}

/// Formats a size in bytes as gigabytes with two decimal places, in exact
/// integer arithmetic; a size exactly between two hundredths goes to the
/// even one, which is not always where floating-point formatting puts it.
pub fn size_gigabytes(bytes: u64) -> (r: String)
    ensures
        r@ == gigabytes_text(bytes as nat),
{
    let hundredths: u64 = round_div(bytes, false, 10_000_000);
    let mut out = to_decimal(hundredths / 100);
    let tenths = to_decimal(hundredths / 10 % 10);
    let last = to_decimal(hundredths % 10);
    proof {
        reveal_strlit(".");
        reveal_with_fuel(decimal_text, 2);
        assert(decimal_text(hundredths as nat / 100) + "."@ + tenths@ + last@ =~= gigabytes_text(
            bytes as nat,
        ));
    }
    out.append(".");
    out.append(tenths.as_str());
    out.append(last.as_str());
    out
}

/// The report line of one file.
pub open spec fn row_spec(filename: Seq<char>, stats: MediaStatsView) -> ReportRowView {
    ReportRowView {
        filename,
        width: stats.width,
        height: stats.height,
        duration: stats.duration,
        size_gb: gigabytes_text(stats.file_size_bytes as nat),
        codec_name: stats.codec_name,
        audio: join_spec(stats.audio_languages, ", "@),
        subtitles: join_spec(stats.subtitles, ", "@),
    }
}

/// Builds the report line of one file from its record.
pub fn build_row(file: &FileInfo, stats: &MediaStats) -> (r: ReportRow)
    ensures
        r@ == row_spec(file.filename@, stats@),
{
    ReportRow {
        filename: file.filename.clone(),
        width: stats.width,
        height: stats.height,
        duration: stats.duration.clone(),
        size_gb: size_gigabytes(stats.file_size_bytes),
        codec_name: stats.codec_name.clone(),
        audio: join(&stats.audio_languages, ", "),
        subtitles: join(&stats.subtitles, ", "),
    }
}

/// The views of a sequence of report lines.
pub open spec fn row_views(rows: Seq<ReportRow>) -> Seq<ReportRowView> {
    Seq::new(rows.len(), |i: int| rows[i]@)
}

/// The report so far: one line per accepted file, in the order of
/// acceptance.
pub struct Aggregator {
    rows: Vec<ReportRow>,
}

impl View for Aggregator {
    type V = Seq<ReportRowView>;

    closed spec fn view(&self) -> Seq<ReportRowView> {
        row_views(self.rows@)
    }
}

impl Aggregator {
    /// An empty report.
    pub fn new() -> (r: Aggregator)
        ensures
            r@ == Seq::<ReportRowView>::empty(),
    {
        let r = Aggregator { rows: Vec::new() };
        assert(r@ =~= Seq::<ReportRowView>::empty());
        r
    }

    /// Appends the line of one file. Earlier lines stay as they are.
    pub fn record(&mut self, file: &FileInfo, stats: &MediaStats)
        ensures
            final(self)@ == old(self)@.push(row_spec(file.filename@, stats@)),
    {
        let row = build_row(file, stats);
        self.rows.push(row);
        assert(self@ =~= old(self)@.push(row_spec(file.filename@, stats@)));
    }

    /// The number of files accepted so far.
    pub fn count(&self) -> (r: usize)
        ensures
            r == self@.len(),
    {
        self.rows.len()
    }

    /// The line at a position.
    pub fn row(&self, i: usize) -> (r: &ReportRow)
        requires
            i < self@.len(),
        ensures
            r@ == self@[i as int],
    {
        &self.rows[i]
    }
}

/// Recording a file adds one to the count and keeps every earlier line.
pub proof fn lemma_record_appends(before: Seq<ReportRowView>, row: ReportRowView)
    ensures
        before.push(row).len() == before.len() + 1,
        before.is_prefix_of(before.push(row)),
        before.push(row).last() == row,
{
    assert(before.push(row).subrange(0, before.len() as int) =~= before);
}

/// The name of the CSV file written at a moment.
pub open spec fn csv_name(stamp: Seq<char>) -> Seq<char> {
    "media-stats_"@ + stamp + ".csv"@
}

/// Names the CSV file after the moment the run began.
pub fn csv_file_name(stamp: &str) -> (r: String)
    ensures
        r@ == csv_name(stamp@),
{
    let mut name = String::from_str("media-stats_");
    name.append(stamp);
    name.append(".csv");
    name
}

/// A moment as the clock gives it: a calendar date and a time of day.
#[derive(Debug, Clone, Copy)]
pub struct ClockReading {
    pub year: i32,
    pub month: u32,
    pub day: u32,
    pub hour: u32,
    pub minute: u32,
    pub second: u32,
}

impl ClockReading {
    /// Month, day, hour, minute and second lie in their calendar ranges.
    pub open spec fn in_range(&self) -> bool {
        &&& 1 <= self.month <= 12
        &&& 1 <= self.day <= 31
        &&& self.hour < 24
        &&& self.minute < 60
        &&& self.second < 60
    }
}

/// A year in at least four digits; with a sign where it is negative or
/// takes more than four.
pub open spec fn year_text(year: int) -> Seq<char> {
    if year < 0 {
        seq!['-'] + padded_text((-year) as nat, 4)
    } else if year < 10000 {
        padded_text(year as nat, 4)
    } else {
        seq!['+'] + decimal_text(year as nat)
    }
}

/// A moment written as `YYYY-MM-DD_HH-MM-SS`.
pub open spec fn stamp_text(c: ClockReading) -> Seq<char> {
    year_text(c.year as int) + seq!['-'] + padded_text(c.month as nat, 2) + seq!['-']
        + padded_text(c.day as nat, 2) + seq!['_'] + padded_text(c.hour as nat, 2) + seq!['-']
        + padded_text(c.minute as nat, 2) + seq!['-'] + padded_text(c.second as nat, 2)
}

/// Writes a year.
pub fn format_year(year: i32) -> (r: String)
    ensures
        r@ == year_text(year as int),
{
    if year < 0 {
        let magnitude: u64 = (-(year as i64)) as u64;
        let digits = to_padded_decimal(magnitude, 4);
        proof {
            reveal_strlit("-");
            assert("-"@ =~= seq!['-']);
        }
        let mut out = String::from_str("-");
        out.append(digits.as_str());
        out
    } else if year < 10000 {
        to_padded_decimal(year as u64, 4)
    } else {
        let digits = to_decimal(year as u64);
        proof {
            reveal_strlit("+");
            assert("+"@ =~= seq!['+']);
        }
        let mut out = String::from_str("+");
        out.append(digits.as_str());
        out
    }
}

/// Writes the moment of a run as `YYYY-MM-DD_HH-MM-SS`. The moment is
/// the caller's to read; nothing here looks at a clock.
pub fn get_current_date(now: &ClockReading) -> (r: String)
    ensures
        r@ == stamp_text(*now),
{
    proof {
        reveal_strlit("-");
        reveal_strlit("_");
        assert("-"@ =~= seq!['-']);
        assert("_"@ =~= seq!['_']);
    }
    let mut out = format_year(now.year);
    out.append("-");
    out.append(to_padded_decimal(now.month as u64, 2).as_str());
    out.append("-");
    out.append(to_padded_decimal(now.day as u64, 2).as_str());
    out.append("_");
    out.append(to_padded_decimal(now.hour as u64, 2).as_str());
    out.append("-");
    out.append(to_padded_decimal(now.minute as u64, 2).as_str());
    out.append("-");
    out.append(to_padded_decimal(now.second as u64, 2).as_str());
    out
}

/// Of a moment in the years 0 to 9999 whose fields lie in their calendar
/// ranges, the stamp has nineteen characters, with the separators at fixed
/// places.
pub proof fn lemma_stamp_shape(c: ClockReading)
    requires
        c.in_range(),
        0 <= c.year < 10000,
    ensures
        stamp_text(c).len() == 19,
        stamp_text(c)[4] == '-',
        stamp_text(c)[7] == '-',
        stamp_text(c)[10] == '_',
        stamp_text(c)[13] == '-',
        stamp_text(c)[16] == '-',
{
    reveal_with_fuel(pow10, 5);
    assert(pow10(2) == 100);
    assert(pow10(4) == 10000);
    lemma_padded_width(c.year as nat, 4);
    lemma_padded_width(c.month as nat, 2);
    lemma_padded_width(c.day as nat, 2);
    lemma_padded_width(c.hour as nat, 2);
    lemma_padded_width(c.minute as nat, 2);
    lemma_padded_width(c.second as nat, 2);
}

} // verus!
