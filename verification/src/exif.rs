//! What an image's metadata says of where and when it was taken, and the date
//! under which the image is filed.

use crate::gps::{Angle, Coordinate, Rational};
use crate::numeral::{
    lemma_padded_decimal_length, magnitude, padded_decimal, push_padded_decimal,
};
use crate::text::string_of;
use chrono::{Datelike, NaiveDateTime, Timelike};
use vstd::prelude::*;

verus! {

/// The decoded metadata of an image.
#[verifier::external_type_specification]
#[verifier::external_body]
pub struct ExExif(::exif::Exif);

/// The number of the field `GPSLatitudeRef` among the GPS fields.
pub const GPS_LATITUDE_REF: u16 = 1;

/// The number of the field `GPSLatitude` among the GPS fields.
pub const GPS_LATITUDE: u16 = 2;

/// The number of the field `GPSLongitudeRef` among the GPS fields.
pub const GPS_LONGITUDE_REF: u16 = 3;

/// The number of the field `GPSLongitude` among the GPS fields.
pub const GPS_LONGITUDE: u16 = 4;

/// The number of the field `DateTimeOriginal` among the Exif fields.
pub const DATE_TIME_ORIGINAL: u16 = 0x9003;

/// The value of a field: fractions, byte strings, or something else.
pub enum FieldValue {
    Rational(Vec<Rational>),
    Ascii(Vec<Vec<u8>>),
    Other,
}

/// A calendar date and a time of day. A `nanosecond` of a thousand million
/// or more marks a leap second.
#[derive(Clone, Copy, Debug, PartialEq, Eq, Structural)]
pub struct Timestamp {
    pub year: i32,
    pub month: u32,
    pub day: u32,
    pub hour: u32,
    pub minute: u32,
    pub second: u32,
    pub nanosecond: u32,
}

/// The fields lie in the ranges of the calendar: a month from 1 to 12, a day
/// from 1 to 31, an hour below 24, minute and second below 60.
pub open spec fn is_calendar_time(time: Timestamp) -> bool {
    &&& 1 <= time.month <= 12
    &&& 1 <= time.day <= 31
    &&& time.hour <= 23
    &&& time.minute <= 59
    &&& time.second <= 59
    &&& time.nanosecond <= 1_999_999_999
}

/// The times that the file system keeps of a file, in local time; each is
/// absent where the file system does not give it.
#[derive(Clone, Copy, Debug, PartialEq, Eq, Structural)]
pub struct FileTimes {
    pub modified: Option<Timestamp>,
    pub created: Option<Timestamp>,
}

/// Where a date was taken from.
#[derive(Clone, Copy, Debug, PartialEq, Eq, Structural)]
pub enum DateSource {
    /// The file system's times were asked for.
    FileTime,
    /// The capture time in the metadata.
    Metadata,
    /// The file system's times, the image having no metadata.
    FileTimeWithoutMetadata,
    /// The file system's times, the metadata having no capture time that
    /// could be read.
    FileTimeWithoutCaptureTime,
    /// Nothing: the file system's times could not be read.
    Unreadable,
}

/// A date as text, and where it was taken from.
pub struct ResolvedDate {
    pub text: Option<String>,
    pub source: DateSource,
}

/// The values of the GPS fields of the primary image, by field number, for
/// the fields that the metadata holds.
pub uninterp spec fn exif_gps_values(exif: ::exif::Exif) -> Map<u16, FieldValue>;

/// The Exif fields of the primary image as the metadata's own display writes
/// them, units included, by field number.
pub uninterp spec fn exif_displays(exif: ::exif::Exif) -> Map<u16, Seq<char>>;

/// The date and time that `chrono` reads from a text in a given layout;
/// nothing where the text does not fit the layout.
pub uninterp spec fn chrono_datetime(text: Seq<char>, layout: Seq<char>) -> Option<Timestamp>;

/// What the metadata in the bytes of an image file holds, as
/// `exif::Reader::read_from_container` decodes it: the values of the GPS
/// fields and the displayed Exif fields of the primary image, each by field
/// number. Nothing where the bytes hold no metadata that can be decoded.
pub uninterp spec fn container_metadata(bytes: Seq<u8>) -> Option<
    (Map<u16, FieldValue>, Map<u16, Seq<char>>),
>;

/// The value under a key, if the map holds the key.
pub open spec fn lookup<K, V>(map: Map<K, V>, key: K) -> Option<V> {
    if map.contains_key(key) {
        Some(map[key])
    } else {
        None
    }
}

/// `exif::Reader::read_from_container` on the bytes of an image file: the
/// metadata that it decodes, or nothing where it reports an error. What the
/// decoded metadata holds depends on the bytes alone.
#[verifier::external_body]
pub fn read_exif_data(bytes: &[u8]) -> (exif: Option<::exif::Exif>)
    ensures
        match exif {
            Some(decoded) => container_metadata(bytes@) == Some(
                (exif_gps_values(decoded), exif_displays(decoded)),
            ),
            None => container_metadata(bytes@) is None,
        },
{
    let mut reader = std::io::Cursor::new(bytes);
    ::exif::Reader::new().read_from_container(&mut reader).ok()
}

/// `exif::Exif::get_field` for a GPS field of the primary image: the value
/// of the field with this number, or nothing where the metadata has no such
/// field. A value that is neither fractions nor byte strings is given as
/// `Other`.
#[verifier::external_body]
fn gps_field_value(exif: &::exif::Exif, number: u16) -> (value: Option<FieldValue>)
    ensures
        value == lookup(exif_gps_values(*exif), number),
{
    let tag = ::exif::Tag(::exif::Context::Gps, number);
    exif.get_field(tag, ::exif::In::PRIMARY).map(
        |field|
            match &field.value {
                ::exif::Value::Rational(v) => FieldValue::Rational(
                    v.iter().map(|r| Rational { num: r.num, denom: r.denom }).collect(),
                ),
                ::exif::Value::Ascii(v) => FieldValue::Ascii(v.clone()),
                _ => FieldValue::Other,
            },
    )
}

/// `exif::Field::display_value` with the unit, for an Exif field of the
/// primary image: the text of the value of the field with this number, or
/// nothing where the metadata has no such field.
#[verifier::external_body]
fn exif_field_display(exif: &::exif::Exif, number: u16) -> (text: Option<String>)
    ensures
        optional_view(text) == lookup(exif_displays(*exif), number),
{
    let tag = ::exif::Tag(::exif::Context::Exif, number);
    exif.get_field(tag, ::exif::In::PRIMARY).map(
        |field| field.display_value().with_unit(exif).to_string(),
    )
}

/// `chrono::NaiveDateTime::parse_from_str`: the date and time that the text
/// holds in the given layout, or nothing where it reports an error. What it
/// gives is a time of the calendar: its fields, as `chrono::Datelike` and
/// `chrono::Timelike` hand them out, lie in the ranges that `is_calendar_time`
/// states.
#[verifier::external_body]
fn parse_datetime(text: &str, layout: &str) -> (time: Option<Timestamp>)
    ensures
        time == chrono_datetime(text@, layout@),
        time matches Some(t) ==> is_calendar_time(t),
{
    let parsed = NaiveDateTime::parse_from_str(text, layout).ok()?;
    Some(
        Timestamp {
            year: parsed.year(),
            month: parsed.month(),
            day: parsed.day(),
            hour: parsed.hour(),
            minute: parsed.minute(),
            second: parsed.second(),
            nanosecond: parsed.nanosecond(),
        },
    )
}

/// The angle that a field of three fractions holds: nothing where the field
/// is absent, holds no fractions, fewer than three, or a denominator of zero
/// among the first three.
pub open spec fn angle_of(field: Option<FieldValue>) -> Option<Angle> {
    match field {
        Some(FieldValue::Rational(parts)) => {
            if parts@.len() >= 3 && parts@[0].denom > 0 && parts@[1].denom > 0 && parts@[2].denom
                > 0 {
                Some(
                    Angle {
                        degrees: parts@[0],
                        minutes: parts@[1],
                        seconds: parts@[2],
                        negative: false,
                    },
                )
            } else {
                None
            }
        },
        _ => None,
    }
}

/// The hemisphere letter that a reference field holds: the first byte of its
/// first text, or `default` where the field is absent or has no such byte.
pub open spec fn hemisphere_of(field: Option<FieldValue>, default: char) -> char {
    match field {
        Some(FieldValue::Ascii(texts)) => {
            if texts@.len() > 0 && texts@[0]@.len() > 0 {
                texts@[0]@[0] as char
            } else {
                default
            }
        },
        _ => default,
    }
}

/// The position that four fields give: south and west count as negative, and
/// there is no position where latitude or longitude is no angle.
pub open spec fn coordinate_of(
    latitude: Option<FieldValue>,
    latitude_ref: Option<FieldValue>,
    longitude: Option<FieldValue>,
    longitude_ref: Option<FieldValue>,
) -> Option<Coordinate> {
    match (angle_of(latitude), angle_of(longitude)) {
        (Some(lat), Some(lon)) => Some(
            Coordinate {
                lat: Angle { negative: hemisphere_of(latitude_ref, 'N') == 'S', ..lat },
                lon: Angle { negative: hemisphere_of(longitude_ref, 'E') == 'W', ..lon },
            },
        ),
        _ => None,
    }
}

/// The year as a date shows it: four digits from 0 to 9999, else a sign and
/// four digits or more.
pub open spec fn year_text(year: int) -> Seq<char> {
    if 0 <= year <= 9999 {
        padded_decimal(year as nat, 4)
    } else if year < 0 {
        seq!['-'] + padded_decimal(magnitude(year), 4)
    } else {
        seq!['+'] + padded_decimal(magnitude(year), 4)
    }
}

/// The second as a date shows it: 60 in a leap second.
pub open spec fn shown_second(time: Timestamp) -> nat {
    (time.second + time.nanosecond / 1_000_000_000) as nat
}

/// Year, month and day with hyphens between them.
pub open spec fn day_text(time: Timestamp) -> Seq<char> {
    year_text(time.year as int) + seq!['-'] + padded_decimal(time.month as nat, 2) + seq!['-']
        + padded_decimal(time.day as nat, 2)
}

/// Hour, minute and second with hyphens between them.
pub open spec fn clock_text(time: Timestamp) -> Seq<char> {
    padded_decimal(time.hour as nat, 2) + seq!['-'] + padded_decimal(time.minute as nat, 2) + seq![
        '-',
    ] + padded_decimal(shown_second(time), 2)
}

/// The date as it stands in a file name: the day alone, or the day, an
/// underscore and the time.
pub open spec fn date_text(time: Timestamp, date_only: bool) -> Seq<char> {
    if date_only {
        day_text(time)
    } else {
        day_text(time) + seq!['_'] + clock_text(time)
    }
}

/// The date of a time of the calendar in a year of four digits at most is ten
/// characters long, and nineteen with the time of day.
pub proof fn lemma_date_text_length(time: Timestamp, date_only: bool)
    requires
        is_calendar_time(time),
        0 <= time.year <= 9999,
    ensures
        date_text(time, date_only).len() == if date_only {
            10nat
        } else {
            19nat
        },
{
    lemma_padded_decimal_length(time.year as nat, 4);
    lemma_padded_decimal_length(time.month as nat, 2);
    lemma_padded_decimal_length(time.day as nat, 2);
    lemma_padded_decimal_length(time.hour as nat, 2);
    lemma_padded_decimal_length(time.minute as nat, 2);
    lemma_padded_decimal_length(shown_second(time), 2);
}

/// The file time to use: the preferred one, or the other where the preferred
/// one is absent.
pub open spec fn file_time_of(times: FileTimes, prefer_modified: bool) -> Option<Timestamp> {
    if prefer_modified {
        if times.modified is Some {
            times.modified
        } else {
            times.created
        }
    } else {
        if times.created is Some {
            times.created
        } else {
            times.modified
        }
    }
}

/// The capture time that a displayed field holds: read with colons in the
/// date, or else with hyphens.
pub open spec fn capture_time_of(display: Seq<char>) -> Option<Timestamp> {
    if chrono_datetime(display, "%Y:%m:%d %H:%M:%S"@) is Some {
        chrono_datetime(display, "%Y:%m:%d %H:%M:%S"@)
    } else {
        chrono_datetime(display, "%Y-%m-%d %H:%M:%S"@)
    }
}

/// The capture time among displayed Exif fields, if they hold one that can be
/// read.
pub open spec fn capture_in(displays: Map<u16, Seq<char>>) -> Option<Timestamp> {
    match lookup(displays, DATE_TIME_ORIGINAL) {
        Some(display) => capture_time_of(display),
        None => None,
    }
}

/// The position among GPS values, if they hold latitude and longitude.
pub open spec fn coordinate_in(values: Map<u16, FieldValue>) -> Option<Coordinate> {
    coordinate_of(
        lookup(values, GPS_LATITUDE),
        lookup(values, GPS_LATITUDE_REF),
        lookup(values, GPS_LONGITUDE),
        lookup(values, GPS_LONGITUDE_REF),
    )
}

/// The capture time that the metadata holds, if it holds one that can be read.
pub open spec fn capture_time(exif: ::exif::Exif) -> Option<Timestamp> {
    capture_in(exif_displays(exif))
}

/// The timestamp that gives a file its date, and where it is taken from.
///
/// Without readable file times there is none. The file time is taken where it
/// is asked for, and where the metadata gives no capture time.
pub open spec fn resolved_time(
    times: Option<FileTimes>,
    has_metadata: bool,
    capture: Option<Timestamp>,
    use_file_date: bool,
    prefer_modified: bool,
) -> (Option<Timestamp>, DateSource) {
    match times {
        None => (None, DateSource::Unreadable),
        Some(times) => {
            if use_file_date {
                (file_time_of(times, prefer_modified), DateSource::FileTime)
            } else if !has_metadata {
                (file_time_of(times, prefer_modified), DateSource::FileTimeWithoutMetadata)
            } else if capture is None {
                (file_time_of(times, prefer_modified), DateSource::FileTimeWithoutCaptureTime)
            } else {
                (capture, DateSource::Metadata)
            }
        },
    }
}

/// The text of a timestamp that may be absent.
pub open spec fn optional_date_text(time: Option<Timestamp>, date_only: bool) -> Option<Seq<char>> {
    match time {
        Some(t) => Some(date_text(t, date_only)),
        None => None,
    }
}

/// The view of a string that may be absent.
pub open spec fn optional_view(text: Option<String>) -> Option<Seq<char>> {
    match text {
        Some(t) => Some(t@),
        None => None,
    }
}

/// What the metadata says of the image, for `resolved_time`.
pub open spec fn metadata_capture(exif_opt: Option<::exif::Exif>) -> Option<Timestamp> {
    match exif_opt {
        Some(exif) => capture_time(exif),
        None => None,
    }
}

/// The angle that a field of three fractions holds.
pub fn parse_gps_rational(field: Option<&FieldValue>) -> (angle: Option<Angle>)
    ensures
        angle == angle_of(
            match field {
                Some(value) => Some(*value),
                None => None,
            },
        ),
        angle matches Some(a) ==> a.wf() && !a.negative,
{
    match field {
        Some(FieldValue::Rational(parts)) => {
            if parts.len() >= 3 && parts[0].denom > 0 && parts[1].denom > 0 && parts[2].denom > 0 {
                Some(
                    Angle {
                        degrees: parts[0],
                        minutes: parts[1],
                        seconds: parts[2],
                        negative: false,
                    },
                )
            } else {
                None
            }
        },
        _ => None,
    }
}

/// The hemisphere letter that a reference field holds.
pub fn hemisphere(field: Option<&FieldValue>, default: char) -> (letter: char)
    ensures
        letter == hemisphere_of(
            match field {
                Some(value) => Some(*value),
                None => None,
            },
            default,
        ),
{
    match field {
        Some(FieldValue::Ascii(texts)) => {
            if texts.len() > 0 && texts[0].len() > 0 {
                texts[0][0] as char
            } else {
                default
            }
        },
        _ => default,
    }
}

/// The position that four fields give.
pub fn coordinate_from_fields(
    latitude: Option<&FieldValue>,
    latitude_ref: Option<&FieldValue>,
    longitude: Option<&FieldValue>,
    longitude_ref: Option<&FieldValue>,
) -> (coordinate: Option<Coordinate>)
    ensures
        coordinate == coordinate_of(
            match latitude {
                Some(value) => Some(*value),
                None => None,
            },
            match latitude_ref {
                Some(value) => Some(*value),
                None => None,
            },
            match longitude {
                Some(value) => Some(*value),
                None => None,
            },
            match longitude_ref {
                Some(value) => Some(*value),
                None => None,
            },
        ),
        coordinate matches Some(c) ==> c.wf(),
{
    let lat_letter = hemisphere(latitude_ref, 'N');
    let lon_letter = hemisphere(longitude_ref, 'E');
    match (parse_gps_rational(latitude), parse_gps_rational(longitude)) {
        (Some(lat), Some(lon)) => Some(
            Coordinate {
                lat: Angle {
                    degrees: lat.degrees,
                    minutes: lat.minutes,
                    seconds: lat.seconds,
                    negative: lat_letter == 'S',
                },
                lon: Angle {
                    degrees: lon.degrees,
                    minutes: lon.minutes,
                    seconds: lon.seconds,
                    negative: lon_letter == 'W',
                },
            },
        ),
        _ => None,
    }
}

/// The position that the metadata records, if it records latitude and
/// longitude.
pub fn extract_gps_coordinates(exif: &::exif::Exif) -> (coordinate: Option<Coordinate>)
    ensures
        coordinate == coordinate_of(
            lookup(exif_gps_values(*exif), GPS_LATITUDE),
            lookup(exif_gps_values(*exif), GPS_LATITUDE_REF),
            lookup(exif_gps_values(*exif), GPS_LONGITUDE),
            lookup(exif_gps_values(*exif), GPS_LONGITUDE_REF),
        ),
        coordinate matches Some(c) ==> c.wf(),
{
    let latitude = gps_field_value(exif, GPS_LATITUDE);
    let latitude_ref = gps_field_value(exif, GPS_LATITUDE_REF);
    let longitude = gps_field_value(exif, GPS_LONGITUDE);
    let longitude_ref = gps_field_value(exif, GPS_LONGITUDE_REF);
    coordinate_from_fields(
        latitude.as_ref(),
        latitude_ref.as_ref(),
        longitude.as_ref(),
        longitude_ref.as_ref(),
    )
}

fn push_year(out: &mut Vec<char>, year: i32)
    ensures
        final(out)@ == old(out)@ + year_text(year as int),
{
    if 0 <= year && year <= 9999 {
        push_padded_decimal(out, year as u64, 4);
    } else if year < 0 {
        out.push('-');
        push_padded_decimal(out, (-(year as i64)) as u64, 4);
        assert(out@ =~= old(out)@ + year_text(year as int));
    } else {
        out.push('+');
        push_padded_decimal(out, year as u64, 4);
        assert(out@ =~= old(out)@ + year_text(year as int));
    }
}

/// The timestamp as it stands in a file name.
pub fn format_system_time(time: &Timestamp, date_only: bool) -> (text: String)
    ensures
        text@ == date_text(*time, date_only),
{
    let mut out: Vec<char> = Vec::new();
    push_year(&mut out, time.year);
    out.push('-');
    push_padded_decimal(&mut out, time.month as u64, 2);
    out.push('-');
    push_padded_decimal(&mut out, time.day as u64, 2);
    assert(out@ =~= day_text(*time));
    if !date_only {
        out.push('_');
        push_padded_decimal(&mut out, time.hour as u64, 2);
        out.push('-');
        push_padded_decimal(&mut out, time.minute as u64, 2);
        out.push('-');
        let second: u64 = time.second as u64 + (time.nanosecond / 1_000_000_000) as u64;
        push_padded_decimal(&mut out, second, 2);
        assert(out@ =~= day_text(*time) + seq!['_'] + clock_text(*time));
    }
    string_of(&out)
}

/// The file time to use: the preferred one, or the other where the preferred
/// one is absent.
pub fn get_file_time(times: &FileTimes, prefer_modified: bool) -> (time: Option<Timestamp>)
    ensures
        time == file_time_of(*times, prefer_modified),
{
    let (primary, fallback) = if prefer_modified {
        (times.modified, times.created)
    } else {
        (times.created, times.modified)
    };
    match primary {
        Some(t) => Some(t),
        None => fallback,
    }
}

/// The capture time that a displayed field holds, given what reading it with
/// colons in the date and with hyphens gave.
pub fn first_parsed(with_colons: Option<Timestamp>, with_hyphens: Option<Timestamp>) -> (time:
    Option<Timestamp>)
    ensures
        time == if with_colons is Some {
            with_colons
        } else {
            with_hyphens
        },
{
    match with_colons {
        Some(t) => Some(t),
        None => with_hyphens,
    }
}

/// The capture time that the metadata holds, if it holds one that can be read.
pub fn exif_capture_time(exif: &::exif::Exif) -> (time: Option<Timestamp>)
    ensures
        time == capture_time(*exif),
        time matches Some(t) ==> is_calendar_time(t),
{
    match exif_field_display(exif, DATE_TIME_ORIGINAL) {
        Some(display) => {
            let with_colons = parse_datetime(display.as_str(), "%Y:%m:%d %H:%M:%S");
            let with_hyphens = parse_datetime(display.as_str(), "%Y-%m-%d %H:%M:%S");
            first_parsed(with_colons, with_hyphens)
        },
        None => None,
    }
}

/// What the metadata of an image says of it.
pub struct ImageMetadata {
    /// The decoded metadata, if the image has metadata that can be decoded.
    pub exif: Option<::exif::Exif>,
    /// The position that the metadata records.
    pub coordinate: Option<Coordinate>,
    /// The capture time that the metadata holds.
    pub capture: Option<Timestamp>,
}

/// The metadata in the bytes of an image file, with the position and the
/// capture time that it holds.
pub fn image_metadata(bytes: &[u8]) -> (metadata: ImageMetadata)
    ensures
        match metadata.exif {
            Some(decoded) => container_metadata(bytes@) == Some(
                (exif_gps_values(decoded), exif_displays(decoded)),
            ),
            None => container_metadata(bytes@) is None,
        },
        metadata.coordinate == match container_metadata(bytes@) {
            Some(held) => coordinate_in(held.0),
            None => None,
        },
        metadata.capture == match container_metadata(bytes@) {
            Some(held) => capture_in(held.1),
            None => None,
        },
        metadata.coordinate matches Some(c) ==> c.wf(),
        metadata.capture matches Some(t) ==> is_calendar_time(t),
{
    let exif = read_exif_data(bytes);
    let (coordinate, capture) = match &exif {
        Some(decoded) => (extract_gps_coordinates(decoded), exif_capture_time(decoded)),
        None => (None, None),
    };
    ImageMetadata { exif, coordinate, capture }
}

/// The capture time of the metadata as it stands in a file name.
pub fn try_parse_exif_date(exif: &::exif::Exif, date_only: bool) -> (text: Option<String>)
    ensures
        optional_view(text) == optional_date_text(capture_time(*exif), date_only),
{
    match exif_capture_time(exif) {
        Some(time) => Some(format_system_time(&time, date_only)),
        None => None,
    }
}

/// The date of a file and where it is taken from, given the file's times,
/// whether it has metadata, and the capture time that the metadata gives.
pub fn resolve_date(
    times: Option<FileTimes>,
    has_metadata: bool,
    capture: Option<Timestamp>,
    date_only: bool,
    use_file_date: bool,
    prefer_modified: bool,
) -> (date: ResolvedDate)
    ensures
        optional_view(date.text) == optional_date_text(
            resolved_time(times, has_metadata, capture, use_file_date, prefer_modified).0,
            date_only,
        ),
        date.source == resolved_time(
            times,
            has_metadata,
            capture,
            use_file_date,
            prefer_modified,
        ).1,
{
    let times = match times {
        Some(t) => t,
        None => {
            return ResolvedDate { text: None, source: DateSource::Unreadable };
        },
    };
    let (time, source) = if use_file_date {
        (get_file_time(&times, prefer_modified), DateSource::FileTime)
    } else if !has_metadata {
        (get_file_time(&times, prefer_modified), DateSource::FileTimeWithoutMetadata)
    } else {
        match capture {
            Some(t) => (Some(t), DateSource::Metadata),
            None => (
                get_file_time(&times, prefer_modified),
                DateSource::FileTimeWithoutCaptureTime,
            ),
        }
    };
    let text = match time {
        Some(t) => Some(format_system_time(&t, date_only)),
        None => None,
    };
    ResolvedDate { text, source }
}

/// The date of a file as it stands in its name: from the file's times where
/// `use_file_date` asks for them, else from the capture time of the metadata,
/// and from the file's times where there is no such capture time. Nothing
/// where the file's times could not be read.
pub fn get_date_string(
    times: Option<FileTimes>,
    exif_opt: &Option<::exif::Exif>,
    date_only: bool,
    use_file_date: bool,
    prefer_modified: bool,
) -> (text: Option<String>)
    ensures
        optional_view(text) == optional_date_text(
            resolved_time(
                times,
                exif_opt is Some,
                metadata_capture(*exif_opt),
                use_file_date,
                prefer_modified,
            ).0,
            date_only,
        ),
{
    let capture = match exif_opt {
        Some(exif) => exif_capture_time(exif),
        None => None,
    };
    resolve_date(
        times,
        exif_opt.is_some(),
        capture,
        date_only,
        use_file_date,
        prefer_modified,
    ).text
}

/// A file without metadata whose file times were not asked for is filed under
/// its time of modification, where that time is the preferred one or the only
/// one that the file system gives.
pub proof fn lemma_date_falls_back_to_modified(
    times: FileTimes,
    modified: Timestamp,
    date_only: bool,
    prefer_modified: bool,
)
    requires
        times.modified == Some(modified),
        prefer_modified || times.created is None,
    ensures
        optional_date_text(
            resolved_time(Some(times), false, None, false, prefer_modified).0,
            date_only,
        ) == Some(date_text(modified, date_only)),
        resolved_time(Some(times), false, None, false, prefer_modified).1
            == DateSource::FileTimeWithoutMetadata,
{
}

} // verus!
