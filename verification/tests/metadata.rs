use nameforge::exif::{
    coordinate_from_fields, exif_capture_time, extract_gps_coordinates, first_parsed,
    format_system_time, get_date_string, get_file_time, hemisphere, image_metadata,
    parse_gps_rational,
    read_exif_data, resolve_date, try_parse_exif_date, DateSource, FieldValue, FileTimes, Timestamp,
};
use nameforge::gps::{Angle, Rational};

fn r(num: u32, denom: u32) -> Rational {
    Rational { num, denom }
}

fn ts(year: i32, month: u32, day: u32, hour: u32, minute: u32, second: u32) -> Timestamp {
    Timestamp { year, month, day, hour, minute, second, nanosecond: 0 }
}

fn put16(out: &mut Vec<u8>, v: u16) {
    out.extend_from_slice(&v.to_le_bytes());
}

fn put32(out: &mut Vec<u8>, v: u32) {
    out.extend_from_slice(&v.to_le_bytes());
}

fn entry(out: &mut Vec<u8>, tag: u16, kind: u16, count: u32, value: [u8; 4]) {
    put16(out, tag);
    put16(out, kind);
    put32(out, count);
    out.extend_from_slice(&value);
}

fn tiff(date: Option<&str>, gps: Option<(&[u8; 2], [(u32, u32); 3], &[u8; 2], [(u32, u32); 3])>) -> Vec<u8> {
    let mut out = vec![b'I', b'I', 0x2A, 0x00];
    put32(&mut out, 8);
    let n = date.is_some() as u16 + gps.is_some() as u16;
    let ifd0_end = 8 + 2 + 12 * n as u32 + 4;
    let exif_at = ifd0_end;
    let exif_len = if date.is_some() { 2 + 12 + 4 + 20 } else { 0 };
    let gps_at = exif_at + exif_len;
    put16(&mut out, n);
    if date.is_some() {
        entry(&mut out, 0x8769, 4, 1, exif_at.to_le_bytes());
    }
    if gps.is_some() {
        entry(&mut out, 0x8825, 4, 1, gps_at.to_le_bytes());
    }
    put32(&mut out, 0);
    if let Some(d) = date {
        assert_eq!(d.len(), 19);
        put16(&mut out, 1);
        entry(&mut out, 0x9003, 2, 20, (exif_at + 18).to_le_bytes());
        put32(&mut out, 0);
        out.extend_from_slice(d.as_bytes());
        out.push(0);
    }
    if let Some((lat_ref, lat, lon_ref, lon)) = gps {
        let data_at = gps_at + 2 + 48 + 4;
        put16(&mut out, 4);
        entry(&mut out, 1, 2, 2, [lat_ref[0], lat_ref[1], 0, 0]);
        entry(&mut out, 2, 5, 3, data_at.to_le_bytes());
        entry(&mut out, 3, 2, 2, [lon_ref[0], lon_ref[1], 0, 0]);
        entry(&mut out, 4, 5, 3, (data_at + 24).to_le_bytes());
        put32(&mut out, 0);
        for (num, denom) in lat.iter().chain(lon.iter()) {
            put32(&mut out, *num);
            put32(&mut out, *denom);
        }
    }
    out
}

#[test]
fn position_from_metadata() {
    let bytes = tiff(None, Some((b"N\0", [(40, 1), (26, 1), (46, 1)], b"W\0", [(79, 1), (58, 1), (5622, 100)])));
    let exif = read_exif_data(&bytes).expect("metadata");
    let c = extract_gps_coordinates(&exif).expect("position");
    assert_eq!(c.lat, Angle { degrees: r(40, 1), minutes: r(26, 1), seconds: r(46, 1), negative: false });
    assert_eq!(c.lon, Angle { degrees: r(79, 1), minutes: r(58, 1), seconds: r(5622, 100), negative: true });
    assert_eq!(c.lat.to_micro_degrees(), 40_446_111);
    assert_eq!(c.lon.to_micro_degrees(), -79_982_283);
}

#[test]
fn southern_and_eastern_position() {
    let bytes = tiff(None, Some((b"S\0", [(33, 1), (51, 1), (54, 1)], b"E\0", [(151, 1), (12, 1), (36, 1)])));
    let exif = read_exif_data(&bytes).expect("metadata");
    let c = extract_gps_coordinates(&exif).expect("position");
    assert!(c.lat.negative);
    assert!(!c.lon.negative);
    assert_eq!(c.lat.to_micro_degrees(), -33_865_000);
    assert_eq!(c.lon.to_micro_degrees(), 151_210_000);
}

#[test]
fn metadata_without_position() {
    let bytes = tiff(Some("2023:07:15 14:30:45"), None);
    let exif = read_exif_data(&bytes).expect("metadata");
    assert_eq!(extract_gps_coordinates(&exif), None);
}

#[test]
fn position_with_zero_denominator_is_none() {
    let bytes = tiff(None, Some((b"N\0", [(40, 1), (26, 0), (46, 1)], b"W\0", [(79, 1), (58, 1), (56, 1)])));
    let exif = read_exif_data(&bytes).expect("metadata");
    assert_eq!(extract_gps_coordinates(&exif), None);
}

#[test]
fn bytes_that_are_no_image() {
    assert!(read_exif_data(b"").is_none());
    assert!(read_exif_data(b"not an image at all").is_none());
}

#[test]
fn capture_time_from_metadata() {
    let bytes = tiff(Some("2023:07:15 14:30:45"), None);
    let exif = read_exif_data(&bytes).expect("metadata");
    assert_eq!(exif_capture_time(&exif), Some(ts(2023, 7, 15, 14, 30, 45)));
    assert_eq!(try_parse_exif_date(&exif, true), Some("2023-07-15".to_string()));
    assert_eq!(try_parse_exif_date(&exif, false), Some("2023-07-15_14-30-45".to_string()));
}

#[test]
fn capture_time_that_cannot_be_read() {
    let bytes = tiff(Some("2023:13:45 99:99:99"), None);
    let exif = read_exif_data(&bytes).expect("metadata");
    assert_eq!(exif_capture_time(&exif), None);
    assert_eq!(try_parse_exif_date(&exif, true), None);
    let without = tiff(None, Some((b"N\0", [(1, 1), (1, 1), (1, 1)], b"E\0", [(1, 1), (1, 1), (1, 1)])));
    let exif = read_exif_data(&without).expect("metadata");
    assert_eq!(try_parse_exif_date(&exif, true), None);
}

#[test]
fn angles_from_fields() {
    let three = FieldValue::Rational(vec![r(40, 1), r(26, 1), r(46, 1)]);
    assert_eq!(
        parse_gps_rational(Some(&three)),
        Some(Angle { degrees: r(40, 1), minutes: r(26, 1), seconds: r(46, 1), negative: false })
    );
    let four = FieldValue::Rational(vec![r(1, 2), r(3, 4), r(5, 6), r(7, 8)]);
    assert_eq!(
        parse_gps_rational(Some(&four)),
        Some(Angle { degrees: r(1, 2), minutes: r(3, 4), seconds: r(5, 6), negative: false })
    );
    let two = FieldValue::Rational(vec![r(40, 1), r(26, 1)]);
    assert_eq!(parse_gps_rational(Some(&two)), None);
    let zero = FieldValue::Rational(vec![r(40, 1), r(26, 1), r(46, 0)]);
    assert_eq!(parse_gps_rational(Some(&zero)), None);
    assert_eq!(parse_gps_rational(Some(&FieldValue::Ascii(vec![b"N".to_vec()]))), None);
    assert_eq!(parse_gps_rational(Some(&FieldValue::Other)), None);
    assert_eq!(parse_gps_rational(None), None);
}

#[test]
fn hemispheres_from_fields() {
    assert_eq!(hemisphere(Some(&FieldValue::Ascii(vec![b"S".to_vec()])), 'N'), 'S');
    assert_eq!(hemisphere(Some(&FieldValue::Ascii(vec![b"West".to_vec(), b"E".to_vec()])), 'E'), 'W');
    assert_eq!(hemisphere(Some(&FieldValue::Ascii(vec![])), 'N'), 'N');
    assert_eq!(hemisphere(Some(&FieldValue::Ascii(vec![vec![]])), 'E'), 'E');
    assert_eq!(hemisphere(Some(&FieldValue::Other), 'N'), 'N');
    assert_eq!(hemisphere(None, 'E'), 'E');
}

#[test]
fn positions_from_fields() {
    let lat = FieldValue::Rational(vec![r(40, 1), r(26, 1), r(46, 1)]);
    let lon = FieldValue::Rational(vec![r(79, 1), r(58, 1), r(56, 1)]);
    let south = FieldValue::Ascii(vec![b"S".to_vec()]);
    let c = coordinate_from_fields(Some(&lat), Some(&south), Some(&lon), None).unwrap();
    assert!(c.lat.negative);
    assert!(!c.lon.negative);
    let lower = FieldValue::Ascii(vec![b"s".to_vec()]);
    let c = coordinate_from_fields(Some(&lat), Some(&lower), Some(&lon), Some(&lower)).unwrap();
    assert!(!c.lat.negative);
    assert!(!c.lon.negative);
    assert_eq!(coordinate_from_fields(None, Some(&south), Some(&lon), None), None);
    assert_eq!(coordinate_from_fields(Some(&lat), None, None, None), None);
}

#[test]
fn dates_as_text() {
    assert_eq!(format_system_time(&ts(2023, 7, 5, 4, 3, 9), true), "2023-07-05");
    assert_eq!(format_system_time(&ts(2023, 7, 5, 4, 3, 9), false), "2023-07-05_04-03-09");
    assert_eq!(format_system_time(&ts(2023, 12, 31, 23, 59, 59), false), "2023-12-31_23-59-59");
    assert_eq!(format_system_time(&ts(987, 1, 1, 0, 0, 0), true), "0987-01-01");
    assert_eq!(format_system_time(&ts(0, 1, 1, 0, 0, 0), true), "0000-01-01");
    assert_eq!(format_system_time(&ts(-5, 1, 1, 0, 0, 0), true), "-0005-01-01");
    assert_eq!(format_system_time(&ts(12345, 1, 1, 0, 0, 0), true), "+12345-01-01");
    let leap = Timestamp { nanosecond: 1_500_000_000, ..ts(2016, 12, 31, 23, 59, 59) };
    assert_eq!(format_system_time(&leap, false), "2016-12-31_23-59-60");
}

#[test]
fn preferred_file_time() {
    let m = ts(2020, 1, 2, 3, 4, 5);
    let c = ts(2019, 6, 7, 8, 9, 10);
    let both = FileTimes { modified: Some(m), created: Some(c) };
    assert_eq!(get_file_time(&both, true), Some(m));
    assert_eq!(get_file_time(&both, false), Some(c));
    let only_m = FileTimes { modified: Some(m), created: None };
    assert_eq!(get_file_time(&only_m, true), Some(m));
    assert_eq!(get_file_time(&only_m, false), Some(m));
    let only_c = FileTimes { modified: None, created: Some(c) };
    assert_eq!(get_file_time(&only_c, true), Some(c));
    assert_eq!(get_file_time(&only_c, false), Some(c));
    let none = FileTimes { modified: None, created: None };
    assert_eq!(get_file_time(&none, true), None);
}

#[test]
fn first_layout_that_fits() {
    let a = ts(2020, 1, 1, 0, 0, 0);
    let b = ts(2021, 1, 1, 0, 0, 0);
    assert_eq!(first_parsed(Some(a), Some(b)), Some(a));
    assert_eq!(first_parsed(None, Some(b)), Some(b));
    assert_eq!(first_parsed(Some(a), None), Some(a));
    assert_eq!(first_parsed(None, None), None);
}

#[test]
fn date_falls_back_to_the_file_time() {
    let m = ts(2020, 1, 2, 3, 4, 5);
    let times = FileTimes { modified: Some(m), created: None };
    let date = resolve_date(Some(times), false, None, true, false, true);
    assert_eq!(date.text, Some("2020-01-02".to_string()));
    assert_eq!(date.source, DateSource::FileTimeWithoutMetadata);
    let date = resolve_date(Some(times), false, None, false, false, false);
    assert_eq!(date.text, Some("2020-01-02_03-04-05".to_string()));
    assert_eq!(get_date_string(Some(times), &None, true, false, true), Some("2020-01-02".to_string()));
    assert_eq!(get_date_string(Some(times), &None, false, false, true), Some("2020-01-02_03-04-05".to_string()));
}

#[test]
fn date_sources() {
    let m = ts(2020, 1, 2, 3, 4, 5);
    let c = ts(2019, 6, 7, 8, 9, 10);
    let taken = ts(2018, 3, 4, 5, 6, 7);
    let times = FileTimes { modified: Some(m), created: Some(c) };
    let date = resolve_date(Some(times), true, Some(taken), true, false, false);
    assert_eq!(date.text, Some("2018-03-04".to_string()));
    assert_eq!(date.source, DateSource::Metadata);
    let date = resolve_date(Some(times), true, Some(taken), true, true, true);
    assert_eq!(date.text, Some("2020-01-02".to_string()));
    assert_eq!(date.source, DateSource::FileTime);
    let date = resolve_date(Some(times), true, Some(taken), true, true, false);
    assert_eq!(date.text, Some("2019-06-07".to_string()));
    let date = resolve_date(Some(times), true, None, true, false, false);
    assert_eq!(date.text, Some("2019-06-07".to_string()));
    assert_eq!(date.source, DateSource::FileTimeWithoutCaptureTime);
    let date = resolve_date(None, true, Some(taken), true, false, false);
    assert_eq!(date.text, None);
    assert_eq!(date.source, DateSource::Unreadable);
    let none = FileTimes { modified: None, created: None };
    let date = resolve_date(Some(none), false, None, true, true, true);
    assert_eq!(date.text, None);
    assert_eq!(date.source, DateSource::FileTime);
}

#[test]
fn date_from_metadata_or_file() {
    let bytes = tiff(Some("2023:07:15 14:30:45"), None);
    let exif = read_exif_data(&bytes);
    let m = ts(2020, 1, 2, 3, 4, 5);
    let times = FileTimes { modified: Some(m), created: None };
    assert_eq!(get_date_string(Some(times), &exif, true, false, false), Some("2023-07-15".to_string()));
    assert_eq!(get_date_string(Some(times), &exif, true, true, false), Some("2020-01-02".to_string()));
    assert_eq!(get_date_string(None, &exif, true, false, false), None);
}

#[test]
fn metadata_of_an_image() {
    let bytes = tiff(
        Some("2023:07:15 14:30:45"),
        Some((b"N\0", [(40, 1), (26, 1), (46, 1)], b"W\0", [(79, 1), (58, 1), (56, 1)])),
    );
    let metadata = image_metadata(&bytes);
    assert!(metadata.exif.is_some());
    assert_eq!(metadata.capture, Some(ts(2023, 7, 15, 14, 30, 45)));
    assert_eq!(metadata.coordinate.map(|c| (c.lat.to_micro_degrees(), c.lon.to_micro_degrees())), Some((40_446_111, -79_982_222)));
    let none = image_metadata(b"no image");
    assert!(none.exif.is_none());
    assert_eq!(none.coordinate, None);
    assert_eq!(none.capture, None);
}

#[test]
fn dates_of_the_calendar_have_a_fixed_length() {
    let leap = Timestamp { nanosecond: 1_999_999_999, ..ts(9999, 12, 31, 23, 59, 59) };
    for time in [ts(0, 1, 1, 0, 0, 0), ts(7, 9, 9, 9, 9, 9), ts(2024, 2, 29, 12, 0, 30), leap] {
        assert_eq!(format_system_time(&time, true).chars().count(), 10);
        assert_eq!(format_system_time(&time, false).chars().count(), 19);
    }
}

#[test]
fn capture_times_lie_in_the_calendar() {
    for text in ["2023:07:15 14:30:45", "1999:01:01 00:00:00", "9999:12:31 23:59:59"] {
        let exif = read_exif_data(&tiff(Some(text), None)).expect("metadata");
        let time = exif_capture_time(&exif).expect("a capture time");
        assert!((1..=12).contains(&time.month) && (1..=31).contains(&time.day));
        assert!(time.hour <= 23 && time.minute <= 59 && time.second <= 59);
        assert!(time.nanosecond <= 1_999_999_999);
        assert_eq!(image_metadata(&tiff(Some(text), None)).capture, Some(time));
        assert_eq!(format_system_time(&time, false).chars().count(), 19);
    }
    for text in ["2023:00:15 14:30:45", "2023:07:32 14:30:45", "2023:07:15 24:30:45", "2023:07:15 14:60:45"] {
        let exif = read_exif_data(&tiff(Some(text), None)).expect("metadata");
        assert_eq!(exif_capture_time(&exif), None, "{}", text);
    }
}
