use std::collections::hash_map::DefaultHasher;
use std::hash::Hasher;

use exif::{experimental::Writer, Field, In, Rational, Tag, Value};

use duplicate_checker::file_data_img::{
    created_on, date_value, dimension_value, exposure_value, get_exposure_time, get_length,
    get_width, parse_from_only_space, FileDataImg,
};
use duplicate_checker::text::{find_byte, parse_decimal, rfind_byte};

fn some(s: &str) -> Option<String> {
    Some(s.to_string())
}

#[test]
fn decimal_reading_follows_from_str() {
    assert_eq!(parse_decimal(b"123", 65535), Some(123));
    assert_eq!(parse_decimal(b"+7", 65535), Some(7));
    assert_eq!(parse_decimal(b"007", 65535), Some(7));
    assert_eq!(parse_decimal(b"65535", 65535), Some(65535));
    assert_eq!(parse_decimal(b"65536", 65535), None);
    assert_eq!(parse_decimal(b"4294967295", u32::MAX), Some(u32::MAX));
    assert_eq!(parse_decimal(b"4294967296", u32::MAX), None);
    assert_eq!(parse_decimal(b"", 65535), None);
    assert_eq!(parse_decimal(b"+", 65535), None);
    assert_eq!(parse_decimal(b"-1", 65535), None);
    assert_eq!(parse_decimal(b"12a", 65535), None);
    assert_eq!(parse_decimal(b" 1", 65535), None);
    assert_eq!(parse_decimal(b"++1", 65535), None);
    for s in ["0", "1", "+42", "65535", "65536", "x", "", "1 "] {
        assert_eq!(parse_decimal(s.as_bytes(), 65535).map(|v| v as u16), s.parse::<u16>().ok());
    }
}

#[test]
fn byte_search() {
    assert_eq!(find_byte(b"a b c", b' '), Some(1));
    assert_eq!(rfind_byte(b"a b c", b' '), Some(3));
    assert_eq!(find_byte(b"abc", b' '), None);
    assert_eq!(rfind_byte(b"", b' '), None);
}

#[test]
fn dimension_is_the_number_before_the_first_space() {
    assert_eq!(parse_from_only_space(&"4032 pixels".to_string()), "4032");
    assert_eq!(parse_from_only_space(&" 1048".to_string()), "");
    assert_eq!(dimension_value("4032 pixels"), Some(4032));
    assert_eq!(dimension_value("17 pixels wide"), Some(17));
    assert_eq!(dimension_value(" 1048"), None);
    assert_eq!(dimension_value("4032"), None);
    assert_eq!(dimension_value("70000 pixels"), None);
    assert_eq!(get_width(&some("4032 pixels")), 4032);
    assert_eq!(get_length(&some("3024 pixels")), 3024);
}

#[test]
fn exposure_is_the_number_between_slash_and_last_space() {
    assert_eq!(exposure_value("1/60 s"), Some(60));
    assert_eq!(exposure_value("/1 "), Some(1));
    assert_eq!(exposure_value("1/2/3 4 s"), None);
    assert_eq!(exposure_value("1/250 s x"), None);
    assert_eq!(exposure_value("0.5 s"), None);
    assert_eq!(exposure_value("1/60"), None);
    assert_eq!(exposure_value("s 1/60"), None);
    assert_eq!(get_exposure_time(&some("1/125 s")), 125);
    assert_eq!(get_exposure_time(&None), 1);
}

#[test]
fn date_has_six_numbers_at_fixed_places() {
    assert_eq!(date_value("2016-09-05 14:21:31"), Some([2016, 9, 5, 14, 21, 31]));
    assert_eq!(date_value("0000 00 00 00 00 00"), Some([0, 0, 0, 0, 0, 0]));
    assert_eq!(date_value("2016-09-05 14:21:3"), None);
    assert_eq!(date_value("2016-09-05 14:21:xx"), None);
    assert_eq!(date_value("unknown"), None);
    assert_eq!(created_on(&None), [0, 0, 0, 0, 0, 0]);
    assert_eq!(created_on(&some("1999:12:31 23:59:59")), [1999, 12, 31, 23, 59, 59]);
}

fn photo(exposure: &str, width: &str, date: &str) -> FileDataImg {
    FileDataImg::from_exif_text(
        1000,
        &some(exposure),
        &some(width),
        &some("3024 pixels"),
        &some(date),
    )
    .unwrap()
}

#[test]
fn photo_from_texts_and_failures() {
    assert!(FileDataImg::from_exif_text(1, &None, &None, &some("1 px"), &None).is_none());
    assert!(FileDataImg::from_exif_text(1, &None, &some("1 px"), &None, &None).is_none());
    assert!(FileDataImg::from_exif_text(1, &None, &some("1 px"), &some("2 px"), &None).is_some());
    assert!(FileDataImg::from_exif_text(1, &some("0.5 s"), &some("1 px"), &some("2 px"), &None)
        .is_none());
}

#[test]
fn photo_equality_ignores_exposure() {
    let a = photo("1/60 s", "4032 pixels", "2016-09-05 14:21:31");
    let b = photo("1/125 s", "4032 pixels", "2016-09-05 14:21:31");
    let c = photo("1/60 s", "4032 pixels", "2016-09-05 14:21:32");
    let d = photo("1/60 s", "4000 pixels", "2016-09-05 14:21:31");
    assert!(a == b);
    assert!(a == a);
    assert!(!(a == c));
    assert!(!(a == d));
    assert!(a.same_record(&a));
    assert!(!a.same_record(&b));
}

#[test]
fn photo_hash_feeds_every_field() {
    let a = photo("1/60 s", "4032 pixels", "2016-09-05 14:21:31");
    let mut state = DefaultHasher::new();
    let h = a.hash(&mut state);
    let mut expected = DefaultHasher::new();
    expected.write_u64(1000);
    expected.write_u16(4032);
    expected.write_u16(3024);
    for n in [2016u16, 9, 5, 14, 21, 31] {
        expected.write_u16(n);
    }
    expected.write_u32(60);
    assert_eq!(h, expected.finish());
    assert_eq!(h, state.finish());
    let b = photo("1/125 s", "4032 pixels", "2016-09-05 14:21:31");
    assert_ne!(h, b.hash(&mut DefaultHasher::new()));
}

fn tiff_with_fields() -> Vec<u8> {
    let date = Field {
        tag: Tag::DateTime,
        ifd_num: In::PRIMARY,
        value: Value::Ascii(vec![b"2016:09:05 14:21:31".to_vec()]),
    };
    let exposure = Field {
        tag: Tag::ExposureTime,
        ifd_num: In::PRIMARY,
        value: Value::Rational(vec![Rational { num: 1, denom: 60 }]),
    };
    let width = Field {
        tag: Tag::PixelXDimension,
        ifd_num: In::PRIMARY,
        value: Value::Long(vec![4032]),
    };
    let length = Field {
        tag: Tag::PixelYDimension,
        ifd_num: In::PRIMARY,
        value: Value::Long(vec![3024]),
    };
    let mut writer = Writer::new();
    writer.push_field(&date);
    writer.push_field(&exposure);
    writer.push_field(&width);
    writer.push_field(&length);
    let mut out = std::io::Cursor::new(Vec::new());
    writer.write(&mut out, true).unwrap();
    out.into_inner()
}

#[test]
fn photo_read_from_exif_data() {
    let bytes = tiff_with_fields();
    let img = FileDataImg::new(1000, &bytes).unwrap();
    let expected = photo("1/60 s", "4032 pixels", "2016-09-05 14:21:31");
    assert!(img.same_record(&expected));
    assert!(FileDataImg::new(1000, b"not an image at all").is_none());
}
