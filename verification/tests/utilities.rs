//! Tests of the text utilities, thread-list normalization, and the remaining
//! public pieces.

use tulip_core::decimal::u64_to_decimal;
use tulip_core::entities::decode_entities;
use tulip_core::image::make_image_data_url;
use tulip_core::settings::AppSettings;
use tulip_core::threads::{
    canonical_thread_id, normalize_threads, thread_dat_path, RawThreadDescriptor, ThreadIdError,
    ThreadIdWire,
};
use tulip_core::timefmt::format_timestamp;

#[test]
fn decode_named_entity() {
    assert_eq!(decode_entities("A&amp;B").as_str(), "A&B");
}

#[test]
fn decode_is_identity_without_entities() {
    assert_eq!(decode_entities("no entities").as_str(), "no entities");
    assert_eq!(decode_entities("").as_str(), "");
}

#[test]
fn decode_numeric_and_mixed_entities() {
    assert_eq!(decode_entities("&#65;&lt;&gt;&quot;").as_str(), "A<>\"");
    assert_eq!(decode_entities("broken &amp stays").as_str(), "broken &amp stays");
    assert_eq!(decode_entities("Q & A").as_str(), "Q & A");
}

#[test]
fn epoch_renders_in_tokyo_time() {
    assert_eq!(format_timestamp(0).as_str(), "1970/01/01 09:00");
}

#[test]
fn known_instant_renders_in_tokyo_time() {
    // 2015-05-15 00:00:00 UTC is 09:00 the same day in Tokyo.
    assert_eq!(format_timestamp(1431648000).as_str(), "2015/05/15 09:00");
}

#[test]
fn unrepresentable_timestamp_yields_marker() {
    assert_eq!(format_timestamp(i64::MIN).as_str(), "日付不明");
    assert_eq!(format_timestamp(i64::MAX).as_str(), "日付不明");
}

#[test]
fn representable_range_boundaries() {
    // The exact bounds of chrono's DateTime::from_timestamp: the first and
    // last representable second render, their outside neighbors do not.
    assert_ne!(format_timestamp(-8334601228800).as_str(), "日付不明");
    assert_eq!(format_timestamp(-8334601228801).as_str(), "日付不明");
    assert_ne!(format_timestamp(8210266876799).as_str(), "日付不明");
    assert_eq!(format_timestamp(8210266876800).as_str(), "日付不明");
}

#[test]
fn numeric_and_text_identifiers_normalize_alike() {
    let a = canonical_thread_id(&ThreadIdWire::Numeric(12345));
    let b = canonical_thread_id(&ThreadIdWire::Text(String::from("12345")));
    assert_eq!(a.as_str(), "12345");
    assert_eq!(a, b);
}

#[test]
fn normalize_threads_decodes_and_formats() {
    let items = vec![
        RawThreadDescriptor {
            thread: ThreadIdWire::Numeric(1111222233),
            title: String::from("Cats &amp; Dogs"),
            number: 42,
            date: 0,
        },
        RawThreadDescriptor {
            thread: ThreadIdWire::Text(String::from("9876543210")),
            title: String::from("plain"),
            number: 0,
            date: 1431648000,
        },
    ];
    let out = normalize_threads(&items);
    assert_eq!(out.len(), 2);
    assert_eq!(out[0].id.as_str(), "1111222233");
    assert_eq!(out[0].title.as_str(), "Cats & Dogs");
    assert_eq!(out[0].response_count, 42);
    assert_eq!(out[0].created_at.as_str(), "1970/01/01 09:00");
    assert_eq!(out[0].date, 0);
    assert_eq!(out[1].id.as_str(), "9876543210");
    assert_eq!(out[1].title.as_str(), "plain");
    assert_eq!(out[1].created_at.as_str(), "2015/05/15 09:00");
}

#[test]
fn thread_path_requires_four_characters() {
    assert_eq!(thread_dat_path(""), Err(ThreadIdError::Missing));
    assert_eq!(thread_dat_path("abc"), Err(ThreadIdError::TooShort));
    let p = thread_dat_path("1234567890").unwrap();
    assert_eq!(p.as_str(), "thread/1234/1234567890.dat");
}

#[test]
fn decimal_rendering_is_exact() {
    assert_eq!(u64_to_decimal(0).as_str(), "0");
    assert_eq!(u64_to_decimal(7).as_str(), "7");
    assert_eq!(u64_to_decimal(1234567890).as_str(), "1234567890");
    assert_eq!(u64_to_decimal(u64::MAX).as_str(), "18446744073709551615");
}

#[test]
fn image_data_url_has_base64_payload() {
    let bytes = vec![0u8, 1u8, 2u8];
    let url = make_image_data_url("image/png", &bytes);
    assert_eq!(url.as_str(), "data:image/png;base64,AAEC");
    let padded = make_image_data_url("image/jpeg", &vec![255u8]);
    assert_eq!(padded.as_str(), "data:image/jpeg;base64,/w==");
}

#[test]
fn default_settings() {
    let s = AppSettings::default();
    assert_eq!(s.theme.as_str(), "light");
    assert_eq!(s.font_size, 14);
}
