//! Tests for the capability decoder: mask parsing, security derivation,
//! name normalization, and full device records.

use airtunes::device::{
    decode_device, decode_features, decode_status, derive_security, has_token, is_v2_name,
    lookup, lookup_either, normalize_name, AirplaySecurity, AudioEncoding, Features, Status,
    FEATURE_AUDIO, FEATURE_AUDIO_FORMAT_1, FEATURE_TRANSIENT_PAIRING, STATUS_ONE_TIME_PAIRING_REQUIRED,
    STATUS_PASSWORD_REQUIRED, STATUS_PIN_REQUIRED,
};
use airtunes::mask::{decode_mask, parse_hex, DecodeError};

fn props(entries: &[(&str, &str)]) -> Vec<(String, String)> {
    entries.iter().map(|(k, v)| (k.to_string(), v.to_string())).collect()
}

fn addrs(list: &[&str]) -> Vec<String> {
    list.iter().map(|a| a.to_string()).collect()
}

#[test]
fn parse_hex_plain_and_prefixed() {
    assert_eq!(parse_hex("1a"), Some(0x1a));
    assert_eq!(parse_hex("0x1A"), Some(0x1a));
    assert_eq!(parse_hex("0XfF"), Some(0xff));
    assert_eq!(parse_hex("0"), Some(0));
    assert_eq!(parse_hex("ffffffffffffffff"), Some(u64::MAX));
    assert_eq!(parse_hex("00000000000000000001"), Some(1));
}

#[test]
fn parse_hex_rejects_bad_input() {
    assert_eq!(parse_hex(""), None);
    assert_eq!(parse_hex("0x"), None);
    assert_eq!(parse_hex("bad_hex"), None);
    assert_eq!(parse_hex("12g4"), None);
    assert_eq!(parse_hex("10000000000000000"), None);
}

#[test]
fn decode_mask_single_value() {
    assert_eq!(decode_mask("5a7ffff7"), Some(0x5a7ffff7));
    assert_eq!(decode_mask("0x5A7FFFF7"), Some(0x5a7ffff7));
}

#[test]
fn decode_mask_two_part_halves() {
    // Low half first, high half second; concatenated as high || low.
    assert_eq!(decode_mask("5A7FFFF7,1E"), Some(0x1e5a7ffff7));
    assert_eq!(decode_mask("0x5A7FFFF7,0x1E"), Some(0x1e5a7ffff7));
}

#[test]
fn decode_mask_two_part_equals_concatenation() {
    // The commutative-halves law on concrete values.
    assert_eq!(decode_mask("1b,a"), decode_mask("a1b"));
    assert_eq!(decode_mask("0x5A7FFFF7,0x1E"), decode_mask("1E5A7FFFF7"));
    assert_eq!(decode_mask("00000001,80"), decode_mask("8000000001"));
}

#[test]
fn decode_mask_rejects_bad_halves() {
    assert_eq!(decode_mask("zz,1e"), None);
    assert_eq!(decode_mask("1e,zz"), None);
    assert_eq!(decode_mask(","), None);
}

#[test]
fn decode_features_bad_hex_is_error() {
    // A malformed features value must give a decode error, not a zero mask.
    assert_eq!(decode_features("bad_hex"), Err(DecodeError::BadFeatures));
    assert_eq!(decode_features("0x200"), Ok(Features { bits: 0x200 }));
}

#[test]
fn decode_status_single_hex_only() {
    assert_eq!(decode_status("8"), Ok(Status { bits: 8 }));
    assert_eq!(decode_status("nope"), Err(DecodeError::BadFlags));
}

#[test]
fn security_password_only() {
    assert_eq!(derive_security(true, false, false), AirplaySecurity::Password);
}

#[test]
fn security_pin_only() {
    assert_eq!(derive_security(false, true, false), AirplaySecurity::Pin);
}

#[test]
fn security_one_time_pairing_only() {
    assert_eq!(derive_security(false, false, true), AirplaySecurity::Pin);
}

#[test]
fn security_pin_and_one_time_pairing() {
    assert_eq!(derive_security(false, true, true), AirplaySecurity::Pin);
}

#[test]
fn security_nothing_set() {
    assert_eq!(derive_security(false, false, false), AirplaySecurity::Open);
}

#[test]
fn security_password_with_pin_is_open() {
    // The deliberately non-orthogonal rows of the table.
    assert_eq!(derive_security(true, true, false), AirplaySecurity::Open);
    assert_eq!(derive_security(true, false, true), AirplaySecurity::Open);
    assert_eq!(derive_security(true, true, true), AirplaySecurity::Open);
}

#[test]
fn normalize_name_strips_prefix_and_suffix() {
    assert_eq!(normalize_name("AA:BB:CC@LivingRoom._raop._tcp.local."), "LivingRoom");
}

#[test]
fn normalize_name_without_at_sign() {
    assert_eq!(normalize_name("Kitchen._airplay._tcp.local."), "Kitchen");
    assert_eq!(normalize_name("Bare"), "Bare");
}

#[test]
fn v2_name_detection() {
    assert!(is_v2_name("Kitchen._airplay._tcp.local."));
    assert!(!is_v2_name("Kitchen._raop._tcp.local."));
}

#[test]
fn token_lists() {
    assert!(has_token("0,1,3", "0"));
    assert!(has_token("1,0", "0"));
    assert!(has_token("0", "0"));
    assert!(!has_token("10,20", "0"));
    assert!(!has_token("", "0"));
}

#[test]
fn property_lookup_prefers_primary_key() {
    let p = props(&[("ft", "1"), ("features", "2")]);
    assert_eq!(lookup_either(&p, "features", "ft"), Some("2"));
    assert_eq!(lookup_either(&p, "flags", "sf"), None);
    assert_eq!(lookup(&p, "ft"), Some("1"));
}

#[test]
fn device_basic_record() {
    let p = props(&[("features", "0x200"), ("flags", "0")]);
    let a = addrs(&["192.168.1.40"]);
    let rec = decode_device("AA:BB:CC@LivingRoom._raop._tcp.local.", &a, 7000, &p).unwrap();
    assert!(rec.active);
    assert!(rec.audio_supported);
    assert_eq!(rec.name, "LivingRoom");
    assert_eq!(rec.host, "192.168.1.40");
    assert_eq!(rec.port, 7000);
    assert!(!rec.supports_protocol_v2);
    assert_eq!(rec.encoding, AudioEncoding::Pcm);
    assert_eq!(rec.security, AirplaySecurity::Open);
    assert!(!rec.transient_pairing_supported);
    assert!(!rec.sonos_compatibility_flag);
}

#[test]
fn device_missing_masks_default_to_zero() {
    let p = props(&[]);
    let a = addrs(&["10.0.0.2"]);
    let rec = decode_device("Den._airplay._tcp.local.", &a, 7000, &p).unwrap();
    // An all-zero capability mask still counts as audio-capable.
    assert!(rec.audio_supported);
    assert!(rec.supports_protocol_v2);
    assert_eq!(rec.encoding, AudioEncoding::Pcm);
}

#[test]
fn device_audio_bit_respected_when_mask_nonzero() {
    let a = addrs(&["10.0.0.2"]);
    let with_audio = props(&[("features", "200")]);
    let rec = decode_device("D._raop._tcp.local.", &a, 1, &with_audio).unwrap();
    assert!(rec.audio_supported);
    let without_audio = props(&[("features", "1")]);
    let rec = decode_device("D._raop._tcp.local.", &a, 1, &without_audio).unwrap();
    assert!(!rec.audio_supported);
}

#[test]
fn device_bad_features_is_error() {
    let p = props(&[("features", "bad_hex")]);
    let a = addrs(&["10.0.0.2"]);
    let r = decode_device("D._raop._tcp.local.", &a, 1, &p);
    assert_eq!(r.err(), Some(DecodeError::BadFeatures));
}

#[test]
fn device_bad_flags_is_error() {
    let p = props(&[("features", "200"), ("sf", "what")]);
    let a = addrs(&["10.0.0.2"]);
    let r = decode_device("D._raop._tcp.local.", &a, 1, &p);
    assert_eq!(r.err(), Some(DecodeError::BadFlags));
}

#[test]
fn device_encoding_alac_from_capability_bit() {
    let a = addrs(&["10.0.0.2"]);
    let p = props(&[("features", "80200")]);
    let rec = decode_device("D._raop._tcp.local.", &a, 1, &p).unwrap();
    assert_eq!(rec.encoding, AudioEncoding::Alac);
}

#[test]
fn device_encoding_cn_token_overrides_to_pcm() {
    let a = addrs(&["10.0.0.2"]);
    let p = props(&[("features", "80200"), ("cn", "0,1")]);
    let rec = decode_device("D._raop._tcp.local.", &a, 1, &p).unwrap();
    assert_eq!(rec.encoding, AudioEncoding::Pcm);
}

#[test]
fn device_encoding_model_overrides_to_alac() {
    let a = addrs(&["10.0.0.2"]);
    let p = props(&[("features", "200"), ("cn", "0"), ("am", "AirPort10,115")]);
    let rec = decode_device("D._raop._tcp.local.", &a, 1, &p).unwrap();
    assert_eq!(rec.encoding, AudioEncoding::Alac);
}

#[test]
fn device_encoding_sv_false_overrides_to_alac() {
    let a = addrs(&["10.0.0.2"]);
    let p = props(&[("features", "200"), ("cn", "0"), ("sv", "false")]);
    let rec = decode_device("D._raop._tcp.local.", &a, 1, &p).unwrap();
    assert_eq!(rec.encoding, AudioEncoding::Alac);
}

#[test]
fn device_relay_model_disables_protocol_v2() {
    let a = addrs(&["10.0.0.2"]);
    let p = props(&[("am", "ShairportSync")]);
    let rec = decode_device("D._airplay._tcp.local.", &a, 1, &p).unwrap();
    assert!(!rec.supports_protocol_v2);
}

#[test]
fn device_transient_pairing_bit() {
    let a = addrs(&["10.0.0.2"]);
    let p = props(&[("features", "1000000000200")]);
    let rec = decode_device("D._raop._tcp.local.", &a, 1, &p).unwrap();
    assert!(rec.transient_pairing_supported);
}

#[test]
fn device_sonos_detection() {
    let a = addrs(&["10.0.0.2"]);
    let by_manufacturer = props(&[("manufacturer", "Sonos, Inc.")]);
    let rec = decode_device("D._raop._tcp.local.", &a, 1, &by_manufacturer).unwrap();
    assert!(rec.sonos_compatibility_flag);
    let by_et = props(&[("et", "0,4")]);
    let rec = decode_device("D._raop._tcp.local.", &a, 1, &by_et).unwrap();
    assert!(rec.sonos_compatibility_flag);
    let neither = props(&[("et", "0,1"), ("manufacturer", "Acme")]);
    let rec = decode_device("D._raop._tcp.local.", &a, 1, &neither).unwrap();
    assert!(!rec.sonos_compatibility_flag);
}

#[test]
fn device_security_from_status_and_pw() {
    let a = addrs(&["10.0.0.2"]);
    let password = props(&[("sf", "20")]);
    let rec = decode_device("D._raop._tcp.local.", &a, 1, &password).unwrap();
    assert_eq!(rec.security, AirplaySecurity::Password);
    let pin = props(&[("sf", "8")]);
    let rec = decode_device("D._raop._tcp.local.", &a, 1, &pin).unwrap();
    assert_eq!(rec.security, AirplaySecurity::Pin);
    let pin_and_otp = props(&[("sf", "88")]);
    let rec = decode_device("D._raop._tcp.local.", &a, 1, &pin_and_otp).unwrap();
    assert_eq!(rec.security, AirplaySecurity::Pin);
    let pw_text = props(&[("pw", "true")]);
    let rec = decode_device("D._raop._tcp.local.", &a, 1, &pw_text).unwrap();
    assert_eq!(rec.security, AirplaySecurity::Password);
    let open = props(&[("sf", "0"), ("pw", "no")]);
    let rec = decode_device("D._raop._tcp.local.", &a, 1, &open).unwrap();
    assert_eq!(rec.security, AirplaySecurity::Open);
}

#[test]
fn feature_and_status_bit_accessors() {
    let f = Features { bits: (1 << FEATURE_AUDIO) | (1 << FEATURE_AUDIO_FORMAT_1) };
    assert!(f.has(FEATURE_AUDIO));
    assert!(f.has(FEATURE_AUDIO_FORMAT_1));
    assert!(!f.has(FEATURE_TRANSIENT_PAIRING));
    let s = Status { bits: (1 << STATUS_PIN_REQUIRED) | (1 << STATUS_ONE_TIME_PAIRING_REQUIRED) };
    assert!(s.has(STATUS_PIN_REQUIRED));
    assert!(s.has(STATUS_ONE_TIME_PAIRING_REQUIRED));
    assert!(!s.has(STATUS_PASSWORD_REQUIRED));
}
