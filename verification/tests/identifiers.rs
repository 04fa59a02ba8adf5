use std::collections::hash_map::DefaultHasher;
use std::hash::Hasher;
use warp_matcher::guid::{PlatformID, TypeGUID};
use warp_matcher::matcher::MatcherSettings;

#[test]
fn id_string_is_hyphenated_lower_case_hex() {
    let id = TypeGUID { guid: 0x0123_4567_89ab_cdef_fedc_ba98_7654_3210 };
    assert_eq!(id.id_string(), "01234567-89ab-cdef-fedc-ba9876543210");
}

#[test]
fn id_string_keeps_leading_zeros() {
    assert_eq!(TypeGUID { guid: 0 }.id_string(), "00000000-0000-0000-0000-000000000000");
    assert_eq!(TypeGUID { guid: 1 }.id_string(), "00000000-0000-0000-0000-000000000001");
    assert_eq!(TypeGUID { guid: 0xA0 }.id_string(), "00000000-0000-0000-0000-0000000000a0");
}

#[test]
fn id_string_of_the_greatest_hash() {
    assert_eq!(TypeGUID { guid: u128::MAX }.id_string(), "ffffffff-ffff-ffff-ffff-ffffffffffff");
}

#[test]
fn platform_id_is_the_hash_of_the_name() {
    let name = b"windows-x86_64";
    let mut hasher = DefaultHasher::new();
    hasher.write(name);
    assert_eq!(PlatformID::from(&name[..]), PlatformID(hasher.finish()));
}

#[test]
fn platform_id_is_stable_and_tells_names_apart() {
    let linux = PlatformID::from(&b"linux-x86_64"[..]);
    assert_eq!(linux, PlatformID::from(&b"linux-x86_64"[..]));
    assert_ne!(linux, PlatformID::from(&b"linux-aarch64"[..]));
    assert_ne!(linux, PlatformID::from(&b""[..]));
}

#[test]
fn default_settings() {
    assert_eq!(MatcherSettings::TRIVIAL_FUNCTION_LEN_DEFAULT, 20);
    assert_eq!(MatcherSettings::default().trivial_function_len, 20);
}

#[test]
fn settings_from_a_store() {
    assert_eq!(MatcherSettings::from_view(None).trivial_function_len, 20);
    assert_eq!(MatcherSettings::from_view(Some(64)).trivial_function_len, 64);
    assert_eq!(MatcherSettings::from_view(Some(0)).trivial_function_len, 0);
}

#[test]
fn settings_to_a_store() {
    let settings = MatcherSettings { trivial_function_len: 33 };
    assert_eq!(settings.write_settings(), ("analysis.warp.trivial_function_len", 33));
    assert_eq!(
        MatcherSettings::TRIVIAL_FUNCTION_LEN_SETTING,
        "analysis.warp.trivial_function_len"
    );
}
