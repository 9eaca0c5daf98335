use plux_rs::bundle::Bundle;
use plux_rs::info::Depend;
use plux_rs::utils::error::BundleFromError;
use plux_rs::version::{Version, VersionReq};

fn bundle(id: &str, version: Version, format: &str) -> Bundle {
    Bundle { id: id.to_string(), version, format: format.to_string() }
}

#[test]
fn from_filename_reads_the_three_parts() {
    let b = Bundle::from_filename("my_plugin-v1.2.3.lua").unwrap();
    assert_eq!(b.id, "my_plugin");
    assert_eq!(b.version, Version::new(1, 2, 3));
    assert_eq!(b.version.to_string(), "1.2.3");
    assert_eq!(b.format, "lua");
}

#[test]
fn from_filename_takes_the_last_marker_and_the_last_dot() {
    let b = Bundle::from_filename("very-vivid-v2.0.10.tar").unwrap();
    assert_eq!(b.id, "very-vivid");
    assert_eq!(b.version, Version::new(2, 0, 10));
    assert_eq!(b.format, "tar");
}

#[test]
fn from_filename_keeps_prerelease_and_build() {
    let b = Bundle::from_filename("tool-v1.0.0-alpha.1+build.5.vpl").unwrap();
    assert_eq!(b.id, "tool");
    assert_eq!(b.version.major, 1);
    assert_eq!(b.version.pre, "alpha.1");
    assert_eq!(b.version.build, "build.5");
    assert_eq!(b.format, "vpl");
}

#[test]
fn from_filename_without_dot_is_format_failed() {
    assert!(matches!(Bundle::from_filename("plugin-v1"), Err(BundleFromError::FormatFailed)));
    assert!(matches!(Bundle::from_filename(""), Err(BundleFromError::FormatFailed)));
}

#[test]
fn from_filename_with_empty_format_is_format_failed() {
    assert!(matches!(Bundle::from_filename("a-v1.0.0."), Err(BundleFromError::FormatFailed)));
}

#[test]
fn from_filename_without_marker_is_version_failed() {
    assert!(matches!(Bundle::from_filename("plugin.vpl"), Err(BundleFromError::VersionFailed)));
    assert!(matches!(Bundle::from_filename("a-v.vpl"), Err(BundleFromError::VersionFailed)));
}

#[test]
fn from_filename_without_id_is_id_failed() {
    assert!(matches!(Bundle::from_filename("-v1.0.0.vpl"), Err(BundleFromError::IDFailed)));
}

#[test]
fn from_filename_with_bad_version_is_parse_version() {
    assert!(matches!(Bundle::from_filename("a-v1.0.vpl"), Err(BundleFromError::ParseVersion(_))));
    assert!(matches!(Bundle::from_filename("a-vone.vpl"), Err(BundleFromError::ParseVersion(_))));
    assert!(matches!(Bundle::from_filename("a-v1.0.01.x"), Err(BundleFromError::ParseVersion(_))));
}

#[test]
fn to_string_is_the_file_name() {
    let b = bundle("calculator", Version::new(1, 0, 0), "lua");
    assert_eq!(b.to_string(), "calculator-v1.0.0.lua");
    let c = bundle("x", Version::parse("10.20.30-rc.1+exp").unwrap(), "wasm");
    assert_eq!(c.to_string(), "x-v10.20.30-rc.1+exp.wasm");
}

#[test]
fn parse_round_trip() {
    for (id, version, format) in [
        ("void_plugin", "1.0.0", "vpl"),
        ("a.b-c", "0.0.1", "x"),
        ("brush", "18446744073709551615.0.7", "fpl"),
        ("paint-very", "2.1.0-beta.2+sha.5", "lua"),
    ] {
        let b = bundle(id, Version::parse(version).unwrap(), format);
        let again = Bundle::from_filename(&b.to_string()).unwrap();
        assert_eq!(again, b);
    }
}

#[test]
fn round_trip_fails_on_a_marker_in_the_version() {
    let b = bundle("a", Version::parse("1.0.0-v2").unwrap(), "vpl");
    assert_eq!(b.to_string(), "a-v1.0.0-v2.vpl");
    assert!(Bundle::from_filename(&b.to_string()).is_err());
}

#[test]
fn version_text_of_large_numbers() {
    assert_eq!(Version::new(0, 0, 0).to_string(), "0.0.0");
    assert_eq!(Version::new(10, 200, 3000).to_string(), "10.200.3000");
    assert_eq!(Version::new(u64::MAX, 9, 19).to_string(), "18446744073709551615.9.19");
}

#[test]
fn version_parse_gives_the_components() {
    let v = Version::parse("1.2.3-alpha+001").unwrap();
    assert_eq!((v.major, v.minor, v.patch), (1, 2, 3));
    assert_eq!(v.pre, "alpha");
    assert_eq!(v.build, "001");
    assert!(Version::parse("1.2").is_err());
    assert!(Version::parse("").is_err());
}

#[test]
fn version_order_is_that_of_semver() {
    let v = |text: &str| Version::parse(text).unwrap();
    assert_eq!(v("1.0.0").compare(&v("2.0.0")), -1);
    assert_eq!(v("2.1.0").compare(&v("2.0.9")), 1);
    assert_eq!(v("1.0.0").compare(&v("1.0.0")), 0);
    assert_eq!(v("1.0.0-alpha").compare(&v("1.0.0")), -1);
    assert_eq!(v("1.0.0-alpha").compare(&v("1.0.0-alpha.1")), -1);
    assert_eq!(v("1.0.0-alpha.1").compare(&v("1.0.0-alpha.beta")), -1);
    assert_eq!(v("1.0.0-rc.1").compare(&v("1.0.0-beta.11")), 1);
    assert_eq!(v("1.0.0-2").compare(&v("1.0.0-10")), -1);
    assert_eq!(v("1.0.0+a").compare(&v("1.0.0+b")), -1);
    assert!(v("1.10.0").is_higher_than(&v("1.9.0")));
    assert!(!v("1.0.0").is_higher_than(&v("1.0.0")));
    for (a, b) in [("1.0.0-alpha", "1.0.0"), ("0.9.9", "1.0.0-rc.1"), ("1.0.0+1", "1.0.0+2")] {
        let outside = semver::Version::parse(a).unwrap().cmp(&semver::Version::parse(b).unwrap());
        assert_eq!(v(a).compare(&v(b)), outside as i8);
    }
}

#[test]
fn version_equality_is_by_components() {
    assert!(Version::new(1, 2, 3).equals(&Version::parse("1.2.3").unwrap()));
    assert!(!Version::new(1, 2, 3).equals(&Version::parse("1.2.3+b").unwrap()));
    assert!(!Version::new(1, 2, 3).equals(&Version::parse("1.2.3-a").unwrap()));
}

#[test]
fn requirement_admits_what_semver_admits() {
    let req = VersionReq::parse("^1.2").unwrap();
    assert!(req.matches(&Version::new(1, 2, 0)));
    assert!(req.matches(&Version::new(1, 9, 3)));
    assert!(!req.matches(&Version::new(2, 0, 0)));
    assert!(!req.matches(&Version::new(1, 1, 9)));
    let range = VersionReq::parse(">=1.0.0, <2.0.0").unwrap();
    assert!(range.matches(&Version::new(1, 5, 0)));
    assert!(!range.matches(&Version::new(2, 0, 0)));
    let any = VersionReq::parse("*").unwrap();
    assert!(any.matches(&Version::new(7, 7, 7)));
    assert!(!any.matches(&Version::parse("1.0.0-alpha").unwrap()));
    assert!(VersionReq::parse("@1").is_err());
    assert!(VersionReq::parse(">a.b").is_err());
}

#[test]
fn requirement_that_was_not_parsed_admits_nothing() {
    let broken = VersionReq { text: "not a requirement".to_string() };
    assert!(!broken.matches(&Version::new(1, 0, 0)));
}

#[test]
fn depend_admits_a_bundle_of_its_id_and_range() {
    let d = Depend::new("logger".to_string(), VersionReq::parse("1.*").unwrap());
    assert!(d.admits_bundle(&bundle("logger", Version::new(1, 4, 0), "lua")));
    assert!(!d.admits_bundle(&bundle("logger", Version::new(2, 0, 0), "lua")));
    assert!(!d.admits_bundle(&bundle("other", Version::new(1, 4, 0), "lua")));
    assert!(d.admits("logger", &Version::new(1, 0, 0)));
    assert_eq!(d.to_string(), "logger[1.*]");
}

#[test]
fn bundles_are_ordered_within_one_id() {
    let a = bundle("a", Version::new(1, 0, 0), "vpl");
    let newer = bundle("a", Version::new(1, 0, 1), "lua");
    let other = bundle("b", Version::new(1, 0, 0), "vpl");
    assert_eq!(a.compare(&newer), Some(-1));
    assert_eq!(newer.compare(&a), Some(1));
    assert_eq!(a.compare(&a), Some(0));
    assert_eq!(a.compare(&other), None);
}

#[test]
fn bundle_identity_ignores_the_format() {
    let a = bundle("a", Version::new(1, 0, 0), "vpl");
    let b = bundle("a", Version::new(1, 0, 0), "lua");
    assert!(a.same_plugin(&b));
    assert!(!a.equals(&b));
    assert!(a.is("a", &Version::new(1, 0, 0)));
    assert!(!a.is("a", &Version::new(1, 0, 1)));
}
