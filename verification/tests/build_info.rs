use mz_tools::build_info::dummy_build_info;
use mz_tools::build_info::version_num_from_parts;
use mz_tools::build_info::BuildInfo;

fn original_human_version(b: &BuildInfo) -> String {
    format!("v{} ({})", b.version, &b.sha[..9])
}

fn original_version_num(major: u64, minor: u64, patch: u64) -> Option<i32> {
    format!("{:0>2}{:0>3}{:0>2}", major, minor, patch).parse::<i32>().ok()
}

#[test]
fn dummy_human_version() {
    let b = dummy_build_info();
    assert_eq!(b.version, "0.0.0+dummy");
    assert_eq!(b.sha, "0000000000000000000000000000000000000000");
    assert_eq!(b.time, "");
    assert_eq!(b.human_version(), "v0.0.0+dummy (000000000)");
}

#[test]
fn human_version_takes_nine_bytes_of_sha() {
    let b = BuildInfo {
        version: "1.2.3",
        sha: "a1b2c3d4e5f60718293a4b5c6d7e8f9012345678",
        time: "2020-01-01T00:00:00Z",
    };
    assert_eq!(b.human_version(), "v1.2.3 (a1b2c3d4e)");
    assert_eq!(b.human_version(), original_human_version(&b));
}

#[test]
fn human_version_non_ascii_sha_on_boundary() {
    // "é" takes two bytes, so byte nine ends the fifth character, "x".
    let b = BuildInfo { version: "0.1.0", sha: "ééééx-rest", time: "" };
    assert_eq!(b.human_version(), "v0.1.0 (ééééx)");
    assert_eq!(b.human_version(), original_human_version(&b));
}

#[test]
fn human_version_short_sha_of_nine() {
    let b = BuildInfo { version: "", sha: "123456789", time: "" };
    assert_eq!(b.human_version(), "v (123456789)");
}

#[test]
fn semver_version_parts() {
    let b = BuildInfo { version: "1.22.333-alpha.1+build.5", sha: "", time: "" };
    let v = b.semver_version();
    assert_eq!(v.major, 1);
    assert_eq!(v.minor, 22);
    assert_eq!(v.patch, 333);
    assert_eq!(v.pre, "alpha.1");
    assert_eq!(v.build, "build.5");
}

#[test]
fn semver_version_without_pre_or_build() {
    let b = BuildInfo { version: "0.27.0", sha: "", time: "" };
    let v = b.semver_version();
    assert_eq!((v.major, v.minor, v.patch), (0, 27, 0));
    assert_eq!(v.pre, "");
    assert_eq!(v.build, "");
}

#[test]
fn try_semver_version_rejects_invalid() {
    let b = BuildInfo { version: "1.q.r", sha: "", time: "" };
    assert!(b.try_semver_version().is_none());
    let d = dummy_build_info();
    let v = d.try_semver_version().unwrap();
    assert_eq!((v.major, v.minor, v.patch), (0, 0, 0));
    assert_eq!(v.build, "dummy");
}

#[test]
fn version_num_pg_layout() {
    let b = BuildInfo { version: "1.2.3", sha: "", time: "" };
    assert_eq!(b.version_num(), 100203);
    let b = BuildInfo { version: "0.27.0-dev", sha: "", time: "" };
    assert_eq!(b.version_num(), 2700);
    let b = BuildInfo { version: "21.999.99", sha: "", time: "" };
    assert_eq!(b.version_num(), 2199999);
}

#[test]
fn version_num_wide_parts_are_not_truncated() {
    // A minor number of four digits widens the text instead of being cut.
    let b = BuildInfo { version: "1.1234.5", sha: "", time: "" };
    assert_eq!(b.version_num(), 1123405);
    assert_eq!(Some(b.version_num()), original_version_num(1, 1234, 5));
}

#[test]
fn try_version_num_overflow_and_invalid() {
    let b = BuildInfo { version: "99999.0.0", sha: "", time: "" };
    assert_eq!(b.try_version_num(), None);
    let b = BuildInfo { version: "not a version", sha: "", time: "" };
    assert_eq!(b.try_version_num(), None);
    let b = BuildInfo { version: "3.4.5", sha: "", time: "" };
    assert_eq!(b.try_version_num(), Some(300405));
}

#[test]
fn version_num_from_parts_matches_formatting() {
    let cases: [(u64, u64, u64); 10] = [
        (0, 0, 0),
        (1, 2, 3),
        (99, 999, 99),
        (100, 0, 0),
        (2147, 483, 647),
        (2147, 483, 648),
        (21474, 836, 47),
        (0, 12345, 6),
        (5, 0, 123456),
        (u64::MAX, 0, 0),
    ];
    for (major, minor, patch) in cases {
        assert_eq!(
            version_num_from_parts(major, minor, patch),
            original_version_num(major, minor, patch),
            "{} {} {}",
            major,
            minor,
            patch
        );
    }
    assert_eq!(version_num_from_parts(2147, 483, 647), Some(i32::MAX));
    assert_eq!(version_num_from_parts(2147, 483, 648), None);
}

#[test]
fn version_num_orders_like_versions() {
    let a = version_num_from_parts(1, 2, 99).unwrap();
    let b = version_num_from_parts(1, 3, 0).unwrap();
    let c = version_num_from_parts(2, 0, 0).unwrap();
    assert!(a < b && b < c);
}

#[test]
fn semver_text_matches_semver_display() {
    for text in ["1.2.3", "0.27.0-dev", "1.22.333-alpha.1+build.5", "4.5.6+meta", "0.0.0+dummy"] {
        let b = BuildInfo { version: text, sha: "", time: "" };
        let v = b.semver_version();
        assert_eq!(v.to_text(), semver::Version::parse(text).unwrap().to_string());
        assert_eq!(v.to_text(), text);
    }
}
