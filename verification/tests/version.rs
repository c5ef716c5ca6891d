use cup::config::UpdateType;
use cup::structs::status::Status;
use cup::structs::version::{newest, Version};

fn version(major: u32, minor: Option<u32>, patch: Option<u32>) -> Version {
    Version { major, minor, patch }
}

fn found(tag: &str) -> Option<(Version, String)> {
    Version::from_tag(tag)
}

#[test]
fn a_tag_with_a_prefix() {
    assert_eq!(
        found("v1.10.0"),
        Some((version(1, Some(10), Some(0)), "v{}.{}.{}".to_string()))
    );
}

#[test]
fn tags_with_fewer_numbers() {
    assert_eq!(found("16"), Some((version(16, None, None), "{}".to_string())));
    assert_eq!(
        found("3.20-alpine"),
        Some((version(3, Some(20), None), "{}.{}-alpine".to_string()))
    );
}

#[test]
fn the_place_with_the_most_numbers_is_the_version() {
    assert_eq!(
        found("node20-1.2.3"),
        Some((version(1, Some(2), Some(3)), "node20-{}.{}.{}".to_string()))
    );
    // Of two places with as many numbers, the first one counts.
    assert_eq!(
        found("1.2-alpine3.4"),
        Some((version(1, Some(2), None), "{}.{}-alpine3.4".to_string()))
    );
}

#[test]
fn a_fourth_number_is_not_part_of_the_version() {
    assert_eq!(
        found("1.2.3.4"),
        Some((version(1, Some(2), Some(3)), "{}.{}.{}.4".to_string()))
    );
}

#[test]
fn numbers_have_no_leading_zeros() {
    // The zero is a number of its own, and so is what follows it.
    assert_eq!(found("01"), Some((version(0, None, None), "{}1".to_string())));
}

#[test]
fn tags_without_a_version() {
    assert_eq!(found("latest"), None);
    assert_eq!(found(""), None);
}

#[test]
fn a_number_that_does_not_fit_is_no_version() {
    assert_eq!(
        found("4294967295"),
        Some((version(4294967295, None, None), "{}".to_string()))
    );
    assert_eq!(found("4294967296"), None);
}

#[test]
fn format_and_version_make_the_tag() {
    for tag in ["v1.10.0", "16", "3.20-alpine", "node20-1.2.3", "1.2.3.4", "0.0.1-rc2"] {
        let (version, format) = found(tag).unwrap();
        assert_eq!(version.write_tag(&format), tag);
    }
    // A pair of braces in front of the version is taken for the place of a number.
    let (version, format) = found("{}1").unwrap();
    assert_eq!(version.write_tag(&format), "1{}");
}

#[test]
fn versions_are_written_with_dots() {
    assert_eq!(version(1, Some(10), Some(0)).write(), "1.10.0");
    assert_eq!(version(120, Some(7), None).write(), "120.7");
    assert_eq!(version(0, None, None).write(), "0");
}

#[test]
fn versions_are_ordered_by_their_numbers() {
    let small = version(1, Some(9), Some(9));
    let large = version(1, Some(10), Some(0));
    assert!(small.at_most(&large));
    assert!(!large.at_most(&small));
    assert!(large.at_most(&large));
    // A version with fewer numbers comes first.
    assert!(version(1, None, None).at_most(&version(1, Some(0), None)));
    assert!(!version(1, Some(0), None).at_most(&version(1, None, None)));
}

#[test]
fn the_newest_version_is_found_wherever_it_stands() {
    let versions = vec![
        version(1, Some(2), Some(3)),
        version(2, Some(0), Some(0)),
        version(1, Some(30), Some(0)),
    ];
    assert_eq!(newest(&versions), Some(version(2, Some(0), Some(0))));
    assert_eq!(newest(&vec![]), None);
}

#[test]
fn shapes_are_compared_number_by_number() {
    let base = version(1, Some(2), None);
    assert!(version(7, Some(0), None).matches_shape(&base));
    assert!(!version(7, Some(0), Some(0)).matches_shape(&base));
    assert!(!version(7, None, None).matches_shape(&base));
}

#[test]
fn ignored_kinds_of_updates() {
    let base = version(1, Some(2), Some(3));
    let patch = version(1, Some(2), Some(4));
    let minor = version(1, Some(3), Some(0));
    let major = version(2, Some(0), Some(0));
    let allowed = |kind: UpdateType| {
        [
            base.is_allowed(&base, kind),
            patch.is_allowed(&base, kind),
            minor.is_allowed(&base, kind),
            major.is_allowed(&base, kind),
        ]
    };
    assert_eq!(allowed(UpdateType::Off), [true, true, true, true]);
    assert_eq!(allowed(UpdateType::Major), [true, true, true, false]);
    assert_eq!(allowed(UpdateType::Minor), [true, true, false, false]);
    assert_eq!(allowed(UpdateType::Patch), [true, false, false, false]);
}

#[test]
fn the_status_names_the_first_number_that_differs() {
    let current = version(1, Some(2), Some(3));
    assert_eq!(version(2, Some(0), Some(0)).to_status(&current), Status::UpdateMajor);
    assert_eq!(version(1, Some(3), Some(0)).to_status(&current), Status::UpdateMinor);
    assert_eq!(version(1, Some(2), Some(4)).to_status(&current), Status::UpdatePatch);
    assert_eq!(current.to_status(&current), Status::UpToDate);
    assert_eq!(
        version(1, Some(2), Some(2)).to_status(&current),
        Status::Unknown("Tag 1.2.3 does not exist".to_string())
    );
}
