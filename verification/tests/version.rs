use voxable::version::is_newer;

#[test]
fn a_higher_patch_minor_or_major_is_newer() {
    assert!(is_newer("0.4.0", "0.4.1"));
    assert!(is_newer("0.4.0", "0.5.0"));
    assert!(is_newer("0.4.0", "1.0.0"));
}

#[test]
fn the_same_version_is_not_newer() {
    assert!(!is_newer("0.4.0", "0.4.0"));
}

#[test]
fn an_older_version_is_not_newer() {
    assert!(!is_newer("0.4.0", "0.3.9"));
    assert!(!is_newer("1.0.0", "0.9.9"));
}

#[test]
fn a_leading_v_from_a_git_tag_is_ignored() {
    assert!(is_newer("0.4.0", "v0.5.0"));
    assert!(!is_newer("v0.5.0", "0.4.0"));
    assert!(!is_newer("v0.4.0", "v0.4.0"));
}

#[test]
fn double_digit_parts_compare_numerically_not_alphabetically() {
    // The bug in every naive string compare: "0.10.0" < "0.9.0" as text.
    assert!(is_newer("0.9.0", "0.10.0"));
    assert!(!is_newer("0.10.0", "0.9.0"));
}

#[test]
fn missing_parts_are_treated_as_zero() {
    assert!(!is_newer("0.4.0", "0.4"));
    assert!(!is_newer("0.4", "0.4.0"));
    assert!(is_newer("0.4", "0.4.1"));
}

#[test]
fn a_prerelease_is_older_than_its_release() {
    assert!(is_newer("0.5.0-beta.1", "0.5.0"));
    assert!(!is_newer("0.5.0", "0.5.0-beta.1"));
    assert!(is_newer("0.4.0", "0.5.0-beta.1"));
}

#[test]
fn anything_unparseable_is_never_newer() {
    // A malformed tag must not be able to prompt a downgrade.
    assert!(!is_newer("0.4.0", "latest"));
    assert!(!is_newer("0.4.0", ""));
    assert!(!is_newer("0.4.0", "v"));
    assert!(!is_newer("0.4.0", "0.4.x"));
    assert!(!is_newer("not-a-version", "0.5.0"));
}

#[test]
fn surrounding_whitespace_and_several_tag_letters_are_ignored() {
    assert!(is_newer("  0.4.0\n", "\tV0.4.1 "));
    assert!(is_newer("0.4.0", "vV0.4.1"));
    assert!(!is_newer("0.4.0", "v 0.4.1"));
}

#[test]
fn a_plus_sign_parses_as_the_standard_library_does() {
    assert!(is_newer("0.4.0", "0.+5.0"));
    assert!(!is_newer("0.4.0", "0.-5.0"));
}

#[test]
fn an_empty_prerelease_or_piece_is_unparseable() {
    assert!(!is_newer("0.4.0", "0.5.0-"));
    assert!(!is_newer("0.4.0", "0..5"));
    assert!(!is_newer("0.4.0", "-beta"));
    assert!(!is_newer("0.4.0", "0.5."));
}

#[test]
fn prereleases_compare_as_text() {
    assert!(is_newer("0.5.0-alpha", "0.5.0-beta"));
    assert!(!is_newer("0.5.0-beta", "0.5.0-alpha"));
    assert!(is_newer("0.5.0-beta", "0.5.0-beta.1"));
}

#[test]
fn a_part_past_u64_is_unparseable() {
    assert!(!is_newer("0.4.0", "18446744073709551616"));
    assert!(is_newer("0.4.0", "18446744073709551615"));
}
