use hide_glue::fixture::{TemporaryFileFixture, FIXTURES_DIRECTORY, PROJECT_ROOT_VARIABLE};
use hide_glue::path::{join_path, names_a_file};

#[test]
fn join_path_sets_a_relative_component_off() {
    assert_eq!(join_path("/tmp/.tmpAbC123", "out.txt"), "/tmp/.tmpAbC123/out.txt");
    assert_eq!(join_path("relative/base", "a/b.txt"), "relative/base/a/b.txt");
}

#[test]
fn join_path_adds_no_second_separator() {
    assert_eq!(join_path("/tmp/", "out.txt"), "/tmp/out.txt");
    assert_eq!(join_path("/", "out.txt"), "/out.txt");
}

#[test]
fn join_path_lets_an_absolute_component_replace_the_base() {
    assert_eq!(join_path("/tmp/.tmpAbC123", "/etc/hosts"), "/etc/hosts");
    assert_eq!(join_path("", "/etc/hosts"), "/etc/hosts");
}

#[test]
fn join_path_with_an_empty_side() {
    assert_eq!(join_path("", "out.txt"), "out.txt");
    assert_eq!(join_path("/tmp", ""), "/tmp/");
    assert_eq!(join_path("/tmp/", ""), "/tmp/");
    assert_eq!(join_path("", ""), "");
}

#[test]
fn join_path_counts_characters_not_bytes() {
    assert_eq!(join_path("/tmp/caf\u{e9}", "\u{fc}ber.txt"), "/tmp/caf\u{e9}/\u{fc}ber.txt");
}

#[test]
fn a_file_name_is_one_component_below_the_directory() {
    assert!(names_a_file("no-test-is-an-island.txt"));
    assert!(names_a_file("a"));
    assert!(names_a_file("..."));
    assert!(names_a_file(".hidden"));
    assert!(names_a_file("..txt"));
    assert!(names_a_file("x."));
    assert!(names_a_file("\u{fc}ber.txt"));
    assert!(names_a_file("back\\slash"));
}

#[test]
fn names_that_lead_elsewhere_are_no_file_names() {
    assert!(!names_a_file(""));
    assert!(!names_a_file("."));
    assert!(!names_a_file(".."));
    assert!(!names_a_file("/"));
    assert!(!names_a_file("/abs/x"));
    assert!(!names_a_file("../x"));
    assert!(!names_a_file("sub/x"));
    assert!(!names_a_file("x/"));
    assert!(!names_a_file("x/.."));
}

#[test]
fn a_blank_fixture_lies_in_its_directory_and_has_no_source() {
    let fixture = TemporaryFileFixture::blank("/tmp/.tmpAbC123", "no-test-is-an-island.txt").unwrap();
    assert_eq!(fixture.get_path(), "/tmp/.tmpAbC123/no-test-is-an-island.txt");
    assert!(fixture.get_path().starts_with("/tmp/.tmpAbC123"));
    assert_eq!(fixture.get_source(), "");
}

#[test]
fn a_blank_fixture_in_a_directory_that_ends_in_a_separator() {
    let fixture = TemporaryFileFixture::blank("/tmp/.tmpAbC123/", "out.txt").unwrap();
    assert_eq!(fixture.get_path(), "/tmp/.tmpAbC123/out.txt");
    let fixture = TemporaryFileFixture::blank("", "out.txt").unwrap();
    assert_eq!(fixture.get_path(), "out.txt");
}

#[test]
fn a_blank_fixture_with_an_absolute_name_is_refused() {
    assert!(TemporaryFileFixture::blank("/tmp/.tmpAbC123", "/abs/x").is_none());
    assert!(TemporaryFileFixture::blank("/tmp/.tmpAbC123", "/elsewhere/out.txt").is_none());
}

#[test]
fn a_blank_fixture_with_a_name_that_climbs_out_is_refused() {
    assert!(TemporaryFileFixture::blank("/tmp/.tmpAbC123", "..").is_none());
    assert!(TemporaryFileFixture::blank("/tmp/.tmpAbC123", "../x").is_none());
    assert!(TemporaryFileFixture::blank("/tmp/.tmpAbC123", "sub/../../x").is_none());
    assert!(TemporaryFileFixture::blank("/tmp/.tmpAbC123", "sub/x").is_none());
    assert!(TemporaryFileFixture::blank("/tmp/.tmpAbC123", ".").is_none());
    assert!(TemporaryFileFixture::blank("/tmp/.tmpAbC123", "").is_none());
}

#[test]
fn a_copied_fixture_is_seeded_from_the_fixtures_directory() {
    let fixture =
        TemporaryFileFixture::copy("/tmp/.tmpXyZ789", Some("/home/me/project"), "no-man-is-an-island.txt")
            .unwrap();
    assert_eq!(fixture.get_path(), "/tmp/.tmpXyZ789/no-man-is-an-island.txt");
    assert_eq!(fixture.get_source(), "/home/me/project/tests/fixtures/no-man-is-an-island.txt");
}

#[test]
fn a_copied_fixture_below_a_root_that_ends_in_a_separator() {
    let fixture = TemporaryFileFixture::copy("/tmp/d", Some("/project/"), "in.txt").unwrap();
    assert_eq!(fixture.get_source(), "/project/tests/fixtures/in.txt");
    let fixture = TemporaryFileFixture::copy("/tmp/d", Some(""), "in.txt").unwrap();
    assert_eq!(fixture.get_source(), "tests/fixtures/in.txt");
}

#[test]
fn a_copied_fixture_without_a_root_has_a_source_that_cannot_exist() {
    let fixture = TemporaryFileFixture::copy("/tmp/d", None, "no-man-is-an-island.txt").unwrap();
    assert_eq!(fixture.get_path(), "/tmp/d/no-man-is-an-island.txt");
    assert_eq!(
        fixture.get_source(),
        "Failed to get the CARGO_MANIFEST_DIR environment variable/tests/fixtures/no-man-is-an-island.txt"
    );
}

#[test]
fn a_copied_fixture_with_an_absolute_name_is_refused() {
    assert!(TemporaryFileFixture::copy("/tmp/.tmpAbC123", Some("/r"), "/abs/x").is_none());
    assert!(TemporaryFileFixture::copy("/tmp/d", Some("/project"), "/abs/in.txt").is_none());
    assert!(TemporaryFileFixture::copy("/tmp/d", None, "/abs/in.txt").is_none());
}

#[test]
fn a_copied_fixture_with_a_name_that_climbs_out_is_refused() {
    assert!(TemporaryFileFixture::copy("/tmp/d", Some("/project"), "..").is_none());
    assert!(TemporaryFileFixture::copy("/tmp/d", Some("/project"), "../in.txt").is_none());
    assert!(TemporaryFileFixture::copy("/tmp/d", Some("/project"), "sub/in.txt").is_none());
}

#[test]
fn the_names_that_sources_are_found_by() {
    assert_eq!(PROJECT_ROOT_VARIABLE, "CARGO_MANIFEST_DIR");
    assert_eq!(FIXTURES_DIRECTORY, "tests/fixtures");
}
