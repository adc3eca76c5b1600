use modtree::manifest::single_manifest;
use modtree::{parse_manifest, BuildError};

#[test]
fn single_line_then_block() {
    let text = "module github.com/foo/bar\n\ngo 1.19\n\nrequire github.com/a/one v1.0.0\n\nrequire (\n\tgithub.com/b/two v2.0.0\n)\n";
    assert_eq!(parse_manifest(text), Ok(vec!["github.com/a/one@v1.0.0".to_string(), "github.com/b/two@v2.0.0".to_string()]));
}

#[test]
fn block_then_single_line() {
    let text = "module github.com/foo/bar\n\nrequire (\n\tgithub.com/b/two v2.0.0\n)\n\nrequire github.com/a/one v1.0.0\n";
    assert_eq!(parse_manifest(text), Ok(vec!["github.com/b/two@v2.0.0".to_string(), "github.com/a/one@v1.0.0".to_string()]));
}

#[test]
fn unterminated_block_fails() {
    assert_eq!(parse_manifest("require (\n\tgithub.com/b/two v2.0.0\n"), Err(BuildError::ManifestParseError));
    assert_eq!(parse_manifest("require ("), Err(BuildError::ManifestParseError));
    assert_eq!(parse_manifest("module x\nrequire (\n"), Err(BuildError::ManifestParseError));
}

#[test]
fn no_requirements_gives_empty_list() {
    assert_eq!(parse_manifest(""), Ok(vec![]));
    assert_eq!(parse_manifest("module github.com/foo/bar\n\ngo 1.19\n"), Ok(vec![]));
}

#[test]
fn indirect_requirements_are_included() {
    let text = "require github.com/a/one v1.0.0 // indirect\nrequire (\n\tgithub.com/b/two v2.0.0 // indirect\n)";
    assert_eq!(parse_manifest(text), Ok(vec!["github.com/a/one@v1.0.0".to_string(), "github.com/b/two@v2.0.0".to_string()]));
}

#[test]
fn duplicates_are_preserved() {
    let text = "require github.com/a/one v1.0.0\nrequire github.com/a/one v1.0.0\nrequire (\n github.com/a/one v1.0.0\n github.com/a/one v1.0.0\n)";
    assert_eq!(parse_manifest(text), Ok(vec!["github.com/a/one@v1.0.0".to_string(); 4]));
}

#[test]
fn several_blocks_in_order() {
    let text = "require (\n a/b/c v1\n d/e/f v2\n)\nreplace (\n x => y\n)\nrequire (\n g/h/i v3\n)\n";
    assert_eq!(parse_manifest(text), Ok(vec!["a/b/c@v1".to_string(), "d/e/f@v2".to_string(), "g/h/i@v3".to_string()]));
}

#[test]
fn words_may_be_separated_by_any_white_space() {
    assert_eq!(parse_manifest("require\tgithub.com/a/one   v1.0.0\r\n"), Ok(vec![]));
    assert_eq!(parse_manifest("require  github.com/a/one \t v1.0.0\r\n"), Ok(vec!["github.com/a/one@v1.0.0".to_string()]));
    assert_eq!(parse_manifest("require (\r\n\t\tgithub.com/a/one\tv1.0.0\r\n)\r\n"), Ok(vec!["github.com/a/one@v1.0.0".to_string()]));
}

#[test]
fn requirement_without_version_fails() {
    assert_eq!(parse_manifest("require github.com/a/one"), Err(BuildError::ManifestParseError));
    assert_eq!(parse_manifest("require (\n github.com/a/one\n)"), Err(BuildError::ManifestParseError));
    assert_eq!(parse_manifest("require (\n\n)"), Err(BuildError::ManifestParseError));
}

#[test]
fn closing_line_states_nothing() {
    assert_eq!(parse_manifest("require (\n a/b/c v1\n d/e/f v2 )\n"), Ok(vec!["a/b/c@v1".to_string()]));
    assert_eq!(parse_manifest("require (\n)"), Ok(vec![]));
}

#[test]
fn line_with_group_is_no_single_requirement() {
    assert_eq!(parse_manifest("require foo (bar)"), Ok(vec![]));
    assert_eq!(parse_manifest("exclude (\n a/b/c v1\n)"), Ok(vec![]));
}

#[test]
fn lines_inside_a_block_are_block_entries_only() {
    assert_eq!(parse_manifest("require (\n require a/b/c v1\n)"), Ok(vec!["require@a/b/c".to_string()]));
}

#[test]
fn exactly_one_manifest_file_is_needed() {
    assert_eq!(single_manifest(vec![Some("module x".to_string())]), Ok("module x".to_string()));
    assert_eq!(single_manifest(vec![]), Err(BuildError::ManifestFetchError));
    assert_eq!(
        single_manifest(vec![Some("a".to_string()), Some("b".to_string())]),
        Err(BuildError::ManifestFetchError)
    );
    assert_eq!(single_manifest(vec![None]), Err(BuildError::ManifestFetchError));
}
