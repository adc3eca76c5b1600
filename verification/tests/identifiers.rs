use modtree::identifiers::find_canonical_location;
use modtree::{check_arg_format, BuildError, FormatFault, Package};

fn ids(name: &str, owner: &str, version: &str, source: &str) -> (String, String, String, String) {
    (name.to_string(), owner.to_string(), version.to_string(), source.to_string())
}

const PAGE: &str = "<html>\n<head>\n<meta name=\"go-import\" content=\"golang.org/x/sys git github.com/golang/sys\">\n</head>\n</html>\n";

#[test]
fn direct_scheme_gives_the_four_parts() {
    assert_eq!(
        Package::get_github_identifiers("github.com/foo/bar@v1.0.0"),
        Ok(ids("bar", "foo", "v1.0.0", "github.com/foo/bar"))
    );
    assert_eq!(
        Package::get_identifiers("github.com/baz/qux@v2.0.0", &None),
        Ok(ids("qux", "baz", "v2.0.0", "github.com/baz/qux"))
    );
}

#[test]
fn direct_scheme_keeps_the_host_in_the_source() {
    assert_eq!(
        Package::get_github_identifiers("example.org/o/n@v0.1.0"),
        Ok(ids("n", "o", "v0.1.0", "example.org/o/n"))
    );
}

#[test]
fn direct_scheme_ignores_a_page() {
    assert_eq!(
        Package::get_identifiers("github.com/foo/bar@v1.0.0", &Some(PAGE.to_string())),
        Ok(ids("bar", "foo", "v1.0.0", "github.com/foo/bar"))
    );
}

#[test]
fn last_segment_without_version_is_malformed() {
    let version = BuildError::ArgumentFormatError(FormatFault::Version);
    assert_eq!(Package::get_github_identifiers("github.com/foo/bar"), Err(BuildError::ArgumentFormatError(FormatFault::Version)));
    assert_eq!(Package::get_identifiers("github.com/foo/bar", &None), Err(BuildError::ArgumentFormatError(FormatFault::Version)));
    assert_eq!(check_arg_format("github.com/foo/bar"), Err(BuildError::ArgumentFormatError(FormatFault::Repository)));
    assert_eq!(version.message(), "Invalid argument format (repo@version)");
}

#[test]
fn wrong_number_of_segments_is_malformed() {
    for url in ["github.com/foo@v1", "github.com/foo/bar/baz@v1", "github.com", "github.com/", ""] {
        assert_eq!(Package::get_github_identifiers(url), Err(BuildError::ArgumentFormatError(FormatFault::Segments)), "{}", url);
        assert_eq!(check_arg_format(url), Err(BuildError::ArgumentFormatError(FormatFault::Repository)), "{}", url);
    }
    assert_eq!(Package::get_identifiers("github.com/foo@v1", &None), Err(BuildError::ArgumentFormatError(FormatFault::Segments)));
    assert_eq!(BuildError::ArgumentFormatError(FormatFault::Segments).message(), "Invalid argument format");
}

#[test]
fn argument_check_has_its_own_message() {
    let e = check_arg_format("github.com/foo").err().unwrap();
    assert_eq!(e.message(), "Invalid repository format");
    let e = check_arg_format("github.com/foo/bar").err().unwrap();
    assert_eq!(e.message(), "Invalid repository format");
}

#[test]
fn more_than_one_version_is_malformed() {
    assert_eq!(Package::get_github_identifiers("github.com/foo/bar@v1@v2"), Err(BuildError::ArgumentFormatError(FormatFault::Version)));
}

#[test]
fn empty_name_or_version_is_malformed() {
    assert_eq!(Package::get_github_identifiers("github.com/foo/@v1"), Err(BuildError::ArgumentFormatError(FormatFault::Version)));
    assert_eq!(Package::get_github_identifiers("github.com/foo/bar@"), Err(BuildError::ArgumentFormatError(FormatFault::Version)));
    assert_eq!(check_arg_format("github.com/foo/@v1"), Err(BuildError::ArgumentFormatError(FormatFault::Repository)));
}

#[test]
fn empty_owner_is_accepted() {
    assert_eq!(
        Package::get_github_identifiers("github.com//bar@v1"),
        Ok(ids("bar", "", "v1", "github.com//bar"))
    );
}

#[test]
fn check_arg_format_accepts_the_shape() {
    assert_eq!(check_arg_format("github.com/foo/bar@v1.0.0"), Ok(()));
    assert_eq!(check_arg_format("anything/o/n@v"), Ok(()));
}

#[test]
fn unknown_host_is_unsupported() {
    assert_eq!(
        Package::get_identifiers("gitlab.com/foo/bar@v1.0.0", &None),
        Err(BuildError::PlatformUnsupportedError("gitlab.com".to_string()))
    );
    assert_eq!(Package::get_identifiers("", &None), Err(BuildError::PlatformUnsupportedError(String::new())));
    assert_eq!(Package::get_identifiers("//@comment", &None), Err(BuildError::PlatformUnsupportedError(String::new())));
    assert_eq!(
        Package::get_identifiers("github.com.evil/foo/bar@v1", &None),
        Err(BuildError::PlatformUnsupportedError("github.com.evil".to_string()))
    );
}

#[test]
fn unknown_host_is_named_in_the_message() {
    let e = Package::get_identifiers("gitlab.com/foo/bar@v1.0.0", &None).err().unwrap();
    assert_eq!(e.message(), "Invalid platform: gitlab.com");
    assert_eq!(Package::redirect_url("gitlab.com/foo/bar@v1.0.0"), None);
    let e = Package::from_url("bitbucket.org/x", &Some("page".to_string())).err().unwrap();
    assert_eq!(e.message(), "Invalid platform: bitbucket.org");
}

#[test]
fn platform_is_the_first_segment() {
    assert_eq!(Package::platform("github.com/foo/bar@v1"), Ok("github.com"));
    assert_eq!(Package::platform("golang.org/x/sys@v1"), Ok("golang.org"));
    assert_eq!(Package::platform("plain"), Ok("plain"));
    assert_eq!(Package::platform(""), Ok(""));
}

#[test]
fn vanity_import_resolves_owner_and_name() {
    assert_eq!(
        Package::get_golang_identifiers("golang.org/x/sys@v0.1.0", &Some(PAGE.to_string())),
        Ok(ids("sys", "golang", "v0.1.0", "github.com/golang/sys"))
    );
    assert_eq!(
        Package::get_identifiers("golang.org/x/sys@v0.1.0", &Some(PAGE.to_string())),
        Ok(ids("sys", "golang", "v0.1.0", "github.com/golang/sys"))
    );
}

#[test]
fn vanity_import_without_owner_segment_has_empty_owner() {
    let page = "<meta name=\"go-import\" content=\"golang.org/x/sys git go.googlesource.com/sys\">";
    assert_eq!(
        Package::get_golang_identifiers("golang.org/x/sys@v0.1.0", &Some(page.to_string())),
        Ok(ids("sys", "", "v0.1.0", "go.googlesource.com/sys"))
    );
}

#[test]
fn vanity_import_takes_the_first_marker_line() {
    let page = "x\n<meta name=\"go-import\" content=\"a git github.com/one/first\">\n<meta name=\"go-import\" content=\"a git github.com/two/second\">";
    assert_eq!(find_canonical_location(page), Some("github.com/one/first".to_string()));
}

#[test]
fn vanity_import_reads_lines_with_carriage_returns() {
    let page = "<head>\r\n<meta name=\"go-import\" content=\"golang.org/x/sys git github.com/golang/sys\">\r\n</head>";
    assert_eq!(find_canonical_location(page), Some("github.com/golang/sys".to_string()));
}

#[test]
fn missing_marker_is_a_resolution_error() {
    assert_eq!(
        Package::get_golang_identifiers("golang.org/x/sys@v0.1.0", &Some("<html></html>".to_string())),
        Err(BuildError::ResolutionError)
    );
    assert_eq!(find_canonical_location("<meta name=go-import content=x>"), None);
    assert_eq!(find_canonical_location(""), None);
}

#[test]
fn missing_page_is_a_resolution_error() {
    assert_eq!(Package::get_golang_identifiers("golang.org/x/sys@v0.1.0", &None), Err(BuildError::ResolutionError));
    assert_eq!(Package::get_identifiers("golang.org/x/sys@v0.1.0", &None), Err(BuildError::ResolutionError));
}

#[test]
fn location_without_module_is_a_resolution_error() {
    let no_slash = "<meta name=\"go-import\" content=\"a git nowhere\">";
    assert_eq!(
        Package::get_golang_identifiers("golang.org/x/sys@v1", &Some(no_slash.to_string())),
        Err(BuildError::ResolutionError)
    );
    let empty_name = "<meta name=\"go-import\" content=\"a git github.com/golang/\">";
    assert_eq!(
        Package::get_golang_identifiers("golang.org/x/sys@v1", &Some(empty_name.to_string())),
        Err(BuildError::ResolutionError)
    );
}

#[test]
fn vanity_import_without_version_is_malformed() {
    assert_eq!(
        Package::get_golang_identifiers("golang.org/x/sys", &Some(PAGE.to_string())),
        Err(BuildError::ArgumentFormatError(FormatFault::Version))
    );
    assert_eq!(
        Package::get_golang_identifiers("golang.org/x/sys@", &Some(PAGE.to_string())),
        Err(BuildError::ArgumentFormatError(FormatFault::Version))
    );
}

#[test]
fn vanity_import_takes_the_first_version() {
    assert_eq!(
        Package::get_golang_identifiers("golang.org/x/sys@v0.1.0@more", &Some(PAGE.to_string())),
        Ok(ids("sys", "golang", "v0.1.0", "github.com/golang/sys"))
    );
    assert_eq!(Package::redirect_url("golang.org/x/sys@v0.1.0@more"), Some("https://golang.org/x/sys".to_string()));
}

#[test]
fn redirect_url_names_the_page() {
    assert_eq!(Package::redirect_url("golang.org/x/sys@v0.1.0"), Some("https://golang.org/x/sys".to_string()));
    assert_eq!(Package::redirect_url("golang.org/x/sys"), None);
    assert_eq!(Package::redirect_url("golang.org/x/sys@"), None);
    assert_eq!(Package::redirect_url("github.com/foo/bar@v1"), None);
    assert_eq!(Package::redirect_url("gitlab.com/foo/bar@v1"), None);
}

#[test]
fn from_url_makes_a_fresh_node() {
    let p = Package::from_url("github.com/foo/bar@v1.0.0", &None).ok().unwrap();
    assert_eq!(p.name(), "bar");
    assert_eq!(p.owner(), "foo");
    assert_eq!(p.version(), "v1.0.0");
    assert_eq!(p.source(), "github.com/foo/bar");
    assert_eq!(p.license(), "");
    assert!(p.dependencies().is_empty());
}

#[test]
fn from_url_fails_as_resolution_does() {
    assert!(matches!(Package::from_url("github.com/foo", &None), Err(BuildError::ArgumentFormatError(FormatFault::Segments))));
    assert!(matches!(Package::from_url("x/y/z@v", &None), Err(BuildError::PlatformUnsupportedError(host)) if host == "x"));
    assert!(matches!(Package::from_url("golang.org/x/sys@v1", &None), Err(BuildError::ResolutionError)));
}
