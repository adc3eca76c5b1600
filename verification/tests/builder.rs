use modtree::{BuildError, Event, FormatFault, Package, Request, TreeBuilder};

/// Answers every request of a build from a fixed table and counts them.
fn run(root: &str, manifests: &[(&str, &str)], licenses: &[(&str, &str)], pages: &[(&str, &str)]) -> (Result<Package, BuildError>, usize) {
    let root = Package::from_url(root, &None).ok().unwrap();
    let mut builder: TreeBuilder = root.get_dependencies();
    let mut asked = 0;
    loop {
        let event = match builder.request() {
            None => break,
            Some(Request::License { owner, name }) => {
                let key = format!("{}/{}", owner, name);
                Event::License(licenses.iter().find(|(k, _)| *k == key).map(|(_, v)| v.to_string()))
            }
            Some(Request::Manifest { owner, name, path }) => {
                assert_eq!(path, "go.mod");
                let key = format!("{}/{}", owner, name);
                Event::Manifest(manifests.iter().filter(|(k, _)| *k == key).map(|(_, v)| Some(v.to_string())).collect())
            }
            Some(Request::Page { url }) => match pages.iter().find(|(k, _)| *k == url) {
                Some((_, body)) => Event::Page(body.to_string()),
                None => Event::Failed(format!("no route to {}", url)),
            },
        };
        asked += 1;
        assert!(asked < 1000);
        builder = builder.step(event);
    }
    assert!(builder.is_finished());
    (builder.finish().unwrap(), asked)
}

#[test]
fn end_to_end_two_nodes() {
    let (tree, asked) = run(
        "github.com/foo/bar@v1.0.0",
        &[("foo/bar", "module github.com/foo/bar\n\nrequire github.com/baz/qux v2.0.0\n"), ("baz/qux", "module github.com/baz/qux\n")],
        &[("foo/bar", "MIT"), ("baz/qux", "MIT")],
        &[],
    );
    let tree = tree.ok().unwrap();
    assert_eq!(
        tree.print_tree(),
        "Package { name: bar, owner: foo, version: v1.0.0, license: MIT }\n  Package { name: qux, owner: baz, version: v2.0.0, license: MIT }\n"
    );
    assert_eq!(asked, 4);
}

#[test]
fn diamond_gives_two_independent_subtrees() {
    let (tree, asked) = run(
        "github.com/r/root@v1",
        &[
            ("r/root", "require (\n\tgithub.com/x/a v1\n\tgithub.com/x/b v1\n)\n"),
            ("x/a", "require github.com/x/c v1\n"),
            ("x/b", "require github.com/x/c v1\n"),
            ("x/c", "module github.com/x/c\n"),
        ],
        &[("r/root", "MIT"), ("x/a", "MIT"), ("x/b", "BSD"), ("x/c", "ISC")],
        &[],
    );
    let tree = tree.ok().unwrap();
    assert_eq!(tree.dependencies().len(), 2);
    let a = &tree.dependencies()[0];
    let b = &tree.dependencies()[1];
    assert_eq!(a.name(), "a");
    assert_eq!(b.name(), "b");
    assert_eq!(a.dependencies().len(), 1);
    assert_eq!(b.dependencies().len(), 1);
    assert_eq!(a.dependencies()[0].fmt(), "Package { name: c, owner: x, version: v1, license: ISC }");
    assert_eq!(b.dependencies()[0].fmt(), a.dependencies()[0].fmt());
    assert_eq!(a.dependencies()[0].print_tree(), b.dependencies()[0].print_tree());
    assert_eq!(
        tree.print_tree(),
        "Package { name: root, owner: r, version: v1, license: MIT }\n\
         \x20 Package { name: a, owner: x, version: v1, license: MIT }\n\
         \x20   Package { name: c, owner: x, version: v1, license: ISC }\n\
         \x20 Package { name: b, owner: x, version: v1, license: BSD }\n\
         \x20   Package { name: c, owner: x, version: v1, license: ISC }\n"
    );
    // five nodes, a license and a manifest for each: the shared module is fetched twice
    assert_eq!(asked, 10);
}

#[test]
fn build_asks_in_depth_first_order() {
    let root = Package::from_url("github.com/r/root@v1", &None).ok().unwrap();
    let b = root.get_dependencies();
    assert!(!b.is_finished());
    assert_eq!(b.request(), Some(Request::License { owner: "r".to_string(), name: "root".to_string() }));
    let b = b.step(Event::License(Some("MIT".to_string())));
    assert_eq!(
        b.request(),
        Some(Request::Manifest { owner: "r".to_string(), name: "root".to_string(), path: "go.mod".to_string() })
    );
    let b = b.step(Event::Manifest(vec![Some("require (\n github.com/x/a v1\n github.com/x/b v2\n)".to_string())]));
    assert!(matches!(b.request(), Some(Request::License { owner, name }) if owner == "x" && name == "a"));
    let b = b.step(Event::License(None));
    assert!(matches!(b.request(), Some(Request::Manifest { owner, name, .. }) if owner == "x" && name == "a"));
    let b = b.step(Event::Manifest(vec![Some(String::new())]));
    assert!(matches!(b.request(), Some(Request::License { owner, name }) if owner == "x" && name == "b"));
    let b = b.step(Event::License(Some("BSD".to_string())));
    let b = b.step(Event::Manifest(vec![Some("module b".to_string())]));
    assert!(b.is_finished());
    assert!(b.request().is_none());
    let tree = b.finish().unwrap().ok().unwrap();
    assert_eq!(tree.dependencies()[0].license(), "unknown");
    assert_eq!(tree.dependencies()[1].license(), "BSD");
    assert_eq!(tree.dependencies()[1].version(), "v2");
}

#[test]
fn vanity_import_is_resolved_through_its_page() {
    let page = "<meta name=\"go-import\" content=\"golang.org/x/sys git github.com/golang/sys\">";
    let (tree, asked) = run(
        "github.com/foo/bar@v1.0.0",
        &[("foo/bar", "require golang.org/x/sys v0.5.0\nrequire github.com/a/b v1\n"), ("golang/sys", ""), ("a/b", "")],
        &[("foo/bar", "MIT"), ("golang/sys", "BSD-3-Clause")],
        &[("https://golang.org/x/sys", page)],
    );
    let tree = tree.ok().unwrap();
    assert_eq!(
        tree.print_tree(),
        "Package { name: bar, owner: foo, version: v1.0.0, license: MIT }\n\
         \x20 Package { name: sys, owner: golang, version: v0.5.0, license: BSD-3-Clause }\n\
         \x20 Package { name: b, owner: a, version: v1, license: unknown }\n"
    );
    assert_eq!(tree.dependencies()[0].source(), "github.com/golang/sys");
    assert_eq!(asked, 7);
}

#[test]
fn children_are_resolved_before_any_is_built() {
    let root = Package::from_url("github.com/r/root@v1", &None).ok().unwrap();
    let b = root.get_dependencies().step(Event::License(None));
    let b = b.step(Event::Manifest(vec![Some("require github.com/x/a v1\nrequire gitlab.com/x/b v1\n".to_string())]));
    assert_eq!(b.finish().unwrap().err(), Some(BuildError::PlatformUnsupportedError("gitlab.com".to_string())));
}

#[test]
fn missing_manifest_fails_the_build() {
    let (r, _) = run("github.com/foo/bar@v1", &[], &[("foo/bar", "MIT")], &[]);
    assert!(matches!(r, Err(BuildError::ManifestFetchError)));
}

#[test]
fn several_manifests_fail_the_build() {
    let (r, _) = run("github.com/foo/bar@v1", &[("foo/bar", "a"), ("foo/bar", "b")], &[], &[]);
    assert!(matches!(r, Err(BuildError::ManifestFetchError)));
}

#[test]
fn failure_in_a_child_fails_the_whole_build() {
    let (r, asked) = run(
        "github.com/r/root@v1",
        &[("r/root", "require github.com/x/a v1\nrequire github.com/x/b v1\n"), ("x/a", "require (\n"), ("x/b", "")],
        &[],
        &[],
    );
    assert!(matches!(r, Err(BuildError::ManifestParseError)));
    // the second child is never asked for
    assert_eq!(asked, 4);
}

#[test]
fn malformed_requirement_fails_the_build() {
    let (r, _) = run("github.com/r/root@v1", &[("r/root", "require github.com/x v1\n")], &[], &[]);
    assert!(matches!(r, Err(BuildError::ArgumentFormatError(FormatFault::Segments))));
}

#[test]
fn unreachable_page_fails_the_build() {
    let (r, asked) = run("github.com/r/root@v1", &[("r/root", "require golang.org/x/sys v1\n")], &[], &[]);
    assert!(matches!(r, Err(BuildError::ResolutionError)));
    assert_eq!(asked, 3);
}

#[test]
fn unexpected_event_changes_nothing() {
    let root = Package::from_url("github.com/r/root@v1", &None).ok().unwrap();
    let b = root.get_dependencies();
    let b = b.step(Event::Manifest(vec![]));
    let b = b.step(Event::Page(String::new()));
    assert!(matches!(b.request(), Some(Request::License { owner, name }) if owner == "r" && name == "root"));
    let b = b.step(Event::License(Some("MIT".to_string())));
    let b = b.step(Event::License(Some("GPL".to_string())));
    assert!(matches!(b.request(), Some(Request::Manifest { .. })));
    let b = b.step(Event::Manifest(vec![Some(String::new())]));
    let tree = b.finish().unwrap().ok().unwrap();
    assert_eq!(tree.license(), "MIT");
}

#[test]
fn ended_build_stays_ended() {
    let root = Package::from_url("github.com/r/root@v1", &None).ok().unwrap();
    let b = root.get_dependencies().step(Event::License(None)).step(Event::Manifest(vec![]));
    assert!(b.is_finished());
    let b = b.step(Event::License(None)).step(Event::Manifest(vec![Some(String::new())]));
    assert!(b.request().is_none());
    assert!(matches!(b.finish(), Some(Err(BuildError::ManifestFetchError))));
}

#[test]
fn build_asks_for_the_page_of_a_vanity_import() {
    let root = Package::from_url("github.com/r/root@v1", &None).ok().unwrap();
    let b = root.get_dependencies().step(Event::License(None));
    let b = b.step(Event::Manifest(vec![Some("require (\n github.com/x/a v1\n golang.org/x/net v2\n github.com/x/b v3\n)".to_string())]));
    assert_eq!(b.request(), Some(Request::Page { url: "https://golang.org/x/net".to_string() }));
    let page = "<meta name=\"go-import\" content=\"golang.org/x/net git github.com/golang/net\">";
    let b = b.step(Event::Page(page.to_string()));
    assert_eq!(b.request(), Some(Request::License { owner: "x".to_string(), name: "a".to_string() }));
    let b = b.step(Event::License(None)).step(Event::Manifest(vec![Some(String::new())]));
    assert_eq!(b.request(), Some(Request::License { owner: "golang".to_string(), name: "net".to_string() }));
    let b = b.step(Event::License(None)).step(Event::Manifest(vec![Some(String::new())]));
    assert_eq!(b.request(), Some(Request::License { owner: "x".to_string(), name: "b".to_string() }));
    let b = b.step(Event::License(None)).step(Event::Manifest(vec![Some(String::new())]));
    let tree = b.finish().unwrap().ok().unwrap();
    assert_eq!(tree.dependencies().len(), 3);
    assert_eq!(tree.dependencies()[1].version(), "v2");
    assert_eq!(tree.dependencies()[1].source(), "github.com/golang/net");
}

#[test]
fn failed_license_lookup_fails_the_build() {
    let root = Package::from_url("github.com/r/root@v1", &None).ok().unwrap();
    let b = root.get_dependencies().step(Event::Failed("HTTP 502: bad gateway".to_string()));
    assert!(b.is_finished());
    assert!(b.request().is_none());
    let e = b.finish().unwrap().err().unwrap();
    assert_eq!(e, BuildError::LookupError("HTTP 502: bad gateway".to_string()));
    assert_eq!(e.message(), "HTTP 502: bad gateway");
}

#[test]
fn failed_license_lookup_of_a_child_fails_the_build() {
    let root = Package::from_url("github.com/r/root@v1", &None).ok().unwrap();
    let b = root.get_dependencies().step(Event::License(None));
    let b = b.step(Event::Manifest(vec![Some("require github.com/x/a v1\nrequire github.com/x/b v1\n".to_string())]));
    assert_eq!(b.request(), Some(Request::License { owner: "x".to_string(), name: "a".to_string() }));
    let b = b.step(Event::Failed("timed out".to_string()));
    assert_eq!(b.finish().unwrap().err(), Some(BuildError::LookupError("timed out".to_string())));
}

#[test]
fn failed_manifest_request_fails_the_build() {
    let root = Package::from_url("github.com/r/root@v1", &None).ok().unwrap();
    let b = root.get_dependencies().step(Event::License(Some("MIT".to_string())));
    let b = b.step(Event::Failed("HTTP 404: Not Found".to_string()));
    assert_eq!(b.finish().unwrap().err(), Some(BuildError::LookupError("HTTP 404: Not Found".to_string())));
}

#[test]
fn failed_page_request_is_a_resolution_error() {
    let root = Package::from_url("github.com/r/root@v1", &None).ok().unwrap();
    let b = root.get_dependencies().step(Event::License(None));
    let b = b.step(Event::Manifest(vec![Some("require golang.org/x/sys v1\n".to_string())]));
    assert_eq!(b.request(), Some(Request::Page { url: "https://golang.org/x/sys".to_string() }));
    let b = b.step(Event::Failed("dns".to_string()));
    assert_eq!(b.finish().unwrap().err(), Some(BuildError::ResolutionError));
}

#[test]
fn unknown_host_in_a_manifest_is_named() {
    let (r, asked) = run("github.com/r/root@v1", &[("r/root", "require gitlab.com/foo/bar v1.0.0\n")], &[], &[]);
    let e = r.err().unwrap();
    assert_eq!(e.message(), "Invalid platform: gitlab.com");
    assert_eq!(asked, 2);
}

#[test]
fn running_build_has_no_outcome() {
    let root = Package::from_url("github.com/r/root@v1", &None).ok().unwrap();
    assert!(root.get_dependencies().finish().is_none());
}
