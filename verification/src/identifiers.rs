//! Resolution of a requirement string into the identifiers of a module: its
//! name, owner, version and canonical location.
//!
//! The first segment of a requirement string names the host, and the host
//! decides how the module is addressed. On [`DIRECT_HOST`] the string itself
//! holds the owner and the name. Under [`REDIRECT_HOST`] it is a vanity import
//! path: the page behind the path names the canonical location in a line that
//! holds [`IMPORT_MARKER`].

use crate::error::{message_text, BuildError, Failure, FormatFault};
use crate::package::{fresh, resolved, Package};
use crate::text::{
    before, contains, find, lemma_segments_cons, lemma_segments_first, lemma_segments_whole,
    occurs, same, segments, split, split_words, strip, without, words,
};
use vstd::prelude::*;

verus! {

/// The host whose modules are addressed as `host/owner/name@version`.
pub const DIRECT_HOST: &'static str = "github.com";

/// The host of vanity import paths.
pub const REDIRECT_HOST: &'static str = "golang.org";

/// What a line of a page holds when it names the canonical location of a
/// vanity import path.
pub const IMPORT_MARKER: &'static str = "meta name=\"go-import\"";

/// What stands before a vanity import path in the address of its page.
pub const PAGE_SCHEME: &'static str = "https://";

/// The identifiers of a module: name, owner, version and canonical location,
/// in this order.
pub type Identifiers = (Seq<char>, Seq<char>, Seq<char>, Seq<char>);

/// The outcome of a resolution, its texts taken as character sequences.
pub open spec fn outcome(
    r: Result<(String, String, String, String), BuildError>,
) -> Result<Identifiers, Failure> {
    match r {
        Ok(ids) => Ok((ids.0@, ids.1@, ids.2@, ids.3@)),
        Err(e) => Err(e@),
    }
}

/// The host that a requirement string names: its first `/`-delimited
/// segment.
pub open spec fn host_of(url: Seq<char>) -> Seq<char> {
    segments(url, '/')[0]
}

/// Whether `url` has the shape `host/owner/name@version`: three
/// `/`-delimited segments, the last of them two `@`-delimited parts, a name
/// and a version, neither of them empty.
pub open spec fn direct_shape(url: Seq<char>) -> bool {
    let segs = segments(url, '/');
    &&& segs.len() == 3
    &&& segments(segs[2], '@').len() == 2
    &&& segments(segs[2], '@')[0].len() > 0
    &&& segments(segs[2], '@')[1].len() > 0
}

/// The identifiers that a directly addressed requirement string holds. A
/// string with other than three segments fails for its segments, and one
/// whose last segment is not a name and a version, neither of them empty,
/// fails for its version.
pub open spec fn direct_identifiers(url: Seq<char>) -> Result<Identifiers, Failure> {
    let segs = segments(url, '/');
    if segs.len() != 3 {
        Err(Failure::ArgumentFormatError(FormatFault::Segments))
    } else if !direct_shape(url) {
        Err(Failure::ArgumentFormatError(FormatFault::Version))
    } else {
        let parts = segments(segs[2], '@');
        Ok((parts[0], segs[1], parts[1], segs[0] + seq!['/'] + segs[1] + seq!['/'] + parts[0]))
    }
}

/// Whether `url` has the shape `path@version`, the version not empty. What
/// follows a further `@` is not looked at.
pub open spec fn redirect_shape(url: Seq<char>) -> bool {
    segments(url, '@').len() >= 2 && segments(url, '@')[1].len() > 0
}

/// The first of `lines` that holds [`IMPORT_MARKER`].
pub open spec fn marker_line(lines: Seq<Seq<char>>) -> Option<Seq<char>>
    decreases lines.len(),
{
    if lines.len() == 0 {
        None
    } else if occurs(IMPORT_MARKER@, lines[0]) {
        Some(lines[0])
    } else {
        marker_line(lines.drop_first())
    }
}

/// The canonical location that a page names: the last word of its first line
/// that holds [`IMPORT_MARKER`], without the quotes and the closing bracket
/// of the markup.
pub open spec fn canonical_location(page: Seq<char>) -> Option<Seq<char>> {
    match marker_line(segments(page, '\n')) {
        Some(line) if words(line).len() > 0 => Some(without(words(line).last(), '"', '>')),
        _ => None,
    }
}

/// The identifiers of the module at a canonical location. The name is the
/// last `/`-delimited segment of the location, the owner the segment before
/// it where the location has three segments or more, and empty otherwise.
pub open spec fn location_identifiers(location: Seq<char>, version: Seq<char>) -> Result<
    Identifiers,
    Failure,
> {
    let segs = segments(location, '/');
    if segs.len() < 2 || segs.last().len() == 0 {
        Err(Failure::ResolutionError)
    } else if segs.len() == 2 {
        Ok((segs[1], Seq::empty(), version, location))
    } else {
        Ok((segs.last(), segs[segs.len() - 2], version, location))
    }
}

/// The identifiers behind a vanity import path, given the page behind the
/// path, if it could be had.
pub open spec fn redirect_identifiers(url: Seq<char>, page: Option<Seq<char>>) -> Result<
    Identifiers,
    Failure,
> {
    if !redirect_shape(url) {
        Err(Failure::ArgumentFormatError(FormatFault::Version))
    } else {
        match page {
            None => Err(Failure::ResolutionError),
            Some(body) => match canonical_location(body) {
                None => Err(Failure::ResolutionError),
                Some(location) => location_identifiers(location, segments(url, '@')[1]),
            },
        }
    }
}

/// The address of the page that resolution needs for `url`: none unless `url`
/// is a vanity import path with a version.
pub open spec fn redirect_target(url: Seq<char>) -> Option<Seq<char>> {
    if host_of(url) == REDIRECT_HOST@ && redirect_shape(url) {
        Some(PAGE_SCHEME@ + segments(url, '@')[0])
    } else {
        None
    }
}

/// The identifiers that a requirement string resolves to, given the page
/// behind it where it is a vanity import path.
pub open spec fn identifiers(url: Seq<char>, page: Option<Seq<char>>) -> Result<
    Identifiers,
    Failure,
> {
    if host_of(url) == DIRECT_HOST@ {
        direct_identifiers(url)
    } else if host_of(url) == REDIRECT_HOST@ {
        redirect_identifiers(url, page)
    } else {
        Err(Failure::PlatformUnsupportedError(host_of(url)))
    }
}

/// The node that a requirement string resolves to.
pub open spec fn resolution(url: Seq<char>, page: Option<Seq<char>>) -> Result<
    crate::package::PackageView,
    Failure,
> {
    match identifiers(url, page) {
        Ok(ids) => Ok(fresh(ids.0, ids.1, ids.2, ids.3)),
        Err(e) => Err(e),
    }
}

/// Every well-formed directly addressed string `host/owner/name@version`
/// resolves to exactly its four parts, with the location `host/owner/name`.
pub proof fn law_direct_parts(
    host: Seq<char>,
    owner: Seq<char>,
    name: Seq<char>,
    version: Seq<char>,
)
    requires
        !host.contains('/'),
        !owner.contains('/'),
        !name.contains('/') && !name.contains('@') && name.len() > 0,
        !version.contains('/') && !version.contains('@') && version.len() > 0,
    ensures
        direct_identifiers(host + seq!['/'] + owner + seq!['/'] + name + seq!['@'] + version)
            == Ok::<Identifiers, Failure>(
            (name, owner, version, host + seq!['/'] + owner + seq!['/'] + name),
        ),
        host == DIRECT_HOST@ ==> forall|page: Option<Seq<char>>|
            #[trigger] identifiers(
                host + seq!['/'] + owner + seq!['/'] + name + seq!['@'] + version,
                page,
            ) == Ok::<Identifiers, Failure>(
                (name, owner, version, host + seq!['/'] + owner + seq!['/'] + name),
            ),
{
    let last = name + seq!['@'] + version;
    let url = host + seq!['/'] + owner + seq!['/'] + name + seq!['@'] + version;
    assert(url =~= host + seq!['/'] + (owner + seq!['/'] + last));
    assert forall|i: int| 0 <= i < last.len() implies last[i] != '/' by {
        if i < name.len() {
            assert(name.contains(name[i]));
        } else if i > name.len() {
            assert(version.contains(version[i - name.len() - 1]));
        }
    }
    lemma_segments_cons(host, '/', owner + seq!['/'] + last);
    lemma_segments_cons(owner, '/', last);
    lemma_segments_whole(last, '/');
    assert(segments(url, '/') =~= seq![host, owner, last]);
    lemma_segments_cons(name, '@', version);
    lemma_segments_whole(version, '@');
    assert(segments(last, '@') =~= seq![name, version]);
}

/// A string with other than three `/`-delimited segments is no directly
/// addressed requirement, and neither is one whose last segment holds no
/// `@`.
pub proof fn law_direct_malformed(url: Seq<char>)
    ensures
        segments(url, '/').len() != 3 ==> direct_identifiers(url) == Err::<Identifiers, Failure>(
            Failure::ArgumentFormatError(FormatFault::Segments),
        ),
        segments(url, '/').len() == 3 && !segments(url, '/')[2].contains('@')
            ==> direct_identifiers(url) == Err::<Identifiers, Failure>(
            Failure::ArgumentFormatError(FormatFault::Version),
        ),
        host_of(url) == DIRECT_HOST@ ==> forall|page: Option<Seq<char>>|
            #[trigger] identifiers(url, page) == direct_identifiers(url),
{
    let segs = segments(url, '/');
    if segs.len() == 3 && !segs[2].contains('@') {
        lemma_segments_whole(segs[2], '@');
    }
}

/// A requirement whose host is neither of the two known hosts fails with
/// `PlatformUnsupportedError`, which names the host, whatever else the
/// requirement holds and whatever page there is. No page is asked for.
pub proof fn law_unknown_host(url: Seq<char>, page: Option<Seq<char>>)
    requires
        host_of(url) != DIRECT_HOST@,
        host_of(url) != REDIRECT_HOST@,
    ensures
        identifiers(url, page) == Err::<Identifiers, Failure>(
            Failure::PlatformUnsupportedError(host_of(url)),
        ),
        redirect_target(url) is None,
        message_text(Failure::PlatformUnsupportedError(host_of(url))) == "Invalid platform: "@
            + host_of(url),
{
}

/// A canonical location `host/owner/name` names the module `name` of
/// `owner`, and a canonical location `host/name` names the module `name`
/// without an owner.
pub proof fn law_location_parts(
    host: Seq<char>,
    owner: Seq<char>,
    name: Seq<char>,
    version: Seq<char>,
)
    requires
        !host.contains('/'),
        !owner.contains('/'),
        !name.contains('/') && name.len() > 0,
    ensures
        location_identifiers(host + seq!['/'] + owner + seq!['/'] + name, version) == Ok::<
            Identifiers,
            Failure,
        >((name, owner, version, host + seq!['/'] + owner + seq!['/'] + name)),
        location_identifiers(host + seq!['/'] + name, version) == Ok::<Identifiers, Failure>(
            (name, Seq::empty(), version, host + seq!['/'] + name),
        ),
{
    let long = host + seq!['/'] + owner + seq!['/'] + name;
    assert(long =~= host + seq!['/'] + (owner + seq!['/'] + name));
    lemma_segments_cons(host, '/', owner + seq!['/'] + name);
    lemma_segments_cons(owner, '/', name);
    lemma_segments_cons(host, '/', name);
    lemma_segments_whole(name, '/');
    assert(segments(long, '/') =~= seq![host, owner, name]);
    assert(segments(host + seq!['/'] + name, '/') =~= seq![host, name]);
}

/// Checks that `repo_url` has the shape `host/owner/name@version`.
pub fn check_arg_format(repo_url: &str) -> (r: Result<(), BuildError>)
    ensures
        r is Ok <==> direct_shape(repo_url@),
        r matches Err(e) ==> e@ == Failure::ArgumentFormatError(FormatFault::Repository),
{
    let repo_components = split(repo_url, '/');
    if repo_components.len() != 3 {
        return Err(BuildError::ArgumentFormatError(FormatFault::Repository));
    }
    let repo_name_version = split(repo_components[2].as_str(), '@');
    if repo_name_version.len() != 2 {
        return Err(BuildError::ArgumentFormatError(FormatFault::Repository));
    }
    if repo_name_version[0].as_str().is_empty() || repo_name_version[1].as_str().is_empty() {
        return Err(BuildError::ArgumentFormatError(FormatFault::Repository));
    }
    Ok(())
}

/// The canonical location that `page` names, if it names one.
pub fn find_canonical_location(page: &str) -> (r: Option<String>)
    ensures
        r.deep_view() == canonical_location(page@),
{
    let lines = split(page, '\n');
    let mut at: usize = 0;
    assert(lines.deep_view().skip(0) =~= lines.deep_view());
    while at < lines.len()
        invariant
            at <= lines.len(),
            lines.deep_view() == segments(page@, '\n'),
            marker_line(segments(page@, '\n')) == marker_line(lines.deep_view().skip(at as int)),
        decreases lines.len() - at,
    {
        let ghost rest = lines.deep_view().skip(at as int);
        assert(rest[0] == lines@[at as int]@);
        if contains(lines[at].as_str(), IMPORT_MARKER) {
            let tokens = split_words(lines[at].as_str());
            if tokens.len() == 0 {
                return None;
            }
            let repo = strip(tokens[tokens.len() - 1].as_str(), '"', '>');
            assert(tokens.deep_view().last() == tokens@[tokens.len() - 1]@);
            return Some(repo);
        }
        assert(rest.drop_first() =~= lines.deep_view().skip(at + 1));
        at += 1;
    }
    None
}

impl Package {
    /// The host that `url` names: what stands before its first `/`.
    pub fn platform<'a>(url: &'a str) -> (r: Result<&'a str, BuildError>)
        ensures
            r is Ok,
            r->Ok_0@ == host_of(url@),
    {
        proof {
            lemma_segments_first(url@, '/');
        }
        Ok(before(url, '/'))
    }

    /// The address of the page that has to be fetched before `url` can be
    /// resolved: none unless `url` is a vanity import path with a version.
    pub fn redirect_url(url: &str) -> (r: Option<String>)
        ensures
            r.deep_view() == redirect_target(url@),
    {
        proof {
            lemma_segments_first(url@, '/');
        }
        if !same(before(url, '/'), REDIRECT_HOST) {
            return None;
        }
        let tokens = split(url, '@');
        if tokens.len() < 2 || tokens[1].as_str().is_empty() {
            return None;
        }
        let mut target = PAGE_SCHEME.to_owned();
        target.append(tokens[0].as_str());
        Some(target)
    }

    /// Resolves a requirement string into name, owner, version and canonical
    /// location, in this order. `page` is the page behind `url` where `url`
    /// is a vanity import path and the page could be had; for any other
    /// `url` it is not looked at.
    ///
    /// Fails with `PlatformUnsupportedError` where the host is neither
    /// [`DIRECT_HOST`] nor [`REDIRECT_HOST`], and else as
    /// [`Package::get_github_identifiers`] and
    /// [`Package::get_golang_identifiers`] do.
    pub fn get_identifiers(url: &str, page: &Option<String>) -> (r: Result<
        (String, String, String, String),
        BuildError,
    >)
        ensures
            outcome(r) == identifiers(url@, page.deep_view()),
    {
        proof {
            lemma_segments_first(url@, '/');
        }
        let platform = before(url, '/');
        if same(platform, DIRECT_HOST) {
            Package::get_github_identifiers(url)
        } else if same(platform, REDIRECT_HOST) {
            Package::get_golang_identifiers(url, page)
        } else {
            Err(BuildError::PlatformUnsupportedError(platform.to_owned()))
        }
    }

    /// Resolves a vanity import path `path@version`, given the page behind
    /// the path, if it could be had.
    ///
    /// Fails with `ArgumentFormatError` where `url` is not of that shape,
    /// and with `ResolutionError` where there is no page, the page names no
    /// canonical location, or the location names no module.
    pub fn get_golang_identifiers(url: &str, page: &Option<String>) -> (r: Result<
        (String, String, String, String),
        BuildError,
    >)
        ensures
            outcome(r) == redirect_identifiers(url@, page.deep_view()),
    {
        let tokens = split(url, '@');
        if tokens.len() < 2 || tokens[1].as_str().is_empty() {
            return Err(BuildError::ArgumentFormatError(FormatFault::Version));
        }
        let version = tokens[1].clone();
        let repo = match page {
            None => {
                return Err(BuildError::ResolutionError);
            },
            Some(content) => match find_canonical_location(content.as_str()) {
                None => {
                    return Err(BuildError::ResolutionError);
                },
                Some(repo) => repo,
            },
        };
        let tokens = split(repo.as_str(), '/');
        let n = tokens.len();
        if n < 2 || tokens[n - 1].as_str().is_empty() {
            return Err(BuildError::ResolutionError);
        }
        let name = tokens[n - 1].clone();
        let owner = if n == 2 {
            String::new()
        } else {
            tokens[n - 2].clone()
        };
        Ok((name, owner, version, repo))
    }

    /// Resolves a directly addressed requirement string
    /// `host/owner/name@version` into its parts; the canonical location is
    /// `host/owner/name`.
    ///
    /// Fails with `ArgumentFormatError` where `url` is not of that shape.
    pub fn get_github_identifiers(url: &str) -> (r: Result<
        (String, String, String, String),
        BuildError,
    >)
        ensures
            outcome(r) == direct_identifiers(url@),
    {
        let tokens = split(url, '/');
        if tokens.len() != 3 {
            return Err(BuildError::ArgumentFormatError(FormatFault::Segments));
        }
        let repo_name_version = split(tokens[2].as_str(), '@');
        if repo_name_version.len() != 2 {
            return Err(BuildError::ArgumentFormatError(FormatFault::Version));
        }
        if repo_name_version[0].as_str().is_empty() || repo_name_version[1].as_str().is_empty() {
            return Err(BuildError::ArgumentFormatError(FormatFault::Version));
        }
        let repo_name = repo_name_version[0].clone();
        let repo_version = repo_name_version[1].clone();
        let owner = tokens[1].clone();
        let mut source = tokens[0].clone();
        source.append("/");
        source.append(owner.as_str());
        source.append("/");
        source.append(repo_name.as_str());
        proof {
            reveal_strlit("/");
            assert("/"@ =~= seq!['/']);
        }
        Ok((repo_name, owner, repo_version, source))
    }

    /// The node that `url` resolves to: one with the identifiers that
    /// [`Package::get_identifiers`] finds, without a license and without
    /// dependencies. It fails as [`Package::get_identifiers`] does.
    pub fn from_url(url: &str, page: &Option<String>) -> (r: Result<Package, BuildError>)
        ensures
            match r {
                Ok(p) => resolution(url@, page.deep_view()) == Ok::<
                    crate::package::PackageView,
                    Failure,
                >(p@),
                Err(e) => resolution(url@, page.deep_view()) == Err::<
                    crate::package::PackageView,
                    Failure,
                >(e@),
            },
    {
        match Package::get_identifiers(url, page) {
            Ok((name, owner, version, source)) => Ok(Package::new(name, owner, version, source)),
            Err(e) => Err(e),
        }
    }
}

/// A node that resolution has made carries a name and a version.
pub proof fn law_resolution_names(url: Seq<char>, page: Option<Seq<char>>)
    ensures
        resolution(url, page) matches Ok(p) ==> resolved(p) && p.license.len() == 0
            && p.dependencies.len() == 0,
{
}

} // verus!
