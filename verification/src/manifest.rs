//! The manifest of a module: the list of the modules it requires.
//!
//! A manifest is read line by line. A requirement stands either on a line of
//! its own, behind [`REQUIRE_MARKER`], or on a line of a block that
//! [`BLOCK_OPEN`] opens and a line with [`BLOCK_CLOSE`] closes. Every
//! requirement is a module and a version, two words of its line.

use crate::error::{BuildError, Failure};
use crate::text::{
    contains, lemma_segments_join, occurs, occurs_at, segments, split, split_words, words,
};
use vstd::prelude::*;

verus! {

/// The path of the manifest file in the repository of a module.
pub const MANIFEST_PATH: &'static str = "go.mod";

/// What a line holds that states a requirement.
pub const REQUIRE_MARKER: &'static str = "require ";

/// What a line holds that opens a block of requirements.
pub const BLOCK_OPEN: &'static str = "require (";

/// What a line holds that opens a group of any kind.
pub const GROUP_OPEN: &'static str = "(";

/// What a line holds that closes a block of requirements.
pub const BLOCK_CLOSE: &'static str = ")";

/// Whether `line` opens a block of requirements.
pub open spec fn opens_block(line: Seq<char>) -> bool {
    occurs(BLOCK_OPEN@, line)
}

/// Whether `line` closes a block of requirements.
pub open spec fn closes_block(line: Seq<char>) -> bool {
    occurs(BLOCK_CLOSE@, line)
}

/// Whether `line`, outside a block, states a requirement: it holds
/// [`REQUIRE_MARKER`] and opens no group.
pub open spec fn states_requirement(line: Seq<char>) -> bool {
    occurs(REQUIRE_MARKER@, line) && !occurs(GROUP_OPEN@, line)
}

/// The requirement `module@version` that `line` states, where the module is
/// the word of `line` at position `at` and the version is the word after
/// it; none where `line` has too few words. What follows the version, such as
/// a comment, is not looked at.
pub open spec fn requirement_at(line: Seq<char>, at: int) -> Option<Seq<char>> {
    let w = words(line);
    if 0 <= at && at + 2 <= w.len() {
        Some(w[at] + seq!['@'] + w[at + 1])
    } else {
        None
    }
}

/// `found`, followed by what the rest of a manifest holds, if the rest is
/// well formed.
pub open spec fn followed_by(found: Seq<Seq<char>>, rest: Option<Seq<Seq<char>>>) -> Option<
    Seq<Seq<char>>,
> {
    match rest {
        Some(more) => Some(found + more),
        None => None,
    }
}

/// The requirements that `lines` hold, in the order of the lines, when the
/// first of them stands inside a block (`in_block`) or outside; none where a
/// block is still open at the end or a requirement lacks its module or its
/// version.
///
/// Outside a block, a line that opens one states nothing itself, a line that
/// [`states_requirement`] gives the words behind its first, and any other
/// line is passed over. Inside a block, the line that closes it states
/// nothing, and every line before that gives its first two words.
pub open spec fn scan(lines: Seq<Seq<char>>, in_block: bool) -> Option<Seq<Seq<char>>>
    decreases lines.len(),
{
    if lines.len() == 0 {
        if in_block {
            None
        } else {
            Some(Seq::empty())
        }
    } else {
        let line = lines[0];
        let rest = lines.drop_first();
        if in_block {
            if closes_block(line) {
                scan(rest, false)
            } else {
                match requirement_at(line, 0) {
                    Some(r) => followed_by(seq![r], scan(rest, true)),
                    None => None,
                }
            }
        } else if opens_block(line) {
            scan(rest, true)
        } else if states_requirement(line) {
            match requirement_at(line, 1) {
                Some(r) => followed_by(seq![r], scan(rest, false)),
                None => None,
            }
        } else {
            scan(rest, false)
        }
    }
}

/// The requirements that a manifest states, each as `module@version`, in the
/// order in which they stand in it. Nothing is left out that stands there
/// twice.
pub open spec fn requirements(text: Seq<char>) -> Result<Seq<Seq<char>>, Failure> {
    match scan(segments(text, '\n'), false) {
        Some(found) => Ok(found),
        None => Err(Failure::ManifestParseError),
    }
}

/// The text of the manifest among the files found at [`MANIFEST_PATH`]:
/// there has to be exactly one file, and it has to have a content.
pub open spec fn manifest_among(files: Seq<Option<Seq<char>>>) -> Result<Seq<char>, Failure> {
    if files.len() == 1 && files[0] is Some {
        Ok(files[0]->0)
    } else {
        Err(Failure::ManifestFetchError)
    }
}

/// A block that no later line closes is never closed.
proof fn lemma_never_closed(lines: Seq<Seq<char>>)
    requires
        forall|j: int| 0 <= j < lines.len() ==> !closes_block(#[trigger] lines[j]),
    ensures
        scan(lines, true) is None,
    decreases lines.len(),
{
    if lines.len() > 0 {
        let rest = lines.drop_first();
        assert forall|j: int| 0 <= j < rest.len() implies !closes_block(#[trigger] rest[j]) by {
            assert(rest[j] == lines[j + 1]);
        }
        lemma_never_closed(rest);
    }
}

/// Lines that open a block and do not close it after that hold no list of
/// requirements, wherever the block is opened.
pub proof fn law_unterminated_block(lines: Seq<Seq<char>>, in_block: bool, at: int)
    requires
        0 <= at < lines.len(),
        opens_block(lines[at]),
        forall|j: int| at <= j < lines.len() ==> !closes_block(#[trigger] lines[j]),
    ensures
        scan(lines, in_block) is None,
    decreases lines.len(),
{
    let rest = lines.drop_first();
    if at == 0 {
        assert forall|j: int| 0 <= j < rest.len() implies !closes_block(#[trigger] rest[j]) by {
            assert(rest[j] == lines[j + 1]);
        }
        lemma_never_closed(rest);
    } else {
        assert(rest[at - 1] == lines[at]);
        assert forall|j: int| at - 1 <= j < rest.len() implies !closes_block(
            #[trigger] rest[j],
        ) by {
            assert(rest[j] == lines[j + 1]);
        }
        law_unterminated_block(rest, true, at - 1);
        law_unterminated_block(rest, false, at - 1);
    }
}

/// A manifest that opens a block of requirements and has no closing line
/// from there to its end fails with `ManifestParseError`.
pub proof fn law_unterminated_manifest(text: Seq<char>, at: int)
    requires
        0 <= at < segments(text, '\n').len(),
        opens_block(segments(text, '\n')[at]),
        forall|j: int|
            at <= j < segments(text, '\n').len() ==> !closes_block(
                #[trigger] segments(text, '\n')[j],
            ),
    ensures
        requirements(text) == Err::<Seq<Seq<char>>, Failure>(Failure::ManifestParseError),
{
    law_unterminated_block(segments(text, '\n'), false, at);
}

/// The requirements of lines that are followed by further lines stand
/// before the requirements of those, in unchanged order.
pub proof fn law_scan_sequence(first: Seq<Seq<char>>, second: Seq<Seq<char>>, in_block: bool)
    requires
        scan(first, in_block) is Some,
    ensures
        scan(first + second, in_block) == followed_by(
            scan(first, in_block)->0,
            scan(second, false),
        ),
    decreases first.len(),
{
    let all = first + second;
    if first.len() == 0 {
        assert(all =~= second);
        if scan(second, false) is Some {
            assert(Seq::<Seq<char>>::empty() + scan(second, false)->0 =~= scan(second, false)->0);
        }
    } else {
        let line = first[0];
        let rest = first.drop_first();
        assert(all[0] == line);
        assert(all.drop_first() =~= rest + second);
        let next_in_block = if in_block {
            !closes_block(line)
        } else {
            opens_block(line)
        };
        law_scan_sequence(rest, second, next_in_block);
        let at: int = if in_block { 0 } else { 1 };
        if scan(second, false) is Some && requirement_at(line, at) is Some && scan(
            rest,
            next_in_block,
        ) is Some {
            let r = requirement_at(line, at)->0;
            assert(seq![r] + (scan(rest, next_in_block)->0 + scan(second, false)->0) =~= (seq![r]
                + scan(rest, next_in_block)->0) + scan(second, false)->0);
        }
    }
}

/// A line that opens a block of requirements opens a group, so it states
/// no requirement itself.
pub proof fn lemma_block_opens_group(line: Seq<char>)
    requires
        opens_block(line),
    ensures
        occurs(GROUP_OPEN@, line),
        !states_requirement(line),
{
    reveal_strlit("require (");
    reveal_strlit("(");
    let at = choose|at: int| occurs_at(BLOCK_OPEN@, line, at);
    assert(line.subrange(at, at + 9)[8] == '(');
    assert(line.subrange(at + 8, at + 9) =~= GROUP_OPEN@);
    assert(occurs_at(GROUP_OPEN@, line, at + 8));
}

/// A manifest with one requirement on a line of its own and one
/// requirement in a block holds the two requirements, in the order in which
/// they stand in it.
pub proof fn law_single_and_block(
    single: Seq<char>,
    open: Seq<char>,
    entry: Seq<char>,
    close: Seq<char>,
)
    requires
        states_requirement(single),
        requirement_at(single, 1) is Some,
        opens_block(open),
        !closes_block(entry),
        requirement_at(entry, 0) is Some,
        closes_block(close),
    ensures
        scan(seq![single, open, entry, close], false) == Some(
            seq![requirement_at(single, 1)->0, requirement_at(entry, 0)->0],
        ),
        scan(seq![open, entry, close, single], false) == Some(
            seq![requirement_at(entry, 0)->0, requirement_at(single, 1)->0],
        ),
{
    let a = requirement_at(single, 1)->0;
    let b = requirement_at(entry, 0)->0;
    let none = Seq::<Seq<char>>::empty();
    if opens_block(single) {
        lemma_block_opens_group(single);
    }
    assert(scan(none, false) == Some(none));
    // the block alone
    let block = seq![open, entry, close];
    assert(seq![close].drop_first() =~= none);
    assert(scan(seq![close], true) == Some(none));
    assert(seq![entry, close].drop_first() =~= seq![close]);
    assert(seq![b] + none =~= seq![b]);
    assert(scan(seq![entry, close], true) == Some(seq![b]));
    assert(block.drop_first() =~= seq![entry, close]);
    assert(scan(block, false) == Some(seq![b]));
    // the single line alone
    assert(seq![single].drop_first() =~= none);
    assert(seq![a] + none =~= seq![a]);
    assert(scan(seq![single], false) == Some(seq![a]));
    assert(seq![single] + block =~= seq![single, open, entry, close]);
    assert(block + seq![single] =~= seq![open, entry, close, single]);
    assert(seq![a] + seq![b] =~= seq![a, b]);
    assert(seq![b] + seq![a] =~= seq![b, a]);
    law_scan_sequence(seq![single], block, false);
    law_scan_sequence(block, seq![single], false);
}

/// The requirements of a manifest that is followed, on a new line, by a
/// further text stand before the requirements of that text: the list keeps
/// the order in which the requirements appear.
pub proof fn law_requirements_sequence(first: Seq<char>, second: Seq<char>)
    requires
        requirements(first) is Ok,
    ensures
        requirements(first + seq!['\n'] + second) == match requirements(second) {
            Ok(more) => Ok::<Seq<Seq<char>>, Failure>(requirements(first)->Ok_0 + more),
            Err(e) => Err::<Seq<Seq<char>>, Failure>(e),
        },
{
    lemma_segments_join(first, '\n', second);
    law_scan_sequence(segments(first, '\n'), segments(second, '\n'), false);
}

/// The text of the manifest among the files found at [`MANIFEST_PATH`].
///
/// Fails with `ManifestFetchError` unless exactly one file was found and it
/// has a content.
pub fn single_manifest(files: Vec<Option<String>>) -> (r: Result<String, BuildError>)
    ensures
        match r {
            Ok(text) => manifest_among(files.deep_view()) == Ok::<Seq<char>, Failure>(text@),
            Err(e) => manifest_among(files.deep_view()) == Err::<Seq<char>, Failure>(e@),
        },
{
    let mut files = files;
    if files.len() != 1 {
        return Err(BuildError::ManifestFetchError);
    }
    let ghost given = files.deep_view();
    assert(given[0] == files@[0].deep_view());
    match files.pop() {
        Some(Some(text)) => Ok(text),
        _ => Err(BuildError::ManifestFetchError),
    }
}

/// The requirement `module@version` that the words of a line state from
/// position `at` on.
fn requirement_of(found: &Vec<String>, at: usize) -> (r: Option<String>)
    requires
        at <= 1,
    ensures
        r.deep_view() == (if at + 2 <= found.len() {
            Some(found.deep_view()[at as int] + seq!['@'] + found.deep_view()[at + 1])
        } else {
            None
        }),
{
    if found.len() < 2 || at > found.len() - 2 {
        return None;
    }
    let mut url = found[at].clone();
    url.append("@");
    url.append(found[at + 1].as_str());
    proof {
        reveal_strlit("@");
        assert("@"@ =~= seq!['@']);
    }
    Some(url)
}

/// Reads the requirements out of the text of a manifest, each as
/// `module@version`, in the order in which they stand there.
///
/// Fails with `ManifestParseError` where a block of requirements is opened
/// and not closed before the text ends, and where a requirement lacks its
/// module or its version.
pub fn parse_manifest(text: &str) -> (r: Result<Vec<String>, BuildError>)
    ensures
        match r {
            Ok(found) => requirements(text@) == Ok::<Seq<Seq<char>>, Failure>(
                found.deep_view(),
            ),
            Err(e) => requirements(text@) == Err::<Seq<Seq<char>>, Failure>(e@),
        },
{
    let lines = split(text, '\n');
    let mut found: Vec<String> = Vec::new();
    let mut in_block = false;
    let mut i: usize = 0;
    assert(lines.deep_view().skip(0) =~= lines.deep_view());
    assert(found.deep_view() =~= Seq::<Seq<char>>::empty());
    proof {
        let all = scan(lines.deep_view(), false);
        if all is Some {
            assert(Seq::<Seq<char>>::empty() + all->0 =~= all->0);
        }
    }
    while i < lines.len()
        invariant
            i <= lines.len(),
            lines.deep_view() == segments(text@, '\n'),
            scan(segments(text@, '\n'), false) == followed_by(
                found.deep_view(),
                scan(lines.deep_view().skip(i as int), in_block),
            ),
        decreases lines.len() - i,
    {
        let ghost rest = lines.deep_view().skip(i as int);
        let ghost before = found.deep_view();
        assert(rest[0] == lines@[i as int]@);
        assert(rest.drop_first() =~= lines.deep_view().skip(i + 1));
        let line = lines[i].as_str();
        if in_block {
            if contains(line, BLOCK_CLOSE) {
                in_block = false;
            } else {
                let tokens = split_words(line);
                match requirement_of(&tokens, 0) {
                    Some(url) => {
                        found.push(url);
                        proof {
                            assert(found.deep_view() =~= before.push(url@));
                            let tail = scan(rest.drop_first(), true);
                            if tail is Some {
                                assert(before + (seq![url@] + tail->0) =~= before.push(url@)
                                    + tail->0);
                            }
                        }
                    },
                    None => {
                        return Err(BuildError::ManifestParseError);
                    },
                }
            }
        } else if contains(line, BLOCK_OPEN) {
            in_block = true;
        } else if contains(line, REQUIRE_MARKER) && !contains(line, GROUP_OPEN) {
            let tokens = split_words(line);
            match requirement_of(&tokens, 1) {
                Some(url) => {
                    found.push(url);
                    proof {
                        assert(found.deep_view() =~= before.push(url@));
                        let tail = scan(rest.drop_first(), false);
                        if tail is Some {
                            assert(before + (seq![url@] + tail->0) =~= before.push(url@)
                                + tail->0);
                        }
                    }
                },
                None => {
                    return Err(BuildError::ManifestParseError);
                },
            }
        }
        i += 1;
    }
    if in_block {
        return Err(BuildError::ManifestParseError);
    }
    assert(found.deep_view() + Seq::<Seq<char>>::empty() =~= found.deep_view());
    Ok(found)
}

} // verus!
