//! The node of a dependency tree, and the rendering of a tree as text.

use crate::error::{BuildError, Failure};
use vstd::prelude::*;

verus! {

/// The label of a module for which the host has detected no license.
pub const UNKNOWN_LICENSE: &'static str = "unknown";

/// One module of a dependency tree together with the modules it requires.
///
/// A node owns its children. A module that is required along two paths
/// stands in the tree twice, as two nodes with equal subtrees.
pub struct Package {
    name: String,
    owner: String,
    version: String,
    license: String,
    source: String,
    dependencies: Vec<Package>,
}

/// What a [`Package`] stands for: its fields as texts, and the trees below it.
pub struct PackageView {
    pub name: Seq<char>,
    pub owner: Seq<char>,
    pub version: Seq<char>,
    pub license: Seq<char>,
    pub source: Seq<char>,
    pub dependencies: Seq<PackageView>,
}

/// The trees that the packages of `ps` stand for, in their order.
spec fn views(ps: Seq<Package>) -> Seq<PackageView>
    decreases ps, 0nat,
{
    if ps.len() == 0 {
        Seq::empty()
    } else {
        views(ps.drop_last()).push(ps.last().view())
    }
}

impl View for Package {
    type V = PackageView;

    closed spec fn view(&self) -> PackageView
        decreases self, 1nat,
    {
        PackageView {
            name: self.name@,
            owner: self.owner@,
            version: self.version@,
            license: self.license@,
            source: self.source@,
            dependencies: views(self.dependencies@),
        }
    }
}

/// `views` goes through a sequence of packages one by one.
proof fn lemma_views(ps: Seq<Package>)
    ensures
        views(ps).len() == ps.len(),
        forall|i: int| 0 <= i < ps.len() ==> views(ps)[i] == (#[trigger] ps[i])@,
    decreases ps.len(),
{
    if ps.len() > 0 {
        let front = ps.drop_last();
        lemma_views(front);
        assert(views(ps) == views(front).push(ps.last().view()));
        assert forall|i: int| 0 <= i < ps.len() implies views(ps)[i] == (#[trigger] ps[i])@ by {
            if i < front.len() {
                assert(front[i] == ps[i]);
            }
        }
    } else {
        assert(views(ps) == Seq::<PackageView>::empty());
    }
}

/// A node as resolution leaves it: with the four identifiers, no license yet
/// and no dependencies.
pub open spec fn fresh(
    name: Seq<char>,
    owner: Seq<char>,
    version: Seq<char>,
    source: Seq<char>,
) -> PackageView {
    PackageView {
        name,
        owner,
        version,
        license: Seq::empty(),
        source,
        dependencies: Seq::empty(),
    }
}

/// Whether a node carries a name and a version.
pub open spec fn resolved(p: PackageView) -> bool {
    p.name.len() > 0 && p.version.len() > 0
}

/// Whether a tree is fully built: every node of it carries a name, a version
/// and a license.
pub open spec fn complete(p: PackageView) -> bool
    decreases p,
{
    &&& resolved(p)
    &&& p.license.len() > 0
    &&& forall|i: int| 0 <= i < p.dependencies.len() ==> complete(#[trigger] p.dependencies[i])
}

/// The license that the host has detected, where it has detected one and
/// named it.
pub open spec fn detected_license(detected: Option<Seq<char>>) -> Result<Seq<char>, Failure> {
    match detected {
        Some(name) if name.len() > 0 => Ok(name),
        _ => Err(Failure::LicenseNotFoundError),
    }
}

/// The license label of a node: the detected license, or
/// [`UNKNOWN_LICENSE`] where none was detected.
pub open spec fn license_label(detected: Option<Seq<char>>) -> Seq<char> {
    match detected_license(detected) {
        Ok(name) => name,
        Err(_) => UNKNOWN_LICENSE@,
    }
}

/// The record of one node, as it is shown in a rendered tree.
pub open spec fn record(p: PackageView) -> Seq<char> {
    "Package { name: "@ + p.name + ", owner: "@ + p.owner + ", version: "@ + p.version
        + ", license: "@ + p.license + " }"@
}

/// The indentation of a node at the given depth: two spaces for each level.
pub open spec fn indentation(depth: nat) -> Seq<char>
    decreases depth,
{
    if depth == 0 {
        Seq::empty()
    } else {
        indentation((depth - 1) as nat) + "  "@
    }
}

/// A tree as text, when its root stands behind `prefix`: one line for each
/// node, the node before its children, the children in their order and each
/// two spaces further in. Every line ends with a line feed.
pub open spec fn tree_text(p: PackageView, prefix: Seq<char>) -> Seq<char>
    decreases p, 1nat,
{
    prefix + record(p) + "\n"@ + forest_text(p.dependencies, prefix + "  "@)
}

/// The trees of `ps` as text, one after the other, each root behind `prefix`.
pub open spec fn forest_text(ps: Seq<PackageView>, prefix: Seq<char>) -> Seq<char>
    decreases ps, 0nat,
{
    if ps.len() == 0 {
        Seq::empty()
    } else {
        forest_text(ps.drop_last(), prefix) + tree_text(ps.last(), prefix)
    }
}

/// The license that the host has detected.
///
/// Fails with `LicenseNotFoundError` where it has detected none, or one
/// without a name.
pub fn license_name(detected: Option<String>) -> (r: Result<String, BuildError>)
    ensures
        match r {
            Ok(name) => detected_license(detected.deep_view()) == Ok::<Seq<char>, Failure>(name@),
            Err(e) => detected_license(detected.deep_view()) == Err::<Seq<char>, Failure>(e@),
        },
{
    match detected {
        Some(name) => {
            if name.as_str().is_empty() {
                Err(BuildError::LicenseNotFoundError)
            } else {
                Ok(name)
            }
        },
        None => Err(BuildError::LicenseNotFoundError),
    }
}

impl Package {
    /// A node with the given identifiers, without a license and without
    /// dependencies.
    pub fn new(name: String, owner: String, version: String, source: String) -> (p: Package)
        ensures
            p@ == fresh(name@, owner@, version@, source@),
    {
        let p = Package {
            name,
            owner,
            version,
            source: source,
            license: String::new(),
            dependencies: Vec::new(),
        };
        proof {
            lemma_views(p.dependencies@);
        }
        assert(p@.dependencies =~= Seq::empty());
        p
    }

    /// The name of the module.
    pub fn name(&self) -> (r: &str)
        ensures
            r@ == self@.name,
    {
        self.name.as_str()
    }

    /// The owner of the module; empty where its location names none.
    pub fn owner(&self) -> (r: &str)
        ensures
            r@ == self@.owner,
    {
        self.owner.as_str()
    }

    /// The version of the module.
    pub fn version(&self) -> (r: &str)
        ensures
            r@ == self@.version,
    {
        self.version.as_str()
    }

    /// The license of the module; empty until it has been recorded.
    pub fn license(&self) -> (r: &str)
        ensures
            r@ == self@.license,
    {
        self.license.as_str()
    }

    /// The canonical location of the module.
    pub fn source(&self) -> (r: &str)
        ensures
            r@ == self@.source,
    {
        self.source.as_str()
    }

    /// The modules that this one requires, in the order of its manifest.
    pub fn dependencies(&self) -> (r: &Vec<Package>)
        ensures
            r@.len() == self@.dependencies.len(),
            forall|i: int| 0 <= i < r@.len() ==> (#[trigger] r@[i])@ == self@.dependencies[i],
    {
        proof {
            lemma_views(self.dependencies@);
        }
        &self.dependencies
    }

    /// Records the outcome of the license lookup for this module.
    ///
    /// Where the lookup was completed, the license of the node becomes the
    /// detected license, or [`UNKNOWN_LICENSE`] where the host has detected
    /// none, and nothing else changes. Where the lookup failed, nothing
    /// changes at all, and the failure is handed back with what the host or
    /// the network said.
    pub fn get_license(&mut self, lookup: Result<Option<String>, String>) -> (r: Result<
        (),
        BuildError,
    >)
        ensures
            match lookup {
                Ok(detected) => r is Ok && final(self)@ == (PackageView {
                    license: license_label(detected.deep_view()),
                    ..old(self)@
                }),
                Err(said) => r matches Err(e) && e@ == Failure::LookupError(said@) && final(self)@
                    == old(self)@,
            },
    {
        match lookup {
            Ok(detected) => {
                let label = match license_name(detected) {
                    Ok(name) => name,
                    Err(_) => UNKNOWN_LICENSE.to_owned(),
                };
                self.license = label;
                Ok(())
            },
            Err(said) => Err(BuildError::LookupError(said)),
        }
    }

    /// Appends `child` to the dependencies of this module. Nothing else
    /// changes.
    pub fn add_dependency(&mut self, child: Package)
        ensures
            final(self)@ == (PackageView {
                dependencies: old(self)@.dependencies.push(child@),
                ..old(self)@
            }),
    {
        self.dependencies.push(child);
        proof {
            let before = old(self).dependencies@;
            let after = self.dependencies@;
            lemma_views(before);
            lemma_views(after);
            assert forall|i: int| 0 <= i < after.len() implies views(after)[i] == views(
                before,
            ).push(child@)[i] by {
                if i < before.len() {
                    assert(after[i] == before[i]);
                } else {
                    assert(after[i] == child);
                }
            }
            assert(views(after) =~= views(before).push(child@));
        }
    }

    /// The record of this node: its name, owner, version and license, in
    /// that order. The dependencies are not part of it.
    pub fn fmt(&self) -> (line: String)
        ensures
            line@ == record(self@),
    {
        let mut line = "Package { name: ".to_owned();
        line.append(self.name.as_str());
        line.append(", owner: ");
        line.append(self.owner.as_str());
        line.append(", version: ");
        line.append(self.version.as_str());
        line.append(", license: ");
        line.append(self.license.as_str());
        line.append(" }");
        line
    }

    /// The tree below and including this node as text: one line for each
    /// node, in depth-first order, the node before its children, each level
    /// indented by two more spaces.
    pub fn print_tree(&self) -> (text: String)
        ensures
            text@ == tree_text(self@, Seq::empty()),
    {
        self.print_tree_recursive(0)
    }

    /// The tree below and including this node as text, the root indented by
    /// `indent` levels.
    pub fn print_tree_recursive(&self, indent: usize) -> (text: String)
        ensures
            text@ == tree_text(self@, indentation(indent as nat)),
    {
        let mut prefix = String::new();
        let mut level: usize = 0;
        while level < indent
            invariant
                level <= indent,
                prefix@ == indentation(level as nat),
            decreases indent - level,
        {
            prefix.append("  ");
            level += 1;
        }
        let mut text = String::new();
        self.render(prefix.as_str(), &mut text);
        text
    }

    /// Appends to `out` the text of the tree below and including this node,
    /// the root behind `prefix`.
    fn render(&self, prefix: &str, out: &mut String)
        ensures
            final(out)@ == old(out)@ + tree_text(self@, prefix@),
        decreases self,
    {
        out.append(prefix);
        let line = self.fmt();
        out.append(line.as_str());
        out.append("\n");
        let mut deeper = prefix.to_owned();
        deeper.append("  ");
        let ghost start = out@;
        proof {
            lemma_views(self.dependencies@);
        }
        let mut at: usize = 0;
        while at < self.dependencies.len()
            invariant
                at <= self.dependencies.len(),
                self@.dependencies.len() == self.dependencies@.len(),
                forall|i: int|
                    0 <= i < self.dependencies@.len() ==> self@.dependencies[i]
                        == (#[trigger] self.dependencies@[i])@,
                deeper@ == prefix@ + "  "@,
                out@ == start + forest_text(self@.dependencies.take(at as int), deeper@),
            decreases self.dependencies.len() - at,
        {
            self.dependencies[at].render(deeper.as_str(), out);
            proof {
                let done = self@.dependencies.take(at + 1);
                assert(done.drop_last() =~= self@.dependencies.take(at as int));
                assert(done.last() == self.dependencies@[at as int]@);
            }
            at += 1;
        }
        assert(self@.dependencies.take(at as int) =~= self@.dependencies);
    }
}

} // verus!
