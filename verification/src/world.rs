//! What a finished build says about the world outside.
//!
//! A [`World`] fixes what every piece of outside work gives: the license of
//! every module, the files of its repository, the page behind every
//! address. A tree is [`faithful`] to a world when it is what that world
//! prescribes, node by node. The laws of this module show that a build whose
//! requests are answered from one world ends, if it ends with a tree, with
//! the tree that is faithful to that world.

use crate::builder::{
    awaiting, descend, grown, licensed, opened, request_of, resolve, run, start, step,
    BuildView, EventView, FrameView, RequestView, WaitingView,
};
use crate::error::Failure;
use crate::identifiers::{redirect_target, resolution};
use crate::manifest::{manifest_among, requirements, MANIFEST_PATH};
use crate::package::{complete, license_label, resolved, PackageView, UNKNOWN_LICENSE};
use vstd::prelude::*;

verus! {

/// The answers of the outside world. Each request is either completed, or
/// it fails and the world says why.
pub struct World {
    /// The license that the host has detected for the module of an owner
    /// and a name, if it has detected one.
    pub license: spec_fn(Seq<char>, Seq<char>) -> Result<Option<Seq<char>>, Seq<char>>,
    /// The files at a path in the repository of an owner and a name.
    pub files: spec_fn(Seq<char>, Seq<char>, Seq<char>) -> Result<
        Seq<Option<Seq<char>>>,
        Seq<char>,
    >,
    /// The page at an address.
    pub page: spec_fn(Seq<char>) -> Result<Seq<char>, Seq<char>>,
}

/// Whether `event` is what `w` gives for `request`.
pub open spec fn answers(w: World, request: RequestView, event: EventView) -> bool {
    match request {
        RequestView::License { owner, name } => event == match (w.license)(owner, name) {
            Ok(detected) => EventView::License(detected),
            Err(said) => EventView::Failed(said),
        },
        RequestView::Manifest { owner, name, path } => event == match (w.files)(
            owner,
            name,
            path,
        ) {
            Ok(files) => EventView::Manifest(files),
            Err(said) => EventView::Failed(said),
        },
        RequestView::Page { url } => event == match (w.page)(url) {
            Ok(page) => EventView::Page(page),
            Err(said) => EventView::Failed(said),
        },
    }
}

/// The license label of `node` in `w`; none where the lookup fails.
pub open spec fn license_in(w: World, node: PackageView) -> Option<Seq<char>> {
    match (w.license)(node.owner, node.name) {
        Ok(detected) => Some(license_label(detected)),
        Err(_) => None,
    }
}

/// The requirements that the manifest of `node` states in `w`.
#[verifier::opaque]
pub open spec fn requirements_in(w: World, node: PackageView) -> Result<Seq<Seq<char>>, Failure> {
    match (w.files)(node.owner, node.name, MANIFEST_PATH@) {
        Ok(files) => match manifest_among(files) {
            Ok(text) => requirements(text),
            Err(e) => Err(e),
        },
        Err(said) => Err(Failure::LookupError(said)),
    }
}

/// The page behind `requirement` in `w`, where resolution needs one and it
/// can be had.
pub open spec fn page_in(w: World, requirement: Seq<char>) -> Option<Seq<char>> {
    match redirect_target(requirement) {
        Some(url) => match (w.page)(url) {
            Ok(page) => Some(page),
            Err(_) => None,
        },
        None => None,
    }
}

/// The node that `requirement` resolves to in `w`.
#[verifier::opaque]
pub open spec fn resolved_in(w: World, requirement: Seq<char>) -> Result<PackageView, Failure> {
    resolution(requirement, page_in(w, requirement))
}

/// Whether two nodes carry the same identifiers.
pub open spec fn same_module(a: PackageView, b: PackageView) -> bool {
    a.name == b.name && a.owner == b.owner && a.version == b.version && a.source == b.source
}

/// Whether `tree` is what `w` prescribes for its root: the root carries the
/// license label that `w` gives it, its manifest in `w` states as many
/// requirements as it has dependencies, and each dependency, in the order of
/// the manifest, carries the identifiers that its requirement resolves to
/// and is itself what `w` prescribes. No requirement is left out, and none
/// is merged with another one.
pub open spec fn faithful(w: World, tree: PackageView) -> bool
    decreases tree,
{
    &&& license_in(w, tree) == Some(tree.license)
    &&& requirements_in(w, tree) is Ok
    &&& tree.dependencies.len() == requirements_in(w, tree)->Ok_0.len()
    &&& forall|i: int|
        #![trigger stated_by(w, tree, i)]
        #![trigger tree.dependencies[i]]
        0 <= i < tree.dependencies.len() ==> stated_by(w, tree, i) && faithful(
            w,
            tree.dependencies[i],
        )
}

/// Whether the dependency of `tree` at position `i` carries the identifiers
/// that the requirement at position `i` of the manifest of `tree` resolves
/// to in `w`.
pub open spec fn stated_by(w: World, tree: PackageView, i: int) -> bool {
    &&& requirements_in(w, tree) is Ok
    &&& resolved_in(w, requirements_in(w, tree)->Ok_0[i]) is Ok
    &&& same_module(resolved_in(w, requirements_in(w, tree)->Ok_0[i])->Ok_0, tree.dependencies[i])
}

/// Whether `child` is what `w` prescribes for `requirement`.
pub open spec fn prescribed(w: World, requirement: Seq<char>, child: PackageView) -> bool {
    &&& resolved_in(w, requirement) is Ok
    &&& same_module(resolved_in(w, requirement)->Ok_0, child)
    &&& faithful(w, child)
}

/// Whether a node under construction agrees with `w` as far as it is built.
/// The first `upto` requirements of its manifest are accounted for: by the
/// children that are built, then by `gap` children that are being built (one
/// or none), then by the pending children.
pub open spec fn frame_sound(w: World, frame: FrameView, gap: int, upto: int) -> bool {
    let built = frame.node.dependencies;
    &&& license_in(w, frame.node) == Some(frame.node.license)
    &&& requirements_in(w, frame.node) matches Ok(stated)
    &&& built.len() + gap + frame.pending.len() == upto
    &&& upto <= stated.len()
    &&& forall|i: int| 0 <= i < built.len() ==> prescribed(w, stated[i], #[trigger] built[i])
    &&& forall|j: int|
        0 <= j < frame.pending.len() ==> resolved_in(w, stated[built.len() + gap + j]) == Ok::<
            PackageView,
            Failure,
        >(#[trigger] frame.pending[j])
}

/// Whether the parent `frame` waits for a child with the identifiers of
/// `below`.
pub open spec fn frame_linked(w: World, frame: FrameView, below: PackageView) -> bool {
    &&& requirements_in(w, frame.node) matches Ok(stated)
    &&& frame_sound(w, frame, 1, stated.len() as int)
    &&& resolved_in(w, stated[frame.node.dependencies.len() as int]) matches Ok(module)
    &&& same_module(module, below)
}

/// Whether every parent agrees with `w` and waits for the node below it:
/// the last parent for `current`, every other parent for the parent after
/// it.
pub open spec fn chain_sound(w: World, parents: Seq<FrameView>, current: PackageView) -> bool
    decreases parents.len(),
{
    parents.len() > 0 ==> {
        &&& frame_linked(w, parents.last(), current)
        &&& chain_sound(w, parents.drop_last(), parents.last().node)
    }
}

/// The node at the top of the stack, which stands for the root of the tree.
pub open spec fn top(parents: Seq<FrameView>, current: PackageView) -> PackageView {
    if parents.len() > 0 {
        parents[0].node
    } else {
        current
    }
}

/// Whether the current node agrees with `w`, as far as it is built.
pub open spec fn current_sound(w: World, current: FrameView, waiting: WaitingView) -> bool {
    &&& current.node.dependencies.len() == 0
    &&& match waiting {
        WaitingView::License => current.pending.len() == 0,
        WaitingView::Manifest => current.pending.len() == 0 && license_in(w, current.node)
            == Some(current.node.license),
        WaitingView::Page { url, requirement, rest } => {
            &&& frame_sound(w, current, 0, current.pending.len() as int)
            &&& requirements_in(w, current.node) matches Ok(stated)
            &&& stated.skip(current.pending.len() as int) == seq![requirement] + rest
            &&& redirect_target(requirement) == Some(url)
        },
    }
}

/// Whether the build of the tree below `root` agrees with `w`: what is built
/// so far is what `w` prescribes, and a tree that a finished build hands out
/// is faithful to `w` and carries the identifiers of `root`.
pub open spec fn sound(w: World, root: PackageView, b: BuildView) -> bool {
    match b {
        BuildView::Running { parents, current, waiting } => {
            &&& chain_sound(w, parents, current.node)
            &&& same_module(root, top(parents, current.node))
            &&& current_sound(w, current, waiting)
        },
        BuildView::Done(tree) => faithful(w, tree) && same_module(root, tree),
        BuildView::Failed(_) => true,
    }
}

/// Whether each of `events` is what `w` gives for the request that the
/// build makes when the event comes in.
pub open spec fn answered(w: World, b: BuildView, events: Seq<EventView>) -> bool
    decreases events.len(),
{
    events.len() > 0 ==> {
        &&& request_of(b) matches Some(request) ==> answers(w, request, events[0])
        &&& answered(w, step(b, events[0]), events.drop_first())
    }
}

proof fn lemma_chain_same(w: World, parents: Seq<FrameView>, a: PackageView, b: PackageView)
    requires
        chain_sound(w, parents, a),
        same_module(a, b),
    ensures
        chain_sound(w, parents, b),
{
}

proof fn lemma_settled_faithful(w: World, frame: FrameView)
    requires
        requirements_in(w, frame.node) is Ok,
        frame_sound(w, frame, 0, requirements_in(w, frame.node)->Ok_0.len() as int),
        frame.pending.len() == 0,
    ensures
        faithful(w, frame.node),
{
    let tree = frame.node;
    let stated = requirements_in(w, tree)->Ok_0;
    assert forall|i: int| 0 <= i < tree.dependencies.len() implies #[trigger] stated_by(w, tree, i)
        && faithful(w, tree.dependencies[i]) by {
        assert(prescribed(w, stated[i], tree.dependencies[i]));
    }
}

proof fn lemma_descend_push(w: World, current: FrameView)
    requires
        requirements_in(w, current.node) is Ok,
        frame_sound(w, current, 0, requirements_in(w, current.node)->Ok_0.len() as int),
        current.pending.len() > 0,
    ensures
        frame_linked(
            w,
            FrameView { node: current.node, pending: current.pending.drop_first() },
            current.pending[0],
        ),
        current.pending[0].dependencies.len() == 0,
{
    let stated = requirements_in(w, current.node)->Ok_0;
    let built = current.node.dependencies;
    let kept = FrameView { node: current.node, pending: current.pending.drop_first() };
    let first = current.pending[0];
    let at = built.len() as int;
    assert(resolved_in(w, stated[at + 0 + 0]) == Ok::<PackageView, Failure>(first));
    assert forall|j: int| 0 <= j < kept.pending.len() implies resolved_in(
        w,
        stated[built.len() + 1 + j],
    ) == Ok::<PackageView, Failure>(#[trigger] kept.pending[j]) by {
        assert(kept.pending[j] == current.pending[j + 1]);
        assert(resolved_in(w, stated[at + 0 + (j + 1)]) == Ok::<PackageView, Failure>(
            current.pending[j + 1],
        ));
    }
    assert(frame_sound(w, kept, 1, stated.len() as int));
    reveal(resolved_in);
}

proof fn lemma_descend_pop(w: World, parent: FrameView, child: PackageView)
    requires
        frame_linked(w, parent, child),
        faithful(w, child),
    ensures
        requirements_in(w, grown(parent.node, child)) is Ok,
        frame_sound(
            w,
            FrameView { node: grown(parent.node, child), pending: parent.pending },
            0,
            requirements_in(w, grown(parent.node, child))->Ok_0.len() as int,
        ),
{
    let next = FrameView { node: grown(parent.node, child), pending: parent.pending };
    assert(requirements_in(w, next.node) == requirements_in(w, parent.node)) by {
        reveal(requirements_in);
    }
    let stated = requirements_in(w, parent.node)->Ok_0;
    let built = parent.node.dependencies;
    let grown_built = next.node.dependencies;
    assert forall|i: int| 0 <= i < grown_built.len() implies prescribed(
        w,
        stated[i],
        #[trigger] grown_built[i],
    ) by {
        if i < built.len() {
            assert(grown_built[i] == built[i]);
            assert(prescribed(w, stated[i], built[i]));
        } else {
            assert(grown_built[i] == child);
        }
    }
    assert forall|j: int| 0 <= j < next.pending.len() implies resolved_in(
        w,
        stated[grown_built.len() + 0 + j],
    ) == Ok::<PackageView, Failure>(#[trigger] next.pending[j]) by {
        assert(resolved_in(w, stated[built.len() + 1 + j]) == Ok::<PackageView, Failure>(
            parent.pending[j],
        ));
    }
}

proof fn lemma_descend(w: World, root: PackageView, parents: Seq<FrameView>, current: FrameView)
    requires
        chain_sound(w, parents, current.node),
        same_module(root, top(parents, current.node)),
        requirements_in(w, current.node) is Ok,
        frame_sound(w, current, 0, requirements_in(w, current.node)->Ok_0.len() as int),
    ensures
        sound(w, root, descend(parents, current)),
    decreases parents.len(),
{
    if current.pending.len() > 0 {
        let kept = FrameView { node: current.node, pending: current.pending.drop_first() };
        let above = parents.push(kept);
        let first = current.pending[0];
        lemma_descend_push(w, current);
        assert(above.drop_last() =~= parents);
        assert(above.last() == kept);
        assert(chain_sound(w, above, first));
        if parents.len() > 0 {
            assert(above[0] == parents[0]);
        }
        assert(top(above, first) == top(parents, current.node));
        assert(current_sound(w, opened(first), WaitingView::License));
    } else if parents.len() == 0 {
        lemma_settled_faithful(w, current);
    } else {
        let parent = parents.last();
        let above = parents.drop_last();
        let next = FrameView { node: grown(parent.node, current.node), pending: parent.pending };
        lemma_settled_faithful(w, current);
        lemma_descend_pop(w, parent, current.node);
        lemma_chain_same(w, above, parent.node, next.node);
        if above.len() > 0 {
            assert(above[0] == parents[0]);
        }
        assert(same_module(root, top(above, next.node)));
        lemma_descend(w, root, above, next);
    }
}

proof fn lemma_await(w: World, current: FrameView, child: PackageView, rest: Seq<Seq<char>>)
    requires
        current.node.dependencies.len() == 0,
        frame_sound(w, current, 0, current.pending.len() as int),
        requirements_in(w, current.node) is Ok,
        current.pending.len() < requirements_in(w, current.node)->Ok_0.len(),
        resolved_in(
            w,
            requirements_in(w, current.node)->Ok_0[current.pending.len() as int],
        ) == Ok::<PackageView, Failure>(child),
    ensures
        frame_sound(w, awaiting(current, child), 0, current.pending.len() as int + 1),
{
    let stated = requirements_in(w, current.node)->Ok_0;
    let n = current.pending.len() as int;
    let next = awaiting(current, child);
    assert forall|j: int| 0 <= j < next.pending.len() implies resolved_in(w, stated[0 + 0 + j])
        == Ok::<PackageView, Failure>(#[trigger] next.pending[j]) by {
        if j < n {
            assert(next.pending[j] == current.pending[j]);
            assert(resolved_in(w, stated[0 + 0 + j]) == Ok::<PackageView, Failure>(
                current.pending[j],
            ));
        }
    }
}

proof fn lemma_resolve(
    w: World,
    root: PackageView,
    parents: Seq<FrameView>,
    current: FrameView,
    todo: Seq<Seq<char>>,
)
    requires
        chain_sound(w, parents, current.node),
        same_module(root, top(parents, current.node)),
        current.node.dependencies.len() == 0,
        frame_sound(w, current, 0, current.pending.len() as int),
        requirements_in(w, current.node) is Ok,
        requirements_in(w, current.node)->Ok_0.skip(current.pending.len() as int) == todo,
    ensures
        sound(w, root, resolve(parents, current, todo)),
    decreases todo.len(),
{
    let stated = requirements_in(w, current.node)->Ok_0;
    let n = current.pending.len() as int;
    if todo.len() == 0 {
        lemma_descend(w, root, parents, current);
    } else {
        assert(todo[0] == stated[n]);
        match redirect_target(todo[0]) {
            Some(url) => {
                assert(todo =~= seq![todo[0]] + todo.drop_first());
            },
            None => {
                match resolution(todo[0], None) {
                    Ok(child) => {
                        let next = awaiting(current, child);
                        assert(resolved_in(w, stated[n]) == Ok::<PackageView, Failure>(
                            child,
                        )) by {
                            reveal(resolved_in);
                        }
                        lemma_await(w, current, child, todo.drop_first());
                        assert(stated.skip(n + 1) =~= todo.drop_first());
                        lemma_resolve(w, root, parents, next, todo.drop_first());
                    },
                    Err(_) => {},
                }
            },
        }
    }
}

/// A build that starts below a node without dependencies agrees with every
/// world.
pub proof fn law_start_sound(w: World, root: PackageView)
    requires
        root.dependencies.len() == 0,
    ensures
        sound(w, root, start(root)),
{
}

/// A build that agrees with a world still agrees with it after an event
/// that is what this world gives for the request of the build.
pub proof fn law_step_sound(w: World, root: PackageView, b: BuildView, event: EventView)
    requires
        sound(w, root, b),
        request_of(b) matches Some(request) ==> answers(w, request, event),
    ensures
        sound(w, root, step(b, event)),
{
    match b {
        BuildView::Running { parents, current, waiting } => {
            match (waiting, event) {
                (WaitingView::License, EventView::License(detected)) => {
                    lemma_chain_same(
                        w,
                        parents,
                        current.node,
                        licensed(current.node, license_label(detected)),
                    );
                },
                (WaitingView::Manifest, EventView::Manifest(files)) => {
                    match manifest_among(files) {
                        Ok(text) => match requirements(text) {
                            Ok(todo) => {
                                assert(requirements_in(w, current.node) == Ok::<
                                    Seq<Seq<char>>,
                                    Failure,
                                >(todo)) by {
                                    reveal(requirements_in);
                                }
                                assert(todo.skip(0) =~= todo);
                                lemma_resolve(w, root, parents, current, todo);
                            },
                            Err(_) => {},
                        },
                        Err(_) => {},
                    }
                },
                (WaitingView::Page { url, requirement, rest }, EventView::Page(page)) => {
                    let stated = requirements_in(w, current.node)->Ok_0;
                    let n = current.pending.len() as int;
                    match resolution(requirement, Some(page)) {
                        Ok(child) => {
                            let next = awaiting(current, child);
                            assert((seq![requirement] + rest)[0] == requirement);
                            assert(stated.skip(n).len() == 1 + rest.len());
                            assert(n < stated.len());
                            assert(stated[n] == stated.skip(n)[0]);
                            assert(resolved_in(w, stated[n]) == Ok::<PackageView, Failure>(
                                child,
                            )) by {
                                reveal(resolved_in);
                            }
                            lemma_await(w, current, child, rest);
                            assert(stated.skip(n + 1) =~= rest) by {
                                assert(stated.skip(n + 1) =~= stated.skip(n).drop_first());
                                assert((seq![requirement] + rest).drop_first() =~= rest);
                            }
                            lemma_resolve(w, root, parents, next, rest);
                        },
                        Err(_) => {},
                    }
                },
                _ => {},
            }
        },
        _ => {},
    }
}

/// The tree of a build whose every request was answered from one world is
/// faithful to that world, and its root carries the identifiers of the node
/// below which the build started.
pub proof fn law_run_faithful(
    w: World,
    root: PackageView,
    events: Seq<EventView>,
    tree: PackageView,
)
    requires
        root.dependencies.len() == 0,
        answered(w, start(root), events),
        run(start(root), events) == BuildView::Done(tree),
    ensures
        faithful(w, tree),
        same_module(root, tree),
{
    law_start_sound(w, root);
    lemma_run(w, root, start(root), events);
}

proof fn lemma_run(w: World, root: PackageView, b: BuildView, events: Seq<EventView>)
    requires
        sound(w, root, b),
        answered(w, b, events),
    ensures
        sound(w, root, run(b, events)),
    decreases events.len(),
{
    if events.len() > 0 {
        law_step_sound(w, root, b, events[0]);
        lemma_run(w, root, step(b, events[0]), events.drop_first());
    }
}

/// A module that is reached along two paths is built twice, with the same
/// result: two nodes of trees that are faithful to one world, with the same
/// owner and name, carry the same license and equal dependencies.
pub proof fn law_same_module_same_subtree(w: World, a: PackageView, b: PackageView)
    requires
        faithful(w, a),
        faithful(w, b),
        a.owner == b.owner,
        a.name == b.name,
    ensures
        a.license == b.license,
        a.dependencies == b.dependencies,
    decreases a,
{
    assert(requirements_in(w, a) == requirements_in(w, b)) by {
        reveal(requirements_in);
    }
    let stated = requirements_in(w, a)->Ok_0;
    assert forall|i: int| 0 <= i < a.dependencies.len() implies a.dependencies[i]
        == b.dependencies[i] by {
        let x = a.dependencies[i];
        let y = b.dependencies[i];
        assert(faithful(w, x) && faithful(w, y));
        law_same_module_same_subtree(w, x, y);
    }
    assert(a.dependencies =~= b.dependencies);
}

/// A tree that is faithful to a world is fully built, if its root carries a
/// name and a version: every node of it carries a name, a version and a
/// license.
pub proof fn law_faithful_complete(w: World, tree: PackageView)
    requires
        faithful(w, tree),
        resolved(tree),
    ensures
        complete(tree),
    decreases tree,
{
    reveal_strlit("unknown");
    assert(UNKNOWN_LICENSE@.len() == 7);
    let stated = requirements_in(w, tree)->Ok_0;
    assert forall|i: int| 0 <= i < tree.dependencies.len() implies complete(
        #[trigger] tree.dependencies[i],
    ) by {
        let child = tree.dependencies[i];
        assert(faithful(w, child));
        assert(resolved_in(w, stated[i]) is Ok);
        assert(same_module(resolved_in(w, stated[i])->Ok_0, child));
        assert(resolved(resolved_in(w, stated[i])->Ok_0)) by {
            reveal(resolved_in);
            crate::identifiers::law_resolution_names(stated[i], page_in(w, stated[i]));
        }
        law_faithful_complete(w, child);
    }
}

} // verus!
