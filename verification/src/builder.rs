//! Building the dependency tree of a module.
//!
//! The tree is built depth first. For every node the builder needs, in this
//! order, the license of the module, its manifest, and the page behind each
//! requirement that is a vanity import path. The builder does none of this
//! outside work itself: it says what it needs next ([`TreeBuilder::request`])
//! and is handed the answer ([`TreeBuilder::step`]). Between two answers it
//! does everything that needs no outside work.
//!
//! The first failure ends the build: no part of the tree is handed out.

use crate::error::{BuildError, Failure};
use crate::identifiers::{redirect_target, resolution};
use crate::manifest::{manifest_among, parse_manifest, requirements, single_manifest, MANIFEST_PATH};
use crate::package::{complete, license_label, resolved, Package, PackageView, UNKNOWN_LICENSE};
use vstd::prelude::*;

verus! {

/// The outside work that a build needs next.
#[derive(Debug, PartialEq, Eq)]
pub enum Request {
    /// The license that the host has detected for the module.
    License { owner: String, name: String },
    /// The files at `path` in the repository of the module.
    Manifest { owner: String, name: String, path: String },
    /// The page at `url`, fetched without following redirects.
    Page { url: String },
}

/// What a [`Request`] stands for.
pub enum RequestView {
    License { owner: Seq<char>, name: Seq<char> },
    Manifest { owner: Seq<char>, name: Seq<char>, path: Seq<char> },
    Page { url: Seq<char> },
}

impl View for Request {
    type V = RequestView;

    open spec fn view(&self) -> RequestView {
        match self {
            Request::License { owner, name } => RequestView::License { owner: owner@, name: name@ },
            Request::Manifest { owner, name, path } => RequestView::Manifest {
                owner: owner@,
                name: name@,
                path: path@,
            },
            Request::Page { url } => RequestView::Page { url: url@ },
        }
    }
}

/// The outcome of a piece of outside work.
#[derive(Debug, PartialEq, Eq)]
pub enum Event {
    /// The name of the detected license, if the host has detected one.
    License(Option<String>),
    /// The files that were found, each with its content if it has one.
    Manifest(Vec<Option<String>>),
    /// The body of the page.
    Page(String),
    /// The request could not be completed; this is what the host or the
    /// network said.
    Failed(String),
}

/// What an [`Event`] stands for.
pub enum EventView {
    License(Option<Seq<char>>),
    Manifest(Seq<Option<Seq<char>>>),
    Page(Seq<char>),
    Failed(Seq<char>),
}

impl View for Event {
    type V = EventView;

    open spec fn view(&self) -> EventView {
        match self {
            Event::License(detected) => EventView::License(detected.deep_view()),
            Event::Manifest(files) => EventView::Manifest(files.deep_view()),
            Event::Page(page) => EventView::Page(page@),
            Event::Failed(said) => EventView::Failed(said@),
        }
    }
}

/// A node under construction: the node with the children that are fully
/// built, and behind it the children that are resolved and not built yet, in
/// the order of the manifest.
pub struct FrameView {
    pub node: PackageView,
    pub pending: Seq<PackageView>,
}

/// What a running build waits for.
pub enum WaitingView {
    /// The license of the current node.
    License,
    /// The manifest of the current node.
    Manifest,
    /// The page at `url`, which `requirement` needs to be resolved; `rest`
    /// are the requirements of the current node that follow it.
    Page { url: Seq<char>, requirement: Seq<char>, rest: Seq<Seq<char>> },
}

/// The state of a build.
pub enum BuildView {
    /// The build waits for an answer. `current` is the node that is being
    /// built, `parents` are the nodes above it, the root first.
    Running { parents: Seq<FrameView>, current: FrameView, waiting: WaitingView },
    /// The tree is complete.
    Done(PackageView),
    /// The build has failed.
    Failed(Failure),
}

/// `node` with `license` as its license.
pub open spec fn licensed(node: PackageView, license: Seq<char>) -> PackageView {
    PackageView { license, ..node }
}

/// `node` with `child` as a further, last dependency.
pub open spec fn grown(node: PackageView, child: PackageView) -> PackageView {
    PackageView { dependencies: node.dependencies.push(child), ..node }
}

/// `frame` with `child` as a further, last pending child.
pub open spec fn awaiting(frame: FrameView, child: PackageView) -> FrameView {
    FrameView { node: frame.node, pending: frame.pending.push(child) }
}

/// A node of which nothing is known yet but what resolution gave.
pub open spec fn opened(node: PackageView) -> FrameView {
    FrameView { node, pending: Seq::empty() }
}

/// The state in which the build of the tree below `root` starts: it waits
/// for the license of the root.
pub open spec fn start(root: PackageView) -> BuildView {
    BuildView::Running { parents: Seq::empty(), current: opened(root), waiting: WaitingView::License }
}

/// What the build needs next; nothing once it has ended.
pub open spec fn request_of(b: BuildView) -> Option<RequestView> {
    match b {
        BuildView::Running { parents, current, waiting } => Some(
            match waiting {
                WaitingView::License => RequestView::License {
                    owner: current.node.owner,
                    name: current.node.name,
                },
                WaitingView::Manifest => RequestView::Manifest {
                    owner: current.node.owner,
                    name: current.node.name,
                    path: MANIFEST_PATH@,
                },
                WaitingView::Page { url, requirement, rest } => RequestView::Page { url },
            },
        ),
        _ => None,
    }
}

/// The state after the current node and all its children are settled: the
/// build goes on with the first child that is not built yet; where there is
/// none, the node is complete and becomes the last dependency of its parent,
/// which is then looked at in the same way; a complete root ends the build.
pub open spec fn descend(parents: Seq<FrameView>, current: FrameView) -> BuildView
    decreases parents.len(),
{
    if current.pending.len() > 0 {
        BuildView::Running {
            parents: parents.push(
                FrameView { node: current.node, pending: current.pending.drop_first() },
            ),
            current: opened(current.pending[0]),
            waiting: WaitingView::License,
        }
    } else if parents.len() == 0 {
        BuildView::Done(current.node)
    } else {
        descend(
            parents.drop_last(),
            FrameView {
                node: grown(parents.last().node, current.node),
                pending: parents.last().pending,
            },
        )
    }
}

/// The state after the requirements `todo` of the current node are taken up,
/// one after the other: each is resolved into a pending child, the first
/// failure ends the build, and a vanity import path makes the build wait for
/// its page. When none is left the build goes on as [`descend`] says.
pub open spec fn resolve(parents: Seq<FrameView>, current: FrameView, todo: Seq<Seq<char>>)
    -> BuildView
    decreases todo.len(),
{
    if todo.len() == 0 {
        descend(parents, current)
    } else {
        match redirect_target(todo[0]) {
            Some(url) => BuildView::Running {
                parents,
                current,
                waiting: WaitingView::Page { url, requirement: todo[0], rest: todo.drop_first() },
            },
            None => match resolution(todo[0], None) {
                Ok(child) => resolve(parents, awaiting(current, child), todo.drop_first()),
                Err(e) => BuildView::Failed(e),
            },
        }
    }
}

/// The state that follows `b` when `event` comes in.
///
/// A license is recorded in the current node, and the build waits for the
/// manifest. A manifest gives the requirements of the current node, which
/// are taken up as [`resolve`] says. A page resolves the requirement that
/// waited for it, and the requirements behind it are taken up.
///
/// A request that could not be completed ends the build. Where it was the
/// request for a license or for a manifest, the failure is what the host or
/// the network said, unchanged; where it was the request for a page, the
/// requirement cannot be resolved.
///
/// An event that the build does not wait for changes nothing, and nothing
/// changes a build that has ended.
pub open spec fn step(b: BuildView, event: EventView) -> BuildView {
    match b {
        BuildView::Running { parents, current, waiting } => match (waiting, event) {
            (WaitingView::License, EventView::License(detected)) => BuildView::Running {
                parents,
                current: FrameView {
                    node: licensed(current.node, license_label(detected)),
                    pending: current.pending,
                },
                waiting: WaitingView::Manifest,
            },
            (WaitingView::License, EventView::Failed(said)) => BuildView::Failed(
                Failure::LookupError(said),
            ),
            (WaitingView::Manifest, EventView::Manifest(files)) => match manifest_among(files) {
                Ok(text) => match requirements(text) {
                    Ok(todo) => resolve(parents, current, todo),
                    Err(e) => BuildView::Failed(e),
                },
                Err(e) => BuildView::Failed(e),
            },
            (WaitingView::Manifest, EventView::Failed(said)) => BuildView::Failed(
                Failure::LookupError(said),
            ),
            (WaitingView::Page { url, requirement, rest }, EventView::Page(page)) => match resolution(
                requirement,
                Some(page),
            ) {
                Ok(child) => resolve(parents, awaiting(current, child), rest),
                Err(e) => BuildView::Failed(e),
            },
            (WaitingView::Page { url, requirement, rest }, EventView::Failed(said)) => {
                BuildView::Failed(Failure::ResolutionError)
            },
            _ => b,
        },
        _ => b,
    }
}

/// The state that a build reaches from `b` when `events` come in, one after
/// the other.
pub open spec fn run(b: BuildView, events: Seq<EventView>) -> BuildView
    decreases events.len(),
{
    if events.len() == 0 {
        b
    } else {
        run(step(b, events[0]), events.drop_first())
    }
}

/// A build that has ended stays as it is, whatever comes in: after the first
/// failure nothing is built, and a tree that was handed out is not changed.
pub proof fn law_ended_stays(b: BuildView, events: Seq<EventView>)
    requires
        !(b is Running),
    ensures
        run(b, events) == b,
    decreases events.len(),
{
    if events.len() > 0 {
        law_ended_stays(b, events.drop_first());
    }
}

/// Whether a node under construction is built as far as it goes: it
/// carries a name and a version, the children that are built are fully
/// built, and the pending children carry a name and a version and nothing
/// below them.
pub open spec fn frame_built(frame: FrameView) -> bool {
    &&& resolved(frame.node)
    &&& forall|i: int|
        0 <= i < frame.node.dependencies.len() ==> complete(#[trigger] frame.node.dependencies[i])
    &&& forall|j: int|
        0 <= j < frame.pending.len() ==> resolved(#[trigger] frame.pending[j])
            && frame.pending[j].dependencies.len() == 0
}

/// Whether a build is well built: every node under construction is built as
/// far as it goes, every node but one that waits for its license carries
/// one, and a tree that is handed out is fully built.
pub open spec fn well_built(b: BuildView) -> bool {
    match b {
        BuildView::Running { parents, current, waiting } => {
            &&& forall|k: int|
                0 <= k < parents.len() ==> frame_built(#[trigger] parents[k])
                    && parents[k].node.license.len() > 0
            &&& frame_built(current)
            &&& !(waiting is License) ==> current.node.license.len() > 0
        },
        BuildView::Done(tree) => complete(tree),
        BuildView::Failed(_) => true,
    }
}

proof fn lemma_descend_built(parents: Seq<FrameView>, current: FrameView)
    requires
        forall|k: int|
            0 <= k < parents.len() ==> frame_built(#[trigger] parents[k])
                && parents[k].node.license.len() > 0,
        frame_built(current),
        current.node.license.len() > 0,
    ensures
        well_built(descend(parents, current)),
    decreases parents.len(),
{
    if current.pending.len() > 0 {
        let kept = FrameView { node: current.node, pending: current.pending.drop_first() };
        let above = parents.push(kept);
        let first = opened(current.pending[0]);
        assert forall|j: int| 0 <= j < kept.pending.len() implies resolved(
            #[trigger] kept.pending[j],
        ) && kept.pending[j].dependencies.len() == 0 by {
            assert(kept.pending[j] == current.pending[j + 1]);
        }
        assert forall|k: int| 0 <= k < above.len() implies frame_built(#[trigger] above[k])
            && above[k].node.license.len() > 0 by {
            if k < parents.len() {
                assert(above[k] == parents[k]);
            }
        }
        assert(frame_built(first));
    } else if parents.len() == 0 {
    } else {
        let parent = parents.last();
        let above = parents.drop_last();
        let next = FrameView { node: grown(parent.node, current.node), pending: parent.pending };
        assert(complete(current.node));
        assert(frame_built(parent));
        assert forall|i: int| 0 <= i < next.node.dependencies.len() implies complete(
            #[trigger] next.node.dependencies[i],
        ) by {
            if i < parent.node.dependencies.len() {
                assert(next.node.dependencies[i] == parent.node.dependencies[i]);
            }
        }
        assert forall|k: int| 0 <= k < above.len() implies frame_built(#[trigger] above[k])
            && above[k].node.license.len() > 0 by {
            assert(above[k] == parents[k]);
        }
        lemma_descend_built(above, next);
    }
}

proof fn lemma_awaiting_built(current: FrameView, requirement: Seq<char>, page: Option<Seq<char>>)
    requires
        frame_built(current),
        resolution(requirement, page) is Ok,
    ensures
        frame_built(awaiting(current, resolution(requirement, page)->Ok_0)),
{
    let child = resolution(requirement, page)->Ok_0;
    let next = awaiting(current, child);
    crate::identifiers::law_resolution_names(requirement, page);
    assert forall|j: int| 0 <= j < next.pending.len() implies resolved(#[trigger] next.pending[j])
        && next.pending[j].dependencies.len() == 0 by {
        if j < current.pending.len() {
            assert(next.pending[j] == current.pending[j]);
        }
    }
}

proof fn lemma_resolve_built(parents: Seq<FrameView>, current: FrameView, todo: Seq<Seq<char>>)
    requires
        forall|k: int|
            0 <= k < parents.len() ==> frame_built(#[trigger] parents[k])
                && parents[k].node.license.len() > 0,
        frame_built(current),
        current.node.license.len() > 0,
    ensures
        well_built(resolve(parents, current, todo)),
    decreases todo.len(),
{
    if todo.len() == 0 {
        lemma_descend_built(parents, current);
    } else {
        match redirect_target(todo[0]) {
            Some(url) => {},
            None => match resolution(todo[0], None) {
                Ok(child) => {
                    lemma_awaiting_built(current, todo[0], None);
                    lemma_resolve_built(parents, awaiting(current, child), todo.drop_first());
                },
                Err(_) => {},
            },
        }
    }
}

/// A build that is well built is well built after every event.
pub proof fn law_step_well_built(b: BuildView, event: EventView)
    requires
        well_built(b),
    ensures
        well_built(step(b, event)),
{
    match b {
        BuildView::Running { parents, current, waiting } => {
            match (waiting, event) {
                (WaitingView::License, EventView::License(detected)) => {
                    reveal_strlit("unknown");
                    assert(UNKNOWN_LICENSE@.len() == 7);
                    let next = FrameView {
                        node: licensed(current.node, license_label(detected)),
                        pending: current.pending,
                    };
                    assert(frame_built(next));
                },
                (WaitingView::Manifest, EventView::Manifest(files)) => {
                    match manifest_among(files) {
                        Ok(text) => match requirements(text) {
                            Ok(todo) => {
                                lemma_resolve_built(parents, current, todo);
                            },
                            Err(_) => {},
                        },
                        Err(_) => {},
                    }
                },
                (WaitingView::Page { url, requirement, rest }, EventView::Page(page)) => {
                    match resolution(requirement, Some(page)) {
                        Ok(child) => {
                            lemma_awaiting_built(current, requirement, Some(page));
                            lemma_resolve_built(parents, awaiting(current, child), rest);
                        },
                        Err(_) => {},
                    }
                },
                _ => {},
            }
        },
        _ => {},
    }
}

/// Whatever comes in, a build below a node that carries a name and a
/// version and has no dependencies hands out nothing but a fully built tree:
/// every node of the tree carries a name, a version and a license.
pub proof fn law_run_complete(root: PackageView, events: Seq<EventView>)
    requires
        resolved(root),
        root.dependencies.len() == 0,
    ensures
        well_built(run(start(root), events)),
        run(start(root), events) matches BuildView::Done(tree) ==> complete(tree),
{
    lemma_run_built(start(root), events);
}

proof fn lemma_run_built(b: BuildView, events: Seq<EventView>)
    requires
        well_built(b),
    ensures
        well_built(run(b, events)),
    decreases events.len(),
{
    if events.len() > 0 {
        law_step_well_built(b, events[0]);
        lemma_run_built(step(b, events[0]), events.drop_first());
    }
}

struct Frame {
    node: Package,
    pending: Vec<Package>,
}

enum Waiting {
    License,
    Manifest,
    Page { url: String, requirement: String, rest: Vec<String> },
}

enum State {
    Running { parents: Vec<Frame>, current: Frame, waiting: Waiting },
    Done(Package),
    Failed(BuildError),
}

/// The build of one dependency tree.
pub struct TreeBuilder {
    state: State,
}

impl View for Frame {
    type V = FrameView;

    closed spec fn view(&self) -> FrameView {
        FrameView {
            node: self.node@,
            pending: Seq::new(self.pending@.len(), |i: int| self.pending@[i]@),
        }
    }
}

spec fn frames(parents: Seq<Frame>) -> Seq<FrameView> {
    Seq::new(parents.len(), |i: int| parents[i]@)
}

impl View for Waiting {
    type V = WaitingView;

    closed spec fn view(&self) -> WaitingView {
        match self {
            Waiting::License => WaitingView::License,
            Waiting::Manifest => WaitingView::Manifest,
            Waiting::Page { url, requirement, rest } => WaitingView::Page {
                url: url@,
                requirement: requirement@,
                rest: rest.deep_view(),
            },
        }
    }
}

impl View for TreeBuilder {
    type V = BuildView;

    closed spec fn view(&self) -> BuildView {
        match self.state {
            State::Running { parents, current, waiting } => BuildView::Running {
                parents: frames(parents@),
                current: current@,
                waiting: waiting@,
            },
            State::Done(tree) => BuildView::Done(tree@),
            State::Failed(e) => BuildView::Failed(e@),
        }
    }
}

fn failed(e: BuildError) -> (next: TreeBuilder)
    ensures
        next@ == BuildView::Failed(e@),
{
    TreeBuilder { state: State::Failed(e) }
}

fn go_down(parents: Vec<Frame>, current: Frame) -> (next: TreeBuilder)
    ensures
        next@ == descend(frames(parents@), current@),
{
    let ghost goal = descend(frames(parents@), current@);
    let mut above = parents;
    let mut node = current;
    loop
        invariant
            descend(frames(above@), node@) == goal,
            goal == descend(frames(parents@), current@),
        decreases above.len(),
    {
        let ghost before = node@;
        let ghost frames_before = frames(above@);
        if node.pending.len() > 0 {
            let child = node.pending.remove(0);
            assert(node@.pending =~= before.pending.drop_first());
            assert(child@ == before.pending[0]);
            above.push(node);
            assert(frames(above@) =~= frames_before.push(
                FrameView { node: before.node, pending: before.pending.drop_first() },
            ));
            let first = Frame { node: child, pending: Vec::new() };
            assert(first@.pending =~= Seq::<PackageView>::empty());
            return TreeBuilder {
                state: State::Running { parents: above, current: first, waiting: Waiting::License },
            };
        }
        assert(before.pending.len() == 0);
        match above.pop() {
            None => {
                assert(frames_before.len() == 0);
                return TreeBuilder { state: State::Done(node.node) };
            },
            Some(parent) => {
                assert(frames(above@) =~= frames_before.drop_last());
                assert(parent@ == frames_before.last());
                let mut parent = parent;
                parent.node.add_dependency(node.node);
                node = parent;
                assert(node@.pending =~= frames_before.last().pending);
            },
        }
    }
}

fn take_up(parents: Vec<Frame>, current: Frame, todo: Vec<String>) -> (next: TreeBuilder)
    ensures
        next@ == resolve(frames(parents@), current@, todo.deep_view()),
{
    let ghost goal = resolve(frames(parents@), current@, todo.deep_view());
    let mut node = current;
    let mut left = todo;
    let mut at: usize = 0;
    assert(left.deep_view().skip(0) =~= left.deep_view());
    while at < left.len()
        invariant
            at <= left.len(),
            resolve(frames(parents@), node@, left.deep_view().skip(at as int)) == goal,
            goal == resolve(frames(parents@), current@, todo.deep_view()),
        decreases left.len() - at,
    {
        let ghost open = left.deep_view().skip(at as int);
        let ghost before = node@;
        assert(open[0] == left@[at as int]@);
        assert(open.drop_first() =~= left.deep_view().skip(at + 1));
        match Package::redirect_url(left[at].as_str()) {
            Some(url) => {
                let rest = left.split_off(at + 1);
                assert(rest.deep_view() =~= open.drop_first());
                let requirement = match left.pop() {
                    Some(requirement) => requirement,
                    None => String::new(),
                };
                assert(requirement@ == open[0]);
                return TreeBuilder {
                    state: State::Running {
                        parents,
                        current: node,
                        waiting: Waiting::Page { url, requirement, rest },
                    },
                };
            },
            None => {
                let page: Option<String> = None;
                match Package::from_url(left[at].as_str(), &page) {
                    Ok(child) => {
                        node.pending.push(child);
                        assert(node@.pending =~= before.pending.push(child@));
                    },
                    Err(e) => {
                        return failed(e);
                    },
                }
            },
        }
        at += 1;
    }
    go_down(parents, node)
}

impl Package {
    /// Starts the build of the dependency tree below this node. The build
    /// first asks for the license of the node.
    pub fn get_dependencies(self) -> (builder: TreeBuilder)
        ensures
            builder@ == start(self@),
    {
        let current = Frame { node: self, pending: Vec::new() };
        assert(current@.pending =~= Seq::<PackageView>::empty());
        let parents: Vec<Frame> = Vec::new();
        assert(frames(parents@) =~= Seq::<FrameView>::empty());
        TreeBuilder { state: State::Running { parents, current, waiting: Waiting::License } }
    }
}

impl TreeBuilder {
    /// The outside work that the build needs next; none once the build has
    /// ended.
    pub fn request(&self) -> (r: Option<Request>)
        ensures
            match r {
                Some(q) => request_of(self@) == Some(q@),
                None => request_of(self@) is None,
            },
    {
        match &self.state {
            State::Running { parents, current, waiting } => Some(
                match waiting {
                    Waiting::License => Request::License {
                        owner: current.node.owner().to_owned(),
                        name: current.node.name().to_owned(),
                    },
                    Waiting::Manifest => Request::Manifest {
                        owner: current.node.owner().to_owned(),
                        name: current.node.name().to_owned(),
                        path: MANIFEST_PATH.to_owned(),
                    },
                    Waiting::Page { url, requirement, rest } => Request::Page { url: url.clone() },
                },
            ),
            _ => None,
        }
    }

    /// Hands the build the outcome of the outside work it asked for, and
    /// lets it go on until it needs the next or has ended.
    pub fn step(self, event: Event) -> (next: TreeBuilder)
        ensures
            next@ == step(self@, event@),
    {
        match self.state {
            State::Running { parents, current, waiting } => match (waiting, event) {
                (Waiting::License, Event::License(detected)) => {
                    let mut current = current;
                    match current.node.get_license(Ok(detected)) {
                        Ok(()) => TreeBuilder {
                            state: State::Running { parents, current, waiting: Waiting::Manifest },
                        },
                        Err(e) => failed(e),
                    }
                },
                (Waiting::License, Event::Failed(said)) => {
                    let mut current = current;
                    match current.node.get_license(Err(said)) {
                        Ok(()) => TreeBuilder {
                            state: State::Running { parents, current, waiting: Waiting::Manifest },
                        },
                        Err(e) => failed(e),
                    }
                },
                (Waiting::Manifest, Event::Manifest(files)) => match single_manifest(files) {
                    Ok(text) => match parse_manifest(text.as_str()) {
                        Ok(todo) => take_up(parents, current, todo),
                        Err(e) => failed(e),
                    },
                    Err(e) => failed(e),
                },
                (Waiting::Manifest, Event::Failed(said)) => failed(BuildError::LookupError(said)),
                (Waiting::Page { url, requirement, rest }, Event::Failed(said)) => failed(
                    BuildError::ResolutionError,
                ),
                (Waiting::Page { url, requirement, rest }, Event::Page(body)) => {
                    let page = Some(body);
                    match Package::from_url(requirement.as_str(), &page) {
                        Ok(child) => {
                            let mut current = current;
                            let ghost before = current@;
                            current.pending.push(child);
                            assert(current@.pending =~= before.pending.push(child@));
                            take_up(parents, current, rest)
                        },
                        Err(e) => failed(e),
                    }
                },
                (waiting, _) => TreeBuilder { state: State::Running { parents, current, waiting } },
            },
            other => TreeBuilder { state: other },
        }
    }

    /// Whether the build has ended, with a tree or with a failure.
    pub fn is_finished(&self) -> (r: bool)
        ensures
            r == !(self@ is Running),
    {
        match &self.state {
            State::Running { .. } => false,
            _ => true,
        }
    }

    /// The outcome of the build: the complete tree, or the failure that ended
    /// the build; nothing while the build is running.
    pub fn finish(self) -> (r: Option<Result<Package, BuildError>>)
        ensures
            match r {
                Some(Ok(tree)) => self@ == BuildView::Done(tree@),
                Some(Err(e)) => self@ == BuildView::Failed(e@),
                None => self@ is Running,
            },
    {
        match self.state {
            State::Running { .. } => None,
            State::Done(tree) => Some(Ok(tree)),
            State::Failed(e) => Some(Err(e)),
        }
    }
}

} // verus!
