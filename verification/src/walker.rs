//! The walk through the import graph. The walker decides; its caller acts.
//! Each step takes the answer to the last action and returns the next
//! action: resolve a path, read a file, or look at some paths. No file is
//! visited twice, so the walk ends on graphs with cycles too.

use crate::context::{ignored, ProjectContext};
use crate::error::WalkError;
use crate::path::{FilePath, PathModel};
use crate::resolve::{get_imports, import_probes, imports_of_file, paths, probes_of_file};
use crate::snapshot::Snapshot;
use vstd::prelude::*;

verus! {

/// What the caller reports back.
#[derive(Debug)]
pub enum Event {
    /// Nothing yet: the walk begins.
    Start,
    /// The path that was to be resolved, as the file system resolves it,
    /// and whether it is a directory.
    Resolved { canonical: FilePath, is_dir: bool },
    /// The text of the file that was to be read.
    Content(String),
    /// What stands at the paths that were to be looked at.
    Probed(Snapshot),
    /// The action could not be carried out.
    Failed,
}

/// What the caller is to do next.
#[derive(Debug)]
pub enum Action {
    /// Resolve this path and say whether it is a directory.
    Canonicalize(FilePath),
    /// Read this file.
    Read(FilePath),
    /// Say what stands at each of these paths.
    Probe(Vec<FilePath>),
    /// Nothing: the walk is over.
    Done,
}

/// An event as contracts speak of it.
pub enum EventModel {
    Start,
    Resolved(PathModel, bool),
    Content(Seq<char>),
    Probed(Snapshot),
    Failed,
}

/// An action as contracts speak of it.
pub enum ActionModel {
    Canonicalize(PathModel),
    Read(PathModel),
    Probe(Seq<PathModel>),
    Done,
}

/// Where the walk stands.
pub enum PhaseModel {
    /// Before the first step.
    Ready,
    /// Waiting for this path to be resolved.
    Resolving(PathModel),
    /// Waiting for the text of this file.
    Reading(PathModel),
    /// Waiting for a look at the candidates of this file, whose text this
    /// is.
    Probing(PathModel, Seq<char>),
    /// Over.
    Done,
}

/// The state of a walk.
pub struct WalkState {
    /// The files visited so far, as the file system resolves them.
    pub visited: Seq<PathModel>,
    /// The paths still to be looked into; the last one is next.
    pub pending: Seq<PathModel>,
    pub phase: PhaseModel,
}

impl Event {
    /// The event as contracts speak of it.
    pub open spec fn view(&self) -> EventModel {
        match *self {
            Event::Start => EventModel::Start,
            Event::Resolved { canonical, is_dir } => EventModel::Resolved(canonical@, is_dir),
            Event::Content(text) => EventModel::Content(text@),
            Event::Probed(fs) => EventModel::Probed(fs),
            Event::Failed => EventModel::Failed,
        }
    }
}

impl Action {
    /// The action as contracts speak of it.
    pub open spec fn view(&self) -> ActionModel {
        match *self {
            Action::Canonicalize(p) => ActionModel::Canonicalize(p@),
            Action::Read(p) => ActionModel::Read(p@),
            Action::Probe(v) => ActionModel::Probe(paths(v@)),
            Action::Done => ActionModel::Done,
        }
    }
}

impl WalkState {
    /// No file is held twice, and every file held lies in the repository.
    pub open spec fn wf(self, root: PathModel) -> bool {
        &&& self.visited.no_duplicates()
        &&& forall|i: int| 0 <= i < self.visited.len() ==> (#[trigger] self.visited[i]).starts_with(root)
    }

    /// Takes up the next pending path, or ends the walk if there is none.
    pub open spec fn advance(self) -> (WalkState, ActionModel) {
        if self.pending.len() == 0 {
            (
                WalkState { visited: self.visited, pending: self.pending, phase: PhaseModel::Done },
                ActionModel::Done,
            )
        } else {
            (
                WalkState {
                    visited: self.visited,
                    pending: self.pending.drop_last(),
                    phase: PhaseModel::Resolving(self.pending.last()),
                },
                ActionModel::Canonicalize(self.pending.last()),
            )
        }
    }

    /// Decides on a resolved path. A file that was visited before, or that
    /// is kept out of the closure, is passed over. Any other file joins the
    /// visited ones, and only then is it read.
    pub open spec fn decide(
        self,
        root: PathModel,
        rules: Seq<Seq<char>>,
        path: PathModel,
        canonical: PathModel,
        is_dir: bool,
    ) -> (WalkState, ActionModel) {
        if self.visited.contains(canonical) || ignored(root, rules, Some(canonical), is_dir) {
            self.advance()
        } else {
            (
                WalkState {
                    visited: self.visited.push(canonical),
                    pending: self.pending,
                    phase: PhaseModel::Reading(path),
                },
                ActionModel::Read(path),
            )
        }
    }

    /// Takes the text of a file and asks for a look at the candidates of
    /// its imports; a file without imports is done with at once.
    pub open spec fn scan(
        self,
        root: PathModel,
        aliases: Map<Seq<char>, PathModel>,
        path: PathModel,
        content: Seq<char>,
    ) -> (WalkState, ActionModel) {
        let probes = probes_of_file(root, aliases, path, content);
        if probes.len() == 0 {
            self.advance()
        } else {
            (
                WalkState {
                    visited: self.visited,
                    pending: self.pending,
                    phase: PhaseModel::Probing(path, content),
                },
                ActionModel::Probe(probes),
            )
        }
    }

    /// Puts the existing files that a file imports on the pending paths,
    /// the first import to be taken up first, and goes on.
    pub open spec fn follow(
        self,
        root: PathModel,
        aliases: Map<Seq<char>, PathModel>,
        path: PathModel,
        content: Seq<char>,
        fs: Snapshot,
    ) -> (WalkState, ActionModel) {
        WalkState {
            visited: self.visited,
            pending: self.pending + imports_of_file(root, aliases, path, content, fs).reverse(),
            phase: self.phase,
        }.advance()
    }

    /// One step of the walk: the state and the action that follow an event.
    /// An event that does not answer the action asked for changes nothing
    /// and is an error; so is a failed action.
    pub open spec fn step(
        self,
        root: PathModel,
        rules: Seq<Seq<char>>,
        aliases: Map<Seq<char>, PathModel>,
        event: EventModel,
    ) -> (WalkState, Result<ActionModel, WalkError>) {
        match (self.phase, event) {
            (PhaseModel::Ready, EventModel::Start) => (self.advance().0, Ok(self.advance().1)),
            (PhaseModel::Resolving(path), EventModel::Resolved(canonical, is_dir)) => (
                self.decide(root, rules, path, canonical, is_dir).0,
                Ok(self.decide(root, rules, path, canonical, is_dir).1),
            ),
            (PhaseModel::Reading(path), EventModel::Content(content)) => (
                self.scan(root, aliases, path, content).0,
                Ok(self.scan(root, aliases, path, content).1),
            ),
            (PhaseModel::Probing(path, content), EventModel::Probed(fs)) => (
                self.follow(root, aliases, path, content, fs).0,
                Ok(self.follow(root, aliases, path, content, fs).1),
            ),
            (PhaseModel::Done, _) => (self, Err(WalkError::OutOfTurn)),
            (PhaseModel::Ready, _) => (self, Err(WalkError::OutOfTurn)),
            (_, EventModel::Failed) => (self, Err(WalkError::Io)),
            (_, _) => (self, Err(WalkError::OutOfTurn)),
        }
    }
}

/// Where the walk stands, with what it waits for.
#[derive(Debug)]
enum Phase {
    Ready,
    Resolving(FilePath),
    Reading(FilePath),
    Probing(FilePath, String),
    Done,
}

impl Phase {
    spec fn view(&self) -> PhaseModel {
        match *self {
            Phase::Ready => PhaseModel::Ready,
            Phase::Resolving(p) => PhaseModel::Resolving(p@),
            Phase::Reading(p) => PhaseModel::Reading(p@),
            Phase::Probing(p, text) => PhaseModel::Probing(p@, text@),
            Phase::Done => PhaseModel::Done,
        }
    }
}

/// A walk through the import graph of one repository.
#[derive(Debug)]
pub struct Walker {
    ctx: ProjectContext,
    visited: Vec<FilePath>,
    pending: Vec<FilePath>,
    phase: Phase,
}

fn seen(visited: &Vec<FilePath>, path: &FilePath) -> (r: bool)
    ensures
        r == paths(visited@).contains(path@),
{
    let mut i: usize = 0;
    while i < visited.len()
        invariant
            i <= visited.len(),
            forall|k: int| 0 <= k < i ==> paths(visited@)[k] != path@,
        decreases visited.len() - i,
    {
        if visited[i].same(path) {
            assert(paths(visited@)[i as int] == path@);
            return true;
        }
        i = i + 1;
    }
    false
}

impl Walker {
    /// No file is visited twice, and every visited file lies in the
    /// repository.
    #[verifier::type_invariant]
    pub open spec fn well_formed(&self) -> bool {
        self@.wf(self.root())
    }

    /// The state of the walk.
    pub closed spec fn view(&self) -> WalkState {
        WalkState {
            visited: paths(self.visited@),
            pending: paths(self.pending@),
            phase: self.phase@,
        }
    }

    /// The root of the repository that the walk stays in.
    pub closed spec fn root(&self) -> PathModel {
        self.ctx.root()
    }

    /// The lines of the ignore rules that the walk obeys.
    pub closed spec fn rules(&self) -> Seq<Seq<char>> {
        self.ctx.rules()
    }

    /// The alias table that the walk resolves with.
    pub closed spec fn aliases(&self) -> Map<Seq<char>, PathModel> {
        self.ctx.aliases()
    }

    /// A walk that has visited nothing and is to start at `entry`.
    pub fn new(ctx: ProjectContext, entry: FilePath) -> (r: Walker)
        ensures
            r@ == (WalkState {
                visited: Seq::<PathModel>::empty(),
                pending: seq![entry@],
                phase: PhaseModel::Ready,
            }),
            r.root() == ctx.root(),
            r.rules() == ctx.rules(),
            r.aliases() == ctx.aliases(),
    {
        let visited: Vec<FilePath> = Vec::new();
        let mut pending: Vec<FilePath> = Vec::new();
        pending.push(entry);
        assert(paths(visited@) =~= Seq::<PathModel>::empty());
        assert(paths(pending@) =~= seq![entry@]);
        Walker { ctx, visited, pending, phase: Phase::Ready }
    }

    /// The files visited so far, as the file system resolves them.
    pub fn visited(&self) -> (r: Vec<FilePath>)
        ensures
            paths(r@) == self@.visited,
    {
        let mut out: Vec<FilePath> = Vec::new();
        let mut i: usize = 0;
        assert(paths(out@) =~= paths(self.visited@).take(0));
        while i < self.visited.len()
            invariant
                i <= self.visited.len(),
                paths(out@) == paths(self.visited@).take(i as int),
            decreases self.visited.len() - i,
        {
            let ghost before = paths(out@);
            out.push(self.visited[i].clone());
            assert(paths(out@) =~= before.push(self.visited[i as int]@));
            assert(paths(self.visited@).take(i + 1) =~= paths(self.visited@).take(i as int).push(
                self.visited[i as int]@,
            ));
            i = i + 1;
        }
        assert(paths(self.visited@).take(self.visited.len() as int) =~= paths(self.visited@));
        out
    }

    /// Whether the walk is over.
    pub fn is_done(&self) -> (r: bool)
        ensures
            r == (self@.phase is Done),
    {
        match self.phase {
            Phase::Done => true,
            _ => false,
        }
    }

    fn advance(ctx: ProjectContext, visited: Vec<FilePath>, pending: Vec<FilePath>) -> (r: (
        Walker,
        Action,
    ))
        requires
            (WalkState {
                visited: paths(visited@),
                pending: paths(pending@),
                phase: PhaseModel::Ready,
            }).wf(ctx.root()),
        ensures
            (r.0@, r.1@) == (WalkState {
                visited: paths(visited@),
                pending: paths(pending@),
                phase: PhaseModel::Ready,
            }).advance(),
            r.0.root() == ctx.root(),
            r.0.rules() == ctx.rules(),
            r.0.aliases() == ctx.aliases(),
    {
        let mut pending = pending;
        let ghost before = paths(pending@);
        match pending.pop() {
            Some(next) => {
                assert(paths(pending@) =~= before.drop_last());
                assert(before.last() == next@);
                let action = Action::Canonicalize(next.clone());
                (Walker { ctx, visited, pending, phase: Phase::Resolving(next) }, action)
            },
            None => {
                assert(before.len() == 0);
                assert(paths(pending@) =~= before);
                (Walker { ctx, visited, pending, phase: Phase::Done }, Action::Done)
            },
        }
    }

    /// One step of the walk: takes the answer to the last action and
    /// returns the walk as it then stands, with the next action.
    pub fn step(self, event: Event) -> (r: (Walker, Result<Action, WalkError>))
        ensures
            r.0@ == self@.step(self.root(), self.rules(), self.aliases(), event@).0,
            match self@.step(self.root(), self.rules(), self.aliases(), event@).1 {
                Ok(action) => r.1 matches Ok(a) && a@ == action,
                Err(e) => r.1 matches Err(found) && found == e,
            },
            r.0.root() == self.root(),
            r.0.rules() == self.rules(),
            r.0.aliases() == self.aliases(),
    {
        proof {
            use_type_invariant(&self);
        }
        let Walker { ctx, visited, pending, phase } = self;
        match (phase, event) {
            (Phase::Ready, Event::Start) => {
                let (walker, action) = Walker::advance(ctx, visited, pending);
                (walker, Ok(action))
            },
            (Phase::Resolving(path), Event::Resolved { canonical, is_dir }) => {
                if seen(&visited, &canonical) || ctx.is_ignored(Some(&canonical), is_dir) {
                    let (walker, action) = Walker::advance(ctx, visited, pending);
                    (walker, Ok(action))
                } else {
                    let mut visited = visited;
                    let ghost before = paths(visited@);
                    visited.push(canonical);
                    proof {
                        let after = paths(visited@);
                        assert(after =~= before.push(canonical@));
                        assert(canonical@.starts_with(ctx.root()));
                        assert forall|i: int, j: int|
                            0 <= i < after.len() && 0 <= j < after.len() && i != j implies after[i]
                            != after[j] by {
                            if i < before.len() && j < before.len() {
                                assert(before[i] != before[j]);
                            } else if i < before.len() {
                                assert(before.contains(before[i]));
                            } else {
                                assert(before.contains(before[j]));
                            }
                        }
                        assert forall|i: int| 0 <= i < after.len() implies (#[trigger] after[i]).starts_with(
                            ctx.root(),
                        ) by {
                            if i < before.len() {
                                assert(after[i] == before[i]);
                            }
                        }
                    }
                    let action = Action::Read(path.clone());
                    (Walker { ctx, visited, pending, phase: Phase::Reading(path) }, Ok(action))
                }
            },
            (Phase::Reading(path), Event::Content(content)) => {
                let probes = import_probes(&path, content.as_str(), &ctx);
                if probes.len() == 0 {
                    let (walker, action) = Walker::advance(ctx, visited, pending);
                    (walker, Ok(action))
                } else {
                    (
                        Walker { ctx, visited, pending, phase: Phase::Probing(path, content) },
                        Ok(Action::Probe(probes)),
                    )
                }
            },
            (Phase::Probing(path, content), Event::Probed(fs)) => {
                let found = get_imports(&path, content.as_str(), &ctx, &fs);
                let mut pending = pending;
                let ghost before = paths(pending@);
                let mut i: usize = found.len();
                assert(paths(found@).skip(i as int).reverse() =~= Seq::<PathModel>::empty());
                while i > 0
                    invariant
                        i <= found.len(),
                        paths(pending@) == before + paths(found@).skip(i as int).reverse(),
                    decreases i,
                {
                    i = i - 1;
                    let ghost sofar = paths(pending@);
                    pending.push(found[i].clone());
                    assert(paths(pending@) =~= sofar.push(found[i as int]@));
                    assert(paths(found@).skip(i as int).reverse() =~= paths(found@).skip(
                        i + 1,
                    ).reverse().push(found[i as int]@));
                }
                assert(paths(found@).skip(0) =~= paths(found@));
                let (walker, action) = Walker::advance(ctx, visited, pending);
                (walker, Ok(action))
            },
            (Phase::Done, _) => (
                Walker { ctx, visited, pending, phase: Phase::Done },
                Err(WalkError::OutOfTurn),
            ),
            (Phase::Ready, _) => (
                Walker { ctx, visited, pending, phase: Phase::Ready },
                Err(WalkError::OutOfTurn),
            ),
            (phase, Event::Failed) => (Walker { ctx, visited, pending, phase }, Err(WalkError::Io)),
            (phase, _) => (Walker { ctx, visited, pending, phase }, Err(WalkError::OutOfTurn)),
        }
    }
}

/// Visiting a file twice changes nothing the second time: a path that is
/// among the visited files is passed over, and the visited files stay as
/// they are.
pub proof fn law_revisit_is_idle(
    state: WalkState,
    root: PathModel,
    rules: Seq<Seq<char>>,
    path: PathModel,
    canonical: PathModel,
    is_dir: bool,
)
    requires
        state.visited.contains(canonical),
    ensures
        state.decide(root, rules, path, canonical, is_dir).0.visited == state.visited,
        !(state.decide(root, rules, path, canonical, is_dir).1 is Read),
{
}

/// A file is read only at the moment it joins the visited files, and it
/// joins them only if it was not among them: no file is read twice, so a
/// cycle of imports is walked once.
pub proof fn law_read_once(
    state: WalkState,
    root: PathModel,
    rules: Seq<Seq<char>>,
    aliases: Map<Seq<char>, PathModel>,
    event: EventModel,
)
    requires
        state.wf(root),
        state.step(root, rules, aliases, event).1 matches Ok(ActionModel::Read(_)),
    ensures
        event matches EventModel::Resolved(canonical, _) && !state.visited.contains(canonical)
            && state.step(root, rules, aliases, event).0.visited == state.visited.push(canonical),
{
}

/// Every step keeps the visited files free of duplicates and inside the
/// repository, and takes no file away from them.
pub proof fn law_step_keeps_order(
    state: WalkState,
    root: PathModel,
    rules: Seq<Seq<char>>,
    aliases: Map<Seq<char>, PathModel>,
    event: EventModel,
)
    requires
        state.wf(root),
    ensures
        state.step(root, rules, aliases, event).0.wf(root),
        state.visited.is_prefix_of(state.step(root, rules, aliases, event).0.visited),
{
    let next = state.step(root, rules, aliases, event).0;
    match (state.phase, event) {
        (PhaseModel::Resolving(path), EventModel::Resolved(canonical, is_dir)) => {
            if !(state.visited.contains(canonical) || ignored(root, rules, Some(canonical), is_dir)) {
                let after = state.visited.push(canonical);
                assert(next.visited == after);
                assert forall|i: int, j: int|
                    0 <= i < after.len() && 0 <= j < after.len() && i != j implies after[i]
                    != after[j] by {
                    if i < state.visited.len() && j < state.visited.len() {
                        assert(state.visited[i] != state.visited[j]);
                    } else if i < state.visited.len() {
                        assert(state.visited.contains(state.visited[i]));
                    } else {
                        assert(state.visited.contains(state.visited[j]));
                    }
                }
                assert forall|i: int| 0 <= i < after.len() implies (#[trigger] after[i]).starts_with(
                    root,
                ) by {
                    if i < state.visited.len() {
                        assert(after[i] == state.visited[i]);
                    }
                }
                assert(state.visited =~= after.subrange(0, state.visited.len() as int));
            } else {
                assert(state.visited =~= next.visited.subrange(0, state.visited.len() as int));
            }
        },
        _ => {
            assert(next.visited == state.visited);
            assert(state.visited =~= next.visited.subrange(0, state.visited.len() as int));
        },
    }
}

/// How far a walk is from its end, as four numbers read in order: the files
/// of `universe` not yet visited; the work left on the file in hand (two
/// while it waits to be read, one while its candidates are looked at); the
/// pending paths; and one unless the walk is over.
pub open spec fn distance(state: WalkState, universe: Set<PathModel>) -> (nat, nat, nat, nat) {
    (
        universe.difference(state.visited.to_set()).len(),
        match state.phase {
            PhaseModel::Reading(_) => 2,
            PhaseModel::Probing(_, _) => 1,
            _ => 0,
        },
        state.pending.len(),
        if state.phase is Done {
            0
        } else {
            1
        },
    )
}

/// `a` comes before `b` when the numbers are compared in order.
pub open spec fn nearer(a: (nat, nat, nat, nat), b: (nat, nat, nat, nat)) -> bool {
    a.0 < b.0 || (a.0 == b.0 && (a.1 < b.1 || (a.1 == b.1 && (a.2 < b.2 || (a.2 == b.2 && a.3
        < b.3)))))
}

/// The walk ends. Where the file system resolves paths to the files of a
/// finite set, every step that is not refused brings the walk nearer to its
/// end, whatever the imports are and whether or not they form cycles; and
/// the distance cannot fall for ever.
pub proof fn law_walk_ends(
    state: WalkState,
    universe: Set<PathModel>,
    root: PathModel,
    rules: Seq<Seq<char>>,
    aliases: Map<Seq<char>, PathModel>,
    event: EventModel,
)
    requires
        universe.finite(),
        state.step(root, rules, aliases, event).1 is Ok,
        event matches EventModel::Resolved(canonical, _) ==> universe.contains(canonical),
    ensures
        nearer(distance(state.step(root, rules, aliases, event).0, universe), distance(state, universe)),
{
    let next = state.step(root, rules, aliases, event).0;
    match (state.phase, event) {
        (PhaseModel::Resolving(path), EventModel::Resolved(canonical, is_dir)) => {
            if !(state.visited.contains(canonical) || ignored(root, rules, Some(canonical), is_dir)) {
                let left = universe.difference(state.visited.to_set());
                assert(next.visited == state.visited.push(canonical));
                assert(left.contains(canonical));
                assert(universe.difference(next.visited.to_set()) =~= left.remove(canonical)) by {
                    assert forall|p: PathModel| next.visited.to_set().contains(p) == (
                    state.visited.to_set().contains(p) || p == canonical) by {
                        if state.visited.contains(p) {
                            let i = choose|i: int| 0 <= i < state.visited.len() && state.visited[i] == p;
                            assert(next.visited[i] == p);
                        }
                        if p == canonical {
                            assert(next.visited[state.visited.len() as int] == p);
                        }
                    }
                }
                vstd::set_lib::lemma_len_difference(universe, state.visited.to_set());
                assert(left.finite());
            }
        },
        _ => {},
    }
}

/// A file that the ignore rules exclude never joins the visited files, and
/// it is not read, so its own imports are never looked into.
pub proof fn law_ignored_is_never_visited(
    state: WalkState,
    root: PathModel,
    rules: Seq<Seq<char>>,
    path: PathModel,
    canonical: PathModel,
    is_dir: bool,
)
    requires
        ignored(root, rules, Some(canonical), is_dir),
    ensures
        state.decide(root, rules, path, canonical, is_dir).0.visited == state.visited,
        !(state.decide(root, rules, path, canonical, is_dir).1 is Read),
{
}

/// A path that leads out of the repository counts as ignored, whatever the
/// rules say and whether or not something stands there.
pub proof fn law_outside_is_ignored(
    root: PathModel,
    rules: Seq<Seq<char>>,
    canonical: PathModel,
    is_dir: bool,
)
    requires
        !canonical.starts_with(root),
    ensures
        ignored(root, rules, Some(canonical), is_dir),
{
}

} // verus!
