//! How the stages of a pipeline are run and connected: a walk from left to
//! right that carries at most one pending process handle. The walk decides;
//! the caller spawns, changes directory, waits, and reports back.
use vstd::prelude::*;
use vstd::string::StringExecFns;
use crate::pipeline::Stage;

verus! {

/// Where a spawned stage reads its standard input from.
#[derive(Clone, Copy, Debug, PartialEq, Eq, Structural)]
pub enum Source {
    /// The session's own standard input.
    Session,
    /// The output end of the pending handle of the stage before.
    Previous,
}

/// Where a spawned stage writes its standard output to.
#[derive(Clone, Copy, Debug, PartialEq, Eq, Structural)]
pub enum Sink {
    /// The session's own standard output.
    Session,
    /// A fresh pipe whose read end feeds the next stage.
    Pipe,
}

/// What to do for one stage.
pub enum StageAction {
    /// Change the working directory to `path`.
    ChangeDir { path: String },
    /// End the whole session.
    Exit,
    /// Spawn the stage's program with its arguments and these streams.
    Spawn { input: Source, output: Sink },
}

/// What the walk over a pipeline asks for next.
pub enum Step {
    /// Act on the stage at this position.
    Run { index: usize, action: StageAction },
    /// Every stage was handled: wait for the pending handle to terminate.
    Wait,
    /// Every stage was handled and no handle is pending.
    Done,
}

pub open spec fn is_cd(p: Seq<char>) -> bool {
    p == seq!['c', 'd']
}

pub open spec fn is_exit(p: Seq<char>) -> bool {
    p == seq!['e', 'x', 'i', 't']
}

/// A stage that is neither built-in directive runs an outside program.
pub open spec fn is_external(p: Seq<char>) -> bool {
    !is_cd(p) && !is_exit(p)
}

/// The directory that a change-directory stage with these arguments goes to:
/// its first argument verbatim, or the filesystem root.
pub open spec fn cd_target(args: Seq<Seq<char>>) -> Seq<char> {
    if args.len() > 0 {
        args[0]
    } else {
        seq!['/']
    }
}

/// A handle is pending when stage `i` comes up: the stage before it ran an
/// outside program and the spawn succeeded.
pub open spec fn carried(programs: Seq<Seq<char>>, spawned: Seq<bool>, i: int) -> bool {
    i > 0 && is_external(programs[i - 1]) && spawned[i - 1]
}

/// The input that stage `i` of the pipeline is given.
pub open spec fn input_of(programs: Seq<Seq<char>>, spawned: Seq<bool>, i: int) -> Source {
    if carried(programs, spawned, i) {
        Source::Previous
    } else {
        Source::Session
    }
}

/// The output that stage `i` of a pipeline of `n` stages is given.
pub open spec fn output_of(n: int, i: int) -> Sink {
    if i + 1 < n {
        Sink::Pipe
    } else {
        Sink::Session
    }
}

/// The action for one stage with the given pending state and position.
pub open spec fn action_matches(
    a: StageAction,
    program: Seq<char>,
    args: Seq<Seq<char>>,
    input: Source,
    output: Sink,
) -> bool {
    if is_cd(program) {
        a matches StageAction::ChangeDir { path } && path@ == cd_target(args)
    } else if is_exit(program) {
        a is Exit
    } else {
        a == (StageAction::Spawn { input, output })
    }
}

/// The first position at or after `k` whose stage is the exit directive, or
/// the number of stages.
pub open spec fn exit_from(programs: Seq<Seq<char>>, k: int) -> int
    decreases programs.len() - k,
{
    if k < 0 || k >= programs.len() {
        programs.len() as int
    } else if is_exit(programs[k]) {
        k
    } else {
        exit_from(programs, k + 1)
    }
}

/// The action for one stage: the directory change for `cd`, the end of the
/// session for `exit`, else a spawn with input from the pending handle when
/// there is one and output to a pipe unless the stage is the last.
pub fn plan_stage(stage: &Stage, pending: bool, is_last: bool) -> (r: StageAction)
    ensures
        action_matches(
            r,
            stage.program@,
            stage.args.deep_view(),
            if pending { Source::Previous } else { Source::Session },
            if is_last { Sink::Session } else { Sink::Pipe },
        ),
{
    let p = stage.program.as_str();
    proof {
        reveal_strlit("cd");
        reveal_strlit("exit");
        reveal_strlit("/");
        assert("cd"@ =~= seq!['c', 'd']);
        assert("exit"@ =~= seq!['e', 'x', 'i', 't']);
        assert("/"@ =~= seq!['/']);
    }
    if str_eq(p, "cd") {
        if stage.args.len() > 0 {
            let path = stage.args[0].clone();
            proof {
                assert(stage.args.deep_view()[0] == stage.args[0]@);
            }
            StageAction::ChangeDir { path }
        } else {
            StageAction::ChangeDir { path: String::from_str("/") }
        }
    } else if str_eq(p, "exit") {
        StageAction::Exit
    } else {
        let input = if pending {
            Source::Previous
        } else {
            Source::Session
        };
        let output = if is_last {
            Sink::Session
        } else {
            Sink::Pipe
        };
        StageAction::Spawn { input, output }
    }
}

/// The walk over one pipeline, left to right. It holds the stages, the
/// position of the next stage, and whether a handle from the stage before is
/// pending; it remembers, as ghost state, which spawns succeeded.
pub struct PipelineRun {
    stages: Vec<Stage>,
    next: usize,
    pending: bool,
    spawned: Ghost<Seq<bool>>,
}

/// The program names of a list of stages.
pub open spec fn programs_of(stages: Seq<Stage>) -> Seq<Seq<char>> {
    stages.map_values(|s: Stage| s.program@)
}

impl PipelineRun {
    pub closed spec fn stage_list(&self) -> Seq<Stage> {
        self.stages@
    }

    pub open spec fn programs(&self) -> Seq<Seq<char>> {
        programs_of(self.stage_list())
    }

    /// The position of the stage that comes up next.
    pub closed spec fn position(&self) -> int {
        self.next as int
    }

    /// For each stage handled so far, whether spawning it succeeded.
    pub closed spec fn outcomes(&self) -> Seq<bool> {
        self.spawned@
    }

    pub closed spec fn wf(&self) -> bool {
        &&& self.next <= self.stages.len()
        &&& self.spawned@.len() == self.next
        &&& self.pending == carried(self.programs(), self.spawned@, self.next as int)
        &&& forall|k: int| 0 <= k < self.next ==> !is_exit(#[trigger] self.programs()[k])
    }

    /// A walk over `stages` that has handled none of them.
    pub fn new(stages: Vec<Stage>) -> (r: PipelineRun)
        ensures
            r.wf(),
            r.stage_list() == stages@,
            r.position() == 0,
            r.outcomes() == Seq::<bool>::empty(),
    {
        PipelineRun { stages, next: 0, pending: false, spawned: Ghost(Seq::empty()) }
    }

    /// The number of stages.
    pub fn len(&self) -> (r: usize)
        ensures
            r == self.stage_list().len(),
    {
        self.stages.len()
    }

    /// The stage at position `i`.
    pub fn stage(&self, i: usize) -> (r: &Stage)
        requires
            i < self.stage_list().len(),
        ensures
            *r == self.stage_list()[i as int],
    {
        &self.stages[i]
    }

    /// What comes next: the action for the stage at the current position,
    /// wired by the pending handle and by whether the stage is the last; once
    /// every stage is handled, a wait exactly when a handle is pending.
    pub fn next_step(&self) -> (r: Step)
        requires
            self.wf(),
        ensures
            self.position() < self.stage_list().len() ==> (r matches Step::Run { index, action }
                && index == self.position() && action_matches(
                action,
                self.stage_list()[self.position()].program@,
                self.stage_list()[self.position()].args.deep_view(),
                input_of(self.programs(), self.outcomes(), self.position()),
                output_of(self.stage_list().len() as int, self.position()),
            )),
            self.position() == self.stage_list().len() ==> (r is Wait <==> carried(
                self.programs(),
                self.outcomes(),
                self.position(),
            )) && (r is Done <==> !carried(self.programs(), self.outcomes(), self.position())),
    {
        let n = self.stages.len();
        if self.next < n {
            let is_last = self.next + 1 == n;
            let action = plan_stage(&self.stages[self.next], self.pending, is_last);
            Step::Run { index: self.next, action }
        } else if self.pending {
            Step::Wait
        } else {
            Step::Done
        }
    }

    /// Records that the current stage was handled; `spawned` says whether its
    /// program was spawned (it is ignored for a directory change). A handle
    /// is then pending exactly when the stage ran an outside program that
    /// spawned.
    pub fn record(&mut self, spawned: bool)
        requires
            old(self).wf(),
            old(self).position() < old(self).stage_list().len(),
            !is_exit(old(self).programs()[old(self).position()]),
        ensures
            final(self).wf(),
            final(self).stage_list() == old(self).stage_list(),
            final(self).position() == old(self).position() + 1,
            final(self).outcomes() == old(self).outcomes().push(spawned),
    {
        let ghost progs = self.programs();
        let ghost k = self.next as int;
        proof {
            reveal_strlit("cd");
            assert("cd"@ =~= seq!['c', 'd']);
        }
        let external = !str_eq(self.stages[self.next].program.as_str(), "cd");
        self.pending = external && spawned;
        self.spawned = Ghost(self.spawned@.push(spawned));
        self.next = self.next + 1;
        proof {
            assert(self.programs() == progs);
            assert(progs[k] == self.stages@[k].program@);
        }
    }
}

/// In a pipeline of three outside programs that all spawn, the first reads
/// the session's input and writes into a pipe, the second reads that pipe and
/// writes into another, the third reads the second pipe and writes to the
/// session's output; the one handle pending at the end, the only one waited
/// for, is the third's.
pub proof fn lemma_three_stage_chain(programs: Seq<Seq<char>>, spawned: Seq<bool>)
    requires
        programs.len() == 3,
        spawned.len() == 3,
        forall|k: int| 0 <= k < 3 ==> is_external(#[trigger] programs[k]),
        forall|k: int| 0 <= k < 3 ==> #[trigger] spawned[k],
    ensures
        input_of(programs, spawned, 0) == Source::Session,
        output_of(3, 0) == Sink::Pipe,
        input_of(programs, spawned, 1) == Source::Previous,
        output_of(3, 1) == Sink::Pipe,
        input_of(programs, spawned, 2) == Source::Previous,
        output_of(3, 2) == Sink::Session,
        carried(programs, spawned, 3),
{
    assert(is_external(programs[0]) && spawned[0]);
    assert(is_external(programs[1]) && spawned[1]);
    assert(is_external(programs[2]) && spawned[2]);
}

/// A directory change that is not the last stage leaves no handle pending:
/// the stage after it reads the session's input.
pub proof fn lemma_cd_clears_pending(programs: Seq<Seq<char>>, spawned: Seq<bool>, i: int)
    requires
        0 <= i,
        i + 1 < programs.len(),
        i < spawned.len(),
        is_cd(programs[i]),
    ensures
        input_of(programs, spawned, i + 1) == Source::Session,
{
}

/// A stage whose spawn failed leaves no handle pending: the stage after it
/// reads the session's input rather than a broken pipe.
pub proof fn lemma_failed_spawn_clears_pending(programs: Seq<Seq<char>>, spawned: Seq<bool>, i: int)
    requires
        0 <= i,
        i + 1 < programs.len(),
        i < spawned.len(),
        !spawned[i],
    ensures
        input_of(programs, spawned, i + 1) == Source::Session,
{
}

/// An exit directive anywhere in a pipeline stops the walk: it never moves
/// past the first exit stage, so it never reaches the end of the pipeline, and
/// on that stage the action it gives is to end the session.
pub proof fn lemma_exit_stops_walk(run: PipelineRun, i: int)
    requires
        run.wf(),
        0 <= i < run.stage_list().len(),
        is_exit(run.programs()[i]),
    ensures
        run.position() <= exit_from(run.programs(), 0) <= i,
        is_exit(run.programs()[exit_from(run.programs(), 0)]),
{
    lemma_exit_from(run.programs(), 0, i);
    let e = exit_from(run.programs(), 0);
    if run.position() > e {
        assert(!is_exit(run.programs()[e]));
    }
}

/// The first exit at or after `k` comes no later than any exit at or after `k`,
/// and every stage from `k` to it is no exit.
pub proof fn lemma_exit_from(programs: Seq<Seq<char>>, k: int, i: int)
    requires
        0 <= k <= i < programs.len(),
        is_exit(programs[i]),
    ensures
        k <= exit_from(programs, k) <= i,
        is_exit(programs[exit_from(programs, k)]),
        forall|j: int| k <= j < exit_from(programs, k) ==> !is_exit(#[trigger] programs[j]),
    decreases i - k,
{
    if !is_exit(programs[k]) {
        lemma_exit_from(programs, k + 1, i);
    }
}

/// Whether two strings hold the same characters.
pub fn str_eq(a: &str, b: &str) -> (r: bool)
    ensures
        r == (a@ == b@),
{
    let n = a.unicode_len();
    let m = b.unicode_len();
    if n != m {
        return false;
    }
    let mut i: usize = 0;
    while i < n
        invariant
            n == a@.len(),
            m == b@.len(),
            n == m,
            i <= n,
            forall|j: int| 0 <= j < i ==> a@[j] == b@[j],
        decreases n - i,
    {
        if a.get_char(i) != b.get_char(i) {
            return false;
        }
        i = i + 1;
    }
    assert(a@ =~= b@);
    true
}

} // verus!
