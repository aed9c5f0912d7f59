//! The convergence loop: generate, apply, build, and again, until the build succeeds
//! or the retry budget is spent.
//!
//! The loop is a state machine. It does no work itself: each step takes the outcome
//! of the last piece of work as an event and answers with the next piece of work as
//! an action. Whoever drives it performs the actions.

use crate::diagnostics::{comment_of, diagnostic_views, Diagnostic, DiagnosticView};
use crate::error::{ErrorKind, OracleError};
use crate::repository::{Comment, CommentView};
use vstd::prelude::*;

verus! {

/// Where the loop stands.
#[derive(Debug, Clone, Copy, PartialEq, Eq, Structural)]
pub enum Phase {
    /// Not started.
    Ready,
    /// A generation was asked for.
    Generating,
    /// A build was asked for.
    Building,
    /// The summary was asked for.
    Summarizing,
    /// The loop has ended.
    Finished,
}

/// The next piece of work.
#[derive(Debug, PartialEq, Eq)]
pub enum Action {
    /// Generate edits for this comment and apply them.
    Generate(Comment),
    /// Build the project.
    Build,
    /// Summarize what changed since the loop began.
    Summarize,
    /// The loop succeeded, with this summary.
    Done(String),
    /// The loop failed.
    Fail(ErrorKind),
}

/// What an [`Action`] stands for.
pub enum ActionView {
    Generate(CommentView),
    Build,
    Summarize,
    Done(Seq<char>),
    Fail(ErrorKind),
}

impl View for Action {
    type V = ActionView;

    open spec fn view(&self) -> ActionView {
        match *self {
            Action::Generate(comment) => ActionView::Generate(comment@),
            Action::Build => ActionView::Build,
            Action::Summarize => ActionView::Summarize,
            Action::Done(summary) => ActionView::Done(summary@),
            Action::Fail(e) => ActionView::Fail(e),
        }
    }
}

/// The outcome of a piece of work.
#[derive(Debug, PartialEq, Eq)]
pub enum Event {
    /// The loop is to begin.
    Started,
    /// A generation ended: its edits were applied, or it failed.
    Generated(Result<(), ErrorKind>),
    /// A build ended: it succeeded, or it failed with these diagnostics.
    Built(Result<(), Vec<Diagnostic>>),
    /// The summary came back, or the oracle failed.
    Summarized(Result<String, OracleError>),
}

/// What an [`Event`] stands for.
pub enum EventView {
    Started,
    Generated(Result<(), ErrorKind>),
    Built(Result<(), Seq<DiagnosticView>>),
    Summarized(Result<Seq<char>, OracleError>),
}

impl View for Event {
    type V = EventView;

    open spec fn view(&self) -> EventView {
        match *self {
            Event::Started => EventView::Started,
            Event::Generated(r) => EventView::Generated(r),
            Event::Built(r) => EventView::Built(
                match r {
                    Ok(()) => Ok(()),
                    Err(diagnostics) => Err(diagnostic_views(diagnostics@)),
                },
            ),
            Event::Summarized(r) => EventView::Summarized(
                match r {
                    Ok(summary) => Ok(summary@),
                    Err(e) => Err(e),
                },
            ),
        }
    }
}

/// The state of the loop.
pub struct ConvergenceLoop {
    stack: Vec<Comment>,
    current: Option<Comment>,
    budget: usize,
    cycles: usize,
    phase: Phase,
}

/// What a [`ConvergenceLoop`] stands for.
pub struct LoopView {
    /// The comments that wait, the next one last.
    pub stack: Seq<CommentView>,
    /// The comment that the last generation was asked for.
    pub current: Option<CommentView>,
    /// How many generations a pending comment may take.
    pub budget: nat,
    /// How many generations the comment taken from the stack has taken so far,
    /// those for the errors that its edits caused included.
    pub cycles: nat,
    pub phase: Phase,
}

/// The views of a sequence of comments, in order.
pub open spec fn comment_views(comments: Seq<Comment>) -> Seq<CommentView> {
    Seq::new(comments.len(), |i: int| comments[i]@)
}

/// The loop before its first step.
pub open spec fn initial(comments: Seq<CommentView>, budget: nat) -> LoopView {
    LoopView { stack: comments, current: None, budget, cycles: 0, phase: Phase::Ready }
}

/// The loop ends in failure.
pub open spec fn fail(s: LoopView, e: ErrorKind) -> (LoopView, ActionView) {
    (LoopView { current: None, phase: Phase::Finished, ..s }, ActionView::Fail(e))
}

/// One more generation, for `comment`, if the budget allows it; the loop fails as
/// unconverged if not.
pub open spec fn begin_cycle(s: LoopView, comment: CommentView) -> (LoopView, ActionView) {
    if s.cycles >= s.budget {
        fail(s, ErrorKind::Unconverged)
    } else {
        (
            LoopView {
                current: Some(comment),
                cycles: s.cycles + 1,
                phase: Phase::Generating,
                ..s
            },
            ActionView::Generate(comment),
        )
    }
}

/// The next pending comment is taken up, with a fresh budget; where none is left,
/// the loop goes on to the summary.
pub open spec fn pop_next(s: LoopView) -> (LoopView, ActionView) {
    if s.stack.len() == 0 {
        (LoopView { current: None, phase: Phase::Summarizing, ..s }, ActionView::Summarize)
    } else {
        begin_cycle(LoopView { stack: s.stack.drop_last(), cycles: 0, ..s }, s.stack.last())
    }
}

/// The step of the loop: the state after `event`, and the next piece of work.
///
/// - At the start, and after a build that succeeded, the next pending comment is
///   taken up.
/// - After a generation whose edits were applied, the project is built.
/// - After a generation whose answer could not be parsed, the same comment is
///   generated for again.
/// - After a build that failed, the first diagnostic becomes the comment to generate
///   for. It is taken up at once, ahead of the comments that wait, and on the budget
///   of the comment whose edits caused it.
/// - A build that failed without a diagnostic, any other failure of a generation,
///   and an event that answers no pending work end the loop in failure.
/// - After the summary the loop is done.
pub open spec fn next(s: LoopView, event: EventView) -> (LoopView, ActionView) {
    match (s.phase, event) {
        (Phase::Ready, EventView::Started) => pop_next(s),
        (Phase::Generating, EventView::Generated(Ok(()))) => (
            LoopView { phase: Phase::Building, ..s },
            ActionView::Build,
        ),
        (Phase::Generating, EventView::Generated(Err(ErrorKind::Parse(_)))) => match s.current {
            Some(comment) => begin_cycle(s, comment),
            None => fail(s, ErrorKind::Fatal),
        },
        (Phase::Generating, EventView::Generated(Err(e))) => fail(s, e),
        (Phase::Building, EventView::Built(Ok(()))) => pop_next(s),
        (Phase::Building, EventView::Built(Err(diagnostics))) => if diagnostics.len() == 0 {
            fail(s, ErrorKind::Fatal)
        } else {
            begin_cycle(s, comment_of(diagnostics[0]))
        },
        (Phase::Summarizing, EventView::Summarized(Ok(summary))) => (
            LoopView { current: None, phase: Phase::Finished, ..s },
            ActionView::Done(summary),
        ),
        (Phase::Summarizing, EventView::Summarized(Err(e))) => fail(s, ErrorKind::Oracle(e)),
        _ => fail(s, ErrorKind::Fatal),
    }
}

/// An upper bound on the number of steps that the loop can still take.
pub open spec fn remaining(s: LoopView) -> nat {
    let spare: nat = if s.budget >= s.cycles {
        (s.budget - s.cycles) as nat
    } else {
        0
    };
    let waiting: nat = s.stack.len() * (2 * s.budget + 1) + 2;
    match s.phase {
        Phase::Finished => 0,
        Phase::Summarizing => 1,
        Phase::Ready => waiting + 1,
        Phase::Building => waiting + 2 * spare + 1,
        Phase::Generating => waiting + 2 * spare + 2,
    }
}

/// The state after a run of failed cycles: in each, the edits of a generation were
/// applied and the build then failed with the diagnostics given for it.
pub open spec fn after_failures(s: LoopView, failures: Seq<Seq<DiagnosticView>>) -> LoopView
    decreases failures.len(),
{
    if failures.len() == 0 {
        s
    } else {
        let before = after_failures(s, failures.drop_last());
        next(next(before, EventView::Generated(Ok(()))).0, EventView::Built(Err(failures.last()))).0
    }
}

/// With nothing pending, the loop goes straight to the summary: no generation and no
/// build is asked for.
pub proof fn lemma_nothing_pending(budget: nat)
    ensures
        next(initial(Seq::empty(), budget), EventView::Started).1 == ActionView::Summarize,
        next(initial(Seq::empty(), budget), EventView::Started).0.phase == Phase::Summarizing,
{
}

/// Every step of a loop that has not ended brings it closer to its end, whatever the
/// event: the loop cannot run forever.
pub proof fn lemma_step_decreases(s: LoopView, event: EventView)
    requires
        s.phase != Phase::Finished,
    ensures
        remaining(next(s, event).0) < remaining(s),
{
    let width = 2 * s.budget + 1;
    let after = next(s, event).0;
    if after.phase == Phase::Finished || after.phase == Phase::Summarizing {
    } else if after.stack == s.stack {
    } else {
        assert(after.stack == s.stack.drop_last());
        assert(s.stack.len() * width == (s.stack.len() - 1) * width + width) by (nonlinear_arith);
    }
}

/// A loop that has ended stays ended, and answers every event with a failure.
pub proof fn lemma_finished_stays(s: LoopView, event: EventView)
    requires
        s.phase == Phase::Finished,
    ensures
        next(s, event).0.phase == Phase::Finished,
        next(s, event).1 == ActionView::Fail(ErrorKind::Fatal),
{
}

/// One failed cycle: after a generation whose edits were applied the project is
/// built; when the build fails with a diagnostic, the first diagnostic is generated
/// for next, on the same budget, and once the budget is spent the loop fails as
/// unconverged instead.
pub proof fn lemma_failed_cycle(s: LoopView, diagnostics: Seq<DiagnosticView>)
    requires
        s.phase == Phase::Generating,
        diagnostics.len() > 0,
    ensures
        ({
            let built = next(s, EventView::Generated(Ok(())));
            let after = next(built.0, EventView::Built(Err(diagnostics)));
            &&& built.1 == ActionView::Build
            &&& s.cycles < s.budget ==> after.1 == ActionView::Generate(comment_of(diagnostics[0]))
                && after.0.phase == Phase::Generating && after.0.cycles == s.cycles + 1
                && after.0.budget == s.budget && after.0.stack == s.stack
            &&& s.cycles >= s.budget ==> after.1 == ActionView::Fail(ErrorKind::Unconverged)
                && after.0.phase == Phase::Finished
        }),
{
}

/// A loop over one comment whose build never succeeds fails as unconverged after
/// exactly `budget` generations: the first generation is asked for at the start,
/// each of the first `budget - 1` failed builds is answered with one more, and the
/// failed build that follows the last of them ends the loop.
pub proof fn lemma_unconverged_after_budget(
    seed: CommentView,
    budget: nat,
    failures: Seq<Seq<DiagnosticView>>,
)
    requires
        budget >= 1,
        failures.len() == budget,
        forall|i: int| 0 <= i < failures.len() ==> (#[trigger] failures[i]).len() > 0,
    ensures
        ({
            let start = next(initial(seq![seed], budget), EventView::Started);
            let last = after_failures(start.0, failures.take(budget - 1));
            &&& start.1 == ActionView::Generate(seed)
            &&& forall|k: int|
                0 <= k < budget ==> (#[trigger] after_failures(start.0, failures.take(k))).phase
                    == Phase::Generating && after_failures(start.0, failures.take(k)).cycles == k
                    + 1
            &&& next(
                next(last, EventView::Generated(Ok(()))).0,
                EventView::Built(Err(failures[budget - 1])),
            ).1 == ActionView::Fail(ErrorKind::Unconverged)
            &&& after_failures(start.0, failures).phase == Phase::Finished
        }),
{
    let start = next(initial(seq![seed], budget), EventView::Started);
    assert(seq![seed].last() == seed);
    assert forall|k: int| 0 <= k < budget implies (#[trigger] after_failures(
        start.0,
        failures.take(k),
    )).phase == Phase::Generating && after_failures(start.0, failures.take(k)).cycles == k + 1 by {
        lemma_failures_so_far(start.0, failures, k);
    }
    let last = after_failures(start.0, failures.take(budget - 1));
    lemma_failures_so_far(start.0, failures, budget - 1);
    lemma_failed_cycle(last, failures[budget - 1]);
    assert(failures.take(budget as int) == failures);
    assert(failures.drop_last() == failures.take(budget - 1));
}

/// After `k` failed cycles, with budget to spare, the loop is generating for the
/// `k + 1`-th time.
proof fn lemma_failures_so_far(s: LoopView, failures: Seq<Seq<DiagnosticView>>, k: int)
    requires
        s.phase == Phase::Generating,
        s.cycles == 1,
        0 <= k < s.budget,
        k <= failures.len(),
        forall|i: int| 0 <= i < failures.len() ==> (#[trigger] failures[i]).len() > 0,
    ensures
        after_failures(s, failures.take(k)).phase == Phase::Generating,
        after_failures(s, failures.take(k)).cycles == k + 1,
        after_failures(s, failures.take(k)).budget == s.budget,
    decreases k,
{
    if k > 0 {
        lemma_failures_so_far(s, failures, k - 1);
        assert(failures.take(k).drop_last() == failures.take(k - 1));
        assert(failures.take(k).last() == failures[k - 1]);
        lemma_failed_cycle(after_failures(s, failures.take(k - 1)), failures[k - 1]);
    } else {
        assert(failures.take(0).len() == 0);
    }
}

impl View for ConvergenceLoop {
    type V = LoopView;

    closed spec fn view(&self) -> LoopView {
        LoopView {
            stack: comment_views(self.stack@),
            current: match self.current {
                Some(comment) => Some(comment@),
                None => None,
            },
            budget: self.budget as nat,
            cycles: self.cycles as nat,
            phase: self.phase,
        }
    }
}

impl ConvergenceLoop {
    /// A loop over the pending `comments`, the last of them first, that allows each
    /// of them `budget` generations.
    pub fn new(comments: Vec<Comment>, budget: usize) -> (state: ConvergenceLoop)
        ensures
            state@ == initial(comment_views(comments@), budget as nat),
    {
        ConvergenceLoop { stack: comments, current: None, budget, cycles: 0, phase: Phase::Ready }
    }

    /// Where the loop stands.
    pub fn phase(&self) -> (phase: Phase)
        ensures
            phase == self@.phase,
    {
        self.phase
    }

    /// How many generations the comment in work has taken.
    pub fn cycles(&self) -> (cycles: usize)
        ensures
            cycles == self@.cycles,
    {
        self.cycles
    }

    /// How many comments wait.
    pub fn pending(&self) -> (pending: usize)
        ensures
            pending == self@.stack.len(),
    {
        self.stack.len()
    }

    fn fail(&mut self, e: ErrorKind) -> (action: Action)
        ensures
            (final(self)@, action@) == fail(old(self)@, e),
    {
        self.current = None;
        self.phase = Phase::Finished;
        Action::Fail(e)
    }

    fn begin_cycle(&mut self, comment: Comment) -> (action: Action)
        ensures
            (final(self)@, action@) == begin_cycle(old(self)@, comment@),
    {
        if self.cycles >= self.budget {
            self.fail(ErrorKind::Unconverged)
        } else {
            self.cycles = self.cycles + 1;
            self.current = Some(comment.clone());
            self.phase = Phase::Generating;
            Action::Generate(comment)
        }
    }

    fn pop_next(&mut self) -> (action: Action)
        ensures
            (final(self)@, action@) == pop_next(old(self)@),
    {
        let ghost before = comment_views(self.stack@);
        match self.stack.pop() {
            None => {
                self.current = None;
                self.phase = Phase::Summarizing;
                assert(comment_views(self.stack@) =~= before);
                Action::Summarize
            },
            Some(comment) => {
                assert(comment_views(self.stack@) =~= before.drop_last());
                assert(before.last() == comment@);
                self.cycles = 0;
                self.begin_cycle(comment)
            },
        }
    }

    /// Takes the outcome of the last piece of work and answers with the next.
    pub fn step(&mut self, event: Event) -> (action: Action)
        ensures
            (final(self)@, action@) == next(old(self)@, event@),
    {
        match (self.phase, event) {
            (Phase::Ready, Event::Started) => self.pop_next(),
            (Phase::Generating, Event::Generated(Ok(()))) => {
                self.phase = Phase::Building;
                Action::Build
            },
            (Phase::Generating, Event::Generated(Err(ErrorKind::Parse(_)))) => {
                let again = match &self.current {
                    Some(comment) => Some(comment.clone()),
                    None => None,
                };
                match again {
                    Some(comment) => self.begin_cycle(comment),
                    None => self.fail(ErrorKind::Fatal),
                }
            },
            (Phase::Generating, Event::Generated(Err(e))) => self.fail(e),
            (Phase::Building, Event::Built(Ok(()))) => self.pop_next(),
            (Phase::Building, Event::Built(Err(diagnostics))) => {
                if diagnostics.len() == 0 {
                    self.fail(ErrorKind::Fatal)
                } else {
                    self.begin_cycle(diagnostics[0].to_comment())
                }
            },
            (Phase::Summarizing, Event::Summarized(Ok(summary))) => {
                self.current = None;
                self.phase = Phase::Finished;
                Action::Done(summary)
            },
            (Phase::Summarizing, Event::Summarized(Err(e))) => self.fail(ErrorKind::Oracle(e)),
            _ => self.fail(ErrorKind::Fatal),
        }
    }
}

} // verus!
