//! Plans of file operations: what is done one after the other, and what is
//! undone when a step fails.

use vstd::prelude::*;

use crate::catalog::optional_view;
use crate::paths::{Location, LocationView};
use crate::text::joined;

verus! {

/// One operation on files or processes.
#[derive(Debug)]
pub enum Action {
    /// Create a directory and those above it.
    CreateDirs(Location),
    /// Write the bytes of the stand-in executable.
    WriteExecutable(Location),
    /// Write a text.
    WriteText { path: Location, content: String },
    /// Start the executable and pass it the title of its window.
    Spawn { executable: Location, title: String },
    /// Remove a file.
    RemoveFile(Location),
    /// Remove a directory and all in it.
    RemoveDir(Location),
    /// Remove a file if it exists.
    RemoveFileIfPresent(Location),
    /// Remove a directory and all in it if it exists.
    RemoveDirIfPresent(Location),
    /// Kill the process that the plan is about.
    Kill,
    /// Wait until the process that the plan is about has ended.
    AwaitExit,
}

/// What an `Action` says.
pub enum ActionView {
    CreateDirs(LocationView),
    WriteExecutable(LocationView),
    WriteText { path: LocationView, content: Seq<char> },
    Spawn { executable: LocationView, title: Seq<char> },
    RemoveFile(LocationView),
    RemoveDir(LocationView),
    RemoveFileIfPresent(LocationView),
    RemoveDirIfPresent(LocationView),
    Kill,
    AwaitExit,
}

impl View for Action {
    type V = ActionView;

    open spec fn view(&self) -> ActionView {
        match self {
            Action::CreateDirs(at) => ActionView::CreateDirs(at@),
            Action::WriteExecutable(at) => ActionView::WriteExecutable(at@),
            Action::WriteText { path, content } => ActionView::WriteText {
                path: path@,
                content: content@,
            },
            Action::Spawn { executable, title } => ActionView::Spawn {
                executable: executable@,
                title: title@,
            },
            Action::RemoveFile(at) => ActionView::RemoveFile(at@),
            Action::RemoveDir(at) => ActionView::RemoveDir(at@),
            Action::RemoveFileIfPresent(at) => ActionView::RemoveFileIfPresent(at@),
            Action::RemoveDirIfPresent(at) => ActionView::RemoveDirIfPresent(at@),
            Action::Kill => ActionView::Kill,
            Action::AwaitExit => ActionView::AwaitExit,
        }
    }
}

/// A step of a plan: an operation, the words that introduce its error, and what
/// is undone, in this order, when it fails. Without such words it does not matter
/// whether the operation fails, and the next step follows.
#[derive(Debug)]
pub struct Step {
    pub action: Action,
    pub failure: Option<String>,
    pub undo: Vec<Action>,
}

/// What a `Step` says.
pub struct StepView {
    pub action: ActionView,
    pub failure: Option<Seq<char>>,
    pub undo: Seq<ActionView>,
}

/// The views of a list of operations.
pub open spec fn action_views(actions: Seq<Action>) -> Seq<ActionView> {
    actions.map_values(|a: Action| a@)
}

impl View for Step {
    type V = StepView;

    open spec fn view(&self) -> StepView {
        StepView {
            action: self.action@,
            failure: optional_view(self.failure),
            undo: action_views(self.undo@),
        }
    }
}

/// The views of a list of steps.
pub open spec fn step_views(steps: Seq<Step>) -> Seq<StepView> {
    steps.map_values(|s: Step| s@)
}

/// How far a plan has been carried out.
#[derive(Debug)]
pub enum Run {
    /// A step is being carried out; `later` are the steps after it.
    Doing { failure: Option<String>, undo: Vec<Action>, later: Vec<Step> },
    /// A step failed, and an operation is being carried out to undo what was
    /// done; `left` are the operations after it.
    Undoing { message: String, left: Vec<Action> },
    /// There is nothing left to be done.
    Finished,
}

/// What became of an operation.
#[derive(Debug)]
pub enum Outcome {
    Done,
    Failed(String),
}

/// What is to be done next.
#[derive(Debug)]
pub enum Next {
    Perform(Action),
    /// Hand out the result.
    Finish(Result<(), String>),
    /// Nothing: no operation was under way.
    Wait,
}

/// What a `Run` says.
pub enum RunView {
    Doing { failure: Option<Seq<char>>, undo: Seq<ActionView>, later: Seq<StepView> },
    Undoing { message: Seq<char>, left: Seq<ActionView> },
    Finished,
}

/// What an `Outcome` says.
pub enum OutcomeView {
    Done,
    Failed(Seq<char>),
}

/// What a `Next` says.
pub enum NextView {
    Perform(ActionView),
    Finish(Result<(), Seq<char>>),
    Wait,
}

impl View for Run {
    type V = RunView;

    open spec fn view(&self) -> RunView {
        match self {
            Run::Doing { failure, undo, later } => RunView::Doing {
                failure: optional_view(*failure),
                undo: action_views(undo@),
                later: step_views(later@),
            },
            Run::Undoing { message, left } => RunView::Undoing {
                message: message@,
                left: action_views(left@),
            },
            Run::Finished => RunView::Finished,
        }
    }
}

impl View for Outcome {
    type V = OutcomeView;

    open spec fn view(&self) -> OutcomeView {
        match self {
            Outcome::Done => OutcomeView::Done,
            Outcome::Failed(error) => OutcomeView::Failed(error@),
        }
    }
}

impl View for Next {
    type V = NextView;

    open spec fn view(&self) -> NextView {
        match self {
            Next::Perform(action) => NextView::Perform(action@),
            Next::Finish(Ok(_)) => NextView::Finish(Ok(())),
            Next::Finish(Err(error)) => NextView::Finish(Err(error@)),
            Next::Wait => NextView::Wait,
        }
    }
}

/// Going on with the first of the steps that are left.
pub open spec fn run_steps(steps: Seq<StepView>) -> (RunView, NextView) {
    if steps.len() == 0 {
        (RunView::Finished, NextView::Finish(Ok(())))
    } else {
        (
            RunView::Doing {
                failure: steps[0].failure,
                undo: steps[0].undo,
                later: steps.drop_first(),
            },
            NextView::Perform(steps[0].action),
        )
    }
}

/// Going on with the first of the operations that are left to be undone.
pub open spec fn run_undo(message: Seq<char>, actions: Seq<ActionView>) -> (RunView, NextView) {
    if actions.len() == 0 {
        (RunView::Finished, NextView::Finish(Err(message)))
    } else {
        (
            RunView::Undoing { message, left: actions.drop_first() },
            NextView::Perform(actions[0]),
        )
    }
}

/// What follows from what became of an operation. The outcome of undoing is
/// not looked at.
pub open spec fn run_next(run: RunView, outcome: OutcomeView) -> (RunView, NextView) {
    match (run, outcome) {
        (RunView::Doing { later, .. }, OutcomeView::Done) => run_steps(later),
        (RunView::Doing { failure, undo, later }, OutcomeView::Failed(error)) => match failure {
            Some(words) => run_undo(words + error, undo),
            None => run_steps(later),
        },
        (RunView::Undoing { message, left }, _) => run_undo(message, left),
        (RunView::Finished, _) => (RunView::Finished, NextView::Wait),
    }
}

/// Begins to carry out a plan.
pub fn begin(steps: Vec<Step>) -> (r: (Run, Next))
    ensures
        (r.0@, r.1@) == run_steps(step_views(steps@)),
{
    let mut rest = steps;
    if rest.len() == 0 {
        return (Run::Finished, Next::Finish(Ok(())));
    }
    let step = rest.remove(0);
    assert(step_views(rest@) =~= step_views(steps@).drop_first());
    assert(step_views(steps@)[0] == step@);
    (
        Run::Doing { failure: step.failure, undo: step.undo, later: rest },
        Next::Perform(step.action),
    )
}

/// Begins to undo.
fn begin_undo(message: String, actions: Vec<Action>) -> (r: (Run, Next))
    ensures
        (r.0@, r.1@) == run_undo(message@, action_views(actions@)),
{
    let mut rest = actions;
    if rest.len() == 0 {
        return (Run::Finished, Next::Finish(Err(message)));
    }
    let action = rest.remove(0);
    assert(action_views(rest@) =~= action_views(actions@).drop_first());
    assert(action_views(actions@)[0] == action@);
    (Run::Undoing { message, left: rest }, Next::Perform(action))
}

/// Takes what became of an operation and says what is to be done next.
pub fn advance(run: Run, outcome: Outcome) -> (r: (Run, Next))
    ensures
        (r.0@, r.1@) == run_next(run@, outcome@),
{
    match (run, outcome) {
        (Run::Doing { later, .. }, Outcome::Done) => begin(later),
        (Run::Doing { failure, undo, later }, Outcome::Failed(error)) => match failure {
            Some(words) => begin_undo(joined(words.as_str(), error.as_str()), undo),
            None => begin(later),
        },
        (Run::Undoing { message, left }, _) => begin_undo(message, left),
        (Run::Finished, _) => (Run::Finished, Next::Wait),
    }
}

/// Whether a plan is under way, being undone, or finished, as a number that
/// never goes up.
pub open spec fn run_phase(run: RunView) -> nat {
    match run {
        RunView::Doing { .. } => 2,
        RunView::Undoing { .. } => 1,
        RunView::Finished => 0,
    }
}

/// How many steps or operations come after the present one.
pub open spec fn run_left(run: RunView) -> nat {
    match run {
        RunView::Doing { later, .. } => later.len(),
        RunView::Undoing { left, .. } => left.len(),
        RunView::Finished => 0,
    }
}

/// The operations that carrying out a plan comes to, and its result. `world`
/// says of the operations done so far what became of the last one.
pub open spec fn run_log(
    state: (RunView, NextView),
    log: Seq<ActionView>,
    world: spec_fn(Seq<ActionView>) -> OutcomeView,
) -> (Seq<ActionView>, Result<(), Seq<char>>)
    decreases run_phase(state.0), run_left(state.0),
{
    match (state.0, state.1) {
        (RunView::Finished, NextView::Finish(result)) => (log, result),
        (RunView::Finished, _) => (log, Ok(())),
        (run, NextView::Perform(action)) => {
            let after = log.push(action);
            run_log(run_next(run, world(after)), after, world)
        },
        _ => (log, Ok(())),
    }
}

/// What a plan comes to: the steps are done in their order until one fails whose
/// failure matters; then what that step undoes is undone in its order, and the
/// result is its error behind the words that introduce it.
pub open spec fn plan_log(
    steps: Seq<StepView>,
    log: Seq<ActionView>,
    world: spec_fn(Seq<ActionView>) -> OutcomeView,
) -> (Seq<ActionView>, Result<(), Seq<char>>)
    decreases steps.len(),
{
    if steps.len() == 0 {
        (log, Ok(()))
    } else {
        let after = log.push(steps[0].action);
        match (world(after), steps[0].failure) {
            (OutcomeView::Failed(error), Some(words)) => (
                after + steps[0].undo,
                Err(words + error),
            ),
            _ => plan_log(steps.drop_first(), after, world),
        }
    }
}

proof fn lemma_undo_log(
    message: Seq<char>,
    actions: Seq<ActionView>,
    log: Seq<ActionView>,
    world: spec_fn(Seq<ActionView>) -> OutcomeView,
)
    ensures
        run_log(run_undo(message, actions), log, world) == (
            log + actions,
            Err::<(), Seq<char>>(message),
        ),
    decreases actions.len(),
{
    if actions.len() == 0 {
        assert(log + actions =~= log);
    } else {
        let after = log.push(actions[0]);
        lemma_undo_log(message, actions.drop_first(), after, world);
        assert(after + actions.drop_first() =~= log + actions);
    }
}

/// Carrying out a plan step by step comes to what the plan says, whatever
/// becomes of its operations.
pub proof fn plan_is_carried_out(
    steps: Seq<StepView>,
    log: Seq<ActionView>,
    world: spec_fn(Seq<ActionView>) -> OutcomeView,
)
    ensures
        run_log(run_steps(steps), log, world) == plan_log(steps, log, world),
    decreases steps.len(),
{
    if steps.len() > 0 {
        let after = log.push(steps[0].action);
        match (world(after), steps[0].failure) {
            (OutcomeView::Failed(error), Some(words)) => {
                lemma_undo_log(words + error, steps[0].undo, after, world);
            },
            _ => {
                plan_is_carried_out(steps.drop_first(), after, world);
            },
        }
    }
}

// Several plans, one after the other.

/// The views of a list of plans.
pub open spec fn plan_views(plans: Seq<Vec<Step>>) -> Seq<Seq<StepView>> {
    plans.map_values(|p: Vec<Step>| step_views(p@))
}

/// How far several plans have been carried out: the plan that is under way, its
/// place among the plans, and the plans after it. Each is carried out whatever
/// became of those before it.
#[derive(Debug)]
pub struct Sweep {
    run: Run,
    at: usize,
    later: Vec<Vec<Step>>,
}

/// What a `Sweep` says.
pub struct SweepView {
    pub run: RunView,
    pub at: nat,
    pub later: Seq<Seq<StepView>>,
}

/// What is to be done next.
#[derive(Debug)]
pub enum SweepNext {
    /// Perform an operation of the plan at a given place.
    Perform { plan: usize, action: Action },
    /// All plans have been carried out.
    Finish,
    /// Nothing: no operation was under way.
    Wait,
}

/// What a `SweepNext` says.
pub enum SweepNextView {
    Perform { plan: nat, action: ActionView },
    Finish,
    Wait,
}

impl View for Sweep {
    type V = SweepView;

    closed spec fn view(&self) -> SweepView {
        SweepView { run: self.run@, at: self.at as nat, later: plan_views(self.later@) }
    }
}

impl View for SweepNext {
    type V = SweepNextView;

    open spec fn view(&self) -> SweepNextView {
        match self {
            SweepNext::Perform { plan, action } => SweepNextView::Perform {
                plan: *plan as nat,
                action: action@,
            },
            SweepNext::Finish => SweepNextView::Finish,
            SweepNext::Wait => SweepNextView::Wait,
        }
    }
}

impl Sweep {
    #[verifier::type_invariant]
    spec fn valid(self) -> bool {
        self.run is Finished || self.at + self.later@.len() < usize::MAX
    }
}

/// Going on with the first of the plans that are left, the first of which has a
/// given place. A plan without steps is passed over.
pub open spec fn sweep_plans(plans: Seq<Seq<StepView>>, at: nat) -> (SweepView, SweepNextView)
    decreases plans.len(),
{
    if plans.len() == 0 {
        (SweepView { run: RunView::Finished, at, later: plans }, SweepNextView::Finish)
    } else {
        match run_steps(plans[0]) {
            (run, NextView::Perform(action)) => (
                SweepView { run, at, later: plans.drop_first() },
                SweepNextView::Perform { plan: at, action },
            ),
            _ => sweep_plans(plans.drop_first(), at + 1),
        }
    }
}

/// Going on with a plan, or with the plans after it when it has come to its end.
pub open spec fn sweep_from(
    state: (RunView, NextView),
    at: nat,
    later: Seq<Seq<StepView>>,
) -> (SweepView, SweepNextView) {
    match state {
        (run, NextView::Perform(action)) => (
            SweepView { run, at, later },
            SweepNextView::Perform { plan: at, action },
        ),
        _ => sweep_plans(later, at + 1),
    }
}

/// What follows from what became of an operation.
pub open spec fn sweep_next(sweep: SweepView, outcome: OutcomeView) -> (
    SweepView,
    SweepNextView,
) {
    if sweep.run is Finished {
        (sweep, SweepNextView::Wait)
    } else {
        sweep_from(run_next(sweep.run, outcome), sweep.at, sweep.later)
    }
}

fn go_on(plans: Vec<Vec<Step>>, at: usize) -> (r: (Sweep, SweepNext))
    requires
        at + plans@.len() <= usize::MAX,
    ensures
        (r.0@, r.1@) == sweep_plans(plan_views(plans@), at as nat),
{
    let ghost expected = sweep_plans(plan_views(plans@), at as nat);
    let mut rest = plans;
    let mut place: usize = at;
    while rest.len() > 0
        invariant
            place + rest@.len() <= usize::MAX,
            expected == sweep_plans(plan_views(plans@), at as nat),
            expected == sweep_plans(plan_views(rest@), place as nat),
        decreases rest.len(),
    {
        let ghost before = rest@;
        let plan = rest.remove(0);
        proof {
            assert(plan_views(before)[0] == step_views(plan@));
            assert(plan_views(rest@) =~= plan_views(before).drop_first());
        }
        let (run, next) = begin(plan);
        if let Next::Perform(action) = next {
            return (
                Sweep { run, at: place, later: rest },
                SweepNext::Perform { plan: place, action },
            );
        }
        place += 1;
    }
    let none: Vec<Vec<Step>> = Vec::new();
    assert(plan_views(none@) =~= plan_views(rest@));
    (Sweep { run: Run::Finished, at: place, later: none }, SweepNext::Finish)
}

/// Begins to carry out several plans.
pub fn begin_all(plans: Vec<Vec<Step>>) -> (r: (Sweep, SweepNext))
    ensures
        (r.0@, r.1@) == sweep_plans(plan_views(plans@), 0),
{
    assert(plans.len() <= usize::MAX);
    go_on(plans, 0)
}

/// Takes what became of an operation and says what is to be done next to carry
/// out several plans.
pub fn advance_all(sweep: Sweep, outcome: Outcome) -> (r: (Sweep, SweepNext))
    ensures
        (r.0@, r.1@) == sweep_next(sweep@, outcome@),
{
    proof {
        use_type_invariant(&sweep);
    }
    if let Run::Finished = sweep.run {
        return (sweep, SweepNext::Wait);
    }
    let at = sweep.at;
    let later = sweep.later;
    let (run, next) = advance(sweep.run, outcome);
    match next {
        Next::Perform(action) => (
            Sweep { run, at, later },
            SweepNext::Perform { plan: at, action },
        ),
        _ => go_on(later, at + 1),
    }
}

/// Operations of the plan at a given place.
pub open spec fn tagged(actions: Seq<ActionView>, at: nat) -> Seq<(nat, ActionView)> {
    actions.map_values(|a: ActionView| (at, a))
}

/// What becomes of the operations of the plan at a given place, after those of
/// the plans before it.
pub open spec fn world_after(
    world: spec_fn(Seq<(nat, ActionView)>) -> OutcomeView,
    log: Seq<(nat, ActionView)>,
    at: nat,
) -> spec_fn(Seq<ActionView>) -> OutcomeView {
    |actions: Seq<ActionView>| world(log + tagged(actions, at))
}

proof fn lemma_sweep_shrinks(plans: Seq<Seq<StepView>>, at: nat)
    ensures
        sweep_plans(plans, at).0.later.len() <= plans.len(),
        plans.len() > 0 ==> sweep_plans(plans, at).0.later.len() < plans.len(),
        plans.len() == 0 ==> sweep_plans(plans, at).0.run is Finished,
    decreases plans.len(),
{
    if plans.len() > 0 {
        lemma_sweep_shrinks(plans.drop_first(), at + 1);
    }
}

/// The operations that carrying out several plans comes to, each with the place
/// of its plan. `world` says of the operations done so far what became of the
/// last one.
pub open spec fn sweep_log(
    state: (SweepView, SweepNextView),
    log: Seq<(nat, ActionView)>,
    world: spec_fn(Seq<(nat, ActionView)>) -> OutcomeView,
) -> Seq<(nat, ActionView)>
    decreases state.0.later.len(), run_phase(state.0.run), run_left(state.0.run),
    via sweep_log_ends
{
    match state.1 {
        SweepNextView::Perform { plan, action } => if state.0.run is Finished {
            log
        } else {
            let after = log.push((plan, action));
            sweep_log(sweep_next(state.0, world(after)), after, world)
        },
        _ => log,
    }
}

#[via_fn]
proof fn sweep_log_ends(
    state: (SweepView, SweepNextView),
    log: Seq<(nat, ActionView)>,
    world: spec_fn(Seq<(nat, ActionView)>) -> OutcomeView,
) {
    lemma_sweep_shrinks(state.0.later, state.0.at + 1);
}

/// What several plans come to: what the first comes to, whatever its result,
/// then what the others come to.
pub open spec fn plans_log(
    plans: Seq<Seq<StepView>>,
    at: nat,
    log: Seq<(nat, ActionView)>,
    world: spec_fn(Seq<(nat, ActionView)>) -> OutcomeView,
) -> Seq<(nat, ActionView)>
    decreases plans.len(),
{
    if plans.len() == 0 {
        log
    } else {
        let done = plan_log(plans[0], Seq::empty(), world_after(world, log, at)).0;
        plans_log(plans.drop_first(), at + 1, log + tagged(done, at), world)
    }
}

proof fn lemma_sweep_plan(
    state: (RunView, NextView),
    at: nat,
    later: Seq<Seq<StepView>>,
    log: Seq<(nat, ActionView)>,
    done: Seq<ActionView>,
    world: spec_fn(Seq<(nat, ActionView)>) -> OutcomeView,
)
    requires
        state.0 is Finished <==> !(state.1 is Perform),
        state.0 is Finished ==> state.1 is Finish,
    ensures
        sweep_log(sweep_from(state, at, later), log + tagged(done, at), world) == sweep_log(
            sweep_plans(later, at + 1),
            log + tagged(run_log(state, done, world_after(world, log, at)).0, at),
            world,
        ),
    decreases run_phase(state.0), run_left(state.0),
{
    if let NextView::Perform(action) = state.1 {
        let after = done.push(action);
        assert((log + tagged(done, at)).push((at, action)) =~= log + tagged(after, at));
        let outcome = world(log + tagged(after, at));
        assert(outcome == world_after(world, log, at)(after));
        lemma_sweep_plan(run_next(state.0, outcome), at, later, log, after, world);
    }
}

/// Carrying out several plans comes to carrying out each of them in its turn,
/// whatever becomes of their operations: a plan that fails keeps none of the
/// others from being carried out.
pub proof fn every_plan_is_carried_out(
    plans: Seq<Seq<StepView>>,
    at: nat,
    log: Seq<(nat, ActionView)>,
    world: spec_fn(Seq<(nat, ActionView)>) -> OutcomeView,
)
    ensures
        sweep_log(sweep_plans(plans, at), log, world) == plans_log(plans, at, log, world),
    decreases plans.len(),
{
    if plans.len() > 0 {
        let rest = plans.drop_first();
        let none = Seq::<ActionView>::empty();
        let inner = world_after(world, log, at);
        assert(log + tagged(none, at) =~= log);
        assert(sweep_plans(plans, at) == sweep_from(run_steps(plans[0]), at, rest));
        lemma_sweep_plan(run_steps(plans[0]), at, rest, log, none, world);
        plan_is_carried_out(plans[0], none, inner);
        every_plan_is_carried_out(
            rest,
            at + 1,
            log + tagged(plan_log(plans[0], none, inner).0, at),
            world,
        );
    }
}

// What a plan comes to, told by which of its steps fails.

/// The operations of the steps of a plan.
pub open spec fn actions_of(steps: Seq<StepView>) -> Seq<ActionView> {
    steps.map_values(|s: StepView| s.action)
}

/// Whether step `k` of a plan works out, or its failure does not matter, when
/// the steps before it have been done.
pub open spec fn passes(
    steps: Seq<StepView>,
    k: int,
    log: Seq<ActionView>,
    world: spec_fn(Seq<ActionView>) -> OutcomeView,
) -> bool {
    world(log + actions_of(steps).take(k + 1)) is Done || steps[k].failure is None
}

proof fn lemma_shorter_plan(
    steps: Seq<StepView>,
    count: int,
    log: Seq<ActionView>,
    world: spec_fn(Seq<ActionView>) -> OutcomeView,
)
    requires
        0 < steps.len(),
        0 <= count <= steps.len(),
        forall|k: int| 0 <= k < count ==> passes(steps, k, log, world),
    ensures
        forall|k: int|
            0 <= k < count - 1 ==> passes(
                steps.drop_first(),
                k,
                log.push(steps[0].action),
                world,
            ),
        forall|k: int|
            0 <= k < steps.len() ==> log.push(steps[0].action) + #[trigger] actions_of(
                steps.drop_first(),
            ).take(k) == log + actions_of(steps).take(k + 1),
{
    let rest = steps.drop_first();
    let after = log.push(steps[0].action);
    assert forall|k: int| 0 <= k < steps.len() implies after + #[trigger] actions_of(rest).take(k)
        == log + actions_of(steps).take(k + 1) by {
        assert(after + actions_of(rest).take(k) =~= log + actions_of(steps).take(k + 1));
    }
    assert forall|k: int| 0 <= k < count - 1 implies passes(rest, k, after, world) by {
        assert(passes(steps, k + 1, log, world));
        assert(rest[k] == steps[k + 1]);
        assert(after + actions_of(rest).take(k + 1) == log + actions_of(steps).take(k + 2));
    }
}

/// A plan no step of which fails is carried out in its order and to its end, and
/// nothing is undone.
pub proof fn plan_without_failure_is_done(
    steps: Seq<StepView>,
    log: Seq<ActionView>,
    world: spec_fn(Seq<ActionView>) -> OutcomeView,
)
    requires
        forall|k: int| 0 <= k < steps.len() ==> passes(steps, k, log, world),
    ensures
        run_log(run_steps(steps), log, world) == (
            log + actions_of(steps),
            Ok::<(), Seq<char>>(()),
        ),
    decreases steps.len(),
{
    plan_is_carried_out(steps, log, world);
    if steps.len() == 0 {
        assert(log + actions_of(steps) =~= log);
    } else {
        let rest = steps.drop_first();
        let after = log.push(steps[0].action);
        lemma_shorter_plan(steps, steps.len() as int, log, world);
        plan_without_failure_is_done(rest, after, world);
        plan_is_carried_out(rest, after, world);
        assert(passes(steps, 0, log, world));
        assert(log + actions_of(steps).take(1) =~= after);
        assert(after + actions_of(rest) =~= log + actions_of(steps));
    }
}

/// When a step fails whose failure matters, no later step is done: what was done
/// are the steps up to it and then what it undoes, and the result is its error
/// behind the words that introduce it.
pub proof fn plan_stops_at_a_failure(
    steps: Seq<StepView>,
    at: int,
    error: Seq<char>,
    log: Seq<ActionView>,
    world: spec_fn(Seq<ActionView>) -> OutcomeView,
)
    requires
        0 <= at < steps.len(),
        forall|k: int| 0 <= k < at ==> passes(steps, k, log, world),
        world(log + actions_of(steps).take(at + 1)) == OutcomeView::Failed(error),
        steps[at].failure is Some,
    ensures
        run_log(run_steps(steps), log, world) == (
            log + actions_of(steps).take(at + 1) + steps[at].undo,
            Err::<(), Seq<char>>(steps[at].failure->0 + error),
        ),
    decreases steps.len(),
{
    plan_is_carried_out(steps, log, world);
    let rest = steps.drop_first();
    let after = log.push(steps[0].action);
    assert(log + actions_of(steps).take(1) =~= after);
    if at > 0 {
        lemma_shorter_plan(steps, at, log, world);
        assert(rest[at - 1] == steps[at]);
        assert(after + actions_of(rest).take(at) == log + actions_of(steps).take(at + 1));
        plan_stops_at_a_failure(rest, at - 1, error, after, world);
        plan_is_carried_out(rest, after, world);
        assert(passes(steps, 0, log, world));
    }
}

} // verus!
