//! The pipeline's control core: its error taxonomy, the per-chunk outcome
//! reports the fan-out stages collect, and the state machine that decides,
//! stage by stage, what the embedding program must run next. The program
//! performs the tool invocations and hands their outcomes back in; every
//! decision between two invocations is made — and verified — here.

use crate::count::spec_page_count;
use crate::order::{
    copy_ranges, lemma_partitions_ordered, merge_order, sorted_by_start, starts_distinct,
};
use crate::plan::{
    chunk_size_for, plan_chunks, plan_spec, spec_ceil_div, PageRange,
};
use vstd::prelude::*;

verus! {

/// The four modes in which the pipeline invokes the external tool.
#[derive(Clone, Copy, Debug, PartialEq, Eq, Structural)]
pub enum StageKind {
    Count,
    Split,
    Compress,
    Merge,
}

/// Everything that can go wrong in one pipeline run. All of these are fatal
/// to the run except `PageCountUnavailable`, which the page counter resolves
/// into a count of zero — and thereby into a successful no-op — before it
/// could ever surface here.
#[derive(Clone, Copy, Debug, PartialEq, Eq, Structural)]
pub enum PipelineError {
    PageCountUnavailable,
    SplitFailure { range: PageRange },
    CompressFailure { range: PageRange },
    MergeFailure,
    ProcessLaunchFailure { stage: StageKind },
}

/// How one invocation of the external tool ended: exit status zero, a launch
/// that worked but an exit status (or surrounding I/O) that did not, or a
/// process that could not be started at all.
#[derive(Clone, Copy, Debug, PartialEq, Eq, Structural)]
pub enum ToolStatus {
    Succeeded,
    Failed,
    LaunchFailed,
}

/// What a fan-out stage reports for one chunk: the range it worked on and how
/// its tool invocation ended.
#[derive(Clone, Copy, Debug, PartialEq, Eq, Structural)]
pub struct ChunkOutcome {
    pub range: PageRange,
    pub status: ToolStatus,
}

/// Every chunk of the stage came back with exit status zero.
pub open spec fn all_succeeded(outcomes: Seq<ChunkOutcome>) -> bool {
    forall|i: int|
        0 <= i < outcomes.len() ==> (#[trigger] outcomes[i]).status == ToolStatus::Succeeded
}

/// The position of the first chunk that did not succeed (the length when all
/// did).
pub open spec fn first_failure_of(outcomes: Seq<ChunkOutcome>) -> int
    decreases outcomes.len(),
{
    if outcomes.len() == 0 {
        0
    } else if outcomes[0].status != ToolStatus::Succeeded {
        0
    } else {
        1 + first_failure_of(outcomes.drop_first())
    }
}

/// The error a failed chunk surfaces as: the stage's own failure named after
/// the chunk's range, or a launch failure named after the stage when the tool
/// never started.
pub open spec fn error_for(stage: StageKind, outcome: ChunkOutcome) -> PipelineError {
    if outcome.status == ToolStatus::LaunchFailed {
        PipelineError::ProcessLaunchFailure { stage }
    } else if stage == StageKind::Split {
        PipelineError::SplitFailure { range: outcome.range }
    } else {
        PipelineError::CompressFailure { range: outcome.range }
    }
}

/// A succeeding prefix followed by a failure puts the first failure exactly
/// at that failure.
proof fn lemma_first_failure_at(outcomes: Seq<ChunkOutcome>, i: int)
    requires
        0 <= i < outcomes.len(),
        forall|k: int| 0 <= k < i ==> (#[trigger] outcomes[k]).status == ToolStatus::Succeeded,
        outcomes[i].status != ToolStatus::Succeeded,
    ensures
        first_failure_of(outcomes) == i,
    decreases i,
{
    if i > 0 {
        assert(forall|k: int|
            0 <= k < outcomes.len() - 1 ==> #[trigger] outcomes.drop_first()[k] == outcomes[k
                + 1]);
        lemma_first_failure_at(outcomes.drop_first(), i - 1);
    }
}

/// Joins a fan-out stage's per-chunk outcomes: success when every chunk
/// succeeded, and otherwise the error of the first chunk that failed —
/// tagged with that chunk's range, or with the stage when the tool could not
/// be launched.
pub fn collect_stage(stage: StageKind, outcomes: &Vec<ChunkOutcome>) -> (r: Result<
    (),
    PipelineError,
>)
    requires
        stage == StageKind::Split || stage == StageKind::Compress,
    ensures
        all_succeeded(outcomes@) ==> r == Result::<(), PipelineError>::Ok(()),
        !all_succeeded(outcomes@) ==> r == Result::<(), PipelineError>::Err(
            error_for(stage, outcomes@[first_failure_of(outcomes@)]),
        ),
{
    let mut i: usize = 0;
    while i < outcomes.len()
        invariant
            i <= outcomes@.len(),
            forall|k: int| 0 <= k < i ==> (#[trigger] outcomes@[k]).status == ToolStatus::Succeeded,
            stage == StageKind::Split || stage == StageKind::Compress,
        decreases outcomes@.len() - i,
    {
        let o = outcomes[i];
        if !(o.status == ToolStatus::Succeeded) {
            proof {
                lemma_first_failure_at(outcomes@, i as int);
            }
            let error = if o.status == ToolStatus::LaunchFailed {
                PipelineError::ProcessLaunchFailure { stage }
            } else if stage == StageKind::Split {
                PipelineError::SplitFailure { range: o.range }
            } else {
                PipelineError::CompressFailure { range: o.range }
            };
            return Err(error);
        }
        i = i + 1;
    }
    Ok(())
}

/// Where a pipeline run stands. A run begins at `Counting`, walks the stages
/// in order, and ends at `Done` — or at `Failed`, which is terminal: no stage
/// runs after the first error.
#[derive(Debug)]
pub enum PipelineState {
    /// Waiting for the page-count invocation's output.
    Counting,
    /// Waiting for the per-range extraction invocations.
    Splitting { ranges: Vec<PageRange> },
    /// Waiting for the per-chunk recompression invocations.
    Compressing { ranges: Vec<PageRange> },
    /// Waiting for the single merge invocation; the ranges are ascending.
    Merging { ranges: Vec<PageRange> },
    /// The run is over; `merged` tells whether a merged document exists or
    /// the run was a no-op that keeps the original.
    Done { merged: bool },
    /// The run failed; nothing further may be run.
    Failed { error: PipelineError },
}

/// What the embedding program reports back after doing the work the previous
/// action asked for.
#[derive(Debug)]
pub enum PipelineEvent {
    /// The page-count invocation's standard output, or nothing when the tool
    /// failed or could not be started.
    CountDone { output: Option<String> },
    /// One outcome per planned range, in plan order.
    SplitDone { outcomes: Vec<ChunkOutcome> },
    /// One outcome per chunk, in plan order, however the workers finished.
    CompressDone { outcomes: Vec<ChunkOutcome> },
    /// How the merge invocation ended.
    MergeDone { status: ToolStatus },
}

/// What the embedding program must do next. Only `RunMerge` may produce final
/// merged output, and it is only ever issued after every chunk succeeded.
#[derive(Debug)]
pub enum PipelineAction {
    /// Run one extraction invocation per range, concurrently at will.
    RunSplits { ranges: Vec<PageRange> },
    /// Run one recompression invocation per chunk, concurrently at will.
    RunCompresses { ranges: Vec<PageRange> },
    /// Run the single merge invocation with the chunks in exactly this
    /// (ascending) order.
    RunMerge { ranges: Vec<PageRange> },
    /// Hand the caller the original document unchanged.
    ReturnOriginal,
    /// Hand the caller the merged document.
    ReturnMerged,
    /// Hand the caller this error; no output may be surfaced.
    ReturnError { error: PipelineError },
}

/// The page count an outcome of the count invocation denotes: what its output
/// spells out, or zero when the tool failed or printed no number.
pub open spec fn count_of(output: Option<String>) -> int {
    match output {
        Option::None => 0,
        Option::Some(t) => spec_page_count(t@),
    }
}

/// The events a state can be fed: the one that answers the work the state is
/// waiting for, with a fan-out answer carrying one outcome per planned range,
/// in plan order.
pub open spec fn accepts(state: PipelineState, event: PipelineEvent) -> bool {
    match (state, event) {
        (PipelineState::Counting, PipelineEvent::CountDone { .. }) => true,
        (
            PipelineState::Splitting { ranges },
            PipelineEvent::SplitDone { outcomes },
        ) => outcomes_match(outcomes@, ranges@),
        (
            PipelineState::Compressing { ranges },
            PipelineEvent::CompressDone { outcomes },
        ) => outcomes_match(outcomes@, ranges@),
        (PipelineState::Merging { .. }, PipelineEvent::MergeDone { .. }) => true,
        _ => false,
    }
}

/// One outcome per range, each naming the range it worked on.
pub open spec fn outcomes_match(outcomes: Seq<ChunkOutcome>, ranges: Seq<PageRange>) -> bool {
    &&& outcomes.len() == ranges.len()
    &&& forall|i: int| 0 <= i < outcomes.len() ==> (#[trigger] outcomes[i]).range == ranges[i]
}

/// What every reachable state satisfies: any held ranges are ascending by
/// first page and no two share one.
pub open spec fn state_wf(state: PipelineState) -> bool {
    match state {
        PipelineState::Splitting { ranges } => sorted_by_start(ranges@) && starts_distinct(
            ranges@,
        ),
        PipelineState::Compressing { ranges } => sorted_by_start(ranges@) && starts_distinct(
            ranges@,
        ),
        PipelineState::Merging { ranges } => sorted_by_start(ranges@) && starts_distinct(ranges@),
        _ => true,
    }
}

/// The pipeline's transition table. Reading a zero page count ends the run at
/// once as a successful no-op; a positive count plans the chunks and fans out
/// the split stage; each fan-out stage proceeds only when every chunk
/// succeeded and otherwise fails the run with the first chunk's error; the
/// merge stage always receives the chunks ascending by first page; and a
/// failed merge fails the run.
pub open spec fn step_ok(
    parallelism: int,
    state: PipelineState,
    event: PipelineEvent,
    next: PipelineState,
    action: PipelineAction,
) -> bool {
    match (state, event) {
        (PipelineState::Counting, PipelineEvent::CountDone { output }) => {
            let pc = count_of(output);
            if pc == 0 {
                next == (PipelineState::Done { merged: false }) && action
                    == PipelineAction::ReturnOriginal
            } else {
                let planned = plan_spec(pc, spec_ceil_div(pc, parallelism));
                &&& next matches PipelineState::Splitting { ranges } && ranges@ == planned
                &&& action matches PipelineAction::RunSplits { ranges } && ranges@ == planned
            }
        },
        (PipelineState::Splitting { ranges }, PipelineEvent::SplitDone { outcomes }) => {
            if all_succeeded(outcomes@) {
                &&& next matches PipelineState::Compressing { ranges: r } && r@ == ranges@
                &&& action matches PipelineAction::RunCompresses { ranges: r } && r@ == ranges@
            } else {
                let error = error_for(StageKind::Split, outcomes@[first_failure_of(outcomes@)]);
                next == (PipelineState::Failed { error }) && action
                    == (PipelineAction::ReturnError { error })
            }
        },
        (PipelineState::Compressing { ranges }, PipelineEvent::CompressDone { outcomes }) => {
            if all_succeeded(outcomes@) {
                &&& next matches PipelineState::Merging { ranges: m } && sorted_by_start(m@)
                    && m@.to_multiset() == ranges@.to_multiset()
                &&& action matches PipelineAction::RunMerge { ranges: r } && (
                next matches PipelineState::Merging { ranges: m } && r@ == m@)
            } else {
                let error = error_for(StageKind::Compress, outcomes@[first_failure_of(outcomes@)]);
                next == (PipelineState::Failed { error }) && action
                    == (PipelineAction::ReturnError { error })
            }
        },
        (PipelineState::Merging { .. }, PipelineEvent::MergeDone { status }) => {
            match status {
                ToolStatus::Succeeded => next == (PipelineState::Done { merged: true }) && action
                    == PipelineAction::ReturnMerged,
                ToolStatus::Failed => next == (PipelineState::Failed {
                    error: PipelineError::MergeFailure,
                }) && action == (PipelineAction::ReturnError {
                    error: PipelineError::MergeFailure,
                }),
                ToolStatus::LaunchFailed => next == (PipelineState::Failed {
                    error: PipelineError::ProcessLaunchFailure { stage: StageKind::Merge },
                }) && action == (PipelineAction::ReturnError {
                    error: PipelineError::ProcessLaunchFailure { stage: StageKind::Merge },
                }),
            }
        },
        _ => false,
    }
}

/// Drives the pipeline one stage forward: feeds the state the event it was
/// waiting for and yields the next state together with the work the embedding
/// program must do next.
pub fn step(parallelism: usize, state: PipelineState, event: PipelineEvent) -> (r: (
    PipelineState,
    PipelineAction,
))
    requires
        parallelism >= 1,
        accepts(state, event),
        state_wf(state),
    ensures
        state_wf(r.0),
        step_ok(parallelism as int, state, event, r.0, r.1),
{
    match (state, event) {
        (PipelineState::Counting, PipelineEvent::CountDone { output }) => {
            let page_count = match &output {
                Option::None => 0,
                Option::Some(t) => crate::count::parse_page_count(t.as_str()),
            };
            if page_count == 0 {
                (PipelineState::Done { merged: false }, PipelineAction::ReturnOriginal)
            } else {
                let chunk_size = chunk_size_for(page_count, parallelism);
                let ranges = plan_chunks(page_count, chunk_size);
                proof {
                    lemma_partitions_ordered(ranges@, page_count as int);
                }
                let planned = copy_ranges(&ranges);
                (
                    PipelineState::Splitting { ranges },
                    PipelineAction::RunSplits { ranges: planned },
                )
            }
        },
        (PipelineState::Splitting { ranges }, PipelineEvent::SplitDone { outcomes }) => {
            match collect_stage(StageKind::Split, &outcomes) {
                Ok(_) => {
                    let planned = copy_ranges(&ranges);
                    (
                        PipelineState::Compressing { ranges },
                        PipelineAction::RunCompresses { ranges: planned },
                    )
                },
                Err(error) => (
                    PipelineState::Failed { error },
                    PipelineAction::ReturnError { error },
                ),
            }
        },
        (PipelineState::Compressing { ranges }, PipelineEvent::CompressDone { outcomes }) => {
            match collect_stage(StageKind::Compress, &outcomes) {
                Ok(_) => {
                    let ordered = merge_order(&ranges);
                    let inputs = copy_ranges(&ordered);
                    (
                        PipelineState::Merging { ranges: ordered },
                        PipelineAction::RunMerge { ranges: inputs },
                    )
                },
                Err(error) => (
                    PipelineState::Failed { error },
                    PipelineAction::ReturnError { error },
                ),
            }
        },
        (PipelineState::Merging { ranges: _ }, PipelineEvent::MergeDone { status }) => {
            match status {
                ToolStatus::Succeeded => (
                    PipelineState::Done { merged: true },
                    PipelineAction::ReturnMerged,
                ),
                ToolStatus::Failed => (
                    PipelineState::Failed { error: PipelineError::MergeFailure },
                    PipelineAction::ReturnError { error: PipelineError::MergeFailure },
                ),
                ToolStatus::LaunchFailed => (
                    PipelineState::Failed {
                        error: PipelineError::ProcessLaunchFailure { stage: StageKind::Merge },
                    },
                    PipelineAction::ReturnError {
                        error: PipelineError::ProcessLaunchFailure { stage: StageKind::Merge },
                    },
                ),
            }
        },
        _ => vstd::pervasive::unreached(),
    }
}

/// `Done` and `Failed` are terminal: they wait for no work, so no event can
/// be fed to them and nothing runs after the first error. There is no retry
/// transition.
pub proof fn lemma_end_states_are_terminal(state: PipelineState, event: PipelineEvent)
    requires
        state matches PipelineState::Done { .. } || state matches PipelineState::Failed { .. },
    ensures
        !accepts(state, event),
{
}

/// A zero page count — a missing or unparsable count included — ends the run
/// at once as a successful no-op that keeps the original document: no chunk
/// is planned and nothing further is run.
pub proof fn lemma_zero_count_is_noop(
    parallelism: int,
    state: PipelineState,
    event: PipelineEvent,
    next: PipelineState,
    action: PipelineAction,
)
    requires
        step_ok(parallelism, state, event, next, action),
        event matches PipelineEvent::CountDone { output } && count_of(output) == 0,
    ensures
        next == (PipelineState::Done { merged: false }),
        action == PipelineAction::ReturnOriginal,
{
}

/// If any one chunk of the split or compress fan-out reports failure, the run
/// fails, tagged with the offending stage and — when the tool at least
/// started — the offending range (the first failing chunk's, in plan order),
/// and no document, merged or original, is surfaced.
pub proof fn lemma_chunk_failure_fails_run(
    parallelism: int,
    state: PipelineState,
    event: PipelineEvent,
    next: PipelineState,
    action: PipelineAction,
)
    requires
        step_ok(parallelism, state, event, next, action),
        ({
            ||| event matches PipelineEvent::SplitDone { outcomes } && !all_succeeded(outcomes@)
            ||| event matches PipelineEvent::CompressDone { outcomes } && !all_succeeded(outcomes@)
        }),
    ensures
        next matches PipelineState::Failed { error } && action == (PipelineAction::ReturnError {
            error,
        }),
        event matches PipelineEvent::SplitDone { outcomes } ==> next
            == (PipelineState::Failed {
            error: error_for(StageKind::Split, outcomes@[first_failure_of(outcomes@)]),
        }),
        event matches PipelineEvent::CompressDone { outcomes } ==> next
            == (PipelineState::Failed {
            error: error_for(StageKind::Compress, outcomes@[first_failure_of(outcomes@)]),
        }),
        !(action matches PipelineAction::RunMerge { .. }),
        !(action matches PipelineAction::ReturnMerged),
        !(action matches PipelineAction::ReturnOriginal),
{
}

/// The single merge invocation always receives the chunks ascending by first
/// page — exactly the chunks the compress stage worked on, in an order that
/// does not depend on how its workers happened to finish.
pub proof fn lemma_merge_input_ascending(
    parallelism: int,
    state: PipelineState,
    event: PipelineEvent,
    next: PipelineState,
    action: PipelineAction,
)
    requires
        step_ok(parallelism, state, event, next, action),
        action matches PipelineAction::RunMerge { .. },
    ensures
        action matches PipelineAction::RunMerge { ranges } && sorted_by_start(ranges@),
        state matches PipelineState::Compressing { .. },
        action matches PipelineAction::RunMerge { ranges } ==> (state
            matches PipelineState::Compressing { ranges: held } ==> ranges@.to_multiset()
            == held@.to_multiset()),
{
}

} // verus!
