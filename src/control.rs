//! Run settings, progress messages, and the decisions a worker takes at each
//! generation boundary: run another generation, finish, or acknowledge a
//! cancellation, with exactly one terminal outcome per run.
use vstd::prelude::*;

use crate::assignment::is_permutation;
use crate::cost::{luma, luminance_weights, total_cost};
use crate::genetic::{copy_assignment, GeneticParams, GeneticSolver};
use crate::error::EngineError;
use crate::geometry::{crop_region, cropped, normalize, CropRect, CropScale};
use crate::optimal::{is_rank_matching, solve_optimal};
use crate::preset::{Preset, UnprocessedPreset};

verus! {

/// Working-grid side used when the caller does not choose one.
pub const DEFAULT_SIDELEN: u32 = 128;

/// Which solver a run uses.
#[derive(Clone, Copy, Debug, PartialEq, Eq)]
pub enum Algorithm {
    Optimal,
    Genetic,
}

/// What a caller fixes for one run.
#[derive(Clone, Debug)]
pub struct GenerationSettings {
    /// Opaque run identifier.
    pub id: u128,
    pub name: String,
    /// Side of the square working grid.
    pub sidelen: u32,
    pub algorithm: Algorithm,
    pub source_crop_scale: CropScale,
    pub target_crop_scale: CropScale,
}

impl GenerationSettings {
    /// Settings with the default side, the rank solver and uncropped images.
    pub fn default(id: u128, name: String) -> (r: Self)
        ensures
            r.id == id,
            r.name@ == name@,
            r.sidelen == DEFAULT_SIDELEN,
            r.algorithm == Algorithm::Optimal,
            r.source_crop_scale == CropScale::identity_spec(),
            r.target_crop_scale == CropScale::identity_spec(),
    {
        GenerationSettings {
            id,
            name,
            sidelen: DEFAULT_SIDELEN,
            algorithm: Algorithm::Optimal,
            source_crop_scale: CropScale::identity(),
            target_crop_scale: CropScale::identity(),
        }
    }
}

/// A message from a running solver to its consumer.
pub enum ProgressMsg {
    /// `done` of `total` steps are complete.
    Progress { done: u64, total: u64 },
    /// An intermediate rendering of the best candidate (RGB, row-major).
    UpdatePreview { width: u32, height: u32, data: Vec<u8> },
    /// The best candidate so far; not a final result.
    UpdateAssignments(Vec<usize>),
    /// The finished run.
    Done(Preset),
    Error(String),
    Cancelled,
}

impl ProgressMsg {
    /// `Done`, `Error` and `Cancelled` end a run's stream.
    pub open spec fn is_terminal_spec(&self) -> bool {
        self is Done || self is Error || self is Cancelled
    }

    /// Whether this message ends the stream.
    pub fn is_terminal(&self) -> (r: bool)
        ensures
            r == self.is_terminal_spec(),
    {
        match self {
            ProgressMsg::Done(_) | ProgressMsg::Error(_) | ProgressMsg::Cancelled => true,
            _ => false,
        }
    }
}

/// What the worker does next.
#[derive(Clone, Copy, Debug, PartialEq, Eq)]
pub enum Action {
    /// Run one more generation, then report progress.
    RunGeneration,
    /// Emit `Done` with the best candidate.
    Finish,
    /// Emit `Cancelled` and stop.
    Cancel,
    /// The run has ended; emit nothing.
    Idle,
}

/// Generation counter of a run and whether it has ended.
#[derive(Clone, Copy, Debug, PartialEq, Eq)]
pub struct RunControl {
    pub generation: u64,
    pub limit: u64,
    pub ended: bool,
}

/// The decision at a boundary, given whether cancellation was requested.
pub open spec fn decide(c: RunControl, cancel_requested: bool) -> (RunControl, Action) {
    if c.ended {
        (c, Action::Idle)
    } else if cancel_requested {
        (RunControl { ended: true, ..c }, Action::Cancel)
    } else if c.generation >= c.limit {
        (RunControl { ended: true, ..c }, Action::Finish)
    } else {
        (RunControl { generation: (c.generation + 1) as u64, ..c }, Action::RunGeneration)
    }
}

/// The decision at a boundary when the run may also have used up its time
/// budget: an exhausted budget ends a live, uncancelled run as if the
/// generation limit were reached.
pub open spec fn decide_within_budget(c: RunControl, cancel_requested: bool, budget_exhausted: bool) -> (
    RunControl,
    Action,
) {
    if !c.ended && !cancel_requested && budget_exhausted {
        (RunControl { ended: true, ..c }, Action::Finish)
    } else {
        decide(c, cancel_requested)
    }
}

/// The actions taken over successive boundaries, given the cancellation
/// flag as observed at each.
pub open spec fn run_trace(c: RunControl, flags: Seq<bool>) -> Seq<Action>
    decreases flags.len(),
{
    if flags.len() == 0 {
        Seq::empty()
    } else {
        let (next, a) = decide(c, flags[0]);
        seq![a] + run_trace(next, flags.drop_first())
    }
}

/// Number of entries of `s` equal to `a`.
pub open spec fn count_action(s: Seq<Action>, a: Action) -> nat
    decreases s.len(),
{
    if s.len() == 0 {
        0
    } else {
        (if s[0] == a { 1nat } else { 0nat }) + count_action(s.drop_first(), a)
    }
}

/// Number of terminal actions (`Finish` or `Cancel`) in `s`.
pub open spec fn count_terminal(s: Seq<Action>) -> nat {
    count_action(s, Action::Finish) + count_action(s, Action::Cancel)
}

impl RunControl {
    /// A run of `limit` generations that has not started.
    pub fn new(limit: u64) -> (r: Self)
        ensures
            r == (RunControl { generation: 0, limit, ended: false }),
    {
        RunControl { generation: 0, limit, ended: false }
    }

    /// Decides the next action from the cancellation flag as observed now.
    pub fn next_action(&mut self, cancel_requested: bool) -> (a: Action)
        requires
            old(self).generation <= old(self).limit,
        ensures
            (*final(self), a) == decide(*old(self), cancel_requested),
            final(self).generation <= final(self).limit,
            final(self).generation >= old(self).generation,
    {
        if self.ended {
            Action::Idle
        } else if cancel_requested {
            self.ended = true;
            Action::Cancel
        } else if self.generation >= self.limit {
            self.ended = true;
            Action::Finish
        } else {
            self.generation = self.generation + 1;
            Action::RunGeneration
        }
    }

    /// Decides the next action from the cancellation flag and whether the
    /// run's time budget is used up; cancellation takes precedence.
    pub fn next_action_within_budget(&mut self, cancel_requested: bool, budget_exhausted: bool) -> (a:
        Action)
        requires
            old(self).generation <= old(self).limit,
        ensures
            (*final(self), a) == decide_within_budget(*old(self), cancel_requested, budget_exhausted),
            final(self).generation <= final(self).limit,
            final(self).generation >= old(self).generation,
    {
        if !self.ended && !cancel_requested && budget_exhausted {
            self.ended = true;
            Action::Finish
        } else {
            self.next_action(cancel_requested)
        }
    }
}

/// Once a run has ended it only idles.
pub proof fn lemma_ended_run_is_idle(c: RunControl, flags: Seq<bool>)
    requires
        c.ended,
    ensures
        count_terminal(run_trace(c, flags)) == 0,
    decreases flags.len(),
{
    if flags.len() > 0 {
        lemma_ended_run_is_idle(c, flags.drop_first());
        let t = run_trace(c, flags);
        assert(t.drop_first() =~= run_trace(c, flags.drop_first()));
    }
}

/// Whatever the flags, a run takes at most one terminal action.
pub proof fn lemma_at_most_one_terminal(c: RunControl, flags: Seq<bool>)
    ensures
        count_terminal(run_trace(c, flags)) <= 1,
    decreases flags.len(),
{
    if flags.len() > 0 {
        let (next, a) = decide(c, flags[0]);
        let t = run_trace(c, flags);
        assert(t.drop_first() =~= run_trace(next, flags.drop_first()));
        if next.ended {
            lemma_ended_run_is_idle(next, flags.drop_first());
        } else {
            lemma_at_most_one_terminal(next, flags.drop_first());
        }
    }
}

/// A cancellation observed at boundary `i`, no later than the boundary at
/// which the run would finish, yields exactly one `Cancel` and no `Finish`.
pub proof fn lemma_cancel_before_completion(c: RunControl, flags: Seq<bool>, i: int)
    requires
        !c.ended,
        c.generation <= c.limit,
        0 <= i < flags.len(),
        flags[i],
        i <= c.limit - c.generation,
    ensures
        count_action(run_trace(c, flags), Action::Cancel) == 1,
        count_action(run_trace(c, flags), Action::Finish) == 0,
    decreases flags.len(),
{
    let (next, a) = decide(c, flags[0]);
    let t = run_trace(c, flags);
    assert(t.drop_first() =~= run_trace(next, flags.drop_first()));
    if flags[0] {
        lemma_ended_run_is_idle(next, flags.drop_first());
    } else {
        assert(i > 0);
        lemma_cancel_before_completion(next, flags.drop_first(), i - 1);
    }
}

/// Per-pixel luminance of an RGB buffer, as the cost model uses it.
pub open spec fn luminance_of(rgb: Seq<u8>) -> Seq<u8> {
    Seq::new(rgb.len() / 3, |i: int| luma(rgb[3 * i], rgb[3 * i + 1], rgb[3 * i + 2]) as u8)
}

/// The region of the source image a run uses.
pub open spec fn source_region(source: UnprocessedPreset, settings: GenerationSettings) -> Option<CropRect> {
    crop_region(source.width, source.height, settings.source_crop_scale)
}

/// Checks the settings and normalizes the source image of a run to its
/// working grid. `InvalidSettings` for a zero side, a source buffer that
/// does not match its dimensions, or a target grid of the wrong size;
/// `InvalidCrop` for a source crop that selects nothing.
pub fn prepare_source(
    source: &UnprocessedPreset,
    settings: &GenerationSettings,
    target_weight: &Vec<u8>,
) -> (r: Result<Vec<u8>, EngineError>)
    ensures
        settings.sidelen == 0 || !source.wf() || target_weight@.len() != settings.sidelen
            * settings.sidelen ==> r == Err::<Vec<u8>, EngineError>(EngineError::InvalidSettings),
        settings.sidelen > 0 && source.wf() && target_weight@.len() == settings.sidelen
            * settings.sidelen ==> match source_region(*source, *settings) {
            None => r == Err::<Vec<u8>, EngineError>(EngineError::InvalidCrop),
            Some(rect) => r matches Ok(g) && (rect.side == settings.sidelen ==> g@ == cropped(
                source.source_img@,
                source.width,
                rect,
            )),
        },
        r matches Ok(g) ==> g@.len() == 3 * (settings.sidelen * settings.sidelen)
            && target_weight@.len() == settings.sidelen * settings.sidelen,
{
    let side = settings.sidelen;
    let tl = target_weight.len();
    assert((side as int) * (side as int) <= 0xFFFF_FFFF * 0xFFFF_FFFF) by (nonlinear_arith)
        requires
            side <= 0xFFFF_FFFF,
    ;
    let cells = (side as u64) * (side as u64);
    if side == 0 || cells > usize::MAX as u64 || tl != cells as usize {
        return Err(EngineError::InvalidSettings);
    }
    assert(3 * source.width * source.height == 3 * (source.width as int * source.height as int))
        by (nonlinear_arith);
    let grid = match normalize(
        &source.source_img,
        source.width,
        source.height,
        settings.source_crop_scale,
        side,
    ) {
        Ok(g) => g,
        Err(e) => {
            return Err(e);
        },
    };
    assert(3 * side * side == 3 * (side * side)) by (nonlinear_arith);
    Ok(grid)
}

/// The preset of a finished run on a grid of side `side`.
pub fn make_preset(name: &String, side: u32, grid: Vec<u8>, assignments: Vec<usize>) -> (p: Preset)
    requires
        grid@.len() == 3 * (side * side),
        is_permutation(assignments@, (side * side) as nat),
    ensures
        p.wf(),
        p.inner.name@ == name@,
        p.inner.width == side,
        p.inner.height == side,
        p.inner.source_img@ == grid@,
        p.assignments@ == assignments@,
        p.target_img is None,
{
    Preset {
        inner: UnprocessedPreset { name: name.clone(), width: side, height: side, source_img: grid },
        assignments,
        target_img: None,
    }
}

/// Runs the rank solver on a source image against a target weight grid of
/// side `settings.sidelen`. A run cancelled before it starts reports
/// `Cancelled`; otherwise the errors are those of `prepare_source`.
pub fn process_optimal(
    source: &UnprocessedPreset,
    settings: &GenerationSettings,
    target_weight: &Vec<u8>,
    cancel_requested: bool,
) -> (r: Result<Preset, EngineError>)
    ensures
        cancel_requested ==> r == Err::<Preset, EngineError>(EngineError::Cancelled),
        !cancel_requested && (settings.sidelen == 0 || !source.wf() || target_weight@.len()
            != settings.sidelen * settings.sidelen) ==> r == Err::<Preset, EngineError>(
            EngineError::InvalidSettings,
        ),
        !cancel_requested && settings.sidelen > 0 && source.wf() && target_weight@.len()
            == settings.sidelen * settings.sidelen ==> match source_region(*source, *settings) {
            None => r == Err::<Preset, EngineError>(EngineError::InvalidCrop),
            Some(rect) => r matches Ok(p) && p.wf() && (rect.side == settings.sidelen
                ==> p.inner.source_img@ == cropped(source.source_img@, source.width, rect))
                && p.inner.width == settings.sidelen && p.inner.height == settings.sidelen
                && p.inner.name@ == settings.name@ && p.target_img is None && is_rank_matching(
                luminance_of(p.inner.source_img@),
                target_weight@,
                p.assignments@,
            ),
        },
{
    if cancel_requested {
        return Err(EngineError::Cancelled);
    }
    let grid = match prepare_source(source, settings, target_weight) {
        Ok(g) => g,
        Err(e) => {
            return Err(e);
        },
    };
    let weights = luminance_weights(&grid);
    assert(weights@ =~= luminance_of(grid@));
    let assignments = solve_optimal(&weights, target_weight);
    Ok(make_preset(&settings.name, settings.sidelen, grid, assignments))
}

/// Starts a genetic run: the working grid and a seeded solver over its
/// luminance and the target weights. Errors are those of `prepare_source`,
/// and `InvalidSettings` for an empty population.
pub fn start_genetic(
    source: &UnprocessedPreset,
    settings: &GenerationSettings,
    target_weight: &Vec<u8>,
    params: GeneticParams,
    seed: u64,
) -> (r: Result<(Vec<u8>, GeneticSolver), EngineError>)
    ensures
        r matches Ok((g, solver)) ==> g@.len() == 3 * (settings.sidelen * settings.sidelen)
            && solver.target_weight@.len() == settings.sidelen * settings.sidelen,
        settings.sidelen == 0 || !source.wf() || target_weight@.len() != settings.sidelen
            * settings.sidelen ==> r is Err && r->Err_0 == EngineError::InvalidSettings,
        settings.sidelen > 0 && source.wf() && target_weight@.len() == settings.sidelen
            * settings.sidelen ==> match source_region(*source, *settings) {
            None => r is Err && r->Err_0 == EngineError::InvalidCrop,
            Some(rect) => if params.population_size == 0 {
                r is Err && r->Err_0 == EngineError::InvalidSettings
            } else {
                r matches Ok((g, solver)) && (rect.side == settings.sidelen ==> g@ == cropped(
                    source.source_img@,
                    source.width,
                    rect,
                )) && solver.wf() && solver.generation == 0 && solver.source_weight@ == luminance_of(
                    g@,
                )
                    && solver.target_weight@ == target_weight@ && solver.params == params
            },
        },
{
    let grid = match prepare_source(source, settings, target_weight) {
        Ok(g) => g,
        Err(e) => {
            return Err(e);
        },
    };
    let weights = luminance_weights(&grid);
    assert(weights@ =~= luminance_of(grid@));
    match GeneticSolver::new(weights, target_weight.clone(), params, seed) {
        Ok(solver) => Ok((grid, solver)),
        Err(e) => Err(e),
    }
}

/// The preset of a finished genetic run: the best candidate found.
pub fn finish_genetic(name: &String, side: u32, grid: Vec<u8>, solver: &GeneticSolver) -> (p: Preset)
    requires
        grid@.len() == 3 * (side * side),
        solver.wf(),
        solver.target_weight@.len() == side * side,
    ensures
        p.wf(),
        p.inner.source_img@ == grid@,
        p.assignments@ == solver.best@,
        total_cost(solver.source_weight@, solver.target_weight@, p.assignments@) <= total_cost(
            solver.source_weight@,
            solver.target_weight@,
            solver.baseline@,
        ),
{
    make_preset(name, side, grid, copy_assignment(&solver.best))
}

} // verus!
