//! The search for the quality that meets a target. Numbers are bit patterns.
use vstd::prelude::*;

use crate::bits::{
    is_le, is_lt, is_nan, le, lt, rank, rank_of, EIGHT, INFINITY, TEN, THOUSANDTH,
};
use crate::encoder::Encoder;
use crate::report::{ProbeEntry, ProbeLog};
use crate::resume::{passes, ChunkComp, ResumeInf, WorkerStats};
use crate::select::{choose_metric, metric_of, pick_template, Metric, Output, TemplateAt};

verus! {

/// What every search of a run shares.
#[derive(Clone, Copy, Debug, PartialEq, Eq, Structural)]
pub struct TQCtx {
    pub target: u32,
    pub tolerance: u32,
    pub qp_min: u32,
    pub qp_max: u32,
    pub use_butter: bool,
    pub use_cvvdp: bool,
}

/// Whether a target belongs to the metric CVVDP: from 8 up to 10.
pub fn is_cvvdp(target: u32) -> (r: bool)
    ensures
        r == (is_le(EIGHT, target) && is_le(target, TEN)),
{
    le(EIGHT, target) && le(target, TEN)
}

/// What every search of a run shares, given the middle and the half width of the target, and the
/// range of qualities.
pub fn parse_tq_ctx(target: u32, tolerance: u32, qp_min: u32, qp_max: u32) -> (r: TQCtx)
    ensures
        r == (TQCtx {
            target,
            tolerance,
            qp_min,
            qp_max,
            use_butter: is_lt(target, EIGHT),
            use_cvvdp: is_le(EIGHT, target) && is_le(target, TEN),
        }),
{
    TQCtx {
        target,
        tolerance,
        qp_min,
        qp_max,
        use_butter: lt(target, EIGHT),
        use_cvvdp: is_cvvdp(target),
    }
}

/// A target belongs to one metric: below 8 to Butter, from 8 up to 10 to CVVDP, and above 10, or
/// where it is no number, to SSIMULACRA2.
pub proof fn law_targets_have_one_metric(target: u32)
    ensures
        ({
            let m = metric_of(
                is_lt(target, EIGHT),
                is_le(EIGHT, target) && is_le(target, TEN),
            );
            &&& m is Butter <==> is_lt(target, EIGHT)
            &&& m is Cvvdp <==> is_le(EIGHT, target) && is_le(target, TEN)
            &&& m is Ssimu2 <==> is_nan(target) || is_lt(TEN, target)
        }),
{
}

/// A quality that was tried, and what came of it.
#[derive(Clone, Copy, Debug, PartialEq, Eq, Structural)]
pub struct Probe {
    pub crf: u32,
    pub score: u32,
}

/// A search.
pub struct TQState {
    pub probes: Vec<Probe>,
    /// The size of each probe, by its quality.
    pub probe_szs: Vec<(u32, u64)>,
    pub search_min: u32,
    pub search_max: u32,
    pub round: usize,
    pub target: u32,
    pub last_crf: u32,
    /// The quality is found, and the chunk is encoded a last time.
    pub final_enc: bool,
    pub best_probe: Vec<u8>,
    pub best_diff: u32,
}

/// How the next quality is guessed.
#[derive(Clone, Copy, Debug, PartialEq, Eq, Structural)]
pub enum Guess {
    /// The middle of the range.
    Bisect,
    /// From the probes so far.
    Interpolate,
}

/// A number held between two others.
pub open spec fn clamped(c: u32, lo: u32, hi: u32) -> u32 {
    if is_lt(c, lo) {
        lo
    } else if is_lt(hi, c) {
        hi
    } else {
        c
    }
}

/// The numbers that bounds are compared with and moved to.
#[derive(Clone, Copy, Debug, PartialEq, Eq, Structural)]
pub struct Bounds {
    /// The target and its tolerance together.
    pub hi: u32,
    /// The target less its tolerance.
    pub lo: u32,
    /// A step below the last quality.
    pub down: u32,
    /// A step above the last quality.
    pub up: u32,
}

/// Which end of the range moves.
#[derive(Clone, Copy, Debug, PartialEq, Eq, Structural)]
pub enum Move {
    Max,
    Min,
    Neither,
}

/// Which end of the range a score moves: for the metric Butter a high score is bad, for the others
/// a low one.
pub open spec fn move_of(use_butter: bool, score: u32, b: Bounds) -> Move {
    if use_butter {
        if is_lt(b.hi, score) {
            Move::Max
        } else if is_lt(score, b.lo) {
            Move::Min
        } else {
            Move::Neither
        }
    } else if is_lt(score, b.lo) {
        Move::Max
    } else if is_lt(b.hi, score) {
        Move::Min
    } else {
        Move::Neither
    }
}

/// The upper end of the range after a score.
pub open spec fn moved_max(max: u32, use_butter: bool, score: u32, b: Bounds) -> u32 {
    if move_of(use_butter, score, b) is Max {
        b.down
    } else {
        max
    }
}

/// The lower end of the range after a score.
pub open spec fn moved_min(min: u32, use_butter: bool, score: u32, b: Bounds) -> u32 {
    if move_of(use_butter, score, b) is Min {
        b.up
    } else {
        min
    }
}

/// The first of the smallest, by the total order.
pub open spec fn is_best(diffs: Seq<u32>, i: int) -> bool {
    &&& 0 <= i < diffs.len()
    &&& forall|k: int| 0 <= k < diffs.len() ==> rank_of(diffs[i]) <= rank_of(#[trigger] diffs[k])
    &&& forall|k: int| 0 <= k < i ==> rank_of(diffs[i]) < rank_of(#[trigger] diffs[k])
}

/// The first of the smallest, by the total order.
pub fn best_index(diffs: &Vec<u32>) -> (r: usize)
    requires
        diffs@.len() > 0,
    ensures
        is_best(diffs@, r as int),
{
    let mut best: usize = 0;
    let mut i: usize = 1;
    while i < diffs.len()
        invariant
            1 <= i <= diffs@.len(),
            best < i,
            forall|k: int|
                0 <= k < i ==> rank_of(diffs@[best as int]) <= rank_of(#[trigger] diffs@[k]),
            forall|k: int|
                0 <= k < best ==> rank_of(diffs@[best as int]) < rank_of(#[trigger] diffs@[k]),
        decreases diffs@.len() - i,
    {
        if rank(diffs[i]) < rank(diffs[best]) {
            best = i;
        }
        i = i + 1;
    }
    best
}

/// There is only one best probe.
pub proof fn law_best_is_unique(diffs: Seq<u32>, i: int, j: int)
    requires
        is_best(diffs, i),
        is_best(diffs, j),
    ensures
        i == j,
{
    if i < j {
        assert(rank_of(diffs[j]) < rank_of(diffs[i]));
        assert(rank_of(diffs[i]) <= rank_of(diffs[j]));
    }
    if j < i {
        assert(rank_of(diffs[i]) < rank_of(diffs[j]));
        assert(rank_of(diffs[j]) <= rank_of(diffs[i]));
    }
}

impl TQCtx {
    /// Whether a score is near enough, given how far it is from the target.
    pub fn converged(&self, diff: u32) -> (r: bool)
        ensures
            r == is_le(diff, self.tolerance),
    {
        le(diff, self.tolerance)
    }

    /// Moves the end of the range that a score tells of; says whether nothing is left.
    pub fn up_bounds(&self, state: &mut TQState, score: u32, b: Bounds) -> (r: bool)
        ensures
            *final(state) == (TQState {
                search_min: moved_min(old(state).search_min, self.use_butter, score, b),
                search_max: moved_max(old(state).search_max, self.use_butter, score, b),
                ..*old(state)
            }),
            r == is_lt(final(state).search_max, final(state).search_min),
    {
        if self.use_butter {
            if lt(b.hi, score) {
                state.search_max = b.down;
            } else if lt(score, b.lo) {
                state.search_min = b.up;
            }
        } else if lt(score, b.lo) {
            state.search_max = b.down;
        } else if lt(b.hi, score) {
            state.search_min = b.up;
        }
        lt(state.search_max, state.search_min)
    }

    /// The metric of the target.
    pub fn metric(&self) -> (r: Metric)
        ensures
            r == metric_of(self.use_butter, self.use_cvvdp),
    {
        choose_metric(self.use_butter, self.use_cvvdp)
    }
}

/// What is known once a probe is measured.
pub struct Scored {
    pub crf: u32,
    pub score: u32,
    /// How far each probe is from the target, this one last.
    pub diffs: Vec<u32>,
    /// For each earlier probe, the difference in quality times the difference in score.
    pub products: Vec<u32>,
    pub bounds: Bounds,
}

/// What follows a probe.
#[derive(Clone, Copy, Debug, PartialEq, Eq, Structural)]
pub enum Outcome {
    /// The next quality is tried.
    Again,
    /// The chunk is encoded a last time, with the run's own parameters.
    Final,
    /// The probe at this place is the result.
    Done(usize),
}

/// Whether a better score came of a worse quality, or the other way round: then the search has
/// nothing to go by.
pub open spec fn out_of_line(products: Seq<u32>) -> bool {
    exists|i: int| 0 <= i < products.len() && is_le(0, #[trigger] products[i])
}

fn any_out_of_line(products: &Vec<u32>) -> (r: bool)
    ensures
        r == out_of_line(products@),
{
    let mut i: usize = 0;
    while i < products.len()
        invariant
            i <= products@.len(),
            forall|k: int| 0 <= k < i ==> !is_le(0, #[trigger] products@[k]),
        decreases products@.len() - i,
    {
        if le(0, products[i]) {
            assert(is_le(0, products@[i as int]));
            return true;
        }
        i = i + 1;
    }
    false
}

/// Whether the search is over before its range is looked at.
pub open spec fn settled(ctx: TQCtx, s: &Scored) -> bool {
    is_le(s.diffs@.last(), ctx.tolerance) || out_of_line(s.products@)
}

/// Whether the range is empty after a probe.
pub open spec fn exhausted(ctx: TQCtx, st: TQState, s: &Scored) -> bool {
    is_lt(
        moved_max(st.search_max, ctx.use_butter, s.score, s.bounds),
        moved_min(st.search_min, ctx.use_butter, s.score, s.bounds),
    )
}

impl TQState {
    /// A search that has tried nothing.
    pub fn new(ctx: &TQCtx) -> (r: TQState)
        ensures
            r.probes@.len() == 0,
            r.probe_szs@.len() == 0,
            r.search_min == ctx.qp_min,
            r.search_max == ctx.qp_max,
            r.round == 0,
            r.target == ctx.target,
            r.last_crf == 0,
            !r.final_enc,
            r.best_probe@.len() == 0,
            r.best_diff == INFINITY,
    {
        TQState {
            probes: Vec::new(),
            probe_szs: Vec::new(),
            search_min: ctx.qp_min,
            search_max: ctx.qp_max,
            round: 0,
            target: ctx.target,
            last_crf: 0,
            final_enc: false,
            best_probe: Vec::new(),
            best_diff: INFINITY,
        }
    }

    /// Starts a round; says how its quality is guessed.
    pub fn next_round(&mut self) -> (g: Guess)
        requires
            old(self).round < usize::MAX,
        ensures
            *final(self) == (TQState { round: (old(self).round + 1) as usize, ..*old(self) }),
            g == if old(self).round + 1 <= 2 {
                Guess::Bisect
            } else {
                Guess::Interpolate
            },
    {
        self.round = self.round + 1;
        if self.round <= 2 {
            Guess::Bisect
        } else {
            Guess::Interpolate
        }
    }

    /// Takes a guess, held in the range; says whether it is still to be rounded to a whole number
    /// before `settle_crf`.
    pub fn tq_search_crf(&mut self, guess: u32, encoder: Encoder) -> (r: (u32, bool))
        requires
            is_le(old(self).search_min, old(self).search_max),
        ensures
            r.0 == clamped(guess, old(self).search_min, old(self).search_max),
            r.1 == (encoder is Avm || encoder is Vvenc),
            *final(self) == (TQState { last_crf: r.0, ..*old(self) }),
    {
        let c: u32 = if lt(guess, self.search_min) {
            self.search_min
        } else if lt(self.search_max, guess) {
            self.search_max
        } else {
            guess
        };
        self.last_crf = c;
        (c, encoder.integer_qp())
    }

    /// Sets the quality that is tried.
    pub fn settle_crf(&mut self, crf: u32)
        ensures
            *final(self) == (TQState { last_crf: crf, ..*old(self) }),
    {
        self.last_crf = crf;
    }

    /// Keeps the bytes of a probe that is nearer to the target than any before it.
    pub fn retain_swap(&mut self, probe: &mut Vec<u8>, diff: u32)
        ensures
            if is_lt(diff, old(self).best_diff) {
                &&& *final(self) == (TQState {
                    best_diff: diff,
                    best_probe: *old(probe),
                    ..*old(self)
                })
                &&& *final(probe) == old(self).best_probe
            } else {
                *final(self) == *old(self) && *final(probe) == *old(probe)
            },
    {
        if lt(diff, self.best_diff) {
            self.best_diff = diff;
            core::mem::swap(probe, &mut self.best_probe);
        }
    }

    /// The score of the probe before, where there is one.
    pub fn last_score(&self) -> (r: Option<u32>)
        ensures
            r == if self.probes@.len() > 0 {
                Some(self.probes@.last().score)
            } else {
                None
            },
    {
        let n: usize = self.probes.len();
        if n > 0 {
            Some(self.probes[n - 1].score)
        } else {
            None
        }
    }

    /// Takes the size of a probe.
    pub fn measured(&mut self, crf: u32, sz: u64)
        ensures
            final(self).probe_szs@ == old(self).probe_szs@.push((crf, sz)),
            *final(self) == (TQState { probe_szs: final(self).probe_szs, ..*old(self) }),
    {
        self.probe_szs.push((crf, sz));
    }

    /// Takes the score of a probe: says whether the search goes on, and where it does not, which
    /// probe is the result or that it is encoded once more.
    pub fn after_score(&mut self, ctx: &TQCtx, s: &Scored, use_alt: bool) -> (r: Outcome)
        requires
            s.diffs@.len() == old(self).probes@.len() + 1,
        ensures
            final(self).probes@ == old(self).probes@.push(Probe { crf: s.crf, score: s.score }),
            final(self).probe_szs == old(self).probe_szs,
            final(self).round == old(self).round,
            final(self).target == old(self).target,
            final(self).best_probe == old(self).best_probe,
            final(self).best_diff == old(self).best_diff,
            final(self).search_min == if settled(*ctx, s) {
                old(self).search_min
            } else {
                moved_min(old(self).search_min, ctx.use_butter, s.score, s.bounds)
            },
            final(self).search_max == if settled(*ctx, s) {
                old(self).search_max
            } else {
                moved_max(old(self).search_max, ctx.use_butter, s.score, s.bounds)
            },
            match r {
                Outcome::Again => {
                    &&& !settled(*ctx, s) && !exhausted(*ctx, *old(self), s)
                    &&& final(self).final_enc == old(self).final_enc
                    &&& final(self).last_crf == old(self).last_crf
                },
                Outcome::Final => {
                    &&& use_alt
                    &&& settled(*ctx, s) || exhausted(*ctx, *old(self), s)
                    &&& final(self).final_enc
                    &&& exists|i: int|
                        is_best(s.diffs@, i) && final(self).last_crf
                            == #[trigger] final(self).probes@[i].crf
                },
                Outcome::Done(i) => {
                    &&& !use_alt
                    &&& settled(*ctx, s) || exhausted(*ctx, *old(self), s)
                    &&& final(self).final_enc == old(self).final_enc
                    &&& final(self).last_crf == old(self).last_crf
                    &&& is_best(s.diffs@, i as int)
                },
            },
    {
        let n: usize = s.diffs.len();
        let near: bool = ctx.converged(s.diffs[n - 1]);
        let odd: bool = any_out_of_line(&s.products);
        assert((near || odd) == settled(*ctx, s));
        let mut complete: bool = near || odd;
        if !complete {
            complete = ctx.up_bounds(self, s.score, s.bounds);
        }
        self.probes.push(Probe { crf: s.crf, score: s.score });
        if !complete {
            return Outcome::Again;
        }
        let best: usize = best_index(&s.diffs);
        if use_alt {
            self.final_enc = true;
            self.last_crf = self.probes[best].crf;
            assert(is_best(s.diffs@, best as int) && self.last_crf == self.probes@[best as int].crf);
            Outcome::Final
        } else {
            Outcome::Done(best)
        }
    }
}

/// While the numbers are numbers, a search that goes on has a range to search in.
pub proof fn law_search_goes_on_in_a_range(ctx: TQCtx, st: TQState, s: &Scored)
    requires
        is_le(st.search_min, st.search_max),
        !is_nan(s.bounds.down),
        !is_nan(s.bounds.up),
        !exhausted(ctx, st, s),
    ensures
        is_le(
            moved_min(st.search_min, ctx.use_butter, s.score, s.bounds),
            moved_max(st.search_max, ctx.use_butter, s.score, s.bounds),
        ),
{
}

/// A score outside the tolerance takes the quality that was tried out of the range, so that no
/// quality is tried twice.
pub proof fn law_search_leaves_the_last_quality(
    use_butter: bool,
    min: u32,
    max: u32,
    last: u32,
    score: u32,
    b: Bounds,
)
    requires
        is_lt(b.down, last),
        is_lt(last, b.up),
        is_lt(b.hi, score) || is_lt(score, b.lo),
    ensures
        !(is_le(moved_min(min, use_butter, score, b), last) && is_le(
            last,
            moved_max(max, use_butter, score, b),
        )),
{
}

/// A guess that is held in the range lies in it.
pub proof fn law_clamped_lies_between(c: u32, lo: u32, hi: u32)
    requires
        is_le(lo, hi),
        !is_nan(c),
    ensures
        is_le(lo, clamped(c, lo, hi)),
        is_le(clamped(c, lo, hi), hi),
{
}

/// What the one who hands out chunks does with a message.
#[derive(Clone, Copy, Debug, PartialEq, Eq, Structural)]
pub enum CoordStep {
    /// A chunk is done: another may be decoded.
    Release,
    /// The chunk goes to the encoders.
    Forward(u64),
}

/// How many of the chunks are done.
#[derive(Clone, Copy, Debug, PartialEq, Eq, Structural)]
pub struct Coord {
    pub completed: usize,
    pub tot: usize,
}

impl Coord {
    /// No more chunks are done than there are.
    pub open spec fn wf(self) -> bool {
        self.completed <= self.tot
    }

    /// None of the chunks is done.
    pub fn new(tot: usize) -> (r: Coord)
        ensures
            r.wf(),
            r == (Coord { completed: 0, tot }),
    {
        Coord { completed: 0, tot }
    }

    /// Whether all chunks are done, and the encoders are told to end.
    pub fn finished(&self) -> (r: bool)
        requires
            self.wf(),
        ensures
            r == (self.completed == self.tot),
    {
        self.completed >= self.tot
    }

    /// Takes a message: 1 says that a chunk is done, anything else is a chunk.
    pub fn tq_coord(&mut self, m: u64) -> (r: CoordStep)
        requires
            old(self).wf(),
            old(self).completed < old(self).tot,
        ensures
            final(self).wf(),
            final(self).tot == old(self).tot,
            if m == 1 {
                r == CoordStep::Release && final(self).completed == old(self).completed + 1
            } else {
                r == CoordStep::Forward(m) && final(self).completed == old(self).completed
            },
    {
        if m == 1 {
            self.completed = self.completed + 1;
            CoordStep::Release
        } else {
            CoordStep::Forward(m)
        }
    }
}

/// The size of a probe: that of the first entry whose quality is nearer than a thousandth.
pub open spec fn near_size(dists: Seq<u32>, szs: Seq<(u32, u64)>) -> u64
    decreases dists.len(),
{
    if dists.len() == 0 || szs.len() == 0 {
        0
    } else if is_lt(dists[0], THOUSANDTH) {
        szs[0].1
    } else {
        near_size(dists.drop_first(), szs.drop_first())
    }
}

/// The size of a probe, given how far the quality of each entry is from its own.
pub fn probe_size(dists: &Vec<u32>, szs: &Vec<(u32, u64)>) -> (r: u64)
    requires
        dists@.len() == szs@.len(),
    ensures
        r == near_size(dists@, szs@),
{
    let mut i: usize = 0;
    assert(dists@.skip(0) =~= dists@);
    assert(szs@.skip(0) =~= szs@);
    while i < dists.len()
        invariant
            i <= dists@.len(),
            dists@.len() == szs@.len(),
            near_size(dists@, szs@) == near_size(dists@.skip(i as int), szs@.skip(i as int)),
        decreases dists@.len() - i,
    {
        assert(dists@.skip(i as int).drop_first() =~= dists@.skip(i + 1));
        assert(szs@.skip(i as int).drop_first() =~= szs@.skip(i + 1));
        if lt(dists[i], THOUSANDTH) {
            return szs[i].1;
        }
        i = i + 1;
    }
    0
}

/// The size of a chunk that is done: of the bytes that were written, or of its file where that is
/// known.
pub fn output_size(output: Output, best: usize, probe: usize, file: Option<u64>) -> (r: u64)
    ensures
        r == match output {
            Output::Bytes => best as u64,
            Output::Probe => probe as u64,
            _ => match file {
                Some(n) => n,
                None => 0,
            },
        },
{
    match output {
        Output::Bytes => best as u64,
        Output::Probe => probe as u64,
        Output::Copy | Output::Stat => match file {
            Some(n) => n,
            None => 0,
        },
    }
}

/// A chunk is done: it is kept for a later run, and counted. Gives what is kept of it.
pub fn complete_chnk(
    idx: u16,
    frames: usize,
    sz: u64,
    resume: &mut ResumeInf,
    stats: &mut WorkerStats,
) -> (c: ChunkComp)
    ensures
        c == (ChunkComp { idx, frames, sz }),
        final(resume).chnks_done@ == old(resume).chnks_done@.push(c),
        final(resume).prior_secs == old(resume).prior_secs,
        final(stats).completed == old(stats).completed.wrapping_add(1),
        final(stats).completed_frames == old(stats).completed_frames.wrapping_add(frames),
        final(stats).tot_sz == old(stats).tot_sz.wrapping_add(sz),
        final(stats).completions == old(stats).completions,
{
    let c = ChunkComp { idx, frames, sz };
    resume.chnks_done.push(c);
    stats.count_chunk(c);
    c
}

/// The texts of a probe: its quality with two places, its score with four; and how far its quality
/// is from that of each measured probe.
pub struct ProbeText {
    pub crf: String,
    pub score: String,
    pub dists: Vec<u32>,
}

/// Each probe of a search has its texts, and its distance from every measured probe.
pub open spec fn tells_all(shown: Seq<ProbeText>, st: &TQState) -> bool {
    &&& shown.len() == st.probes@.len()
    &&& forall|i: int|
        0 <= i < shown.len() ==> (#[trigger] shown[i]).dists@.len() == st.probe_szs@.len()
}

/// A probe as the log keeps it.
pub open spec fn logged(e: ProbeEntry, t: ProbeText, szs: Seq<(u32, u64)>) -> bool {
    &&& e.crf@ == t.crf@
    &&& e.score@ == t.score@
    &&& e.sz == near_size(t.dists@, szs)
}

/// What the log keeps of a chunk that is done: every probe, and the one at `best`.
pub fn chunk_log(
    idx: u16,
    frames: usize,
    sz: u64,
    st: &TQState,
    shown: &Vec<ProbeText>,
    best: usize,
) -> (l: ProbeLog)
    requires
        tells_all(shown@, st),
        best < shown@.len(),
    ensures
        l.chnk_idx == idx,
        l.frames == frames,
        l.final_sz == sz,
        l.round == st.round,
        l.final_crf@ == shown@[best as int].crf@,
        l.final_score@ == shown@[best as int].score@,
        l.probes@.len() == shown@.len(),
        forall|i: int|
            0 <= i < shown@.len() ==> logged(#[trigger] l.probes@[i], shown@[i], st.probe_szs@),
{
    let mut probes: Vec<ProbeEntry> = Vec::new();
    let mut i: usize = 0;
    while i < shown.len()
        invariant
            i <= shown@.len(),
            tells_all(shown@, st),
            probes@.len() == i,
            forall|k: int|
                0 <= k < i ==> logged(#[trigger] probes@[k], shown@[k], st.probe_szs@),
        decreases shown@.len() - i,
    {
        let t: &ProbeText = &shown[i];
        let sz: u64 = probe_size(&t.dists, &st.probe_szs);
        probes.push(
            ProbeEntry { crf: t.crf.as_str().to_owned(), score: t.score.as_str().to_owned(), sz },
        );
        i = i + 1;
    }
    let b: &ProbeText = &shown[best];
    ProbeLog {
        chnk_idx: idx,
        probes,
        final_crf: b.crf.as_str().to_owned(),
        final_score: b.score.as_str().to_owned(),
        final_sz: sz,
        round: st.round,
        frames,
    }
}

/// The parameters that a chunk is encoded with: those for probes while it is searched, where there
/// are any.
pub fn params_for<'a>(is_final: bool, params: &'a str, alt_param: Option<&'a str>) -> (r: &'a str)
    ensures
        r@ == match alt_param {
            Some(a) => if is_final {
                params@
            } else {
                a@
            },
            None => params@,
        },
{
    match alt_param {
        Some(a) => if is_final {
            params
        } else {
            a
        },
        None => params,
    }
}

/// Whether a score is better than another: for the metric Butter the lower is, for the others the
/// higher.
pub open spec fn is_better(use_butter: bool, a: u32, b: u32) -> bool {
    if use_butter {
        is_lt(a, b)
    } else {
        is_lt(b, a)
    }
}

/// The ends of the tolerance: the worst score and the best that meet the target.
pub open spec fn worst_met(use_butter: bool, b: Bounds) -> u32 {
    if use_butter {
        b.hi
    } else {
        b.lo
    }
}

/// The best score that meets the target.
pub open spec fn best_met(use_butter: bool, b: Bounds) -> u32 {
    if use_butter {
        b.lo
    } else {
        b.hi
    }
}

/// For every metric, a score that is better than the tolerance moves the lower end of the range to
/// the step above the quality that was tried, and a worse one the upper end to the step below; the
/// other end stays. A score within the tolerance moves neither.
pub proof fn law_better_scores_raise_the_range(
    use_butter: bool,
    min: u32,
    max: u32,
    score: u32,
    b: Bounds,
)
    requires
        is_le(b.lo, b.hi),
    ensures
        ({
            let (new_min, new_max) = (
                moved_min(min, use_butter, score, b),
                moved_max(max, use_butter, score, b),
            );
            &&& is_better(use_butter, score, best_met(use_butter, b)) ==> new_min == b.up && new_max
                == max
            &&& is_better(use_butter, worst_met(use_butter, b), score) ==> new_min == min && new_max
                == b.down
            &&& is_le(b.lo, score) && is_le(score, b.hi) ==> new_min == min && new_max == max
        }),
{
}

/// While scores worsen as the quality number grows, a quality of the range that meets the target
/// stays in the range after a probe that does not: `scores` gives the score of each quality, `last`
/// is the one that was tried, and no quality between the steps beside it is looked for.
pub proof fn law_search_keeps_what_meets_the_target(
    use_butter: bool,
    min: u32,
    max: u32,
    scores: spec_fn(u32) -> u32,
    last: u32,
    wanted: u32,
    b: Bounds,
)
    requires
        forall|x: u32, y: u32|
            is_lt(x, y) ==> is_better(use_butter, #[trigger] scores(x), #[trigger] scores(y)),
        is_lt(b.down, last),
        is_lt(last, b.up),
        is_le(min, wanted),
        is_le(wanted, max),
        is_le(wanted, b.down) || is_le(b.up, wanted),
        is_le(b.lo, scores(wanted)),
        is_le(scores(wanted), b.hi),
    ensures
        is_le(moved_min(min, use_butter, scores(last), b), wanted),
        is_le(wanted, moved_max(max, use_butter, scores(last), b)),
{
    if is_le(wanted, b.down) {
        assert(is_better(use_butter, scores(wanted), scores(last)));
    } else {
        assert(is_better(use_butter, scores(last), scores(wanted)));
    }
}

/// A probe within the tolerance ends the search, whatever the others were; one outside it does not
/// by itself.
pub proof fn law_near_probe_ends_the_search(ctx: TQCtx, s: &Scored)
    ensures
        is_le(s.diffs@.last(), ctx.tolerance) ==> settled(ctx, s),
        !is_le(s.diffs@.last(), ctx.tolerance) && s.products@.len() == 0 ==> !settled(ctx, s),
{
}

/// A search whose earlier probes all were better at lower quality numbers goes on until a probe is
/// near enough; one product of differences that is no less than zero ends it.
pub proof fn law_probes_in_line_go_on(ctx: TQCtx, s: &Scored, i: int)
    ensures
        !is_le(s.diffs@.last(), ctx.tolerance) && (forall|k: int|
            0 <= k < s.products@.len() ==> is_lt(#[trigger] s.products@[k], 0)) ==> !settled(ctx, s),
        0 <= i < s.products@.len() && is_le(0, s.products@[i]) ==> settled(ctx, s),
{
}

/// The best probe is as near to the target as any other, and the first that is.
pub proof fn law_best_is_nearest(diffs: Seq<u32>, i: int, k: int)
    requires
        is_best(diffs, i),
        0 <= k < diffs.len(),
        !is_nan(diffs[i]),
        !is_nan(diffs[k]),
    ensures
        is_le(diffs[i], diffs[k]),
        k < i ==> diffs[k] != diffs[i],
{
    assert(rank_of(diffs[i]) <= rank_of(diffs[k]));
}

/// A guess inside the range is tried as it is.
pub proof fn law_clamped_keeps_the_range(c: u32, lo: u32, hi: u32)
    requires
        is_le(lo, c),
        is_le(c, hi),
    ensures
        clamped(c, lo, hi) == c,
{
}

/// The size of a probe is that of the first measured quality within a thousandth of its own, or
/// nothing where there is none.
pub proof fn law_probe_size_is_of_its_quality(dists: Seq<u32>, szs: Seq<(u32, u64)>)
    requires
        dists.len() == szs.len(),
    ensures
        (forall|k: int| 0 <= k < dists.len() ==> !is_lt(#[trigger] dists[k], THOUSANDTH)) ==> near_size(
            dists,
            szs,
        ) == 0,
        forall|i: int|
            0 <= i < dists.len() && is_lt(#[trigger] dists[i], THOUSANDTH) && (forall|k: int|
                0 <= k < i ==> !is_lt(#[trigger] dists[k], THOUSANDTH)) ==> near_size(dists, szs)
                == szs[i].1,
    decreases dists.len(),
{
    if dists.len() > 0 {
        let (d, z) = (dists.drop_first(), szs.drop_first());
        law_probe_size_is_of_its_quality(d, z);
        assert(forall|k: int| 0 <= k < d.len() ==> #[trigger] d[k] == dists[k + 1]);
        if forall|k: int| 0 <= k < dists.len() ==> !is_lt(#[trigger] dists[k], THOUSANDTH) {
            assert(!is_lt(dists[0], THOUSANDTH));
            assert forall|k: int| 0 <= k < d.len() implies !is_lt(#[trigger] d[k], THOUSANDTH) by {
                assert(!is_lt(dists[k + 1], THOUSANDTH));
            }
        }
        assert forall|i: int|
            0 <= i < dists.len() && is_lt(#[trigger] dists[i], THOUSANDTH) && (forall|k: int|
                0 <= k < i ==> !is_lt(#[trigger] dists[k], THOUSANDTH)) implies near_size(dists, szs)
            == szs[i].1 by {
            if i > 0 {
                assert(!is_lt(dists[0], THOUSANDTH));
                assert(is_lt(d[i - 1], THOUSANDTH));
                assert forall|k: int| 0 <= k < i - 1 implies !is_lt(#[trigger] d[k], THOUSANDTH) by {
                    assert(!is_lt(dists[k + 1], THOUSANDTH));
                }
                assert(z[i - 1] == szs[i]);
            }
        }
    }
}


/// After a probe the search goes on exactly when the probe is not near enough, no earlier one is out
/// of line, and the range is not empty; else it ends with the best probe, encoded once more where
/// probes have parameters of their own and taken as it is where they have none. The probe is kept
/// behind the others in either case.
pub proof fn law_search_ends_with_the_best_probe(
    st: &mut TQState,
    ctx: &TQCtx,
    s: &Scored,
    use_alt: bool,
    r: Outcome,
)
    requires
        s.diffs@.len() == st.probes@.len() + 1,
        call_ensures(TQState::after_score, (st, ctx, s, use_alt), r),
    ensures
        is_le(s.diffs@.last(), ctx.tolerance) ==> !(r is Again),
        r is Again ==> !is_lt(final(st).search_max, final(st).search_min),
        s.products@.len() == 0 && !is_le(s.diffs@.last(), ctx.tolerance) && !is_lt(
            final(st).search_max,
            final(st).search_min,
        ) ==> r is Again,
        r is Final ==> use_alt && final(st).final_enc,
        r is Done ==> !use_alt,
        !(r is Final) ==> final(st).final_enc == old(st).final_enc && final(st).last_crf == old(st).last_crf,
        final(st).probes@.len() == old(st).probes@.len() + 1,
        final(st).probes@.last() == (Probe { crf: s.crf, score: s.score }),
        final(st).probes@.drop_last() == old(st).probes@,
        final(st).round == old(st).round && final(st).target == old(st).target,
        forall|k: int|
            0 <= k < s.diffs@.len() ==> (r matches Outcome::Done(i) ==> rank_of(s.diffs@[i as int])
                <= rank_of(#[trigger] s.diffs@[k])),
        r is Final ==> exists|i: int|
            0 <= i < s.diffs@.len() && final(st).last_crf == #[trigger] final(st).probes@[i].crf
                && forall|k: int|
                0 <= k < s.diffs@.len() ==> rank_of(s.diffs@[i]) <= rank_of(#[trigger] s.diffs@[k]),
{
    assert(final(st).probes@.drop_last() =~= old(st).probes@);
    if r is Final {
        let i = choose|i: int|
            is_best(s.diffs@, i) && final(st).last_crf == #[trigger] final(st).probes@[i].crf;
        assert(final(st).last_crf == final(st).probes@[i].crf);
    }
}

/// The first two rounds of a search halve its range, and the later ones go by what was found.
pub proof fn law_first_rounds_halve_the_range(st: &mut TQState, g: Guess)
    requires
        st.round < usize::MAX,
        call_ensures(TQState::next_round, (st,), g),
    ensures
        final(st).round == old(st).round + 1,
        g is Bisect <==> final(st).round <= 2,
        g is Interpolate <==> final(st).round > 2,
        final(st).probes == old(st).probes && final(st).search_min == old(st).search_min && final(st).search_max == old(st).search_max,
{
}

/// What is tried lies in the range, is what is kept as tried last, and is to be rounded exactly for
/// the encoders that take whole quantizers only.
pub proof fn law_what_is_tried_lies_in_the_range(
    st: &mut TQState,
    guess: u32,
    encoder: Encoder,
    r: (u32, bool),
    whole: bool,
)
    requires
        is_le(st.search_min, st.search_max),
        !is_nan(guess),
        call_ensures(TQState::tq_search_crf, (st, guess, encoder), r),
        call_ensures(Encoder::integer_qp, (encoder,), whole),
    ensures
        is_le(old(st).search_min, r.0) && is_le(r.0, old(st).search_max),
        is_le(old(st).search_min, guess) && is_le(guess, old(st).search_max) ==> r.0 == guess,
        r.1 == whole,
        final(st).last_crf == r.0,
        final(st).probes == old(st).probes && final(st).round == old(st).round,
{
}

/// A search starts with the whole range of qualities and the target of the run, and with nothing
/// tried; whatever is found first is nearer than nothing.
pub proof fn law_search_starts_with_the_whole_range(ctx: &TQCtx, st: TQState, diff: u32)
    requires
        call_ensures(TQState::new, (ctx,), st),
        !is_nan(diff),
        diff < 0x7f80_0000,
    ensures
        (st.search_min, st.search_max, st.target) == (ctx.qp_min, ctx.qp_max, ctx.target),
        st.probes@.len() == 0 && st.probe_szs@.len() == 0 && st.best_probe@.len() == 0,
        st.round == 0 && !st.final_enc,
        is_lt(diff, st.best_diff),
{
}

/// Of two probes the bytes of the one nearer to the target are kept and those of the other handed
/// back, so that none are lost; and what is kept only comes nearer.
pub proof fn law_nearer_bytes_are_kept(st: &mut TQState, probe: &mut Vec<u8>, diff: u32)
    requires
        call_ensures(TQState::retain_swap, (st, probe, diff), ()),
        !is_nan(diff),
        !is_nan(st.best_diff),
    ensures
        is_le(final(st).best_diff, diff),
        is_le(final(st).best_diff, old(st).best_diff),
        final(st).best_diff == diff || final(st).best_diff == old(st).best_diff,
        is_lt(diff, old(st).best_diff) ==> final(st).best_probe@ == old(probe)@ && final(probe)@
            == old(st).best_probe@,
        !is_lt(diff, old(st).best_diff) ==> final(st).best_probe@ == old(st).best_probe@ && final(probe)@ == old(probe)@,
{
}

/// The last encode of a chunk has the run's own parameters, a probe those for probes where there are
/// any; templates are picked alike.
pub proof fn law_parameters_follow_templates(
    is_final: bool,
    params: &'static str,
    alt: Option<&'static str>,
    r: &'static str,
    own: usize,
    n: usize,
    t: Option<TemplateAt>,
)
    requires
        own > 0,
        n > 0,
        call_ensures(params_for, (is_final, params, alt), r),
        call_ensures(
            pick_template,
            (
                is_final,
                false,
                0,
                own,
                match alt {
                    Some(_) => Some(n),
                    None => None,
                },
            ),
            t,
        ),
    ensures
        is_final || alt is None ==> r@ == params@,
        !is_final ==> (alt matches Some(a) ==> r@ == a@),
        t matches Some(x) && (x.for_probes <==> !is_final && alt is Some),
{
}

/// What is kept of a chunk that is done is the chunk, behind those done before it, and it is counted
/// as any other is.
pub proof fn law_completed_chunk_is_kept(
    idx: u16,
    frames: usize,
    sz: u64,
    resume: &mut ResumeInf,
    stats: &mut WorkerStats,
    c: ChunkComp,
)
    requires
        call_ensures(complete_chnk, (idx, frames, sz, resume, stats), c),
    ensures
        (c.idx, c.frames, c.sz) == (idx, frames, sz),
        final(resume).chnks_done@.len() == old(resume).chnks_done@.len() + 1,
        final(resume).chnks_done@.last() == c,
        final(resume).chnks_done@.drop_last() == old(resume).chnks_done@,
        final(resume).prior_secs == old(resume).prior_secs,
        passes(*old(stats), *final(stats), c),
{
    assert(final(resume).chnks_done@.drop_last() =~= old(resume).chnks_done@);
}

/// The log of a chunk is that of its search: every probe in order, and at the end the best of them.
pub proof fn law_chunk_log_ends_with_the_best(
    idx: u16,
    frames: usize,
    sz: u64,
    st: &TQState,
    shown: &Vec<ProbeText>,
    best: usize,
    l: ProbeLog,
    i: int,
)
    requires
        tells_all(shown@, st),
        best < shown@.len(),
        0 <= i < shown@.len(),
        call_ensures(chunk_log, (idx, frames, sz, st, shown, best), l),
    ensures
        (l.chnk_idx, l.frames, l.final_sz, l.round) == (idx, frames, sz, st.round),
        l.probes@.len() == st.probes@.len(),
        l.final_crf@ == l.probes@[best as int].crf@,
        l.final_score@ == l.probes@[best as int].score@,
        l.probes@[i].crf@ == shown@[i].crf@,
        l.probes@[i].score@ == shown@[i].score@,
        forall|k: int|
            0 <= k < shown@[i].dists@.len() && is_lt(#[trigger] shown@[i].dists@[k], THOUSANDTH) && (
            forall|j: int| 0 <= j < k ==> !is_lt(#[trigger] shown@[i].dists@[j], THOUSANDTH))
                ==> l.probes@[i].sz == st.probe_szs@[k].1,
{
    assert(logged(l.probes@[i], shown@[i], st.probe_szs@));
    assert(logged(l.probes@[best as int], shown@[best as int], st.probe_szs@));
    law_probe_size_is_of_its_quality(shown@[i].dists@, st.probe_szs@);
}

/// The size of a chunk is that of what is written: the best bytes that were kept, the bytes of the
/// last encode, or the file where there is one.
pub proof fn law_size_is_of_what_is_written(
    output: Output,
    best: usize,
    probe: usize,
    file: Option<u64>,
    r: u64,
)
    requires
        call_ensures(output_size, (output, best, probe, file), r),
    ensures
        output is Bytes ==> r == best,
        output is Probe ==> r == probe,
        output is Copy || output is Stat ==> (file matches Some(n) ==> r == n) && (file is None ==> r
            == 0),
{
}

/// The one who hands out chunks counts those that are done, hands on every other message as it is,
/// and ends once all are done.
pub proof fn law_coordinator_ends_with_the_last_chunk(
    c: &mut Coord,
    m: u64,
    r: CoordStep,
    fresh: Coord,
    done: bool,
)
    requires
        c.wf(),
        c.completed < c.tot,
        call_ensures(Coord::tq_coord, (c, m), r),
        call_ensures(Coord::new, (c.tot,), fresh),
        call_ensures(Coord::finished, (final(c),), done),
    ensures
        fresh.completed == 0 && fresh.tot == old(c).tot,
        m == 1 ==> r is Release && final(c).completed == old(c).completed + 1,
        m != 1 ==> r == CoordStep::Forward(m) && final(c).completed == old(c).completed,
        final(c).tot == old(c).tot,
        done <==> final(c).completed == final(c).tot,
        m != 1 ==> !done,
{
}

/// What every search shares is what was asked for; a target below 8 is one of Butter, one from 8 up to
/// 10 of CVVDP, and any other of SSIMULACRA2.
pub proof fn law_target_chooses_the_metric(
    target: u32,
    tolerance: u32,
    qp_min: u32,
    qp_max: u32,
    ctx: TQCtx,
    m: Metric,
    near: bool,
    diff: u32,
)
    requires
        call_ensures(parse_tq_ctx, (target, tolerance, qp_min, qp_max), ctx),
        call_ensures(TQCtx::metric, (&ctx,), m),
        call_ensures(TQCtx::converged, (&ctx, diff), near),
        target <= 0x7f80_0000,
    ensures
        (ctx.target, ctx.tolerance, ctx.qp_min, ctx.qp_max) == (target, tolerance, qp_min, qp_max),
        m is Butter <==> target < 0x4100_0000,
        m is Cvvdp <==> 0x4100_0000 <= target <= 0x4120_0000,
        m is Ssimu2 <==> target > 0x4120_0000,
        ctx.use_butter <==> m is Butter,
        near <==> is_le(diff, tolerance),
{
}

/// The score that is shown beside a chunk is that of the probe before, and a size is kept behind
/// those that were measured before it.
pub proof fn law_last_probe_is_shown(
    st: &mut TQState,
    crf: u32,
    sz: u64,
    before: Option<u32>,
)
    requires
        call_ensures(TQState::measured, (st, crf, sz), ()),
        call_ensures(TQState::last_score, (&*st,), before),
    ensures
        before is None <==> old(st).probes@.len() == 0,
        before matches Some(x) ==> x == old(st).probes@.last().score,
        final(st).probe_szs@.len() == old(st).probe_szs@.len() + 1,
        final(st).probe_szs@.last() == (crf, sz),
        final(st).probe_szs@.drop_last() == old(st).probe_szs@,
        final(st).probes == old(st).probes && final(st).round == old(st).round,
{
    assert(final(st).probe_szs@.drop_last() =~= old(st).probe_szs@);
}


/// For every metric, a score that is better than the tolerance leaves the range above the quality that
/// was tried, a worse one the range below it, and one within the tolerance the range as it is; nothing
/// is left when its ends have passed each other.
pub proof fn law_score_moves_the_range(
    ctx: &TQCtx,
    st: &mut TQState,
    score: u32,
    b: Bounds,
    empty: bool,
)
    requires
        is_le(b.lo, b.hi),
        call_ensures(TQCtx::up_bounds, (ctx, st, score, b), empty),
    ensures
        is_better(ctx.use_butter, score, best_met(ctx.use_butter, b)) ==> final(st).search_min == b.up
            && final(st).search_max == old(st).search_max,
        is_better(ctx.use_butter, worst_met(ctx.use_butter, b), score) ==> final(st).search_max
            == b.down && final(st).search_min == old(st).search_min,
        is_le(b.lo, score) && is_le(score, b.hi) ==> final(st).search_min == old(st).search_min
            && final(st).search_max == old(st).search_max,
        empty <==> is_lt(final(st).search_max, final(st).search_min),
        final(st).probes == old(st).probes && final(st).last_crf == old(st).last_crf && final(
            st).round == old(st).round,
{
    law_better_scores_raise_the_range(
        ctx.use_butter,
        old(st).search_min,
        old(st).search_max,
        score,
        b,
    );
}

/// The quality that is settled on is the one that is tried, and nothing else changes.
pub proof fn law_settled_quality_is_tried(st: &mut TQState, crf: u32)
    requires
        call_ensures(TQState::settle_crf, (st, crf), ()),
    ensures
        final(st).last_crf == crf,
        final(st).search_min == old(st).search_min && final(st).search_max == old(st).search_max,
        final(st).probes == old(st).probes && final(st).round == old(st).round,
{
}


/// The size of a probe that was measured alone is its own when its quality is nearer than a
/// thousandth, and nothing when it is not.
pub proof fn law_thousandth_tells_qualities_apart(dists: &Vec<u32>, szs: &Vec<(u32, u64)>, r: u64)
    requires
        dists@.len() == 1 && szs@.len() == 1,
        dists@[0] <= 0x7f80_0000,
        call_ensures(probe_size, (dists, szs), r),
    ensures
        dists@[0] < 0x3a83_126f ==> r == szs@[0].1,
        dists@[0] >= 0x3a83_126f ==> r == 0,
{
    law_probe_size_is_of_its_quality(dists@, szs@);
}

} // verus!
