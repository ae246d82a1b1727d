//! Direct binary search: a randomised local search that toggles single
//! pixels of a thresholded image wherever that lowers the perceived error.

use crate::grid::cell_index_of;
use crate::hvs::calculate_initial_error_metrics;
use crate::hvs::calculate_toggle_error_change;
use crate::hvs::lemma_total_error_upper;
use crate::hvs::toggle_delta;
use crate::hvs::toggled;
use crate::hvs::total_error;
use crate::hvs::update_error_metrics_after_toggle;
use crate::hvs::ErrorMetrics;
use crate::hvs::MAX_SQUARED_ERROR;
use crate::kernel::Kernel;
use crate::random::RandomSource;
use crate::raster::is_rgba_of;
use crate::raster::render_rgba;
use crate::ratio::Ratio;
use crate::ratio::WIDE_LIMIT;
use vstd::prelude::*;

verus! {

/// How long a search runs and when it gives up.
#[derive(Clone, Copy, Debug)]
pub struct DbsParams {
    /// Most passes that a search makes.
    pub max_iterations: usize,
    /// Most candidates that a pass draws.
    pub candidate_cap: usize,
    /// A pass that improves the error by a smaller share than this ends the
    /// search.
    pub min_improvement: Ratio,
}

impl Default for DbsParams {
    /// Ten passes of at most 5000 candidates, ended early by a pass that
    /// improves the error by less than a thousandth.
    fn default() -> (params: DbsParams)
        ensures
            params == default_params(),
    {
        DbsParams {
            max_iterations: 10,
            candidate_cap: 5000,
            min_improvement: Ratio { num: 1, den: 1000 },
        }
    }
}

/// What one pass of a search did.
#[derive(Clone, Copy, Debug)]
pub struct PassRecord {
    /// Number of toggles that the pass accepted.
    pub accepted: usize,
    /// Perceived error before the pass.
    pub error_before: u128,
    /// Perceived error after the pass.
    pub error_after: u128,
}

/// What a search ended with.
pub struct DbsOutcome {
    /// The pattern found.
    pub pattern: Vec<bool>,
    /// What each pass did, in the order of the passes.
    pub passes: Vec<PassRecord>,
    /// Number of toggles accepted over all passes, counted up to
    /// `usize::MAX`.
    pub accepted: usize,
    /// Perceived error of the thresholded image that the search began with.
    pub initial_error: u128,
    /// Perceived error of the pattern found.
    pub final_error: u128,
}

/// The image thresholded sample by sample: a sample below the threshold is
/// clear, any other is set.
pub open spec fn thresholded(input: Seq<u8>, threshold: u8) -> Seq<bool> {
    Seq::new(input.len(), |i: int| input[i] >= threshold)
}

/// Whether a pass ends the search: it accepted no toggle, or there was no
/// error left before it, or the share of the error that it removed is below
/// the least improvement asked for.
pub open spec fn is_converged(
    accepted: int,
    error_before: int,
    error_after: int,
    min_improvement: Ratio,
) -> bool {
    accepted == 0 || error_before == 0 || min_improvement.share_is_below(
        error_before - error_after,
        error_before,
    )
}

/// Whether the pass on record ends the search.
pub open spec fn record_converged(record: PassRecord, min_improvement: Ratio) -> bool {
    is_converged(
        record.accepted as int,
        record.error_before as int,
        record.error_after as int,
        min_improvement,
    )
}

/// Number of toggles that the passes on record accepted.
pub open spec fn total_accepted(passes: Seq<PassRecord>) -> int
    decreases passes.len(),
{
    if passes.len() == 0 {
        0
    } else {
        total_accepted(passes.drop_last()) + passes.last().accepted
    }
}

/// The records hang together: no pass raised the error, a pass left the
/// error as it was exactly where it accepted nothing, each pass began with
/// the error that the pass before it ended with, and the passes lead from
/// `initial_error` to `final_error`.
pub open spec fn passes_are_chained(
    passes: Seq<PassRecord>,
    initial_error: int,
    final_error: int,
) -> bool {
    &&& forall|i: int|
        0 <= i < passes.len() ==> {
            &&& (#[trigger] passes[i]).error_after <= passes[i].error_before
            &&& (passes[i].accepted == 0 <==> passes[i].error_after == passes[i].error_before)
        }
    &&& forall|i: int|
        0 <= i < passes.len() - 1 ==> (#[trigger] passes[i]).error_after == passes[i
            + 1].error_before
    &&& if passes.len() == 0 {
        final_error == initial_error
    } else {
        passes[0].error_before == initial_error && passes[passes.len() - 1].error_after
            == final_error
    }
}

/// Number of candidates that a pass over `pixels` pixels draws.
pub open spec fn candidates_for(pixels: int, cap: int) -> int {
    if pixels <= cap {
        pixels
    } else {
        cap
    }
}

/// Thresholds the image sample by sample.
pub fn threshold_pattern(input: &[u8], threshold: u8) -> (pattern: Vec<bool>)
    ensures
        pattern@ == thresholded(input@, threshold),
{
    let mut pattern: Vec<bool> = Vec::new();
    let mut i: usize = 0;
    while i < input.len()
        invariant
            i <= input.len(),
            pattern.len() == i,
            forall|k: int| 0 <= k < i ==> pattern[k] == (input[k] >= threshold),
        decreases input.len() - i,
    {
        pattern.push(input[i] >= threshold);
        i = i + 1;
    }
    assert(pattern@ =~= thresholded(input@, threshold));
    pattern
}

/// Considers the pixel `(x, y)`: toggles it, and brings the metrics up to
/// date, if and only if the toggle lowers the perceived error.
pub fn try_toggle(
    target_image: &[u8],
    binary_pattern: &mut Vec<bool>,
    metrics: &mut ErrorMetrics,
    x: usize,
    y: usize,
    width: usize,
    height: usize,
    kernel: &Kernel,
) -> (accepted: bool)
    requires
        kernel.wf(),
        x < width,
        y < height,
        target_image.len() == width * height,
        old(binary_pattern).len() == width * height,
        old(metrics).matches(
            target_image@,
            old(binary_pattern)@,
            width as int,
            height as int,
            *kernel,
        ),
    ensures
        accepted == (toggle_delta(
            target_image@,
            old(binary_pattern)@,
            width as int,
            height as int,
            *kernel,
            x as int,
            y as int,
        ) < 0),
        final(binary_pattern).len() == old(binary_pattern).len(),
        accepted ==> final(binary_pattern)@ == toggled(
            old(binary_pattern)@,
            width as int,
            x as int,
            y as int,
        ),
        accepted ==> final(metrics).total_error < old(metrics).total_error,
        !accepted ==> final(binary_pattern)@ == old(binary_pattern)@,
        !accepted ==> final(metrics).total_error == old(metrics).total_error,
        !accepted ==> final(metrics).filtered_output@ == old(metrics).filtered_output@,
        final(metrics).matches(
            target_image@,
            final(binary_pattern)@,
            width as int,
            height as int,
            *kernel,
        ),
{
    let error_change = calculate_toggle_error_change(
        target_image,
        binary_pattern,
        x,
        y,
        width,
        height,
        kernel,
        metrics,
    );
    if error_change < 0 {
        update_error_metrics_after_toggle(
            metrics,
            error_change,
            target_image,
            binary_pattern,
            x,
            y,
            width,
            height,
            kernel,
        );
        let index = cell_index_of(x, y, width, height);
        let current = binary_pattern[index];
        binary_pattern.set(index, !current);
        true
    } else {
        false
    }
}

/// Every drawn pixel lies inside the image.
pub open spec fn draws_in_image(draws: Seq<(usize, usize)>, width: int, height: int) -> bool {
    forall|k: int| 0 <= k < draws.len() ==> (#[trigger] draws[k]).0 < width && draws[k].1 < height
}

/// The pattern that is left when the drawn pixels have been considered one
/// after another: each is toggled where toggling it, in the pattern that
/// the pixels before it left, lowers the perceived error.
pub open spec fn pattern_after(
    target: Seq<u8>,
    pattern: Seq<bool>,
    width: int,
    height: int,
    kernel: Kernel,
    draws: Seq<(usize, usize)>,
) -> Seq<bool>
    decreases draws.len(),
{
    if draws.len() == 0 {
        pattern
    } else {
        let before = pattern_after(target, pattern, width, height, kernel, draws.drop_last());
        let x = draws.last().0 as int;
        let y = draws.last().1 as int;
        if toggle_delta(target, before, width, height, kernel, x, y) < 0 {
            toggled(before, width, x, y)
        } else {
            before
        }
    }
}

/// Number of the drawn pixels that were toggled when they were considered
/// one after another.
pub open spec fn accepted_among(
    target: Seq<u8>,
    pattern: Seq<bool>,
    width: int,
    height: int,
    kernel: Kernel,
    draws: Seq<(usize, usize)>,
) -> int
    decreases draws.len(),
{
    if draws.len() == 0 {
        0
    } else {
        let before = pattern_after(target, pattern, width, height, kernel, draws.drop_last());
        let x = draws.last().0 as int;
        let y = draws.last().1 as int;
        accepted_among(target, pattern, width, height, kernel, draws.drop_last()) + if toggle_delta(
            target,
            before,
            width,
            height,
            kernel,
            x,
            y,
        ) < 0 {
            1int
        } else {
            0int
        }
    }
}

/// `after` and `accepted` are what a pass over the drawn pixels makes of
/// the pattern `before`: there are `candidates` draws, all inside the
/// image, and considering them in turn leads from `before` to `after` and
/// toggles `accepted` of them.
pub open spec fn is_pass_over(
    draws: Seq<(usize, usize)>,
    target: Seq<u8>,
    before: Seq<bool>,
    after: Seq<bool>,
    accepted: int,
    width: int,
    height: int,
    kernel: Kernel,
    candidates: int,
) -> bool {
    &&& draws.len() == candidates
    &&& draws_in_image(draws, width, height)
    &&& after == pattern_after(target, before, width, height, kernel, draws)
    &&& accepted == accepted_among(target, before, width, height, kernel, draws)
}

/// Makes one pass: draws `candidates` pixels from `rng`, one after another
/// and each uniformly from the whole image, and considers each in turn.
/// Returns the number of toggles accepted.
///
/// Which pixels are drawn is up to `rng`. Whatever they are, the pattern and
/// the count that the pass ends with are those of considering exactly
/// `candidates` pixels of the image in the order of the draws, and the
/// metrics fit the pattern.
pub fn run_pass(
    target_image: &[u8],
    binary_pattern: &mut Vec<bool>,
    metrics: &mut ErrorMetrics,
    width: usize,
    height: usize,
    kernel: &Kernel,
    candidates: usize,
    rng: &mut RandomSource,
) -> (accepted: usize)
    requires
        kernel.wf(),
        width > 0,
        height > 0,
        target_image.len() == width * height,
        old(binary_pattern).len() == width * height,
        old(metrics).matches(
            target_image@,
            old(binary_pattern)@,
            width as int,
            height as int,
            *kernel,
        ),
    ensures
        accepted <= candidates,
        final(binary_pattern).len() == width * height,
        final(metrics).matches(
            target_image@,
            final(binary_pattern)@,
            width as int,
            height as int,
            *kernel,
        ),
        accepted == 0 ==> final(binary_pattern)@ == old(binary_pattern)@,
        accepted == 0 ==> final(metrics).total_error == old(metrics).total_error,
        accepted > 0 ==> final(metrics).total_error < old(metrics).total_error,
        exists|draws: Seq<(usize, usize)>| #[trigger]
            is_pass_over(
                draws,
                target_image@,
                old(binary_pattern)@,
                final(binary_pattern)@,
                accepted as int,
                width as int,
                height as int,
                *kernel,
                candidates as int,
            ),
{
    let mut accepted: usize = 0;
    let mut drawn: usize = 0;
    let ghost mut draws: Seq<(usize, usize)> = Seq::empty();
    while drawn < candidates
        invariant
            drawn <= candidates,
            accepted <= drawn,
            kernel.wf(),
            width > 0,
            height > 0,
            target_image.len() == width * height,
            binary_pattern.len() == width * height,
            metrics.matches(
                target_image@,
                binary_pattern@,
                width as int,
                height as int,
                *kernel,
            ),
            accepted == 0 ==> binary_pattern@ == old(binary_pattern)@,
            accepted == 0 ==> metrics.total_error == old(metrics).total_error,
            accepted > 0 ==> metrics.total_error < old(metrics).total_error,
            is_pass_over(
                draws,
                target_image@,
                old(binary_pattern)@,
                binary_pattern@,
                accepted as int,
                width as int,
                height as int,
                *kernel,
                drawn as int,
            ),
        decreases candidates - drawn,
    {
        let x = rng.next_below(width);
        let y = rng.next_below(height);
        let ghost earlier = draws;
        proof {
            draws = earlier.push((x, y));
            assert(draws.drop_last() =~= earlier);
            assert(draws.last() == (x, y));
        }
        if try_toggle(target_image, binary_pattern, metrics, x, y, width, height, kernel) {
            accepted = accepted + 1;
        }
        drawn = drawn + 1;
    }
    accepted
}

/// Whether a pass that accepted `accepted` toggles and brought the error
/// from `error_before` to `error_after` ends the search.
pub fn pass_converged(
    accepted: usize,
    error_before: u128,
    error_after: u128,
    min_improvement: Ratio,
) -> (converged: bool)
    requires
        error_after <= error_before < WIDE_LIMIT,
    ensures
        converged == is_converged(
            accepted as int,
            error_before as int,
            error_after as int,
            min_improvement,
        ),
{
    if accepted == 0 || error_before == 0 {
        true
    } else {
        min_improvement.is_share_below(error_before - error_after, error_before)
    }
}

/// The parameters that a search runs with where none are given.
pub open spec fn default_params() -> DbsParams {
    DbsParams { max_iterations: 10, candidate_cap: 5000, min_improvement: Ratio { num: 1, den: 1000 } }
}

/// What holds of the passes on record, whatever was drawn: the records hang
/// together from `initial_error` to `current_error`, no pass but the last
/// ended the search, and no pass accepted more toggles than it had
/// candidates.
pub open spec fn records_hold(
    passes: Seq<PassRecord>,
    initial_error: int,
    current_error: int,
    min_improvement: Ratio,
    candidates: int,
) -> bool {
    &&& passes_are_chained(passes, initial_error, current_error)
    &&& forall|i: int|
        0 <= i < passes.len() - 1 ==> !record_converged(#[trigger] passes[i], min_improvement)
    &&& forall|i: int| 0 <= i < passes.len() ==> (#[trigger] passes[i]).accepted <= candidates
}

/// The passes on record are passes over drawn pixels: `patterns` begins
/// with the thresholded image and ends with `last`, and pass `i` leads from
/// `patterns[i]` to `patterns[i + 1]` by considering the pixels `draws[i]`
/// in turn, `candidates` of them, and toggles as many as its record says.
pub open spec fn is_search_trace(
    patterns: Seq<Seq<bool>>,
    draws: Seq<Seq<(usize, usize)>>,
    passes: Seq<PassRecord>,
    last: Seq<bool>,
    input: Seq<u8>,
    threshold: u8,
    width: int,
    height: int,
    kernel: Kernel,
    candidates: int,
) -> bool {
    &&& patterns.len() == passes.len() + 1
    &&& draws.len() == passes.len()
    &&& patterns[0] == thresholded(input, threshold)
    &&& patterns[passes.len() as int] == last
    &&& forall|i: int|
        0 <= i < passes.len() ==> is_pass_over(
            #[trigger] draws[i],
            input,
            patterns[i],
            patterns[i + 1],
            passes[i].accepted as int,
            width,
            height,
            kernel,
            candidates,
        )
}

/// `outcome` is what a search of the image ends with.
///
/// The search begins with the image thresholded. Each pass considers
/// `candidates_for(width * height, params.candidate_cap)` drawn pixels in
/// turn and toggles those whose toggle lowers the perceived error; which
/// pixels are drawn is left open. The first pass that meets `is_converged`
/// is the last, and there are at most `params.max_iterations` passes; an
/// image without pixels gets none. The errors on record are the perceived
/// errors of the patterns between the passes.
pub open spec fn is_search_outcome(
    outcome: DbsOutcome,
    input: Seq<u8>,
    width: int,
    height: int,
    threshold: u8,
    kernel: Kernel,
    params: DbsParams,
) -> bool {
    let candidates = candidates_for(width * height, params.candidate_cap as int);
    &&& outcome.pattern.len() == width * height
    &&& outcome.initial_error == total_error(
        input,
        thresholded(input, threshold),
        width,
        height,
        kernel,
    )
    &&& outcome.final_error == total_error(input, outcome.pattern@, width, height, kernel)
    &&& outcome.final_error <= outcome.initial_error
    &&& (outcome.accepted == 0 <==> outcome.final_error == outcome.initial_error)
    &&& (outcome.accepted == 0 ==> outcome.pattern@ == thresholded(input, threshold))
    &&& (outcome.accepted == 0 ==> outcome.passes.len() <= 1)
    &&& outcome.passes.len() <= params.max_iterations
    &&& ((width == 0 || height == 0) ==> outcome.passes.len() == 0)
    &&& ((width > 0 && height > 0 && params.max_iterations > 0) ==> outcome.passes.len() >= 1)
    &&& records_hold(
        outcome.passes@,
        outcome.initial_error as int,
        outcome.final_error as int,
        params.min_improvement,
        candidates,
    )
    &&& (1 <= outcome.passes.len() < params.max_iterations ==> record_converged(
        outcome.passes[outcome.passes.len() - 1],
        params.min_improvement,
    ))
    &&& outcome.accepted == (if total_accepted(outcome.passes@) <= usize::MAX {
        total_accepted(outcome.passes@)
    } else {
        usize::MAX as int
    })
    &&& exists|patterns: Seq<Seq<bool>>, draws: Seq<Seq<(usize, usize)>>| #[trigger]
        is_search_trace(
            patterns,
            draws,
            outcome.passes@,
            outcome.pattern@,
            input,
            threshold,
            width,
            height,
            kernel,
            candidates,
        )
}

/// The records still hold when a pass is added to them that began with the
/// error that they ended with.
pub proof fn lemma_push_record(
    before: Seq<PassRecord>,
    record: PassRecord,
    initial_error: int,
    min_improvement: Ratio,
    candidates: int,
)
    requires
        records_hold(before, initial_error, record.error_before as int, min_improvement, candidates),
        before.len() >= 1 ==> !record_converged(before[before.len() - 1], min_improvement),
        record.error_after <= record.error_before,
        record.accepted == 0 <==> record.error_after == record.error_before,
        record.accepted <= candidates,
        0 <= total_accepted(before),
    ensures
        records_hold(
            before.push(record),
            initial_error,
            record.error_after as int,
            min_improvement,
            candidates,
        ),
        total_accepted(before.push(record)) == total_accepted(before) + record.accepted,
{
    let after = before.push(record);
    assert(after.drop_last() =~= before);
    assert(after.last() == record);
    assert forall|i: int| 0 <= i < after.len() - 1 implies !record_converged(
        #[trigger] after[i],
        min_improvement,
    ) by {
        assert(after[i] == before[i]);
    }
    assert forall|i: int| 0 <= i < after.len() implies {
        &&& (#[trigger] after[i]).error_after <= after[i].error_before
        &&& (after[i].accepted == 0 <==> after[i].error_after == after[i].error_before)
        &&& after[i].accepted <= candidates
    } by {
        if i < before.len() {
            assert(after[i] == before[i]);
        }
    }
    assert forall|i: int| 0 <= i < after.len() - 1 implies (#[trigger] after[i]).error_after
        == after[i + 1].error_before by {
        assert(after[i] == before[i]);
        if i + 1 < before.len() {
            assert(after[i + 1] == before[i + 1]);
        }
    }
}

/// The trace still holds when a pass over drawn pixels is added to it.
pub proof fn lemma_push_pass(
    patterns: Seq<Seq<bool>>,
    draws: Seq<Seq<(usize, usize)>>,
    passes: Seq<PassRecord>,
    last: Seq<bool>,
    pass_draws: Seq<(usize, usize)>,
    next: Seq<bool>,
    record: PassRecord,
    input: Seq<u8>,
    threshold: u8,
    width: int,
    height: int,
    kernel: Kernel,
    candidates: int,
)
    requires
        is_search_trace(
            patterns,
            draws,
            passes,
            last,
            input,
            threshold,
            width,
            height,
            kernel,
            candidates,
        ),
        is_pass_over(
            pass_draws,
            input,
            last,
            next,
            record.accepted as int,
            width,
            height,
            kernel,
            candidates,
        ),
    ensures
        is_search_trace(
            patterns.push(next),
            draws.push(pass_draws),
            passes.push(record),
            next,
            input,
            threshold,
            width,
            height,
            kernel,
            candidates,
        ),
{
    let patterns2 = patterns.push(next);
    let draws2 = draws.push(pass_draws);
    let passes2 = passes.push(record);
    assert forall|i: int| 0 <= i < passes2.len() implies is_pass_over(
        #[trigger] draws2[i],
        input,
        patterns2[i],
        patterns2[i + 1],
        passes2[i].accepted as int,
        width,
        height,
        kernel,
        candidates,
    ) by {
        if i < passes.len() {
            assert(is_pass_over(
                draws[i],
                input,
                patterns[i],
                patterns[i + 1],
                passes[i].accepted as int,
                width,
                height,
                kernel,
                candidates,
            ));
        }
    }
}

/// Searches for a pattern that renders the `width` by `height` image
/// `input` with less perceived error than plain thresholding does.
///
/// The search begins with the image thresholded at `threshold` and makes up
/// to `params.max_iterations` passes of `candidates_for(width * height,
/// params.candidate_cap)` candidates each; a pass that meets `is_converged`
/// ends it. An image without pixels is left alone.
pub fn direct_binary_search(
    input: &[u8],
    width: usize,
    height: usize,
    threshold: u8,
    kernel: &Kernel,
    params: &DbsParams,
    rng: &mut RandomSource,
) -> (outcome: DbsOutcome)
    requires
        kernel.wf(),
        input.len() == width * height,
    ensures
        is_search_outcome(
            outcome,
            input@,
            width as int,
            height as int,
            threshold,
            *kernel,
            *params,
        ),
{
    let mut pattern = threshold_pattern(input, threshold);
    let mut metrics = calculate_initial_error_metrics(input, &pattern, width, height, kernel);
    let initial_error = metrics.total_error;
    let mut passes: Vec<PassRecord> = Vec::new();
    let mut accepted: usize = 0;
    let ghost mut patterns: Seq<Seq<bool>> = seq![pattern@];
    let ghost mut draws: Seq<Seq<(usize, usize)>> = Seq::empty();
    if width == 0 || height == 0 {
        let outcome = DbsOutcome {
            pattern,
            passes,
            accepted,
            initial_error,
            final_error: initial_error,
        };
        proof {
            assert(is_search_trace(
                patterns,
                draws,
                outcome.passes@,
                outcome.pattern@,
                input@,
                threshold,
                width as int,
                height as int,
                *kernel,
                candidates_for(width * height, params.candidate_cap as int),
            ));
        }
        return outcome;
    }
    let pixels: usize = width * height;
    let candidates: usize = if pixels <= params.candidate_cap {
        pixels
    } else {
        params.candidate_cap
    };
    let mut converged: bool = false;
    while passes.len() < params.max_iterations && !converged
        invariant
            passes.len() <= params.max_iterations,
            kernel.wf(),
            width > 0,
            height > 0,
            input.len() == width * height,
            pattern.len() == width * height,
            metrics.matches(input@, pattern@, width as int, height as int, *kernel),
            initial_error == total_error(
                input@,
                thresholded(input@, threshold),
                width as int,
                height as int,
                *kernel,
            ),
            metrics.total_error <= initial_error,
            accepted == 0 <==> metrics.total_error == initial_error,
            accepted == 0 ==> pattern@ == thresholded(input@, threshold),
            accepted == 0 ==> passes.len() <= 1,
            converged ==> passes.len() >= 1,
            candidates == candidates_for(width * height, params.candidate_cap as int),
            records_hold(
                passes@,
                initial_error as int,
                metrics.total_error as int,
                params.min_improvement,
                candidates as int,
            ),
            passes.len() >= 1 ==> converged == record_converged(
                passes[passes.len() - 1],
                params.min_improvement,
            ),
            accepted == if total_accepted(passes@) <= usize::MAX {
                total_accepted(passes@)
            } else {
                usize::MAX as int
            },
            0 <= total_accepted(passes@),
            is_search_trace(
                patterns,
                draws,
                passes@,
                pattern@,
                input@,
                threshold,
                width as int,
                height as int,
                *kernel,
                candidates as int,
            ),
        decreases params.max_iterations - passes.len(),
    {
        let error_before = metrics.total_error;
        let ghost pattern_before = pattern@;
        proof {
            lemma_total_error_upper(input@, pattern@, width as int, height as int, *kernel);
            assert((width * height) * MAX_SQUARED_ERROR < WIDE_LIMIT) by (nonlinear_arith)
                requires
                    0 <= width * height <= 0xffff_ffff_ffff_ffff,
                    MAX_SQUARED_ERROR == 71_495_743_596_134_400,
                    WIDE_LIMIT == 0x100_0000_0000_0000_0000_0000_0000_0000,
            ;
        }
        let changes = run_pass(input, &mut pattern, &mut metrics, width, height, kernel, candidates, rng);
        accepted = if changes > usize::MAX - accepted {
            usize::MAX
        } else {
            accepted + changes
        };
        let record = PassRecord {
            accepted: changes,
            error_before,
            error_after: metrics.total_error,
        };
        proof {
            let pass_draws = choose|pass_draws: Seq<(usize, usize)>| #[trigger]
                is_pass_over(
                    pass_draws,
                    input@,
                    pattern_before,
                    pattern@,
                    changes as int,
                    width as int,
                    height as int,
                    *kernel,
                    candidates as int,
                );
            lemma_push_record(
                passes@,
                record,
                initial_error as int,
                params.min_improvement,
                candidates as int,
            );
            lemma_push_pass(
                patterns,
                draws,
                passes@,
                pattern_before,
                pass_draws,
                pattern@,
                record,
                input@,
                threshold,
                width as int,
                height as int,
                *kernel,
                candidates as int,
            );
            patterns = patterns.push(pattern@);
            draws = draws.push(pass_draws);
        }
        passes.push(record);
        converged = pass_converged(changes, error_before, metrics.total_error, params.min_improvement);
    }
    let final_error = metrics.total_error;
    DbsOutcome { pattern, passes, accepted, initial_error, final_error }
}

/// `output` renders, four bytes a pixel, the pattern that a search of the
/// image with the default parameters ends with.
pub open spec fn renders_search_result(
    output: Seq<u8>,
    input: Seq<u8>,
    width: int,
    height: int,
    threshold: u8,
    kernel: Kernel,
) -> bool {
    exists|outcome: DbsOutcome| #[trigger]
        is_search_outcome(outcome, input, width, height, threshold, kernel, default_params())
            && is_rgba_of(output, outcome.pattern@)
}

/// Dithers the `width` by `height` image `input` by direct binary search
/// with the default parameters, and renders the result as four bytes a
/// pixel.
pub fn direct_binary_search_dither(
    input: &[u8],
    width: usize,
    height: usize,
    threshold: u8,
    kernel: &Kernel,
    rng: &mut RandomSource,
) -> (output: Vec<u8>)
    requires
        kernel.wf(),
        input.len() == width * height,
        4 * (width * height) <= usize::MAX,
    ensures
        renders_search_result(output@, input@, width as int, height as int, threshold, *kernel),
{
    let params = DbsParams::default();
    assert(params == default_params());
    let outcome = direct_binary_search(input, width, height, threshold, kernel, &params, rng);
    let output = render_rgba(&outcome.pattern);
    proof {
        assert(is_search_outcome(
            outcome,
            input@,
            width as int,
            height as int,
            threshold,
            *kernel,
            default_params(),
        ) && is_rgba_of(output@, outcome.pattern@));
    }
    output
}

} // verus!
