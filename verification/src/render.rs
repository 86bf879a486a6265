//! The pass schedule of the renderer and the colour of each pixel.
use vstd::prelude::*;
use vstd::arithmetic::power2::{pow2, lemma_pow2_adds, lemma2_to64};
use vstd::bits::lemma_usize_shl_is_mul;
use crate::qimage::QImageFormat;
use crate::text::{decimal, signed_decimal, push_decimal, push_signed_decimal};

verus! {

/// Number of rendering passes; each pass gives every point four times the
/// iteration budget of the pass before it.
pub const NUM_PASSES: i32 = 8;

/// Number of entries of the colour map.
pub const COLOR_MAP_SIZE: usize = 512;

/// The iteration budget of pass `pass`: `2^(2 * pass + 6) + 1`.
pub open spec fn budget(pass: int) -> int {
    pow2((2 * pass + 6) as nat) as int + 1
}

/// The iteration budget of pass `pass`, `(1 << (2 * pass + 6)) + 1`.
pub fn max_iterations(pass: i32) -> (res: usize)
    requires
        0 <= pass < NUM_PASSES,
    ensures
        res == budget(pass as int),
{
    let shift: usize = (2 * pass + 6) as usize;
    proof {
        lemma2_to64();
        lemma_usize_shl_is_mul(1, shift);
    }
    (1usize << shift) + 1
}

/// Each pass quadruples the iteration budget of the pass before it (less the
/// one extra step that every budget carries), and the first budget is 65.
pub proof fn lemma_budget_quadruples(pass: int)
    requires
        0 <= pass,
    ensures
        budget(pass + 1) - 1 == 4 * (budget(pass) - 1),
        budget(0) == 65,
{
    lemma_pow2_adds((2 * pass + 6) as nat, 2);
    lemma2_to64();
}


/// The colour of a point that stayed bounded for the whole iteration budget.
pub const OPAQUE_BLACK: u32 = 0xFF00_0000;

/// Half of an image extent, rounded toward zero as `i32` division does.
pub open spec fn half_of(size: int) -> int {
    if size >= 0 {
        size / 2
    } else {
        -((-size) / 2)
    }
}

/// The colour of a point that took `iterations` steps under a budget of `max`:
/// black when the budget was reached, else the colour-map entry the count selects.
pub open spec fn colour_of(iterations: int, max: int, color_map: Seq<u32>) -> u32 {
    if iterations < max {
        color_map[iterations % (COLOR_MAP_SIZE as int)]
    } else {
        OPAQUE_BLACK
    }
}

/// Whether some point of a row escaped within the budget.
pub open spec fn escaped_within(iterations: Seq<usize>, max: int) -> bool {
    exists|i: int| 0 <= i < iterations.len() && iterations[i] < max
}

/// The colour of a point given its iteration count and the pass's budget.
pub fn pixel_color(
    num_iterations: usize,
    max_iterations: usize,
    color_map: &[u32; COLOR_MAP_SIZE],
) -> (res: u32)
    ensures
        res == colour_of(num_iterations as int, max_iterations as int, color_map@),
        num_iterations >= max_iterations ==> res == 0xFF00_0000,
        num_iterations < max_iterations && num_iterations < 512 ==> res
            == color_map@[num_iterations as int],
        num_iterations < max_iterations && 512 <= num_iterations < 1024 ==> res
            == color_map@[num_iterations - 512],
{
    if num_iterations < max_iterations {
        color_map[num_iterations % COLOR_MAP_SIZE]
    } else {
        OPAQUE_BLACK
    }
}

/// What a rendered row leaves behind.
pub struct RowShade {
    /// The colour of each point of the row, left to right: the colour of
    /// point `i` goes to column `i` of the row's scan line.
    pub colors: Vec<u32>,
    /// Whether some point of the row escaped within the budget.
    pub escaped: bool,
}

/// Shades one row from the iteration counts of its points, left to right:
/// the point at `x` (the `x + half_width`-th of the row) is drawn in column
/// `x + half_width` of the scan line.
pub fn shade_row(
    iterations: &[usize],
    max_iterations: usize,
    color_map: &[u32; COLOR_MAP_SIZE],
) -> (res: RowShade)
    ensures
        res.colors@.len() == iterations@.len(),
        forall|i: int|
            0 <= i < iterations@.len() ==> #[trigger] res.colors@[i] == colour_of(
                iterations@[i] as int,
                max_iterations as int,
                color_map@,
            ),
        res.escaped == escaped_within(iterations@, max_iterations as int),
        forall|i: int|
            0 <= i < iterations@.len() && #[trigger] iterations@[i] < max_iterations
                ==> res.escaped,
        res.escaped ==> exists|i: int|
            0 <= i < iterations@.len() && #[trigger] iterations@[i] < max_iterations,
{
    let mut colors: Vec<u32> = Vec::new();
    let mut escaped = false;
    let mut i: usize = 0;
    while i < iterations.len()
        invariant
            i <= iterations@.len(),
            colors@.len() == i,
            forall|j: int|
                0 <= j < i ==> #[trigger] colors@[j] == colour_of(
                    iterations@[j] as int,
                    max_iterations as int,
                    color_map@,
                ),
            escaped == (exists|j: int| 0 <= j < i && iterations@[j] < max_iterations),
        decreases iterations@.len() - i,
    {
        let n = iterations[i];
        colors.push(pixel_color(n, max_iterations, color_map));
        if n < max_iterations {
            escaped = true;
        }
        i = i + 1;
    }
    RowShade { colors, escaped }
}

/// What the renderer does before a row, given the flags it reads there.
#[derive(PartialEq, Eq, Structural, Clone, Copy, Debug)]
pub enum RowStep {
    /// Render the row.
    Render,
    /// A new request came in: leave the rows of this pass.
    Restart,
    /// The renderer is shutting down: leave at once.
    Abort,
}

/// The step before a row: a pending restart is seen before an abort.
pub fn row_step(restart: bool, abort: bool) -> (res: RowStep)
    ensures
        res == (if restart {
            RowStep::Restart
        } else if abort {
            RowStep::Abort
        } else {
            RowStep::Render
        }),
{
    if restart {
        RowStep::Restart
    } else if abort {
        RowStep::Abort
    } else {
        RowStep::Render
    }
}

/// How a render request is served.
#[derive(PartialEq, Eq, Structural, Clone, Copy, Debug)]
pub enum RenderStart {
    /// The render thread runs: raise its restart flag and wake it.
    Restart,
    /// No render thread yet: start one.
    Spawn,
}

/// How a request is served by a worker that is, or is not, running.
pub open spec fn start_of(running: bool) -> RenderStart {
    if running {
        RenderStart::Restart
    } else {
        RenderStart::Spawn
    }
}

/// How `n` successive requests are served, the worker running or not at first.
pub open spec fn starts(running: bool, n: nat) -> Seq<RenderStart>
    decreases n,
{
    if n == 0 {
        Seq::empty()
    } else {
        seq![start_of(running)] + starts(true, (n - 1) as nat)
    }
}

/// Whether the render thread of a renderer has been started; its view is
/// whether it runs.
pub struct RenderWorker {
    running: bool,
}

impl View for RenderWorker {
    type V = bool;

    closed spec fn view(&self) -> bool {
        self.running
    }
}

impl RenderWorker {
    /// A renderer whose thread is not started yet.
    pub fn new() -> (res: RenderWorker)
        ensures
            !res@,
    {
        RenderWorker { running: false }
    }

    /// Whether the render thread runs.
    pub fn is_running(&self) -> (res: bool)
        ensures
            res == self@,
    {
        self.running
    }

    /// Serves a render request: the first one starts the thread, every later
    /// one restarts it; afterwards the thread runs.
    pub fn request(&mut self) -> (res: RenderStart)
        ensures
            res == start_of(old(self)@),
            final(self)@,
    {
        let res = if self.running {
            RenderStart::Restart
        } else {
            RenderStart::Spawn
        };
        self.running = true;
        res
    }
}

/// A renderer starts its thread at most once: of any run of requests on a
/// new renderer, the first starts the thread and every other restarts it.
pub proof fn lemma_single_spawn(n: nat)
    ensures
        starts(false, n).len() == n,
        n >= 1 ==> starts(false, n)[0] == RenderStart::Spawn,
        forall|i: int| 1 <= i < n ==> #[trigger] starts(false, n)[i] == RenderStart::Restart,
{
    if n >= 1 {
        lemma_restarts_only((n - 1) as nat);
        assert forall|i: int| 1 <= i < n implies #[trigger] starts(false, n)[i]
            == RenderStart::Restart by {
            assert(starts(false, n)[i] == starts(true, (n - 1) as nat)[i - 1]);
        }
    }
}

/// Requests served while the thread runs all restart it.
proof fn lemma_restarts_only(n: nat)
    ensures
        starts(true, n).len() == n,
        forall|i: int| 0 <= i < n ==> #[trigger] starts(true, n)[i] == RenderStart::Restart,
    decreases n,
{
    if n >= 1 {
        lemma_restarts_only((n - 1) as nat);
        assert forall|i: int| 0 <= i < n implies #[trigger] starts(true, n)[i]
            == RenderStart::Restart by {
            if i >= 1 {
                assert(starts(true, n)[i] == starts(true, (n - 1) as nat)[i - 1]);
            }
        }
    }
}

/// Whether the render thread sleeps once a request's passes are over: it does
/// unless a new request came in meanwhile.
pub fn should_park(restart: bool) -> (res: bool)
    ensures
        res == !restart,
{
    !restart
}


/// The state of a render request, as the specifications see it.
pub struct JobState {
    /// Half the image width: points run from `-half_width` to `half_width - 1`.
    pub half_width: int,
    /// Half the image height: rows run from `-half_height` to `half_height - 1`.
    pub half_height: int,
    /// The current pass; `NUM_PASSES` once the request is rendered.
    pub pass: int,
    /// Whether no point of the current pass has escaped so far.
    pub all_black: bool,
    /// For each pass ended so far: whether it stayed all black, and whether
    /// a restart was seen at its end.
    pub outcomes: Seq<(bool, bool)>,
}

/// The pass that follows `pass`: a first pass in which no point escaped is
/// followed by pass 4 (the image is black at low budgets, so the renderer
/// skips ahead), any other by the next one.
pub open spec fn next_pass(pass: int, all_black: bool) -> int {
    if all_black && pass == 0 {
        4
    } else {
        pass + 1
    }
}

/// Whether the image of a pass is published: not after an all-black first
/// pass, and not when a new request came in.
pub open spec fn publishes(pass: int, all_black: bool, restart: bool) -> bool {
    !(all_black && pass == 0) && !restart
}

/// What is published at the end of a pass: its number, counted from one,
/// and its iteration budget.
#[derive(PartialEq, Eq, Structural, Clone, Copy, Debug)]
pub struct PassReport {
    pub pass_number: i32,
    pub max_iterations: usize,
}

/// The pass numbers published at the end of pass `pass`: its number when
/// it publishes, none otherwise.
pub open spec fn published_at(pass: int, all_black: bool, restart: bool) -> Seq<int> {
    if publishes(pass, all_black, restart) {
        seq![pass + 1]
    } else {
        Seq::empty()
    }
}

/// The pass numbers published by a request from pass `pass` on, given for
/// each pass it goes through whether it stayed all black and whether a
/// restart was seen at its end; it stops when the outcomes run out.
pub open spec fn published(pass: int, outcomes: Seq<(bool, bool)>) -> Seq<int>
    decreases NUM_PASSES - pass,
{
    if pass < 0 || pass >= NUM_PASSES || outcomes.len() == 0 {
        Seq::empty()
    } else {
        let (all_black, restart) = outcomes[0];
        published_at(pass, all_black, restart) + published(
            next_pass(pass, all_black),
            outcomes.drop_first(),
        )
    }
}

/// The pass a request reaches from pass `pass` through the given outcomes,
/// stopping once every pass is rendered.
pub open spec fn pass_after(pass: int, outcomes: Seq<(bool, bool)>) -> int
    decreases outcomes.len(),
{
    if pass < 0 || pass >= NUM_PASSES || outcomes.len() == 0 {
        pass
    } else {
        pass_after(next_pass(pass, outcomes[0].0), outcomes.drop_first())
    }
}

/// Ending one more pass extends what a request published by what that pass
/// publishes.
pub proof fn lemma_published_extends(
    pass: int,
    outcomes: Seq<(bool, bool)>,
    all_black: bool,
    restart: bool,
)
    requires
        0 <= pass,
        pass_after(pass, outcomes) < NUM_PASSES,
    ensures
        published(pass, outcomes.push((all_black, restart))) == published(pass, outcomes)
            + published_at(pass_after(pass, outcomes), all_black, restart),
        pass_after(pass, outcomes.push((all_black, restart))) == next_pass(
            pass_after(pass, outcomes),
            all_black,
        ),
    decreases outcomes.len(),
{
    let longer = outcomes.push((all_black, restart));
    if outcomes.len() == 0 {
        assert(longer[0] == (all_black, restart));
        assert(longer.drop_first() =~= Seq::<(bool, bool)>::empty());
        assert(published(next_pass(pass, all_black), longer.drop_first()) =~= Seq::<int>::empty());
        assert(pass_after(next_pass(pass, all_black), longer.drop_first()) == next_pass(
            pass,
            all_black,
        ));
        assert(published(pass, longer) =~= published(pass, outcomes) + published_at(
            pass,
            all_black,
            restart,
        ));
    } else {
        assert(longer[0] == outcomes[0]);
        assert(longer.drop_first() =~= outcomes.drop_first().push((all_black, restart)));
        lemma_published_extends(
            next_pass(pass, outcomes[0].0),
            outcomes.drop_first(),
            all_black,
            restart,
        );
        assert(pass_after(pass, longer) == pass_after(
            next_pass(pass, outcomes[0].0),
            outcomes.drop_first().push((all_black, restart)),
        ));
        assert(published(pass, longer) =~= published(pass, outcomes) + published_at(
            pass_after(pass, outcomes),
            all_black,
            restart,
        ));
    }
}

/// One render request: its extents and where it stands in the pass schedule.
pub struct RenderJob {
    half_width: i32,
    half_height: i32,
    pass: i32,
    all_black: bool,
    outcomes: Ghost<Seq<(bool, bool)>>,
}

impl View for RenderJob {
    type V = JobState;

    closed spec fn view(&self) -> JobState {
        JobState {
            half_width: self.half_width as int,
            half_height: self.half_height as int,
            pass: self.pass as int,
            all_black: self.all_black,
            outcomes: self.outcomes@,
        }
    }
}

impl RenderJob {
    #[verifier::type_invariant]
    spec fn inv(self) -> bool {
        &&& 0 <= self.pass <= NUM_PASSES
        &&& self.pass == pass_after(0, self.outcomes@)
        &&& -0x4000_0000 <= self.half_width < 0x4000_0000
        &&& -0x4000_0000 <= self.half_height < 0x4000_0000
    }

    /// A request for an image of `result_width` by `result_height` pixels,
    /// before its first pass.
    pub fn new(result_width: i32, result_height: i32) -> (job: RenderJob)
        ensures
            job@ == (JobState {
                half_width: half_of(result_width as int),
                half_height: half_of(result_height as int),
                pass: 0,
                all_black: true,
                outcomes: Seq::empty(),
            }),
            0 <= job@.pass <= NUM_PASSES,
            result_width >= 0 ==> 2 * job@.half_width <= result_width < 2 * job@.half_width + 2,
            result_height >= 0 ==> 2 * job@.half_height <= result_height < 2 * job@.half_height
                + 2,
            result_width < 0 ==> result_width <= 2 * job@.half_width < result_width + 2,
            result_height < 0 ==> result_height <= 2 * job@.half_height < result_height + 2,
    {
        RenderJob {
            half_width: result_width / 2,
            half_height: result_height / 2,
            pass: 0,
            all_black: true,
            outcomes: Ghost(Seq::empty()),
        }
    }

    /// The format in which the renderer creates its images: 32-bit RGB.
    pub fn image_format() -> (res: QImageFormat)
        ensures
            res == QImageFormat::Format_RGB32,
    {
        QImageFormat::Format_RGB32
    }

    /// Half the image width.
    pub fn half_width(&self) -> (res: i32)
        ensures
            res == self@.half_width,
    {
        self.half_width
    }

    /// Half the image height.
    pub fn half_height(&self) -> (res: i32)
        ensures
            res == self@.half_height,
    {
        self.half_height
    }

    /// The current pass.
    pub fn pass(&self) -> (res: i32)
        ensures
            res == self@.pass,
            res == pass_after(0, self@.outcomes),
            0 <= res <= NUM_PASSES,
    {
        proof {
            use_type_invariant(self);
        }
        self.pass
    }

    /// Whether passes remain to be rendered.
    pub fn in_progress(&self) -> (res: bool)
        ensures
            res == (self@.pass < NUM_PASSES),
    {
        self.pass < NUM_PASSES
    }

    /// The rows of every pass, `-half_height` up to but excluding `half_height`.
    pub fn rows(&self) -> (res: (i32, i32))
        ensures
            res.0 == -self@.half_height,
            res.1 == self@.half_height,
    {
        proof {
            use_type_invariant(self);
        }
        (-self.half_height, self.half_height)
    }

    /// The points of every row, `-half_width` up to but excluding `half_width`.
    pub fn columns(&self) -> (res: (i32, i32))
        ensures
            res.0 == -self@.half_width,
            res.1 == self@.half_width,
    {
        proof {
            use_type_invariant(self);
        }
        (-self.half_width, self.half_width)
    }

    /// The scan line of the image that row `y` is written to.
    pub fn scan_line(&self, y: i32) -> (res: i32)
        requires
            -self@.half_height <= y < self@.half_height,
        ensures
            res == y + self@.half_height,
            0 <= res < 2 * self@.half_height,
    {
        proof {
            use_type_invariant(self);
        }
        y + self.half_height
    }

    /// The column of the image that the point at `x` is drawn in.
    pub fn column(&self, x: i32) -> (res: i32)
        requires
            -self@.half_width <= x < self@.half_width,
        ensures
            res == x + self@.half_width,
            0 <= res < 2 * self@.half_width,
    {
        proof {
            use_type_invariant(self);
        }
        x + self.half_width
    }

    /// Starts the current pass and returns its iteration budget.
    pub fn begin_pass(&mut self) -> (res: usize)
        requires
            old(self)@.pass < NUM_PASSES,
        ensures
            final(self)@ == (JobState { all_black: true, ..old(self)@ }),
            0 <= final(self)@.pass < NUM_PASSES,
            res == budget(old(self)@.pass),
    {
        proof {
            use_type_invariant(&*self);
        }
        self.all_black = true;
        max_iterations(self.pass)
    }

    /// Takes note of a rendered row.
    pub fn record_row(&mut self, shade: &RowShade)
        ensures
            final(self)@ == (JobState { all_black: old(self)@.all_black && !shade.escaped, ..old(self)@ }),
            0 <= final(self)@.pass <= NUM_PASSES,
    {
        proof {
            use_type_invariant(&*self);
        }
        if shade.escaped {
            self.all_black = false;
        }
    }

    /// Ends the current pass, given whether a new request came in, and moves
    /// to the next pass; returns what is to be published, if anything.
    pub fn end_pass(&mut self, restart: bool) -> (res: Option<PassReport>)
        requires
            old(self)@.pass < NUM_PASSES,
        ensures
            final(self)@ == (JobState {
                pass: next_pass(old(self)@.pass, old(self)@.all_black),
                outcomes: old(self)@.outcomes.push((old(self)@.all_black, restart)),
                ..old(self)@
            }),
            res == (if publishes(old(self)@.pass, old(self)@.all_black, restart) {
                Some(PassReport {
                    pass_number: (old(self)@.pass + 1) as i32,
                    max_iterations: budget(old(self)@.pass) as usize,
                })
            } else {
                None::<PassReport>
            }),
            published(0, final(self)@.outcomes) == published(0, old(self)@.outcomes)
                + published_at(old(self)@.pass, old(self)@.all_black, restart),
            0 <= old(self)@.pass < final(self)@.pass <= NUM_PASSES,
            restart ==> res is None,
            !restart && !(old(self)@.all_black && old(self)@.pass == 0) ==> res is Some,
    {
        proof {
            use_type_invariant(&*self);
            lemma_published_extends(0, self.outcomes@, self.all_black, restart);
        }
        let ghost outcomes = self.outcomes@.push((self.all_black, restart));
        if self.all_black && self.pass == 0 {
            *self = RenderJob {
                half_width: self.half_width,
                half_height: self.half_height,
                pass: 4,
                all_black: self.all_black,
                outcomes: Ghost(outcomes),
            };
            None
        } else {
            let report = if !restart {
                Some(PassReport { pass_number: self.pass + 1, max_iterations: max_iterations(self.pass) })
            } else {
                None
            };
            *self = RenderJob {
                half_width: self.half_width,
                half_height: self.half_height,
                pass: self.pass + 1,
                all_black: self.all_black,
                outcomes: Ghost(outcomes),
            };
            report
        }
    }
}


/// The pass numbers `first`, `first + 1`, ..., `NUM_PASSES`.
pub open spec fn numbers_from(first: int) -> Seq<int> {
    Seq::new((NUM_PASSES + 1 - first) as nat, |i: int| first + i)
}

/// Whatever each pass brings, a request publishes its passes in increasing
/// order, each numbered within `1..=NUM_PASSES`, and so publishes at most
/// `NUM_PASSES` images.
pub proof fn lemma_published_increasing(pass: int, outcomes: Seq<(bool, bool)>)
    requires
        0 <= pass <= NUM_PASSES,
    ensures
        published(pass, outcomes).len() <= NUM_PASSES - pass,
        forall|i: int|
            0 <= i < published(pass, outcomes).len() ==> pass < #[trigger] published(
                pass,
                outcomes,
            )[i] <= NUM_PASSES,
        forall|i: int, j: int|
            0 <= i < j < published(pass, outcomes).len() ==> published(pass, outcomes)[i]
                < published(pass, outcomes)[j],
    decreases NUM_PASSES - pass,
{
    if pass < NUM_PASSES {
        let (all_black, restart) = outcomes[0];
        lemma_published_increasing(next_pass(pass, all_black), outcomes.drop_first());
    }
}

/// A request that sees no restart publishes the passes 1 to `NUM_PASSES`
/// from `pass` on, when `pass` is past the first one.
proof fn lemma_later_passes_all_published(pass: int, outcomes: Seq<(bool, bool)>)
    requires
        1 <= pass <= NUM_PASSES,
        outcomes.len() >= NUM_PASSES - pass,
        forall|i: int| 0 <= i < outcomes.len() ==> !(#[trigger] outcomes[i]).1,
    ensures
        published(pass, outcomes) == numbers_from(pass + 1),
    decreases NUM_PASSES - pass,
{
    if pass < NUM_PASSES {
        let rest = outcomes.drop_first();
        assert(!outcomes[0].1);
        assert forall|i: int| 0 <= i < rest.len() implies !(#[trigger] rest[i]).1 by {
            assert(rest[i] == outcomes[i + 1]);
        }
        lemma_later_passes_all_published(pass + 1, rest);
        assert(published(pass, outcomes) =~= numbers_from(pass + 1));
    } else {
        assert(published(pass, outcomes) =~= numbers_from(pass + 1));
    }
}

/// Like `lemma_later_passes_all_published`, for outcomes that carry a request
/// from `pass` to its end.
proof fn lemma_later_passes_published_to_end(pass: int, outcomes: Seq<(bool, bool)>)
    requires
        1 <= pass <= NUM_PASSES,
        pass_after(pass, outcomes) == NUM_PASSES,
        forall|i: int| 0 <= i < outcomes.len() ==> !(#[trigger] outcomes[i]).1,
    ensures
        published(pass, outcomes) == numbers_from(pass + 1),
    decreases NUM_PASSES - pass,
{
    if pass < NUM_PASSES {
        let rest = outcomes.drop_first();
        assert(outcomes.len() > 0);
        assert(!outcomes[0].1);
        assert forall|i: int| 0 <= i < rest.len() implies !(#[trigger] rest[i]).1 by {
            assert(rest[i] == outcomes[i + 1]);
        }
        lemma_later_passes_published_to_end(pass + 1, rest);
        assert(published(pass, outcomes) =~= numbers_from(pass + 1));
    } else {
        assert(published(pass, outcomes) =~= numbers_from(pass + 1));
    }
}

/// A request that runs to its end without seeing a restart publishes every
/// pass, numbered 1 to `NUM_PASSES`; when no point escapes in its first pass
/// it publishes only the passes numbered 5 to `NUM_PASSES`.
pub proof fn lemma_schedule_of_finished_request(outcomes: Seq<(bool, bool)>)
    requires
        pass_after(0, outcomes) == NUM_PASSES,
        forall|i: int| 0 <= i < outcomes.len() ==> !(#[trigger] outcomes[i]).1,
    ensures
        published(0, outcomes) == (if outcomes[0].0 {
            numbers_from(5)
        } else {
            numbers_from(1)
        }),
{
    let rest = outcomes.drop_first();
    assert(outcomes.len() > 0);
    assert(!outcomes[0].1);
    assert forall|i: int| 0 <= i < rest.len() implies !(#[trigger] rest[i]).1 by {
        assert(rest[i] == outcomes[i + 1]);
    }
    if outcomes[0].0 {
        lemma_later_passes_published_to_end(4, rest);
        assert(published(0, outcomes) =~= numbers_from(5));
    } else {
        lemma_later_passes_published_to_end(1, rest);
        assert(published(0, outcomes) =~= numbers_from(1));
    }
}

/// A request that sees no restart publishes every pass, numbered 1 to
/// `NUM_PASSES`; when no point escapes in its first pass it publishes only
/// the passes numbered 5 to `NUM_PASSES`.
pub proof fn lemma_schedule_without_restart(outcomes: Seq<(bool, bool)>)
    requires
        outcomes.len() >= NUM_PASSES,
        forall|i: int| 0 <= i < outcomes.len() ==> !(#[trigger] outcomes[i]).1,
    ensures
        published(0, outcomes) == (if outcomes[0].0 {
            numbers_from(5)
        } else {
            numbers_from(1)
        }),
{
    let rest = outcomes.drop_first();
    assert(!outcomes[0].1);
    assert forall|i: int| 0 <= i < rest.len() implies !(#[trigger] rest[i]).1 by {
        assert(rest[i] == outcomes[i + 1]);
    }
    if outcomes[0].0 {
        lemma_later_passes_all_published(4, rest);
        assert(published(0, outcomes) =~= numbers_from(5));
    } else {
        lemma_later_passes_all_published(1, rest);
        assert(published(0, outcomes) =~= numbers_from(1));
    }
}


/// The opaque `QRgb` (`0xAARRGGBB` with alpha 0xFF) of three channel values.
pub open spec fn qrgb_of(r: int, g: int, b: int) -> int {
    0xFF00_0000 + r * 0x1_0000 + g * 0x100 + b
}

/// Packs red, green and blue channel values, each in `0..=255`, into an
/// opaque `QRgb`.
pub fn qrgb(r: u32, g: u32, b: u32) -> (res: u32)
    requires
        r <= 255,
        g <= 255,
        b <= 255,
    ensures
        res == qrgb_of(r as int, g as int, b as int),
        res == 0xFF00_0000u32 | (r << 16u32) | (g << 8u32) | b,
{
    let res: u32 = 0xFF00_0000u32 | (r << 16u32) | (g << 8u32) | b;
    assert(res == 0xFF00_0000 + r * 0x1_0000 + g * 0x100 + b) by (bit_vector)
        requires
            res == 0xFF00_0000u32 | (r << 16u32) | (g << 8u32) | b,
            r <= 255,
            g <= 255,
            b <= 255,
    ;
    res
}

/// The text attached to the image of a pass:
/// `Pass <number> / <NUM_PASSES>, max iterations: <budget>`.
pub open spec fn pass_text(pass_number: int, max_iterations: int) -> Seq<char> {
    "Pass "@ + signed_decimal(pass_number) + " / "@ + signed_decimal(NUM_PASSES as int)
        + ", max iterations: "@ + decimal(max_iterations as nat)
}

impl PassReport {
    /// The text attached to the published image.
    pub fn message(&self) -> (res: String)
        ensures
            res@ == pass_text(self.pass_number as int, self.max_iterations as int),
    {
        let mut text = String::new();
        text.append("Pass ");
        push_signed_decimal(&mut text, self.pass_number);
        text.append(" / ");
        push_signed_decimal(&mut text, NUM_PASSES);
        text.append(", max iterations: ");
        push_decimal(&mut text, self.max_iterations as u64);
        text
    }
}

/// The colour of a point: opaque black once the budget is reached, else the
/// colour-map entry of its count, the first 512 counts taking the entries in
/// order and every further 512 counts starting the map over.
pub proof fn lemma_colour_of_point(n: int, max: int, color_map: Seq<u32>)
    requires
        0 <= n,
        color_map.len() == 512,
    ensures
        n >= max ==> colour_of(n, max, color_map) == 0xFF00_0000,
        n < max && n < 512 ==> colour_of(n, max, color_map) == color_map[n],
        n + 512 < max ==> colour_of(n + 512, max, color_map) == colour_of(n, max, color_map),
{
}

/// A row escapes as soon as any one of its points, wherever it stands, has a
/// count below the budget, and only then.
pub proof fn lemma_row_escapes(iterations: Seq<usize>, max: int)
    ensures
        forall|i: int|
            0 <= i < iterations.len() && #[trigger] iterations[i] < max ==> escaped_within(
                iterations,
                max,
            ),
        !escaped_within(iterations, max) ==> forall|i: int|
            0 <= i < iterations.len() ==> #[trigger] iterations[i] >= max,
{
}

/// A pass that ends with a restart pending publishes nothing, whatever its
/// number and its pixels; without one, every pass but an all-black first
/// pass is published.
pub proof fn lemma_restart_publishes_nothing(pass: int, all_black: bool, restart: bool)
    ensures
        restart ==> !publishes(pass, all_black, restart),
        restart ==> published_at(pass, all_black, restart) == Seq::<int>::empty(),
        !restart && pass != 0 ==> publishes(pass, all_black, restart),
        !restart && !all_black ==> publishes(pass, all_black, restart),
        all_black && pass == 0 ==> !publishes(pass, all_black, restart),
{
}

/// Half an extent is the extent divided by two, rounded toward zero: twice
/// it falls short of the extent by 0 or 1, and it is odd in the extent.
pub proof fn lemma_half_extent(size: int)
    ensures
        size >= 0 ==> 2 * half_of(size) <= size < 2 * half_of(size) + 2,
        size < 0 ==> size <= 2 * half_of(size) < size + 2,
        half_of(-size) == -half_of(size),
{
}

} // verus!
