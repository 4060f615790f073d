//! The simulation engine: the one owner of the authoritative grid, its
//! control-message protocol, and the step scheduler.
//!
//! The engine's whole per-iteration behavior is a function of its state, the
//! control messages drained at the start of the iteration, and the current
//! reading of the monotonic clock: `tick_with` pins it down exactly over the
//! ghost model `EngineModel`. Timing is fixed-point: the evolution rate is an
//! integer number of evolutions per 100 time-units, and a generation is due
//! as soon as `10000 * (count + 1) <= elapsed_ms * rate`, so the long-run
//! average rate converges without drift. Frame pacing is independent of the
//! evolution check: every iteration ends with a sleep that holds the loop at
//! the target iteration frequency, keeping the control channel responsive.

use vstd::arithmetic::div_mod::{lemma_div_is_ordered, lemma_div_multiples_vanish};
use vstd::arithmetic::mul::lemma_mul_upper_bound;
use vstd::prelude::*;

use rand::Rng;

use crate::channel::ThreadChannel;
use crate::grid::{stepped, CellState, Grid, Position, GRID_MAX};

verus! {

/// Share of grid positions drawn as live-cell candidates at construction.
pub const LIVE_CELL_PERCENT: usize = 50;

/// The largest evolution counter the scheduler can ever reach: it advances
/// only while `10000 * (count + 1) <= elapsed_ms * rate`, and both factors
/// on the right fit in 64 bits.
pub const MAX_EVOLUTIONS: u128 = 0xFFFF_FFFF_FFFF_FFFF * 0xFFFF_FFFF_FFFF_FFFF / 10000;

/// A message on the engine's channel: the diff payload travelling outward,
/// and the control commands travelling inward.
#[derive(Clone, Debug)]
pub enum Message {
    /// The cells whose state changed in one generation, with their new
    /// states — or, once at startup, the full initial live set.
    CellTransitions(Vec<(Position, CellState)>),
    /// Sets the evolution rate, in evolutions per 100 time-units, and resets
    /// the timing base.
    EvolutionRateChange(u64),
    /// Flips the paused flag; counters keep running.
    TogglePlay,
    /// Advances exactly this many generations at once, paused or not.
    Evolve(usize),
}

/// Rejected construction parameters.
#[derive(Clone, Copy, Debug, PartialEq, Eq, Structural)]
pub enum ConfigError {
    /// A zero target refresh rate would divide the frame deadline by zero;
    /// it is rejected at construction rather than discovered mid-run.
    ZeroRefreshRate,
}

/// The mathematical state of the engine: the grid contents plus every
/// scheduling register.
pub ghost struct EngineModel {
    pub grid: Seq<Seq<CellState>>,
    pub grid_size: int,
    pub evolution_rate: int,
    pub evolution_count: int,
    pub clock_base_us: int,
    pub frame_count: int,
    pub target_refresh_rate: int,
    pub is_paused: bool,
}

/// Microseconds on the engine's clock since the last timing reset, clamped
/// below at zero.
pub open spec fn elapsed_us_spec(m: EngineModel, now_us: int) -> int {
    if now_us >= m.clock_base_us {
        now_us - m.clock_base_us
    } else {
        0
    }
}

/// The elapsed time in whole milliseconds.
pub open spec fn elapsed_ms_spec(m: EngineModel, now_us: int) -> int {
    elapsed_us_spec(m, now_us) / 1000
}

/// Whether the target time for the next generation has passed: with a rate
/// of `r` evolutions per 100 time-units and `c` evolutions already emitted
/// since the last reset, advance once `10000 * (c + 1) <= elapsed_ms * r`.
pub open spec fn evolution_due(m: EngineModel, now_us: int) -> bool {
    10000 * (m.evolution_count + 1) <= elapsed_ms_spec(m, now_us) * m.evolution_rate
}

/// The grid advanced `k` generations.
pub open spec fn step_grid_n(g: Seq<Seq<CellState>>, n: int, k: nat) -> Seq<Seq<CellState>>
    decreases k,
{
    if k == 0 {
        g
    } else {
        stepped(step_grid_n(g, n, (k - 1) as nat), n)
    }
}

/// What one control message does to the engine state. A rate change resets
/// the internal clock and both counters; TogglePlay flips the paused flag
/// without resetting anything; Evolve advances the grid immediately,
/// irrespective of the paused flag; a diff payload is not a command and is
/// ignored.
pub open spec fn apply_message_model(m: EngineModel, message: Message, now_us: int) -> EngineModel {
    match message {
        Message::EvolutionRateChange(rate) => EngineModel {
            evolution_rate: rate as int,
            evolution_count: 0,
            frame_count: 0,
            clock_base_us: now_us,
            ..m
        },
        Message::TogglePlay => EngineModel { is_paused: !m.is_paused, ..m },
        Message::Evolve(generations) => EngineModel {
            grid: step_grid_n(m.grid, m.grid_size, generations as nat),
            ..m
        },
        Message::CellTransitions(_) => m,
    }
}

/// A whole drained batch of control messages, applied in FIFO order.
pub open spec fn apply_messages_model(
    m: EngineModel,
    messages: Seq<Message>,
    now_us: int,
) -> EngineModel
    decreases messages.len(),
{
    if messages.len() == 0 {
        m
    } else {
        apply_messages_model(apply_message_model(m, messages[0], now_us), messages.drop_first(), now_us)
    }
}

/// The scheduled advance: one generation and one tick of the evolution
/// counter when the engine is running and a generation is due, else nothing.
pub open spec fn advance_model(m: EngineModel, now_us: int) -> EngineModel {
    if !m.is_paused && evolution_due(m, now_us) {
        EngineModel {
            grid: stepped(m.grid, m.grid_size),
            evolution_count: m.evolution_count + 1,
            ..m
        }
    } else {
        m
    }
}

/// One more loop iteration on the books; the counter saturates rather than
/// wraps.
pub open spec fn count_frame_model(m: EngineModel) -> EngineModel {
    EngineModel {
        frame_count: if m.frame_count == u64::MAX {
            m.frame_count
        } else {
            m.frame_count + 1
        },
        ..m
    }
}

/// When the current frame should end: `frame_count * 1000 / f` on the
/// engine's clock, for a target iteration frequency `f`.
pub open spec fn frame_deadline_us(m: EngineModel) -> int {
    m.frame_count * 1000 / m.target_refresh_rate
}

/// How long to sleep out the rest of the frame budget: the time to the
/// frame deadline, clamped below at zero and above at what a sleep argument
/// can carry.
pub open spec fn sleep_us_spec(m: EngineModel, now_us: int) -> int {
    let deadline = frame_deadline_us(m);
    let elapsed = elapsed_us_spec(m, now_us);
    if deadline > elapsed {
        if deadline - elapsed > u64::MAX {
            u64::MAX as int
        } else {
            deadline - elapsed
        }
    } else {
        0
    }
}

/// One full iteration of the run loop: apply the drained control messages in
/// order, then the scheduled advance, then book the frame.
pub open spec fn tick_model(m: EngineModel, messages: Seq<Message>, now_us: int) -> EngineModel {
    count_frame_model(advance_model(apply_messages_model(m, messages, now_us), now_us))
}

/// Whether one of the draws in `seeds` named the position `(x, y)`.
pub open spec fn drawn_at(seeds: Seq<Position>, x: int, y: int) -> bool {
    exists|i: int|
        0 <= i < seeds.len() && #[trigger] seeds[i] == (Position { x: x as usize, y: y as usize })
}

/// What any seeding outcome leaves behind: a full `grid_size x grid_size`
/// grid whose live cells are exactly the drawn positions — all others dead,
/// duplicates collapsed, so the live count never exceeds the draw count.
pub open spec fn seeded_grid(
    g: Seq<Seq<CellState>>,
    grid_size: int,
    seeds: Seq<Position>,
) -> bool {
    &&& g.len() == grid_size
    &&& forall|y: int| 0 <= y < grid_size ==> (#[trigger] g[y]).len() == grid_size
    &&& forall|i: int|
        0 <= i < seeds.len() ==> (#[trigger] seeds[i]).x < grid_size && seeds[i].y < grid_size
    &&& forall|x: int, y: int|
        0 <= x < grid_size && 0 <= y < grid_size ==> ((#[trigger] g[y][x]) == CellState::Alive
            <==> drawn_at(seeds, x, y))
}

/// Applying a batch and then one more message is applying the extended
/// batch.
proof fn lemma_apply_messages_snoc(
    m: EngineModel,
    messages: Seq<Message>,
    message: Message,
    now_us: int,
)
    ensures
        apply_messages_model(m, messages.push(message), now_us) == apply_message_model(
            apply_messages_model(m, messages, now_us),
            message,
            now_us,
        ),
    decreases messages.len(),
{
    if messages.len() == 0 {
        assert(messages.push(message)[0] == message);
        assert(messages.push(message).drop_first() =~= Seq::<Message>::empty());
        let once = apply_message_model(m, message, now_us);
        assert(apply_messages_model(m, messages.push(message), now_us) == apply_messages_model(
            once,
            Seq::<Message>::empty(),
            now_us,
        ));
        assert(apply_messages_model(once, Seq::<Message>::empty(), now_us) == once);
        assert(apply_messages_model(m, messages, now_us) == m);
    } else {
        assert(messages.push(message)[0] == messages[0]);
        assert(messages.push(message).drop_first() =~= messages.drop_first().push(message));
        let after_head = apply_message_model(m, messages[0], now_us);
        assert(apply_messages_model(m, messages.push(message), now_us) == apply_messages_model(
            after_head,
            messages.drop_first().push(message),
            now_us,
        ));
        lemma_apply_messages_snoc(after_head, messages.drop_first(), message, now_us);
        assert(apply_messages_model(m, messages, now_us) == apply_messages_model(
            after_head,
            messages.drop_first(),
            now_us,
        ));
    }
}

/// No control message resizes the grid or retargets the refresh rate.
proof fn lemma_apply_messages_keeps_shape(m: EngineModel, messages: Seq<Message>, now_us: int)
    ensures
        apply_messages_model(m, messages, now_us).grid_size == m.grid_size,
        apply_messages_model(m, messages, now_us).target_refresh_rate == m.target_refresh_rate,
    decreases messages.len(),
{
    if messages.len() > 0 {
        lemma_apply_messages_keeps_shape(
            apply_message_model(m, messages[0], now_us),
            messages.drop_first(),
            now_us,
        );
    }
}

/// Relies on rand::thread_rng and rand::Rng::gen_range over the range
/// `0..bound`: the drawn value lies in that range; the call panics only on
/// an empty range, which the precondition rules out.
#[verifier::external_body]
fn random_below(bound: usize) -> (r: usize)
    requires
        bound >= 1,
    ensures
        r < bound,
{
    rand::thread_rng().gen_range(0..bound)
}

/// The simulation engine: sole owner and sole writer of the authoritative
/// grid, driven by one clock and one channel endpoint.
pub struct Simulation {
    grid: Grid,
    evolution_rate: u64,
    evolution_count: u128,
    clock_base_us: u64,
    frame_count: u64,
    target_refresh_rate: u64,
    is_paused: bool,
    ui: ThreadChannel<Message>,
}

impl View for Simulation {
    type V = EngineModel;

    closed spec fn view(&self) -> EngineModel {
        EngineModel {
            grid: self.grid@,
            grid_size: self.grid.size as int,
            evolution_rate: self.evolution_rate as int,
            evolution_count: self.evolution_count as int,
            clock_base_us: self.clock_base_us as int,
            frame_count: self.frame_count as int,
            target_refresh_rate: self.target_refresh_rate as int,
            is_paused: self.is_paused,
        }
    }
}

impl Simulation {
    /// A healthy engine: a well-formed grid, a positive refresh rate (the
    /// frame deadline divides by it), and an evolution counter the
    /// scheduling arithmetic can extend.
    pub closed spec fn wf(&self) -> bool {
        &&& self.grid.wf()
        &&& self.target_refresh_rate >= 1
        &&& self.evolution_count <= MAX_EVOLUTIONS
    }

    /// Builds the engine: an all-dead `grid_size x grid_size` grid, seeded by
    /// drawing `LIVE_CELL_PERCENT` percent of the cell count as uniform
    /// random positions (duplicate draws collapse, so the actual live share
    /// may fall slightly below the nominal one), whose live set is announced
    /// on the channel as one full diff before the run loop starts. The clock
    /// base is the construction instant, supplied by the caller from the
    /// monotonic clock that later feeds `tick`. A zero target refresh rate
    /// is rejected outright.
    pub fn new(
        ui: ThreadChannel<Message>,
        grid_size: usize,
        target_refresh_rate: u64,
        evolution_rate: u64,
        initially_paused: bool,
        now_us: u64,
    ) -> (result: Result<Simulation, ConfigError>)
        requires
            1 <= grid_size <= GRID_MAX,
        ensures
            result matches Err(e) ==> e == ConfigError::ZeroRefreshRate && target_refresh_rate
                == 0,
            result matches Ok(engine) ==> {
                &&& target_refresh_rate >= 1
                &&& engine.wf()
                &&& engine@.grid_size == grid_size
                &&& engine@.evolution_rate == evolution_rate
                &&& engine@.evolution_count == 0
                &&& engine@.frame_count == 0
                &&& engine@.clock_base_us == now_us
                &&& engine@.target_refresh_rate == target_refresh_rate
                &&& engine@.is_paused == initially_paused
                &&& engine@.grid.len() == grid_size
                &&& forall|y: int|
                    0 <= y < grid_size ==> (#[trigger] engine@.grid[y]).len() == grid_size
                &&& exists|seeds: Seq<Position>|
                    seeds.len() == grid_size * grid_size * LIVE_CELL_PERCENT / 100
                        && #[trigger] seeded_grid(engine@.grid, grid_size as int, seeds)
            },
            result matches Ok(engine) <==> target_refresh_rate >= 1,
    {
        if target_refresh_rate == 0 {
            return Err(ConfigError::ZeroRefreshRate);
        }
        let mut grid = Grid::new_dead(grid_size);
        proof {
            lemma_mul_upper_bound(
                grid_size as int,
                GRID_MAX as int,
                grid_size as int,
                GRID_MAX as int,
            );
        }
        let candidates = grid_size * grid_size * LIVE_CELL_PERCENT / 100;
        let ghost mut seeds: Seq<Position> = Seq::empty();
        proof {
            assert(seeded_grid(grid@, grid_size as int, seeds));
        }
        let mut drawn: usize = 0;
        while drawn < candidates
            invariant
                grid.wf(),
                grid.size == grid_size,
                1 <= grid_size <= GRID_MAX,
                drawn <= candidates,
                seeds.len() == drawn,
                seeded_grid(grid@, grid_size as int, seeds),
            decreases candidates - drawn,
        {
            let x = random_below(grid_size);
            let y = random_below(grid_size);
            let ghost before = grid@;
            let ghost prior = seeds;
            grid.set_state(x, y, CellState::Alive);
            proof {
                seeds = prior.push(Position { x, y });
                assert forall|xx: int, yy: int|
                    0 <= xx < grid_size && 0 <= yy < grid_size implies ((#[trigger] grid@[yy][xx])
                    == CellState::Alive <==> drawn_at(seeds, xx, yy)) by {
                    if xx == x && yy == y {
                        assert(grid@[yy][xx] == CellState::Alive);
                        assert(seeds[prior.len() as int] == (Position {
                            x: xx as usize,
                            y: yy as usize,
                        }));
                        assert(drawn_at(seeds, xx, yy));
                    } else {
                        assert(grid@[yy][xx] == before[yy][xx]);
                        if drawn_at(seeds, xx, yy) {
                            let i = choose|i: int|
                                0 <= i < seeds.len() && #[trigger] seeds[i] == (Position {
                                    x: xx as usize,
                                    y: yy as usize,
                                });
                            assert(i < prior.len());
                            assert(prior[i] == seeds[i]);
                            assert(drawn_at(prior, xx, yy));
                        }
                        if drawn_at(prior, xx, yy) {
                            let i = choose|i: int|
                                0 <= i < prior.len() && #[trigger] prior[i] == (Position {
                                    x: xx as usize,
                                    y: yy as usize,
                                });
                            assert(seeds[i] == prior[i]);
                            assert(drawn_at(seeds, xx, yy));
                        }
                    }
                }
            }
            drawn = drawn + 1;
        }
        let initial_live = grid.live_transitions();
        let _accepted = ui.send(Message::CellTransitions(initial_live));
        let engine = Simulation {
            grid,
            evolution_rate,
            evolution_count: 0,
            clock_base_us: now_us,
            frame_count: 0,
            target_refresh_rate,
            is_paused: initially_paused,
            ui,
        };
        proof {
            assert(seeds.len() == grid_size * grid_size * LIVE_CELL_PERCENT / 100
                && seeded_grid(engine@.grid, grid_size as int, seeds));
            assert(exists|s: Seq<Position>|
                s.len() == grid_size * grid_size * LIVE_CELL_PERCENT / 100 && #[trigger] seeded_grid(
                    engine@.grid,
                    grid_size as int,
                    s,
                ));
        }
        Ok(engine)
    }

    /// Microseconds on the engine's clock since the last timing reset.
    fn elapsed_us(&self, now_us: u64) -> (elapsed: u64)
        ensures
            elapsed as int == elapsed_us_spec(self@, now_us as int),
    {
        if now_us >= self.clock_base_us {
            now_us - self.clock_base_us
        } else {
            0
        }
    }

    /// Whether the target time for the next generation has passed.
    fn evolution_due_now(&self, now_us: u64) -> (due: bool)
        requires
            self.wf(),
        ensures
            due == evolution_due(self@, now_us as int),
    {
        let elapsed_ms = self.elapsed_us(now_us) / 1000;
        let target: u128 = 10000 * (self.evolution_count + 1);
        proof {
            lemma_mul_upper_bound(
                elapsed_ms as int,
                u64::MAX as int,
                self.evolution_rate as int,
                u64::MAX as int,
            );
        }
        target <= (elapsed_ms as u128) * (self.evolution_rate as u128)
    }

    /// Advances the grid one generation and sends the diff as one message;
    /// the send is fire-and-forget.
    fn step_and_send(&mut self)
        requires
            old(self).wf(),
        ensures
            final(self).wf(),
            final(self)@ == (EngineModel {
                grid: stepped(old(self)@.grid, old(self)@.grid_size),
                ..old(self)@
            }),
    {
        let transitions = self.grid.step();
        let _accepted = self.ui.send(Message::CellTransitions(transitions));
    }

    /// Applies one control command.
    fn apply_message(&mut self, message: &Message, now_us: u64)
        requires
            old(self).wf(),
        ensures
            final(self).wf(),
            final(self)@ == apply_message_model(old(self)@, *message, now_us as int),
    {
        match message {
            Message::EvolutionRateChange(rate) => {
                self.evolution_rate = *rate;
                self.evolution_count = 0;
                self.clock_base_us = now_us;
                self.frame_count = 0;
            },
            Message::TogglePlay => {
                self.is_paused = !self.is_paused;
            },
            Message::Evolve(generations) => {
                let generations: usize = *generations;
                let mut done: usize = 0;
                while done < generations
                    invariant
                        self.wf(),
                        done <= generations,
                        self@ == (EngineModel {
                            grid: step_grid_n(
                                old(self)@.grid,
                                old(self)@.grid_size,
                                done as nat,
                            ),
                            ..old(self)@
                        }),
                    decreases generations - done,
                {
                    self.step_and_send();
                    done = done + 1;
                }
            },
            Message::CellTransitions(_) => {},
        }
    }

    /// The scheduled advance of one loop iteration: one generation and one
    /// tick of the evolution counter, only when running and due.
    fn advance_if_due(&mut self, now_us: u64)
        requires
            old(self).wf(),
        ensures
            final(self).wf(),
            final(self)@ == advance_model(old(self)@, now_us as int),
    {
        if !self.is_paused {
            if self.evolution_due_now(now_us) {
                proof {
                    let c = self.evolution_count as int;
                    let e = elapsed_ms_spec(self@, now_us as int);
                    let r = self.evolution_rate as int;
                    lemma_div_is_ordered(
                        elapsed_us_spec(self@, now_us as int),
                        u64::MAX as int,
                        1000,
                    );
                    lemma_mul_upper_bound(e, u64::MAX as int, r, u64::MAX as int);
                    lemma_div_is_ordered(
                        10000 * (c + 1),
                        u64::MAX as int * u64::MAX as int,
                        10000,
                    );
                    lemma_div_multiples_vanish(c + 1, 10000);
                    assert(c + 1 <= MAX_EVOLUTIONS);
                }
                self.step_and_send();
                self.evolution_count = self.evolution_count + 1;
            }
        }
    }

    /// Books one loop iteration and returns the rest of the frame budget:
    /// how long to sleep so the loop holds the target iteration frequency.
    fn pace(&mut self, now_us: u64) -> (sleep_us: u64)
        requires
            old(self).wf(),
        ensures
            final(self).wf(),
            final(self)@ == count_frame_model(old(self)@),
            sleep_us as int == sleep_us_spec(final(self)@, now_us as int),
    {
        if self.frame_count < u64::MAX {
            self.frame_count = self.frame_count + 1;
        }
        let deadline: u128 = (self.frame_count as u128) * 1000 / (self.target_refresh_rate as u128);
        let elapsed: u128 = self.elapsed_us(now_us) as u128;
        if deadline > elapsed {
            let delta = deadline - elapsed;
            if delta > (u64::MAX as u128) {
                u64::MAX
            } else {
                delta as u64
            }
        } else {
            0
        }
    }

    /// One full iteration of the run loop on an already-drained message
    /// batch: applies every control message in FIFO order, advances one
    /// generation when the scheduler says one is due (each advance and each
    /// Evolve generation sending its own diff), books the frame, and returns
    /// how long the caller should sleep out of the frame budget.
    pub fn tick_with(&mut self, messages: &Vec<Message>, now_us: u64) -> (sleep_us: u64)
        requires
            old(self).wf(),
        ensures
            final(self).wf(),
            final(self)@ == tick_model(old(self)@, messages@, now_us as int),
            sleep_us as int == sleep_us_spec(final(self)@, now_us as int),
    {
        proof {
            assert(messages@.take(0) =~= Seq::<Message>::empty());
        }
        let mut i: usize = 0;
        while i < messages.len()
            invariant
                self.wf(),
                i <= messages@.len(),
                self@ == apply_messages_model(old(self)@, messages@.take(i as int), now_us as int),
            decreases messages@.len() - i,
        {
            let message = &messages[i];
            proof {
                lemma_apply_messages_snoc(
                    old(self)@,
                    messages@.take(i as int),
                    messages@[i as int],
                    now_us as int,
                );
                assert(messages@.take(i as int + 1) =~= messages@.take(i as int).push(
                    messages@[i as int],
                ));
            }
            self.apply_message(message, now_us);
            i = i + 1;
        }
        proof {
            assert(messages@.take(messages@.len() as int) =~= messages@);
        }
        self.advance_if_due(now_us);
        self.pace(now_us)
    }

    /// One full iteration of the run loop: drains the channel without
    /// blocking and hands the batch to `tick_with`. What arrives is the peer
    /// thread's business, so the new state is pinned only as `tick_model` of
    /// *some* drained batch; the grid size and the target frequency survive
    /// any batch.
    pub fn tick(&mut self, now_us: u64) -> (sleep_us: u64)
        requires
            old(self).wf(),
        ensures
            final(self).wf(),
            final(self)@.grid_size == old(self)@.grid_size,
            final(self)@.target_refresh_rate == old(self)@.target_refresh_rate,
            exists|messages: Seq<Message>|
                final(self)@ == tick_model(old(self)@, messages, now_us as int),
            sleep_us as int == sleep_us_spec(final(self)@, now_us as int),
    {
        let messages = self.ui.receive();
        let sleep_us = self.tick_with(&messages, now_us);
        proof {
            lemma_apply_messages_keeps_shape(old(self)@, messages@, now_us as int);
            assert(self@ == tick_model(old(self)@, messages@, now_us as int));
        }
        sleep_us
    }

    /// The paused flag.
    pub fn is_paused(&self) -> (paused: bool)
        ensures
            paused == self@.is_paused,
    {
        self.is_paused
    }

    /// The evolution rate, in evolutions per 100 time-units.
    pub fn evolution_rate(&self) -> (rate: u64)
        ensures
            rate as int == self@.evolution_rate,
    {
        self.evolution_rate
    }

    /// Evolutions emitted by the scheduler since the last timing reset.
    pub fn evolution_count(&self) -> (count: u128)
        ensures
            count as int == self@.evolution_count,
    {
        self.evolution_count
    }

    /// Loop iterations booked since the last timing reset.
    pub fn frame_count(&self) -> (frames: u64)
        ensures
            frames as int == self@.frame_count,
    {
        self.frame_count
    }

    /// The clock reading the timing base currently sits at.
    pub fn clock_base_us(&self) -> (base: u64)
        ensures
            base as int == self@.clock_base_us,
    {
        self.clock_base_us
    }

    /// The grid edge length.
    pub fn grid_size(&self) -> (size: usize)
        ensures
            size as int == self@.grid_size,
    {
        self.grid.size()
    }

    /// The current state of the cell at `(x, y)`.
    pub fn cell_state(&self, x: usize, y: usize) -> (state: CellState)
        requires
            self.wf(),
            x < self@.grid_size,
            y < self@.grid_size,
        ensures
            state == self@.grid[y as int][x as int],
    {
        self.grid.state_at(x, y)
    }
}

/// Law: two TogglePlay commands in immediate succession return the whole
/// engine state — the paused flag included — to what it was.
pub proof fn lemma_toggle_play_twice(m: EngineModel, now_us: int)
    ensures
        apply_messages_model(m, seq![Message::TogglePlay, Message::TogglePlay], now_us) == m,
{
    let twice = seq![Message::TogglePlay, Message::TogglePlay];
    let once = apply_message_model(m, Message::TogglePlay, now_us);
    assert(twice[0] == Message::TogglePlay);
    assert(twice.drop_first() =~= seq![Message::TogglePlay]);
    assert(apply_messages_model(m, twice, now_us) == apply_messages_model(
        once,
        seq![Message::TogglePlay],
        now_us,
    ));
    assert(seq![Message::TogglePlay].drop_first() =~= Seq::<Message>::empty());
    let again = apply_message_model(once, Message::TogglePlay, now_us);
    assert(apply_messages_model(once, seq![Message::TogglePlay], now_us) == apply_messages_model(
        again,
        Seq::<Message>::empty(),
        now_us,
    ));
    assert(apply_messages_model(again, Seq::<Message>::empty(), now_us) == again);
}

/// Law: a rate change resets the timing base. The evolution and frame
/// counters return to zero, the clock base moves to the moment of the
/// change, and the next generation is scheduled against time elapsed since that
/// moment — not since the engine's original start.
pub proof fn lemma_rate_change_resets_timing(m: EngineModel, rate: u64, now_us: int)
    ensures
        ({
            let reset = apply_message_model(m, Message::EvolutionRateChange(rate), now_us);
            &&& reset.evolution_rate == rate
            &&& reset.evolution_count == 0
            &&& reset.frame_count == 0
            &&& reset.clock_base_us == now_us
            &&& reset.grid == m.grid
            &&& reset.is_paused == m.is_paused
            &&& forall|later: int|
                later >= now_us ==> (#[trigger] evolution_due(reset, later) <==> 10000 <= ((
                later - now_us) / 1000) * rate)
        }),
{
}

/// Law: a manual Evolve command advances the grid exactly the requested
/// number of generations whatever the paused flag says, and leaves the flag
/// and every scheduling register untouched.
pub proof fn lemma_evolve_bypasses_pause(m: EngineModel, generations: usize, now_us: int)
    ensures
        ({
            let evolved = apply_message_model(m, Message::Evolve(generations), now_us);
            &&& evolved.grid == step_grid_n(m.grid, m.grid_size, generations as nat)
            &&& evolved == (EngineModel {
                grid: step_grid_n(m.grid, m.grid_size, generations as nat),
                ..m
            })
        }),
{
}

} // verus!
