use conway::channel::ThreadChannel;
use conway::engine::{ConfigError, Message, Simulation};
use conway::grid::CellState;

fn new_engine(
    grid_size: usize,
    target_refresh_rate: u64,
    evolution_rate: u64,
    initially_paused: bool,
) -> (Simulation, ThreadChannel<Message>) {
    let (engine_end, presentation_end) = ThreadChannel::new_pair();
    let engine = Simulation::new(
        engine_end,
        grid_size,
        target_refresh_rate,
        evolution_rate,
        initially_paused,
        0,
    )
    .unwrap();
    (engine, presentation_end)
}

fn count_transition_messages(messages: &[Message]) -> usize {
    messages
        .iter()
        .filter(|m| matches!(m, Message::CellTransitions(_)))
        .count()
}

#[test]
fn zero_refresh_rate_is_rejected_at_construction() {
    let (engine_end, _presentation_end) = ThreadChannel::<Message>::new_pair();
    let result = Simulation::new(engine_end, 10, 0, 25, true, 0);
    assert!(matches!(result, Err(ConfigError::ZeroRefreshRate)));
}

#[test]
fn construction_announces_the_initial_live_set() {
    let (engine, presentation) = new_engine(10, 60, 25, true);
    let messages = presentation.receive();
    assert_eq!(messages.len(), 1);
    match &messages[0] {
        Message::CellTransitions(live) => {
            // Half the positions are drawn, duplicates collapse.
            assert!(live.len() <= 50);
            for (position, state) in live {
                assert_eq!(*state, CellState::Alive);
                assert_eq!(engine.cell_state(position.x, position.y), CellState::Alive);
            }
            // Row-major order: strictly increasing (y, x) keys, so no duplicates.
            for pair in live.windows(2) {
                let a = 10 * pair[0].0.y + pair[0].0.x;
                let b = 10 * pair[1].0.y + pair[1].0.x;
                assert!(a < b);
            }
            // Every live cell of the grid is announced.
            let mut live_in_grid = 0;
            for y in 0..10 {
                for x in 0..10 {
                    if matches!(engine.cell_state(x, y), CellState::Alive) {
                        live_in_grid += 1;
                    }
                }
            }
            assert_eq!(live_in_grid, live.len());
        }
        other => panic!("expected CellTransitions, got {:?}", other),
    }
}

#[test]
fn toggle_play_twice_restores_the_paused_flag() {
    let (mut engine, presentation) = new_engine(6, 60, 0, true);
    presentation.receive();
    assert!(engine.is_paused());

    engine.tick_with(&vec![Message::TogglePlay], 0);
    assert!(!engine.is_paused());
    engine.tick_with(&vec![Message::TogglePlay], 0);
    assert!(engine.is_paused());

    // Both toggles inside one drained batch cancel out too.
    engine.tick_with(&vec![Message::TogglePlay, Message::TogglePlay], 0);
    assert!(engine.is_paused());
}

#[test]
fn rate_change_resets_the_timing_base() {
    // One evolution every 4 seconds; run unpaused until one is emitted.
    let (mut engine, presentation) = new_engine(6, 60, 25, false);
    presentation.receive();

    engine.tick(500_000); // 500 ms elapsed: 10000 * 1 <= 500 * 25
    assert_eq!(engine.evolution_count(), 1);
    assert_eq!(engine.frame_count(), 1);
    assert_eq!(engine.clock_base_us(), 0);

    let now = 700_000;
    engine.tick_with(&vec![Message::EvolutionRateChange(50)], now);
    assert_eq!(engine.evolution_rate(), 50);
    // Counter and clock both reset to the moment of the change; the tick
    // itself then books one frame and, with zero elapsed time, steps nothing.
    assert_eq!(engine.evolution_count(), 0);
    assert_eq!(engine.clock_base_us(), now);
    assert_eq!(engine.frame_count(), 1);

    // The next generation is timed against the reset moment, not the start:
    // 200 ms after the change, 10000 <= 200 * 50 is exactly reached.
    engine.tick(now + 200_000);
    assert_eq!(engine.evolution_count(), 1);
}

#[test]
fn manual_evolve_bypasses_pause() {
    let (mut engine, presentation) = new_engine(8, 60, 25, true);
    presentation.receive();
    assert!(engine.is_paused());

    presentation.send(Message::Evolve(5));
    engine.tick(0);

    // Exactly five diffs, one per generation, despite the pause.
    let messages = presentation.receive();
    assert_eq!(messages.len(), 5);
    assert_eq!(count_transition_messages(&messages), 5);
    assert!(engine.is_paused());
    // The scheduled counter is untouched by manual evolution.
    assert_eq!(engine.evolution_count(), 0);
}

#[test]
fn paused_engine_emits_nothing() {
    let (mut engine, presentation) = new_engine(8, 60, 200, true);
    presentation.receive();
    for iteration in 0..5u64 {
        engine.tick(iteration * 100_000);
    }
    assert!(presentation.receive().is_empty());
    assert_eq!(engine.evolution_count(), 0);
    assert_eq!(engine.frame_count(), 5);
}

#[test]
fn running_engine_emits_one_diff_per_due_generation() {
    // Rate 10: the first generation is due once 10000 <= elapsed_ms * 10,
    // one second in.
    let (mut engine, presentation) = new_engine(8, 60, 10, false);
    presentation.receive();

    engine.tick(500_000);
    assert_eq!(engine.evolution_count(), 0);
    assert!(presentation.receive().is_empty());

    engine.tick(1_000_000);
    assert_eq!(engine.evolution_count(), 1);
    assert_eq!(count_transition_messages(&presentation.receive()), 1);

    // Far behind schedule: still one generation per loop iteration.
    engine.tick(10_000_000);
    assert_eq!(engine.evolution_count(), 2);
    assert_eq!(count_transition_messages(&presentation.receive()), 1);
}

#[test]
fn inbound_transition_payloads_are_ignored() {
    let (mut engine, presentation) = new_engine(6, 60, 0, true);
    presentation.receive();
    presentation.send(Message::CellTransitions(vec![]));
    engine.tick(0);
    assert!(engine.is_paused());
    assert_eq!(engine.evolution_count(), 0);
    assert!(presentation.receive().is_empty());
}

#[test]
fn pacing_returns_the_rest_of_the_frame_budget() {
    let (mut engine, presentation) = new_engine(6, 60, 0, true);
    presentation.receive();
    // First frame: deadline 1 * 1000 / 60 = 16, nothing elapsed.
    let sleep = engine.tick_with(&vec![], 0);
    assert_eq!(sleep, 16);
    // Second frame: deadline 33, 20 microseconds elapsed.
    let sleep = engine.tick_with(&vec![], 20);
    assert_eq!(sleep, 13);
    // Past the deadline: no sleep, clamped at zero.
    let sleep = engine.tick_with(&vec![], 1_000_000);
    assert_eq!(sleep, 0);
}

#[test]
fn evolve_zero_generations_is_a_no_op() {
    let (mut engine, presentation) = new_engine(6, 60, 0, true);
    presentation.receive();
    presentation.send(Message::Evolve(0));
    engine.tick(0);
    assert!(presentation.receive().is_empty());
}
