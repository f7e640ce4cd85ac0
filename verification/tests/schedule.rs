use moldyn::schedule::Cursor;
use moldyn::schedule::Schedule;
use moldyn::schedule::Stage;

fn stages_of(schedule: &Schedule, interrupt_at: Option<(u32, Stage)>) -> Vec<(u32, Stage)> {
    let mut seen = Vec::new();
    let mut interrupted = false;
    let mut at = schedule.start();
    loop {
        seen.push((at.step, at.stage));
        if at.stage == Stage::Done {
            return seen;
        }
        if interrupt_at == Some((at.step, at.stage)) {
            interrupted = true;
        }
        at = schedule.advance(at, interrupted);
        assert!(seen.len() < 10_000);
    }
}

#[test]
fn stages_of_a_short_run() {
    let schedule = Schedule { steps: 3, limit_steps: 1, dump_interval: 2 };
    assert_eq!(
        stages_of(&schedule, None),
        [
            (0, Stage::PhaseA),
            (0, Stage::Forces),
            (0, Stage::PhaseB),
            (0, Stage::Dump),
            (0, Stage::Poll),
            (1, Stage::PhaseA),
            (1, Stage::Forces),
            (1, Stage::PhaseB),
            (1, Stage::Poll),
            (2, Stage::PhaseA),
            (2, Stage::Forces),
            (2, Stage::PhaseB),
            (2, Stage::Dump),
            (2, Stage::Poll),
            (2, Stage::Done),
        ]
    );
}

#[test]
fn a_run_without_steps_is_done_at_once() {
    let schedule = Schedule { steps: 0, limit_steps: 5, dump_interval: 1 };
    assert_eq!(schedule.start(), Cursor { step: 0, stage: Stage::Done });
    assert_eq!(stages_of(&schedule, None), [(0, Stage::Done)]);
}

#[test]
fn an_interrupt_ends_the_run_after_the_step_in_which_it_came() {
    let schedule = Schedule { steps: 100, limit_steps: 0, dump_interval: 7 };
    let seen = stages_of(&schedule, Some((3, Stage::PhaseA)));
    assert_eq!(seen.last(), Some(&(3, Stage::Done)));
    // the step in which the interrupt came was carried through
    let tail: Vec<(u32, Stage)> = seen.iter().rev().take(5).rev().cloned().collect();
    assert_eq!(
        tail,
        [
            (3, Stage::PhaseA),
            (3, Stage::Forces),
            (3, Stage::PhaseB),
            (3, Stage::Poll),
            (3, Stage::Done),
        ]
    );
}

#[test]
fn an_interrupt_at_the_poll_is_seen_there() {
    let schedule = Schedule { steps: 100, limit_steps: 0, dump_interval: 1 };
    let at = Cursor { step: 8, stage: Stage::Poll };
    assert_eq!(schedule.advance(at, true), Cursor { step: 8, stage: Stage::Done });
    assert_eq!(schedule.advance(at, false), Cursor { step: 9, stage: Stage::PhaseA });
}

#[test]
fn the_last_step_ends_the_run() {
    let schedule = Schedule { steps: u32::MAX, limit_steps: 0, dump_interval: 1 };
    let at = Cursor { step: u32::MAX - 1, stage: Stage::Poll };
    assert_eq!(schedule.advance(at, false), Cursor { step: u32::MAX - 1, stage: Stage::Done });
    let done = Cursor { step: 4, stage: Stage::Done };
    assert_eq!(schedule.advance(done, false), done);
}

#[test]
fn speeds_are_limited_in_the_first_steps_only() {
    let schedule = Schedule { steps: 1000, limit_steps: 100, dump_interval: 10 };
    assert!(schedule.speed_limited(0));
    assert!(schedule.speed_limited(99));
    assert!(!schedule.speed_limited(100));
    assert!(!schedule.speed_limited(999));
}

#[test]
fn frames_are_written_every_so_many_steps() {
    let schedule = Schedule { steps: 25, limit_steps: 0, dump_interval: 10 };
    let dumps: Vec<u32> = stages_of(&schedule, None)
        .into_iter()
        .filter(|(_, stage)| *stage == Stage::Dump)
        .map(|(step, _)| step)
        .collect();
    assert_eq!(dumps, [0, 10, 20]);
}
