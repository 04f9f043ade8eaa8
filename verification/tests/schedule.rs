use murmur::geom::Pos;
use murmur::schedule::{assert_aligned, routine_for, spread, travel_estimate};
use murmur::world::{Beat, BeatTrigger, Protection, RoutineStep, Schedule};

#[test]
fn spread_is_even_and_exact() {
    for total in [0u32, 1, 7, 100, 137] {
        for n in 1..8usize {
            let parts = spread(total, n);
            assert_eq!(parts.len(), n);
            assert_eq!(
                parts.iter().map(|p| u32::from(*p)).sum::<u32>(),
                total,
                "spread must not lose or invent turns"
            );
            let lo = parts.iter().min().unwrap();
            let hi = parts.iter().max().unwrap();
            assert!(hi - lo <= 1, "spread must be even, got {parts:?}");
        }
    }
}

#[test]
fn spread_gives_the_remainder_to_the_earliest_slots() {
    assert_eq!(spread(10, 4), vec![3, 3, 2, 2]);
    assert_eq!(spread(5, 0), Vec::<u16>::new());
    assert_eq!(spread(u32::MAX, 1), vec![u16::MAX]);
}

#[test]
fn travel_counts_a_storey_as_twelve_tiles() {
    assert_eq!(travel_estimate(Pos::new(0, 1, 1), Pos::new(0, 4, 5)), 7);
    assert_eq!(travel_estimate(Pos::new(2, 0, 0), Pos::new(0, 1, 0)), 25);
}

fn beat(x: i16, dwell: u16) -> Beat {
    Beat {
        pos: Pos::new(0, x, 0),
        dwell,
        protection: Protection::Escorted,
        no_follow: false,
        trigger: BeatTrigger::Sequential,
        tag: String::new(),
    }
}

#[test]
fn routine_for_mirrors_the_beats_and_is_aligned() {
    let schedule = Schedule {
        beats: vec![beat(1, 4), beat(2, 9)],
        index: 0,
        dwell_remaining: 4,
        resume_index: None,
    };
    let routine = routine_for(&schedule);
    assert_eq!(
        routine,
        vec![
            RoutineStep { pos: Pos::new(0, 1, 0), wait: 4 },
            RoutineStep { pos: Pos::new(0, 2, 0), wait: 9 }
        ]
    );
    assert!(assert_aligned(&schedule, &routine).is_ok());
    let mut drifted = routine.clone();
    drifted[1].wait = 10;
    assert_eq!(
        assert_aligned(&schedule, &drifted).unwrap_err().0,
        "beat 1 and routine step 1 disagree"
    );
    assert_eq!(
        assert_aligned(&schedule, &routine[..1]).unwrap_err().0,
        "schedule has 2 beats but the routine has 1 steps"
    );
}
