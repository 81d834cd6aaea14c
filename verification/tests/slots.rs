use chrono_slots::{
    find, find_slots, Block, Input, Instant, Output, Period, PeriodError, Slot, SlotError, Span,
};

fn hour(h: i64) -> Instant {
    Instant::from_secs(3600 * h)
}

fn block(start: i64, end: i64) -> Block {
    Block::new(hour(start), hour(end)).unwrap()
}

fn window() -> Span {
    Span::new(hour(0), hour(8)).unwrap()
}

fn bounds(slots: &[Slot]) -> Vec<(i64, i64)> {
    slots
        .iter()
        .map(|s| (s.start().secs / 3600, s.end().secs / 3600))
        .collect()
}

#[test]
fn test_scenario_no_blocks() {
    assert_eq!(bounds(&find_slots(window(), vec![])), vec![(0, 8)]);
}

#[test]
fn test_scenario_block_before_window() {
    assert_eq!(
        bounds(&find_slots(window(), vec![block(-2, -1)])),
        vec![(0, 8)]
    );
}

#[test]
fn test_scenario_block_overlaps_start() {
    assert_eq!(
        bounds(&find_slots(window(), vec![block(0, 1)])),
        vec![(1, 8)]
    );
}

#[test]
fn test_scenario_block_inside_window() {
    assert_eq!(
        bounds(&find_slots(window(), vec![block(1, 5)])),
        vec![(0, 1), (5, 8)]
    );
}

#[test]
fn test_scenario_block_covers_window() {
    assert_eq!(bounds(&find_slots(window(), vec![block(-1, 9)])), vec![]);
}

#[test]
fn test_scenario_two_overlapping_blocks() {
    assert_eq!(
        bounds(&find_slots(window(), vec![block(1, 4), block(2, 5)])),
        vec![(0, 1), (5, 8)]
    );
}

#[test]
fn test_scenario_two_disjoint_blocks() {
    assert_eq!(
        bounds(&find_slots(window(), vec![block(1, 2), block(6, 7)])),
        vec![(0, 1), (2, 6), (7, 8)]
    );
}

#[test]
fn test_slots_disjoint_and_ordered() {
    let blocks = vec![block(6, 7), block(1, 2), block(3, 4), block(2, 3)];
    let slots = find_slots(window(), blocks.clone());
    for s in &slots {
        for b in &blocks {
            assert!(
                s.end().secs <= b.start().secs || b.end().secs <= s.start().secs,
                "slot overlaps a block"
            );
        }
    }
    for pair in slots.windows(2) {
        assert!(pair[0].end().secs <= pair[1].start().secs);
        assert!(pair[0].start().secs < pair[1].start().secs);
    }
    for s in &slots {
        assert!(s.start().secs < s.end().secs);
        assert!(0 <= s.start().secs && s.end().secs <= 8 * 3600);
    }
}

#[test]
fn test_slots_and_blocks_tile_window() {
    let blocks = vec![block(1, 3), block(2, 4), block(6, 7)];
    let slots = find_slots(window(), blocks.clone());
    // Probe the window at half-hour steps: each point is in exactly one
    // side of the partition.
    let mut t = 0;
    while t < 8 * 3600 {
        let in_slot = slots
            .iter()
            .any(|s| s.start().secs <= t && t < s.end().secs);
        let in_block = blocks
            .iter()
            .any(|b| b.start().secs <= t && t < b.end().secs);
        assert!(in_slot != in_block, "point {} not covered exactly once", t);
        t += 1800;
    }
}

#[test]
fn test_permutations_give_same_slots() {
    let a = block(1, 2);
    let b = block(3, 5);
    let c = block(4, 6);
    let orders = vec![
        vec![a, b, c],
        vec![a, c, b],
        vec![b, a, c],
        vec![b, c, a],
        vec![c, a, b],
        vec![c, b, a],
    ];
    let reference = bounds(&find_slots(window(), vec![a, b, c]));
    assert_eq!(reference, vec![(0, 1), (2, 3), (6, 8)]);
    for order in orders {
        assert_eq!(bounds(&find_slots(window(), order)), reference);
    }
}

#[test]
fn test_degenerate_periods_rejected() {
    assert!(Span::new(hour(3), hour(3)).is_err());
    assert!(Span::new(hour(4), hour(3)).is_err());
    assert!(Block::new(hour(3), hour(3)).is_err());
    assert!(Block::new(hour(4), hour(3)).is_err());
    assert!(Slot::new(hour(3), hour(3)).is_err());
    assert!(Slot::new(hour(4), hour(3)).is_err());
    let window = Span::new(hour(0), hour(8)).unwrap();
    let touching = Block::new(hour(0), hour(5)).unwrap();
    assert!(Slot::create_from(&window, &touching).is_err());
}

#[test]
fn test_period_error_message() {
    let err = Block::new(hour(3), hour(3)).unwrap_err();
    assert!(matches!(err, PeriodError::InvalidTime));
    assert_eq!(err.message(), "Start time must be before end time.");
}

#[derive(Debug, Clone)]
struct Meeting {
    from: Instant,
    to: Instant,
}

impl Period for Meeting {
    fn start(&self) -> Instant {
        self.from
    }

    fn end(&self) -> Instant {
        self.to
    }
}

impl Input for Meeting {
    fn to_block(&self) -> Result<Block, PeriodError> {
        Block::new(self.from, self.to)
    }
}

#[derive(Debug, Clone)]
struct Opening {
    from: Instant,
    to: Instant,
}

impl Period for Opening {
    fn start(&self) -> Instant {
        self.from
    }

    fn end(&self) -> Instant {
        self.to
    }
}

impl Output for Opening {
    fn create_from_slot(slot: Slot) -> Self {
        Opening {
            from: slot.start(),
            to: slot.end(),
        }
    }
}

#[test]
fn test_find_rejects_bad_record() {
    let inputs = vec![
        Meeting {
            from: hour(1),
            to: hour(2),
        },
        Meeting {
            from: hour(5),
            to: hour(5),
        },
    ];
    let result: Result<Vec<Opening>, SlotError> = find(window(), inputs);
    let err = result.unwrap_err();
    assert!(matches!(err, SlotError::InvalidPeriod(PeriodError::InvalidTime)));
    assert_eq!(err.message(), "Invalid blocks. Check your arguments are valid.");
}

#[test]
fn test_rendering_exact_text() {
    // Half past one in the morning of the epoch day, so the calendar
    // text is known exactly.
    let b = Block::new(Instant::from_secs(0), Instant::from_secs(5400)).unwrap();
    assert_eq!(
        b.to_string(),
        "start: 1970-01-01 00:00:00, end: 1970-01-01 01:30:00, duration: 1h 30m"
    );
}

#[test]
fn test_window_consumed_in_place() {
    let mut w = window();
    assert!(w.remain());
    let b = block(0, 3);
    w.shorten(&b);
    assert_eq!(w.start().secs, 3 * 3600);
    assert!(w.remain());
    let s = w.to_slot().unwrap();
    assert_eq!((s.start().secs, s.end().secs), (3 * 3600, 8 * 3600));
    w.terminate();
    assert!(!w.remain());
    assert!(w.to_slot().is_err());
}
