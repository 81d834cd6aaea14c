use chrono_slots::{find, Block, Input, Instant, Output, Period, PeriodError, Slot, SlotError, Span};

fn dt(now: i64, hours: i64) -> Instant {
    Instant::from_secs(now + 3600 * hours)
}

#[derive(Debug, Clone)]
struct MockInput {
    start_at: Instant,
    end_at: Instant,
}

impl MockInput {
    fn new(now: i64, start: i64, end: i64) -> Self {
        MockInput {
            start_at: dt(now, start),
            end_at: dt(now, end),
        }
    }
}

impl Period for MockInput {
    fn start(&self) -> Instant {
        self.start_at
    }

    fn end(&self) -> Instant {
        self.end_at
    }
}

impl Input for MockInput {
    fn to_block(&self) -> Result<Block, PeriodError> {
        Block::new(self.start_at, self.end_at)
    }
}

#[derive(Debug, Clone)]
struct MockOutput {
    start_at: Instant,
    end_at: Instant,
}

impl MockOutput {
    fn new(now: i64, start: i64, end: i64) -> Self {
        MockOutput {
            start_at: dt(now, start),
            end_at: dt(now, end),
        }
    }
}

impl Period for MockOutput {
    fn start(&self) -> Instant {
        self.start_at
    }

    fn end(&self) -> Instant {
        self.end_at
    }
}

impl Output for MockOutput {
    fn create_from_slot(slot: Slot) -> Self {
        MockOutput {
            start_at: slot.start(),
            end_at: slot.end(),
        }
    }
}

struct TestCase {
    description: &'static str,
    span: Span,
    inputs: Vec<MockInput>,
    expected_slots: Vec<MockOutput>,
    should_error: bool,
}

#[test]
fn test_find() {
    let now = chrono::Utc::now().timestamp();

    let test_cases = vec![
        TestCase {
            description: "No blocks",
            inputs: vec![],
            span: Span::new(dt(now, 0), dt(now, 8)).unwrap(),
            expected_slots: vec![MockOutput::new(now, 0, 8)],
            should_error: false,
        },
        TestCase {
            description: "One block before slot",
            inputs: vec![MockInput::new(now, -2, -1)],
            span: Span::new(dt(now, 0), dt(now, 8)).unwrap(),
            expected_slots: vec![MockOutput::new(now, 0, 8)],
            should_error: false,
        },
        TestCase {
            description: "One block before slot boundary",
            inputs: vec![MockInput::new(now, -1, 0)],
            span: Span::new(dt(now, 0), dt(now, 8)).unwrap(),
            expected_slots: vec![MockOutput::new(now, 0, 8)],
            should_error: false,
        },
        TestCase {
            description: "One block with overlap at start",
            inputs: vec![MockInput::new(now, -1, 0)],
            span: Span::new(dt(now, 0), dt(now, 8)).unwrap(),
            expected_slots: vec![MockOutput::new(now, 0, 8)],
            should_error: false,
        },
        TestCase {
            description: "One block with overlap at start boundary",
            inputs: vec![MockInput::new(now, 0, 1)],
            span: Span::new(dt(now, 0), dt(now, 8)).unwrap(),
            expected_slots: vec![MockOutput::new(now, 1, 8)],
            should_error: false,
        },
        TestCase {
            description: "One block is contained in slot",
            inputs: vec![MockInput::new(now, 1, 5)],
            span: Span::new(dt(now, 0), dt(now, 8)).unwrap(),
            expected_slots: vec![MockOutput::new(now, 0, 1), MockOutput::new(now, 5, 8)],
            should_error: false,
        },
        TestCase {
            description:
                "One block is contained in slot boundary (= One block contains slot boundary)",
            inputs: vec![MockInput::new(now, 0, 8)],
            span: Span::new(dt(now, 0), dt(now, 8)).unwrap(),
            expected_slots: vec![],
            should_error: false,
        },
        TestCase {
            description: "One block contains slot",
            inputs: vec![MockInput::new(now, -1, 9)],
            span: Span::new(dt(now, 0), dt(now, 8)).unwrap(),
            expected_slots: vec![],
            should_error: false,
        },
        TestCase {
            description: "One block with overlap at end boundary",
            inputs: vec![MockInput::new(now, 3, 8)],
            span: Span::new(dt(now, 0), dt(now, 8)).unwrap(),
            expected_slots: vec![MockOutput::new(now, 0, 3)],
            should_error: false,
        },
        TestCase {
            description: "One block with overlap at end",
            inputs: vec![MockInput::new(now, 3, 9)],
            span: Span::new(dt(now, 0), dt(now, 8)).unwrap(),
            expected_slots: vec![MockOutput::new(now, 0, 3)],
            should_error: false,
        },
        TestCase {
            description: "One block after slot boundary",
            inputs: vec![MockInput::new(now, 8, 10)],
            span: Span::new(dt(now, 0), dt(now, 8)).unwrap(),
            expected_slots: vec![MockOutput::new(now, 0, 8)],
            should_error: false,
        },
        TestCase {
            description: "One block after slot",
            inputs: vec![MockInput::new(now, 9, 10)],
            span: Span::new(dt(now, 0), dt(now, 8)).unwrap(),
            expected_slots: vec![MockOutput::new(now, 0, 8)],
            should_error: false,
        },
        TestCase {
            description: "Two blocks are contained in slot",
            inputs: vec![MockInput::new(now, 1, 2), MockInput::new(now, 6, 7)],
            span: Span::new(dt(now, 0), dt(now, 8)).unwrap(),
            expected_slots: vec![
                MockOutput::new(now, 0, 1),
                MockOutput::new(now, 2, 6),
                MockOutput::new(now, 7, 8),
            ],
            should_error: false,
        },
        TestCase {
            description: "Two blocks overlap each other and are contained in slot",
            inputs: vec![MockInput::new(now, 1, 4), MockInput::new(now, 2, 5)],
            span: Span::new(dt(now, 0), dt(now, 8)).unwrap(),
            expected_slots: vec![MockOutput::new(now, 0, 1), MockOutput::new(now, 5, 8)],
            should_error: false,
        },
    ];

    for case in test_cases {
        let result: Result<Vec<MockOutput>, SlotError> =
            find(case.span.clone(), case.inputs.clone());
        match result {
            Ok(slots) => {
                assert!(!case.should_error, "{}", case.description);
                assert_eq!(
                    slots.len(),
                    case.expected_slots.len(),
                    "{}",
                    case.description
                );
                for (actual, expected) in slots.iter().zip(case.expected_slots.iter()) {
                    assert_eq!(actual.start(), expected.start(), "{}", case.description);
                    assert_eq!(actual.end(), expected.end(), "{}", case.description);
                }
            }
            Err(_) => {
                assert!(case.should_error, "{}", case.description);
            }
        }
    }
}
