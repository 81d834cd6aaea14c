use chrono_slots::{Block, Instant, Period, PeriodError, Slot, Span};

fn dt(now: i64, hours: i64) -> Instant {
    Instant::from_secs(now + 3600 * hours)
}

fn block(now: i64, start: i64, end: i64) -> Result<Block, PeriodError> {
    Block::new(dt(now, start), dt(now, end))
}

fn span(now: i64, start: i64, end: i64) -> Result<Span, PeriodError> {
    Span::new(dt(now, start), dt(now, end))
}

fn slot(now: i64, start: i64, end: i64) -> Result<Slot, PeriodError> {
    Slot::new(dt(now, start), dt(now, end))
}

struct TestCase {
    name: &'static str,
    span: Span,
    block: Block,
    expected: Result<Slot, PeriodError>,
}

#[test]
fn test_slot_create_from() -> Result<(), PeriodError> {
    let now = chrono::Utc::now().timestamp();

    let cases = vec![
        TestCase {
            name: "Valid Slot creation from Span and Block",
            span: span(now, 0, 8)?,
            block: block(now, 4, 9)?,
            expected: Ok(slot(now, 0, 4)?),
        },
        TestCase {
            name: "Invalid Slot creation (Span starts after Block)",
            span: span(now, 4, 8)?,
            block: block(now, 1, 5)?,
            expected: Err(PeriodError::InvalidTime),
        },
    ];

    Ok(for case in cases {
        let result = Slot::create_from(&case.span, &case.block);
        match &result {
            Ok(actual) => {
                let expected = case.expected.unwrap();
                assert_eq!(
                    actual.start(),
                    expected.start(),
                    "Failed on start: {}",
                    case.name
                );
                assert_eq!(actual.end(), expected.end(), "Failed on end: {}", case.name);
            }
            Err(err) => {
                assert_eq!(
                    err.message(),
                    case.expected.unwrap_err().message(),
                    "Failed on error case: {}",
                    case.name
                );
            }
        }
    })
}
