use chrono_slots::{Block, Instant, Period, PeriodError, PeriodVec};

const DATETIME_FORMAT: &str = "%Y-%m-%d %H:%M:%S";

fn dt(now: i64, hours: i64) -> Instant {
    Instant::from_secs(now + 3600 * hours)
}

fn block(now: i64, start: i64, end: i64) -> Result<Block, PeriodError> {
    Block::new(dt(now, start), dt(now, end))
}

fn calendar_text(i: Instant) -> String {
    chrono::DateTime::<chrono::Utc>::from_timestamp(i.secs, 0)
        .unwrap()
        .format(DATETIME_FORMAT)
        .to_string()
}

struct TestCase<T> {
    name: &'static str,
    input: T,
    expected_string: String,
}

#[test]
fn test_period_methods() -> Result<(), PeriodError> {
    let now = chrono::Utc::now().timestamp();
    let block = &block(now, 0, 8)?;

    let cases = vec![TestCase {
        name: "Basic case 3 hour duration",
        input: block,
        expected_string: format!(
            "start: {}, end: {}, duration: 8h 0m",
            calendar_text(block.start()),
            calendar_text(block.end())
        ),
    }];

    Ok(for case in cases {
        let result_string = case.input.to_string();
        assert_eq!(
            result_string, case.expected_string,
            "Failed on to_string: {}",
            case.name
        );
    })
}

#[test]
fn test_invalid_block_creation() {
    let now = chrono::Utc::now().timestamp();

    let valid_block = Block::new(dt(now, 0), dt(now, 8));
    assert!(valid_block.is_ok(), "Valid block creation failed");

    let invalid_block = Block::new(dt(now, 0), dt(now, 0));
    assert!(invalid_block.is_err(), "Invalid block creation should fail");
}

#[test]
fn test_period_vec_to_string() -> Result<(), PeriodError> {
    let now = chrono::Utc::now().timestamp();
    let periods = vec![block(now, 0, 1)?, block(now, 3, 4)?, block(now, 5, 6)?];

    let period_strings = periods.to_string();

    let expected_strings = vec![
        format!(
            "start: {}, end: {}, duration: 1h 0m",
            calendar_text(periods[0].start()),
            calendar_text(periods[0].end()),
        ),
        format!(
            "start: {}, end: {}, duration: 1h 0m",
            calendar_text(periods[1].start()),
            calendar_text(periods[1].end()),
        ),
        format!(
            "start: {}, end: {}, duration: 1h 0m",
            calendar_text(periods[2].start()),
            calendar_text(periods[2].end()),
        ),
    ]
    .join("\n ");

    assert_eq!(
        period_strings, expected_strings,
        "PeriodVec to_string failed"
    );
    Ok(())
}
