//! The training sources and the merged stream, on small inline texts.

use rnn_core::complex_stream::{ComplexStream, TrainingStream};
use rnn_core::csv_datetime_stream::CsvDateTimeStream;
use rnn_core::csv_stream::{CsvStream, StreamError};
use rnn_core::date_parts::DateTimeParts;
use rnn_core::decimal::parse_decimal_milli;
use rnn_core::structures::ComplexTimelineValue;

fn parts(year: i32, month: u8, day: u8, hour: u8, minute: u8) -> DateTimeParts {
    DateTimeParts {
        year,
        month,
        day,
        hour,
        minute,
        second: 0,
    }
}

const VALUES_TEXT: &str = "Date;Value\n\
2024-05-04 23:00:00;12.452\n\
2024-05-05 00:00:00;10.311\n\
2024-05-05 01:00:00;8.257\n";

#[test]
fn csv_stream_stream_file() {
    let mut csv_stream = CsvStream::from_text(VALUES_TEXT).unwrap();

    assert!(!csv_stream.is_finish());

    match csv_stream.get_date() {
        Some(date) => {
            assert_eq!(date, parts(2024, 5, 4, 23, 0));
        }
        _ => {
            panic!("Date is not setted type");
        }
    }

    match csv_stream.get_next_date() {
        Some(date) => {
            assert_eq!(date, parts(2024, 5, 5, 0, 0));
        }
        _ => {
            panic!("Date is not setted type");
        }
    }

    match csv_stream.get_value() {
        ComplexTimelineValue::Float(value) => {
            assert!((value - 12_452).abs() < 10);
        }
        _ => {
            panic!("Wrong result type");
        }
    }

    csv_stream.set_date(&parts(2024, 5, 4, 23, 30));

    assert!(!csv_stream.is_finish());

    match csv_stream.get_value() {
        ComplexTimelineValue::Float(value) => {
            assert!((value - 12_452).abs() < 10);
        }
        _ => {
            panic!("Wrong result type");
        }
    }

    csv_stream.set_date(&parts(2024, 5, 5, 0, 0));

    assert!(!csv_stream.is_finish());

    match csv_stream.get_value() {
        ComplexTimelineValue::Float(value) => {
            assert!((value - 10_311).abs() < 10);
        }
        _ => {
            panic!("Wrong result type");
        }
    }

    csv_stream.set_date(&parts(2024, 5, 5, 1, 0));

    assert!(csv_stream.is_finish());

    match csv_stream.get_value() {
        ComplexTimelineValue::Float(value) => {
            assert!((value - 8_257).abs() < 10);
        }
        _ => {
            panic!("Wrong result type");
        }
    }

    assert!(csv_stream.get_next_date().is_none());
}

#[test]
fn csv_datetime_stream_stream_file() {
    let mut csv_datetime_stream = CsvDateTimeStream::from_text(VALUES_TEXT).unwrap();

    assert!(!csv_datetime_stream.is_finish());

    match csv_datetime_stream.get_date() {
        Some(date) => {
            assert_eq!(date, parts(2024, 5, 4, 23, 0));
        }
        _ => {
            panic!("Date is not setted type");
        }
    }

    match csv_datetime_stream.get_next_date() {
        Some(date) => {
            assert_eq!(date, parts(2024, 5, 5, 0, 0));
        }
        _ => {
            panic!("Date is not setted type");
        }
    }

    match csv_datetime_stream.get_value() {
        ComplexTimelineValue::Datetime(value) => {
            assert_eq!(value, "2024-05-04 23:00:00");
        }
        _ => {
            panic!("Wrong result type");
        }
    }

    // the next sample already lies beyond this instant, so the cursor
    // keeps the current sample
    csv_datetime_stream.set_date(&parts(2024, 5, 4, 23, 30));

    assert!(!csv_datetime_stream.is_finish());

    match csv_datetime_stream.get_value() {
        ComplexTimelineValue::Datetime(value) => {
            assert_eq!(value, "2024-05-04 23:00:00");
        }
        _ => {
            panic!("Wrong result type");
        }
    }

    csv_datetime_stream.set_date(&parts(2024, 5, 5, 0, 0));

    assert!(!csv_datetime_stream.is_finish());

    match csv_datetime_stream.get_value() {
        ComplexTimelineValue::Datetime(value) => {
            assert_eq!(value, "2024-05-05 00:00:00");
        }
        _ => {
            panic!("Wrong result type");
        }
    }

    csv_datetime_stream.set_date(&parts(2024, 5, 5, 1, 0));

    assert!(csv_datetime_stream.is_finish());

    match csv_datetime_stream.get_value() {
        ComplexTimelineValue::Datetime(value) => {
            assert_eq!(value, "2024-05-05 01:00:00");
        }
        _ => {
            panic!("Wrong result type");
        }
    }

    assert!(csv_datetime_stream.get_next_date().is_none());
}

#[test]
fn stream_without_date_column_is_rejected() {
    assert_eq!(
        CsvStream::from_text("Value\n1.0\n").unwrap_err(),
        StreamError::MissingColumn
    );
    assert_eq!(
        CsvDateTimeStream::from_text("When\n2024-01-01 00:00:00\n").unwrap_err(),
        StreamError::MissingColumn
    );
}

#[test]
fn stream_without_value_column_is_rejected() {
    assert_eq!(
        CsvStream::from_text("Date\n2024-01-01 00:00:00\n").unwrap_err(),
        StreamError::MissingColumn
    );
}

#[test]
fn stream_with_bad_record_is_rejected() {
    assert_eq!(
        CsvStream::from_text("Date;Value\nnot a date;1.0\n").unwrap_err(),
        StreamError::BadRow
    );
    assert_eq!(
        CsvStream::from_text("Date;Value\n2024-01-01 00:00:00;not a number\n").unwrap_err(),
        StreamError::BadRow
    );
}

fn min_current(stream: &ComplexStream) -> String {
    let mut min: Option<String> = None;
    for value in stream.get_value() {
        if let ComplexTimelineValue::Datetime(text) = value {
            min = match min {
                Some(current) if current <= text => Some(current),
                _ => Some(text),
            };
        }
    }
    min.unwrap()
}

#[test]
fn merged_stream_advances_to_earliest_next_timestamp() {
    let first = CsvDateTimeStream::from_text(
        "Date\n2024-01-01 00:00:00\n2024-01-01 00:30:00\n2024-01-01 01:00:00\n",
    )
    .unwrap();
    let second =
        CsvDateTimeStream::from_text("Date\n2024-01-01 00:15:00\n2024-01-01 00:45:00\n").unwrap();

    let mut merged = ComplexStream::new(vec![
        TrainingStream::CsvDateTime(first),
        TrainingStream::CsvDateTime(second),
    ]);

    merged.step();
    assert_eq!(min_current(&merged), "2024-01-01 00:15:00");

    merged.step();
    assert_eq!(min_current(&merged), "2024-01-01 00:30:00");

    merged.step();
    assert_eq!(min_current(&merged), "2024-01-01 00:45:00");

    assert!(merged.is_finish());
}

#[test]
fn decimal_thousandths() {
    assert_eq!(parse_decimal_milli("12.452"), Some(12_452));
    assert_eq!(parse_decimal_milli("-3.5"), Some(-3_500));
    assert_eq!(parse_decimal_milli("7"), Some(7_000));
    assert_eq!(parse_decimal_milli("1.2345"), Some(1_234));
    assert_eq!(parse_decimal_milli("x"), None);
    assert_eq!(parse_decimal_milli(""), None);
}
