//! The per-channel codecs and the field codec, on the values their
//! quantization grids pin down. Real values are written in thousandths.

use rnn_core::complex_timeline::ComplexTimeline;
use rnn_core::datetime_timeline::{DatetimeTimeline, DatetimeTimelineConfig};
use rnn_core::enum_timeline::{EnumTimeline, EnumTimelineParams};
use rnn_core::float_timeline::{FloatTimeline, FloatTimelineConfig, FloatTimelineParams};
use rnn_core::integer_timeline::{IntegerTimeline, IntegerTimelineConfig, IntegerTimelineParams};
use rnn_core::rounding::Remap;
use rnn_core::structures::{ComplexTimelineValue, Timeline};

fn enum_options() -> Vec<String> {
    vec![
        "zero".to_owned(),
        "one".to_owned(),
        "two".to_owned(),
        "three".to_owned(),
        "four".to_owned(),
        "five".to_owned(),
    ]
}

fn sample_enum_timeline() -> EnumTimeline {
    EnumTimeline::new(EnumTimelineParams {
        capacity: 3,
        options: enum_options(),
    })
}

#[test]
fn float_timeline_normaize_linear_value() {
    let timelines = vec![
        FloatTimeline::from_config(&FloatTimelineConfig {
            capacity: 5,
            min_value: 10_000,
            max_value: 110_000,
        }),
        FloatTimeline::new(FloatTimelineParams {
            capacity: 5,
            min_value: 10_000,
            max_value: 110_000,
            get_multiplier: Remap::Identity,
            get_reverse_multiplier: Remap::Identity,
        }),
    ];

    for timeline in timelines {
        assert_eq!(timeline.normalize_value(16_400), 2);
        assert_eq!(timeline.normalize_value(39_000), 9);
        assert_eq!(timeline.normalize_value(106_700), 30);
    }
}

#[test]
fn float_timeline_get_linear_value_bits() {
    let timelines = vec![
        FloatTimeline::from_config(&FloatTimelineConfig {
            capacity: 5,
            min_value: 10_000,
            max_value: 110_000,
        }),
        FloatTimeline::new(FloatTimelineParams {
            capacity: 5,
            min_value: 10_000,
            max_value: 110_000,
            get_multiplier: Remap::Identity,
            get_reverse_multiplier: Remap::Identity,
        }),
    ];

    for timeline in timelines {
        assert_eq!(
            timeline.get_bits(&ComplexTimelineValue::Float(5_000)),
            vec![false, false, false, false, false],
            "too small value"
        );
        assert_eq!(
            timeline.get_bits(&ComplexTimelineValue::Float(115_000)),
            vec![true, true, true, true, true],
            "too big value"
        );

        assert_eq!(
            timeline.get_bits(&ComplexTimelineValue::Float(16_400)),
            vec![false, false, false, true, false],
            "2"
        );
        assert_eq!(
            timeline.get_bits(&ComplexTimelineValue::Float(39_000)),
            vec![false, true, false, false, true],
            "9"
        );
        assert_eq!(
            timeline.get_bits(&ComplexTimelineValue::Float(106_700)),
            vec![true, true, true, true, false],
            "30"
        );
    }
}

#[test]
fn float_timeline_get_parabolic_value_bits() {
    let timeline = FloatTimeline::new(FloatTimelineParams {
        capacity: 5,
        min_value: 10_000,
        max_value: 110_000,
        get_multiplier: Remap::Square,
        get_reverse_multiplier: Remap::Identity,
    });

    assert_eq!(
        timeline.get_bits(&ComplexTimelineValue::Float(5_000)),
        vec![false, false, false, false, false],
        "too small value"
    );
    assert_eq!(
        timeline.get_bits(&ComplexTimelineValue::Float(115_000)),
        vec![true, true, true, true, true],
        "too big value"
    );

    assert_eq!(
        timeline.get_bits(&ComplexTimelineValue::Float(100_300)),
        vec![true, true, false, false, true],
        "25"
    );
    assert_eq!(
        timeline.get_bits(&ComplexTimelineValue::Float(39_000)),
        vec![false, false, false, true, true],
        "9"
    );
    assert_eq!(
        timeline.get_bits(&ComplexTimelineValue::Float(77_000)),
        vec![false, true, true, true, false],
        "14"
    );
}

#[test]
fn float_timeline_reverse_linear() {
    let timeline = FloatTimeline::new(FloatTimelineParams {
        capacity: 5,
        min_value: 10_000,
        max_value: 110_000,
        get_multiplier: Remap::Identity,
        get_reverse_multiplier: Remap::Identity,
    });

    if let ComplexTimelineValue::Float(result) =
        timeline.reverse(&[false, false, false, true, false])
    {
        assert!((result - 16_400).abs() < 100);
    } else {
        panic!("Wrong result type");
    }

    if let ComplexTimelineValue::Float(result) =
        timeline.reverse(&[false, true, false, false, true])
    {
        assert!((result - 39_000).abs() < 100);
    } else {
        panic!("Wrong result type");
    }

    if let ComplexTimelineValue::Float(result) = timeline.reverse(&[true, true, true, true, false])
    {
        assert!((result - 106_700).abs() < 100);
    } else {
        panic!("Wrong result type");
    }
}

#[test]
fn float_timeline_reverse_parabolic() {
    let timeline = FloatTimeline::new(FloatTimelineParams {
        capacity: 5,
        min_value: 10_000,
        max_value: 110_000,
        get_multiplier: Remap::Identity,
        get_reverse_multiplier: Remap::Sqrt,
    });

    if let ComplexTimelineValue::Float(result) = timeline.reverse(&[true, true, false, false, true])
    {
        assert!((result - 99_800).abs() < 100);
    } else {
        panic!("Wrong result type");
    }

    if let ComplexTimelineValue::Float(result) = timeline.reverse(&[false, false, false, true, true])
    {
        assert!((result - 41_100).abs() < 100);
    } else {
        panic!("Wrong result type");
    }

    if let ComplexTimelineValue::Float(result) = timeline.reverse(&[false, true, true, true, false])
    {
        assert!((result - 77_200).abs() < 100);
    } else {
        panic!("Wrong result type");
    }
}

#[test]
fn integer_timeline_normaize_linear_value() {
    let timeline = IntegerTimeline::new(IntegerTimelineParams {
        capacity: 5,
        min_value: 10,
        max_value: 110,
        get_multiplier: Remap::Identity,
        get_reverse_multiplier: Remap::Identity,
    });

    assert_eq!(timeline.normalize_value(16), 2);
    assert_eq!(timeline.normalize_value(39), 9);
    assert_eq!(timeline.normalize_value(106), 30);
}

#[test]
fn integer_timeline_get_linear_value_bits() {
    let timelines = vec![
        IntegerTimeline::new(IntegerTimelineParams {
            capacity: 5,
            min_value: 10,
            max_value: 110,
            get_multiplier: Remap::Identity,
            get_reverse_multiplier: Remap::Identity,
        }),
        IntegerTimeline::from_config(&IntegerTimelineConfig {
            capacity: 5,
            min_value: 10,
            max_value: 110,
        }),
    ];

    for timeline in timelines {
        assert_eq!(
            timeline.get_bits(&ComplexTimelineValue::Integer(5)),
            vec![false, false, false, false, false],
            "too small value"
        );
        assert_eq!(
            timeline.get_bits(&ComplexTimelineValue::Integer(115)),
            vec![true, true, true, true, true],
            "too big value"
        );

        assert_eq!(
            timeline.get_bits(&ComplexTimelineValue::Integer(16)),
            vec![false, false, false, true, false],
            "2"
        );
        assert_eq!(
            timeline.get_bits(&ComplexTimelineValue::Integer(39)),
            vec![false, true, false, false, true],
            "9"
        );
        assert_eq!(
            timeline.get_bits(&ComplexTimelineValue::Integer(106)),
            vec![true, true, true, true, false],
            "30"
        );
    }
}

#[test]
fn integer_timeline_get_parabolic_value_bits() {
    let timeline = IntegerTimeline::new(IntegerTimelineParams {
        capacity: 5,
        min_value: 10,
        max_value: 110,
        get_multiplier: Remap::Square,
        get_reverse_multiplier: Remap::Identity,
    });

    assert_eq!(
        timeline.get_bits(&ComplexTimelineValue::Integer(5)),
        vec![false, false, false, false, false],
        "too small value"
    );
    assert_eq!(
        timeline.get_bits(&ComplexTimelineValue::Integer(115)),
        vec![true, true, true, true, true],
        "too big value"
    );

    assert_eq!(
        timeline.get_bits(&ComplexTimelineValue::Integer(100)),
        vec![true, true, false, false, true],
        "25"
    );
    assert_eq!(
        timeline.get_bits(&ComplexTimelineValue::Integer(39)),
        vec![false, false, false, true, true],
        "9"
    );
    assert_eq!(
        timeline.get_bits(&ComplexTimelineValue::Integer(77)),
        vec![false, true, true, true, false],
        "14"
    );
}

#[test]
fn integer_timeline_reverse_linear() {
    let timeline = IntegerTimeline::new(IntegerTimelineParams {
        capacity: 5,
        min_value: 10,
        max_value: 110,
        get_multiplier: Remap::Identity,
        get_reverse_multiplier: Remap::Identity,
    });

    assert_eq!(
        timeline.reverse(&[false, false, false, true, false]),
        ComplexTimelineValue::Integer(16)
    );
    assert_eq!(
        timeline.reverse(&[false, true, false, false, true]),
        ComplexTimelineValue::Integer(39)
    );
    assert_eq!(
        timeline.reverse(&[true, true, true, true, false]),
        ComplexTimelineValue::Integer(107)
    );
}

#[test]
fn integer_timeline_reverse_parabolic() {
    let timeline = IntegerTimeline::new(IntegerTimelineParams {
        capacity: 5,
        min_value: 10,
        max_value: 110,
        get_multiplier: Remap::Identity,
        get_reverse_multiplier: Remap::Sqrt,
    });

    assert_eq!(
        timeline.reverse(&[true, true, false, false, true]),
        ComplexTimelineValue::Integer(100)
    );
    assert_eq!(
        timeline.reverse(&[false, false, false, true, true]),
        ComplexTimelineValue::Integer(41)
    );
    assert_eq!(
        timeline.reverse(&[false, true, true, true, false]),
        ComplexTimelineValue::Integer(77)
    );
}

#[test]
fn enum_timeline_get_value_bits() {
    let timeline = sample_enum_timeline();

    assert_eq!(
        timeline.get_bits(&ComplexTimelineValue::Enum("one".to_owned())),
        vec![false, false, true],
    );
    assert_eq!(
        timeline.get_bits(&ComplexTimelineValue::Enum("two".to_owned())),
        vec![false, true, false],
    );
    assert_eq!(
        timeline.get_bits(&ComplexTimelineValue::Enum("three".to_owned())),
        vec![false, true, true],
    );
    assert_eq!(
        timeline.get_bits(&ComplexTimelineValue::Enum("four".to_owned())),
        vec![true, false, false],
    );
    assert_eq!(
        timeline.get_bits(&ComplexTimelineValue::Enum("five".to_owned())),
        vec![true, false, true],
    );
    assert_eq!(
        timeline.get_bits(&ComplexTimelineValue::Enum("zero".to_owned())),
        vec![false, false, false],
    );
}

#[test]
fn enum_timeline_reverse() {
    let timeline = sample_enum_timeline();

    if let ComplexTimelineValue::Enum(result) = timeline.reverse(&[false, false, true]) {
        assert_eq!(result, "one");
    } else {
        panic!("Wrong result type");
    }

    if let ComplexTimelineValue::Enum(result) = timeline.reverse(&[false, true, false]) {
        assert_eq!(result, "two");
    } else {
        panic!("Wrong result type");
    }

    if let ComplexTimelineValue::Enum(result) = timeline.reverse(&[false, true, true]) {
        assert_eq!(result, "three");
    } else {
        panic!("Wrong result type");
    }

    if let ComplexTimelineValue::Enum(result) = timeline.reverse(&[true, false, false]) {
        assert_eq!(result, "four");
    } else {
        panic!("Wrong result type");
    }

    if let ComplexTimelineValue::Enum(result) = timeline.reverse(&[true, false, true]) {
        assert_eq!(result, "five");
    } else {
        panic!("Wrong result type");
    }

    if let ComplexTimelineValue::Enum(result) = timeline.reverse(&[false, false, false]) {
        assert_eq!(result, "zero");
    } else {
        panic!("Wrong result type");
    }
}

#[test]
fn enum_timeline_unknown_option_encodes_as_first() {
    let timeline = sample_enum_timeline();
    assert_eq!(
        timeline.get_bits(&ComplexTimelineValue::Enum("missing".to_owned())),
        vec![false, false, false],
    );
}

fn sample_complex_timeline() -> ComplexTimeline {
    ComplexTimeline::new(vec![
        Timeline::Float(FloatTimeline::new(FloatTimelineParams {
            capacity: 5,
            min_value: 10_000,
            max_value: 110_000,
            get_multiplier: Remap::Identity,
            get_reverse_multiplier: Remap::Identity,
        })),
        Timeline::Integer(IntegerTimeline::new(IntegerTimelineParams {
            capacity: 5,
            min_value: 10,
            max_value: 110,
            get_multiplier: Remap::Identity,
            get_reverse_multiplier: Remap::Identity,
        })),
        Timeline::Enum(sample_enum_timeline()),
    ])
}

#[test]
fn complex_timeline_get_value_bits() {
    let timeline = sample_complex_timeline();

    assert_eq!(
        timeline
            .get_bits(&[
                ComplexTimelineValue::Float(39_000),
                ComplexTimelineValue::Integer(106),
                ComplexTimelineValue::Enum("three".to_owned()),
            ])
            .unwrap(),
        vec![false, true, false, false, true, true, true, true, true, false, false, true, true],
    );
}

#[test]
fn complex_timeline_reverse() {
    let timeline = sample_complex_timeline();

    let result = timeline.reverse(&[
        false, true, false, false, true, true, true, true, true, false, false, true, true,
    ]);

    assert_eq!(result[1], ComplexTimelineValue::Integer(107));
    assert_eq!(
        result[2],
        ComplexTimelineValue::Enum("three".to_owned())
    );

    if let ComplexTimelineValue::Float(float_value) = result[0] {
        assert!((float_value - 39_000).abs() < 100)
    } else {
        panic!("Wrong item type");
    }
}

#[test]
fn datetime_timeline_packs_calendar_fields() {
    let timeline = DatetimeTimeline::new(DatetimeTimelineConfig { format: None });

    // 2024 - 1900 = 124, May the 4th, 23:00
    let bits = timeline.get_bits(&ComplexTimelineValue::Datetime(
        "2024-05-04 23:00:00".to_owned(),
    ));
    let expected = [
        false, true, true, true, true, true, false, false, // 124
        false, true, false, true, // 5
        false, false, true, false, false, // 4
        true, false, true, true, true, // 23
        false, false, // quarter 0
    ];
    assert_eq!(bits, expected.to_vec());

    if let ComplexTimelineValue::Datetime(text) = timeline.reverse(&expected) {
        assert_eq!(text, "2024-05-04 23:00:00");
    } else {
        panic!("Wrong result type");
    }
}

#[test]
fn datetime_timeline_quarter_hour_field() {
    let timeline = DatetimeTimeline::new(DatetimeTimelineConfig { format: None });

    // minute 59 lies in the fourth quarter hour: field value 3
    let bits = timeline.get_bits(&ComplexTimelineValue::Datetime(
        "2024-05-04 23:59:00".to_owned(),
    ));
    assert_eq!(&bits[22..24], &[true, true]);

    // decoding truncates to the start of that quarter hour
    if let ComplexTimelineValue::Datetime(text) = timeline.reverse(&bits) {
        assert_eq!(text, "2024-05-04 23:45:00");
    } else {
        panic!("Wrong result type");
    }
}

#[test]
fn datetime_timeline_rejects_unparseable_text() {
    let timeline = DatetimeTimeline::new(DatetimeTimelineConfig { format: None });
    let bits = timeline.get_bits(&ComplexTimelineValue::Datetime("never".to_owned()));
    assert_eq!(bits, vec![false; 24]);
}

#[test]
fn datetime_timeline_reverse_of_zero_bits_is_empty() {
    let timeline = DatetimeTimeline::new(DatetimeTimelineConfig { format: None });
    if let ComplexTimelineValue::Datetime(text) = timeline.reverse(&[false; 24]) {
        assert_eq!(text, "");
    } else {
        panic!("Wrong result type");
    }
}
