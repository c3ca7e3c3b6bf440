//! Codec of a datetime channel: a timestamp text is parsed under a
//! format and packed into a fixed 24-bit word of calendar fields
//! (year above 1900 in 8 bits, month in 4, day in 5, hour in 5, and the
//! quarter hour, minute over fifteen, in 2); the inverse unpacks and
//! prints. A text that does
//! not parse encodes as 24 zero bits, and a word whose fields form no
//! valid date decodes to the empty text.

use vstd::prelude::*;
use crate::bits::{bits_slice_value, bits_value, spec_number_to_bits};
use crate::date_parts::{
    DateTimeParts, format_datetime, formatted_datetime, parse_datetime, parsed_datetime,
};
use crate::structures::ComplexTimelineValue;

verus! {

/// Width in bits of one encoded datetime.
pub const DATETIME_CAPACITY: u8 = 24;

/// Format of a datetime channel; the usual date-and-time layout when
/// absent.
#[derive(Debug)]
pub struct DatetimeTimelineConfig {
    /// The strftime-style format of the channel's texts
    pub format: Option<String>,
}

/// Codec of a datetime channel.
#[derive(Debug)]
pub struct DatetimeTimeline {
    /// The channel configuration
    pub config: DatetimeTimelineConfig,
}

/// The format a configuration selects.
pub open spec fn spec_format(c: DatetimeTimelineConfig) -> Seq<char> {
    match c.format {
        Some(f) => f@,
        None => "%Y-%m-%d %H:%M:%S"@,
    }
}

/// The 24-bit word the parsed calendar fields pack into; all zeros when
/// nothing parsed or the year precedes 1900.
pub open spec fn spec_datetime_bits(p_opt: Option<DateTimeParts>) -> Seq<bool> {
    match p_opt {
        None => Seq::new(24, |i: int| false),
        Some(p) => if p.year < 1900 {
            Seq::new(24, |i: int| false)
        } else {
            spec_number_to_bits((p.year - 1900) as nat, 8, 2155) + spec_number_to_bits(
                p.month as nat,
                4,
                12,
            ) + spec_number_to_bits(p.day as nat, 5, 31) + spec_number_to_bits(p.hour as nat, 5, 24)
                + spec_number_to_bits((p.minute / 15) as nat, 2, 3)
        },
    }
}

/// The calendar fields a 24-bit word unpacks to, each clamped to its
/// calendar bound; the second is not carried.
pub open spec fn spec_datetime_parts_of_bits(bits: Seq<bool>) -> DateTimeParts {
    DateTimeParts {
        year: (bits_value(bits.subrange(0, 8)) + 1900) as i32,
        month: (if bits_value(bits.subrange(8, 12)) < 12 {
            bits_value(bits.subrange(8, 12))
        } else {
            12nat
        }) as u8,
        day: (if bits_value(bits.subrange(12, 17)) < 31 {
            bits_value(bits.subrange(12, 17))
        } else {
            31nat
        }) as u8,
        hour: (if bits_value(bits.subrange(17, 22)) < 23 {
            bits_value(bits.subrange(17, 22))
        } else {
            23nat
        }) as u8,
        minute: (if bits_value(bits.subrange(22, 24)) * 15 < 59 {
            bits_value(bits.subrange(22, 24)) * 15
        } else {
            59nat
        }) as u8,
        second: 0,
    }
}

/// The text a 24-bit word decodes to: the unpacked fields printed under
/// the format, or the empty text when they form no valid date.
pub open spec fn spec_datetime_reverse(bits: Seq<bool>, format: Seq<char>) -> Seq<char> {
    match formatted_datetime(spec_datetime_parts_of_bits(bits), format) {
        Some(t) => t,
        None => Seq::empty(),
    }
}

impl DatetimeTimeline {
    /// A channel from its configuration.
    pub fn new(config: DatetimeTimelineConfig) -> (r: Self)
        ensures
            r.config == config,
    {
        DatetimeTimeline { config }
    }

    /// A channel from a borrowed configuration.
    pub fn from_config(config: &DatetimeTimelineConfig) -> (r: Self)
        ensures
            spec_format(r.config) == spec_format(*config),
    {
        let format: Option<String> = match &config.format {
            Some(f) => Some(f.clone()),
            None => None,
        };
        DatetimeTimeline::new(DatetimeTimelineConfig { format })
    }

    /// The format of this channel's texts.
    pub fn get_date_format(&self) -> (r: &str)
        ensures
            r@ == spec_format(self.config),
    {
        match &self.config.format {
            Some(f) => f.as_str(),
            None => "%Y-%m-%d %H:%M:%S",
        }
    }

    /// Number of bits of one encoded value.
    pub fn get_capacity(&self) -> (r: u8)
        ensures
            r == 24,
    {
        DATETIME_CAPACITY
    }

    /// Encode a timestamp text: parse it under the channel format and
    /// pack the calendar fields; all zeros when it does not parse.
    pub fn get_bits(&self, timeline_value: &ComplexTimelineValue) -> (r: Vec<bool>)
        requires
            timeline_value matches ComplexTimelineValue::Datetime(_),
        ensures
            r@.len() == 24,
            timeline_value matches ComplexTimelineValue::Datetime(s) ==> r@ == spec_datetime_bits(
                parsed_datetime(s@, spec_format(self.config)),
            ),
    {
        let text: &String = match timeline_value {
            ComplexTimelineValue::Datetime(s) => s,
            _ => {
                proof {
                    assert(false);
                }
                return vec![false; 24];
            },
        };
        let format = self.get_date_format();
        let parsed = parse_datetime(text.as_str(), format);
        match parsed {
            Some(p) => {
                if p.year >= 1900 {
                    let mut res = crate::bits::number_to_bits((p.year - 1900) as usize, 8, 2155);
                    let mut part = crate::bits::number_to_bits(p.month as usize, 4, 12);
                    res.append(&mut part);
                    let mut part = crate::bits::number_to_bits(p.day as usize, 5, 31);
                    res.append(&mut part);
                    let mut part = crate::bits::number_to_bits(p.hour as usize, 5, 24);
                    res.append(&mut part);
                    let mut part = crate::bits::number_to_bits((p.minute / 15) as usize, 2, 3);
                    res.append(&mut part);
                    proof {
                        assert(res@ =~= spec_datetime_bits(Some(p)));
                    }
                    res
                } else {
                    let res = vec![false; 24];
                    proof {
                        assert(res@ =~= spec_datetime_bits(Some(p)));
                    }
                    res
                }
            },
            None => {
                let res = vec![false; 24];
                proof {
                    assert(res@ =~= spec_datetime_bits(None::<DateTimeParts>));
                }
                res
            },
        }
    }

    /// Decode a 24-bit word: unpack the calendar fields, clamp each to
    /// its bound, and print them under the channel format; the empty
    /// text when they form no valid date.
    pub fn reverse(&self, bits: &[bool]) -> (r: ComplexTimelineValue)
        requires
            bits@.len() == 24,
        ensures
            r matches ComplexTimelineValue::Datetime(s) && s@ == spec_datetime_reverse(
                bits@,
                spec_format(self.config),
            ),
    {
        let format = self.get_date_format();

        let year_low = bits_slice_value(bits, 0, 8);
        let month_raw = bits_slice_value(bits, 8, 12);
        let day_raw = bits_slice_value(bits, 12, 17);
        let hour_raw = bits_slice_value(bits, 17, 22);
        let quarter_raw = bits_slice_value(bits, 22, 24);
        proof {
            vstd::arithmetic::power2::lemma2_to64();
        }

        let month = if month_raw < 12 {
            month_raw
        } else {
            12
        };
        let day = if day_raw < 31 {
            day_raw
        } else {
            31
        };
        let hour = if hour_raw < 23 {
            hour_raw
        } else {
            23
        };
        let minute = if quarter_raw * 15 < 59 {
            quarter_raw * 15
        } else {
            59
        };

        let parts = DateTimeParts {
            year: (year_low + 1900) as i32,
            month: month as u8,
            day: day as u8,
            hour: hour as u8,
            minute: minute as u8,
            second: 0,
        };
        proof {
            assert(parts == spec_datetime_parts_of_bits(bits@));
        }

        match format_datetime(&parts, format) {
            Some(text) => ComplexTimelineValue::Datetime(text),
            None => {
                let empty = String::new();
                ComplexTimelineValue::Datetime(empty)
            },
        }
    }
}

} // verus!
