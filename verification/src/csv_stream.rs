//! A finite training source of real values read from semicolon-
//! delimited text with `Date` and `Value` columns, walked by a cursor
//! that always knows the current sample and the next timestamp.

use vstd::prelude::*;
use crate::csv_support::{csv_rows_of, split_csv};
use crate::date_parts::{DateTimeParts, parse_datetime, parsed_datetime, parts_lt, spec_parts_lt};
use crate::decimal::{parse_decimal_milli, spec_decimal_milli};
use crate::enum_timeline::{lemma_find_option_characterization, spec_find_option};
use crate::structures::ComplexTimelineValue;

verus! {

/// One parsed sample: its timestamp and its value in thousandths.
#[derive(Clone, Copy, Debug)]
pub struct CsvRow {
    /// Timestamp of the sample
    pub date: DateTimeParts,
    /// Value of the sample, in thousandths
    pub value: i64,
}

/// Where a value source reads its text from.
#[derive(Clone, Debug)]
pub struct CsvStreamConfig {
    /// Path of the semicolon-delimited file
    pub path: String,
}

/// Why a training source could not be built from its text.
#[derive(Clone, Copy, Debug, PartialEq, Eq, Structural)]
pub enum StreamError {
    /// The text has no header row, or the header lacks a needed column
    MissingColumn,
    /// A record's timestamp or value does not parse
    BadRow,
}

/// Position of the `Date` column in the header of the records.
pub open spec fn spec_date_column(rows: Seq<Seq<Seq<char>>>) -> Option<int> {
    if rows.len() == 0 {
        None
    } else {
        spec_find_option(rows[0], "Date"@)
    }
}

/// Position of the `Value` column in the header of the records.
pub open spec fn spec_value_column(rows: Seq<Seq<Seq<char>>>) -> Option<int> {
    if rows.len() == 0 {
        None
    } else {
        spec_find_option(rows[0], "Value"@)
    }
}

/// Record `row` yields a sample: both columns are present, the
/// timestamp parses under the usual layout, and the value is a plain
/// decimal.
pub open spec fn spec_value_row_ok(row: Seq<Seq<char>>, dc: int, vc: int) -> bool {
    &&& dc < row.len()
    &&& vc < row.len()
    &&& parsed_datetime(row[dc], "%Y-%m-%d %H:%M:%S"@) is Some
    &&& spec_decimal_milli(row[vc]) is Some
}

/// The parsed samples mirror the records: sample `j` holds the
/// timestamp and thousandths of record `j + 1`.
pub open spec fn parsed_rows_ok(
    parsed: Seq<CsvRow>,
    rows: Seq<Seq<Seq<char>>>,
    dc: int,
    vc: int,
) -> bool {
    forall|j: int|
        #![trigger parsed[j]]
        #![trigger rows[j + 1]]
        0 <= j < parsed.len() ==> spec_value_row_ok(rows[j + 1], dc, vc) && parsed[j].date
            == parsed_datetime(rows[j + 1][dc], "%Y-%m-%d %H:%M:%S"@).unwrap()
            && parsed[j].value as int == spec_decimal_milli(rows[j + 1][vc]).unwrap()
}

/// Appending the sample of the next record keeps the mirror relation.
proof fn lemma_parsed_rows_push(
    prev: Seq<CsvRow>,
    row: CsvRow,
    rows: Seq<Seq<Seq<char>>>,
    dc: int,
    vc: int,
)
    requires
        parsed_rows_ok(prev, rows, dc, vc),
        prev.len() + 1 <= rows.len() - 1,
        spec_value_row_ok(rows[prev.len() as int + 1], dc, vc),
        row.date == parsed_datetime(
            rows[prev.len() as int + 1][dc],
            "%Y-%m-%d %H:%M:%S"@,
        ).unwrap(),
        row.value as int == spec_decimal_milli(rows[prev.len() as int + 1][vc]).unwrap(),
    ensures
        parsed_rows_ok(prev.push(row), rows, dc, vc),
{
    let parsed = prev.push(row);
    assert forall|j: int|
        0 <= j < parsed.len() implies spec_value_row_ok(rows[j + 1], dc, vc) && (
    #[trigger] parsed[j]).date == parsed_datetime(
        rows[j + 1][dc],
        "%Y-%m-%d %H:%M:%S"@,
    ).unwrap() && parsed[j].value as int == spec_decimal_milli(rows[j + 1][vc]).unwrap() by {
        if j < parsed.len() - 1 {
            assert(parsed[j] == prev[j]);
            assert(prev[j] == parsed[j]);
        } else {
            assert(parsed[j] == row);
        }
    }
}

/// A finite source of real-valued samples in timestamp order.
#[derive(Debug)]
pub struct CsvStream {
    /// The parsed samples, in file order
    pub rows: Vec<CsvRow>,
    /// Index of the current sample
    pub pos: usize,
}

/// How `set_date` moves a cursor: the samples are untouched, the cursor
/// only moves forward, it stops as soon as the next timestamp lies
/// strictly beyond the given one, and every sample it walked over lies
/// at or before the given one.
pub open spec fn csv_advanced(old_s: CsvStream, new_s: CsvStream, date: DateTimeParts) -> bool {
    &&& new_s.rows == old_s.rows
    &&& old_s.pos <= new_s.pos
    &&& new_s.wf()
    &&& match new_s.spec_next_date() {
        Some(nd) => spec_parts_lt(date, nd),
        None => true,
    }
    &&& forall|j: int|
        old_s.pos < j <= new_s.pos ==> !spec_parts_lt(date, (#[trigger] new_s.rows@[j]).date)
}

impl CsvStream {
    /// The cursor addresses a sample whenever there is one.
    pub open spec fn wf(&self) -> bool {
        if self.rows@.len() == 0 {
            self.pos == 0
        } else {
            self.pos < self.rows@.len()
        }
    }

    /// Timestamp of the current sample.
    pub open spec fn spec_current_date(&self) -> Option<DateTimeParts> {
        if self.rows@.len() == 0 {
            None
        } else {
            Some(self.rows@[self.pos as int].date)
        }
    }

    /// Timestamp of the sample after the current one.
    pub open spec fn spec_next_date(&self) -> Option<DateTimeParts> {
        if self.pos + 1 < self.rows@.len() {
            Some(self.rows@[self.pos as int + 1].date)
        } else {
            None
        }
    }

    /// A source over already-parsed samples, at the first one.
    pub fn from_rows(rows: Vec<CsvRow>) -> (r: Self)
        ensures
            r.wf(),
            r.rows == rows,
            r.pos == 0,
    {
        CsvStream { rows, pos: 0 }
    }

    /// A source from semicolon-delimited text: the header names the
    /// `Date` and `Value` columns, every record after it must parse.
    #[verifier::loop_isolation(false)]
    pub fn from_text(text: &str) -> (r: Result<CsvStream, StreamError>)
        ensures
            r matches Ok(s) ==> s.wf() && s.pos == 0 && {
                let rows = csv_rows_of(text@);
                let dc = spec_date_column(rows).unwrap();
                let vc = spec_value_column(rows).unwrap();
                &&& rows.len() >= 1
                &&& spec_date_column(rows) is Some
                &&& spec_value_column(rows) is Some
                &&& s.rows@.len() == rows.len() - 1
                &&& parsed_rows_ok(s.rows@, rows, dc, vc)
            },
            r matches Err(e) && e is MissingColumn <==> csv_rows_of(text@).len() == 0
                || spec_date_column(csv_rows_of(text@)) is None || spec_value_column(
                csv_rows_of(text@),
            ) is None,
            r matches Err(e) && e is BadRow <==> csv_rows_of(text@).len() >= 1 && spec_date_column(
                csv_rows_of(text@),
            ) is Some && spec_value_column(csv_rows_of(text@)) is Some && exists|k: int|
                1 <= k < csv_rows_of(text@).len() && !spec_value_row_ok(
                    #[trigger] csv_rows_of(text@)[k],
                    spec_date_column(csv_rows_of(text@)).unwrap(),
                    spec_value_column(csv_rows_of(text@)).unwrap(),
                ),
    {
        let raw = split_csv(text);
        let ghost rows = csv_rows_of(text@);
        proof {
            assert(raw.deep_view() == rows);
            assert(raw.deep_view().len() == raw@.len());
        }
        if raw.len() == 0 {
            return Err(StreamError::MissingColumn);
        }
        proof {
            assert(rows[0] == raw@[0].deep_view());
        }
        let dc_opt = find_column(&raw[0], "Date");
        let vc_opt = find_column(&raw[0], "Value");
        let dc = match dc_opt {
            Some(c) => c,
            None => {
                return Err(StreamError::MissingColumn);
            },
        };
        let vc = match vc_opt {
            Some(c) => c,
            None => {
                return Err(StreamError::MissingColumn);
            },
        };
        let mut parsed: Vec<CsvRow> = Vec::new();
        let n = raw.len();
        for k in 1..n
            invariant
                n == raw@.len(),
                raw.deep_view() == rows,
                n == rows.len(),
                1 <= n,
                spec_date_column(rows) == Some(dc as int),
                spec_value_column(rows) == Some(vc as int),
                parsed@.len() == k - 1,
                parsed_rows_ok(parsed@, rows, dc as int, vc as int),
            decreases n - k,
        {
            let row = &raw[k];
            proof {
                assert(rows[k as int] == raw@[k as int].deep_view());
                assert(forall|j: int|
                    0 <= j < row@.len() ==> #[trigger] rows[k as int][j] == row@[j]@);
            }
            if dc >= row.len() || vc >= row.len() {
                proof {
                    assert(!spec_value_row_ok(rows[k as int], dc as int, vc as int));
                }
                return Err(StreamError::BadRow);
            }
            let date = match parse_datetime(row[dc].as_str(), "%Y-%m-%d %H:%M:%S") {
                Some(d) => d,
                None => {
                    proof {
                        assert(!spec_value_row_ok(rows[k as int], dc as int, vc as int));
                    }
                    return Err(StreamError::BadRow);
                },
            };
            let value = match parse_decimal_milli(row[vc].as_str()) {
                Some(v) => v,
                None => {
                    proof {
                        assert(!spec_value_row_ok(rows[k as int], dc as int, vc as int));
                    }
                    return Err(StreamError::BadRow);
                },
            };
            let ghost old_parsed = parsed@;
            parsed.push(CsvRow { date, value });
            proof {
                assert(spec_value_row_ok(rows[k as int], dc as int, vc as int));
                lemma_parsed_rows_push(
                    old_parsed,
                    CsvRow { date, value },
                    rows,
                    dc as int,
                    vc as int,
                );
                assert(parsed@ == old_parsed.push(CsvRow { date, value }));
            }
        }
        proof {
            assert forall|k2: int|
                1 <= k2 < rows.len() implies spec_value_row_ok(
                #[trigger] rows[k2],
                spec_date_column(rows).unwrap(),
                spec_value_column(rows).unwrap(),
            ) by {
                assert((parsed@[k2 - 1]).date == parsed_datetime(
                    rows[k2 - 1 + 1][dc as int],
                    "%Y-%m-%d %H:%M:%S"@,
                ).unwrap());
            }
        }
        Ok(CsvStream::from_rows(parsed))
    }

    /// The current sample's value.
    pub fn get_value(&self) -> (r: ComplexTimelineValue)
        requires
            self.wf(),
        ensures
            r matches ComplexTimelineValue::Float(v) && v == (if self.rows@.len() == 0 {
                0int
            } else {
                self.rows@[self.pos as int].value as int
            }),
    {
        if self.rows.len() == 0 {
            ComplexTimelineValue::Float(0)
        } else {
            ComplexTimelineValue::Float(self.rows[self.pos].value)
        }
    }

    /// Timestamp of the current sample.
    pub fn get_date(&self) -> (r: Option<DateTimeParts>)
        requires
            self.wf(),
        ensures
            r == self.spec_current_date(),
    {
        if self.rows.len() == 0 {
            None
        } else {
            Some(self.rows[self.pos].date)
        }
    }

    /// Timestamp of the sample after the current one.
    pub fn get_next_date(&self) -> (r: Option<DateTimeParts>)
        requires
            self.wf(),
        ensures
            r == self.spec_next_date(),
    {
        let n = self.rows.len();
        if self.pos + 1 < n {
            Some(self.rows[self.pos + 1].date)
        } else {
            None
        }
    }

    /// The source is exhausted: no sample follows the current one.
    pub fn is_finish(&self) -> (r: bool)
        requires
            self.wf(),
        ensures
            r == (self.spec_next_date() is None),
    {
        let n = self.rows.len();
        self.pos + 1 >= n
    }

    /// The next sample, if any, lies strictly beyond `date`.
    fn is_date_in_interval(&self, date: &DateTimeParts) -> (r: bool)
        requires
            self.wf(),
        ensures
            r == match self.spec_next_date() {
                Some(nd) => spec_parts_lt(*date, nd),
                None => true,
            },
    {
        let n = self.rows.len();
        if self.pos + 1 < n {
            parts_lt(date, &self.rows[self.pos + 1].date)
        } else {
            true
        }
    }

    /// Move the cursor to the sample after the current one, when one
    /// exists.
    fn step(&mut self)
        requires
            old(self).wf(),
        ensures
            final(self).wf(),
            final(self).rows == old(self).rows,
            final(self).pos == if old(self).spec_next_date() is Some {
                old(self).pos + 1
            } else {
                old(self).pos as int
            },
    {
        let n = self.rows.len();
        if self.pos + 1 < n {
            self.pos = self.pos + 1;
        }
    }

    /// Advance the cursor until the next sample lies strictly beyond
    /// `date`; an exhausted source stays put.
    pub fn set_date(&mut self, date: &DateTimeParts)
        requires
            old(self).wf(),
        ensures
            csv_advanced(*old(self), *final(self), *date),
    {
        if self.is_finish() {
            return ;
        }
        while !self.is_date_in_interval(date)
            invariant
                self.wf(),
                self.rows == old(self).rows,
                old(self).pos <= self.pos,
                forall|j: int|
                    old(self).pos < j <= self.pos ==> !spec_parts_lt(
                        *date,
                        (#[trigger] self.rows@[j]).date,
                    ),
            ensures
                match self.spec_next_date() {
                    Some(nd) => spec_parts_lt(*date, nd),
                    None => true,
                },
            decreases self.rows@.len() - self.pos,
        {
            self.step();
        }
    }
}

/// Position of the first cell of `header` that reads `label`.
pub(crate) fn find_column(header: &Vec<String>, label: &str) -> (r: Option<usize>)
    ensures
        r matches Some(c) ==> spec_find_option(header.deep_view(), label@) == Some(c as int),
        r is None ==> spec_find_option(header.deep_view(), label@) is None,
{
    let ghost cells = header.deep_view();
    proof {
        lemma_find_option_characterization(cells, label@);
        assert(cells.len() == header@.len());
    }
    let wanted: String = label.to_owned();
    let n = header.len();
    let mut at: Option<usize> = None;
    for i in 0..n
        invariant
            n == header@.len(),
            cells == header.deep_view(),
            wanted@ == label@,
            at is None ==> forall|j: int| 0 <= j < i ==> #[trigger] cells[j] != label@,
            at matches Some(c) ==> 0 <= c < i && cells[c as int] == label@ && forall|j: int|
                0 <= j < c ==> #[trigger] cells[j] != label@,
        decreases n - i,
    {
        proof {
            assert(cells[i as int] == header@[i as int]@);
        }
        if at.is_none() && header[i].eq(&wanted) {
            at = Some(i);
        }
    }
    proof {
        match spec_find_option(cells, label@) {
            Some(k) => {
                assert(at matches Some(c) && c == k) by {
                    match at {
                        Some(c) => {
                            if (c as int) < k {
                                assert(cells[c as int] != label@);
                            }
                            if k < (c as int) {
                                assert(cells[k] != label@);
                            }
                        },
                        None => {
                            assert(cells[k] != label@);
                        },
                    }
                }
            },
            None => {
                assert(at matches Some(c) ==> cells[c as int] == label@);
                assert(at is None);
            },
        }
    }
    at
}

} // verus!
