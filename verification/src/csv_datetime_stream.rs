//! A finite training source of timestamps read from semicolon-
//! delimited text with a `Date` column, walked by the same cursor
//! discipline as the value source.

use vstd::prelude::*;
use crate::csv_support::{csv_rows_of, split_csv};
use crate::csv_stream::{StreamError, spec_date_column};
use crate::date_parts::{
    DateTimeParts, format_datetime, formatted_datetime, parse_datetime, parsed_datetime, parts_lt,
    spec_parts_lt,
};
use crate::structures::ComplexTimelineValue;

verus! {

/// Where a timestamp source reads its text from.
#[derive(Clone, Debug)]
pub struct CsvDateTimeStreamConfig {
    /// Path of the semicolon-delimited file
    pub path: String,
}

/// Record `row` yields a timestamp: the column is present and parses
/// under the usual layout.
pub open spec fn spec_date_row_ok(row: Seq<Seq<char>>, dc: int) -> bool {
    &&& dc < row.len()
    &&& parsed_datetime(row[dc], "%Y-%m-%d %H:%M:%S"@) is Some
}

/// The parsed timestamps mirror the records: timestamp `j` is that of
/// record `j + 1`.
pub open spec fn date_rows_ok(parsed: Seq<DateTimeParts>, rows: Seq<Seq<Seq<char>>>, dc: int) -> bool {
    forall|j: int|
        #![trigger parsed[j]]
        #![trigger rows[j + 1]]
        0 <= j < parsed.len() ==> spec_date_row_ok(rows[j + 1], dc) && parsed[j]
            == parsed_datetime(rows[j + 1][dc], "%Y-%m-%d %H:%M:%S"@).unwrap()
}

/// Appending the timestamp of the next record keeps the mirror
/// relation.
proof fn lemma_date_rows_push(
    prev: Seq<DateTimeParts>,
    row: DateTimeParts,
    rows: Seq<Seq<Seq<char>>>,
    dc: int,
)
    requires
        date_rows_ok(prev, rows, dc),
        prev.len() + 1 <= rows.len() - 1,
        spec_date_row_ok(rows[prev.len() as int + 1], dc),
        row == parsed_datetime(rows[prev.len() as int + 1][dc], "%Y-%m-%d %H:%M:%S"@).unwrap(),
    ensures
        date_rows_ok(prev.push(row), rows, dc),
{
    let parsed = prev.push(row);
    assert forall|j: int| 0 <= j < parsed.len() implies spec_date_row_ok(rows[j + 1], dc) && (
    #[trigger] parsed[j]) == parsed_datetime(
        rows[j + 1][dc],
        "%Y-%m-%d %H:%M:%S"@,
    ).unwrap() by {
        if j < parsed.len() - 1 {
            assert(parsed[j] == prev[j]);
        } else {
            assert(parsed[j] == row);
        }
    }
}

/// A finite source of timestamp samples in file order.
#[derive(Debug)]
pub struct CsvDateTimeStream {
    /// The parsed timestamps, in file order
    pub rows: Vec<DateTimeParts>,
    /// Index of the current sample
    pub pos: usize,
}

/// How `set_date` moves a cursor of a timestamp source; the same
/// discipline as the value source.
pub open spec fn csv_datetime_advanced(
    old_s: CsvDateTimeStream,
    new_s: CsvDateTimeStream,
    date: DateTimeParts,
) -> bool {
    &&& new_s.rows == old_s.rows
    &&& old_s.pos <= new_s.pos
    &&& new_s.wf()
    &&& match new_s.spec_next_date() {
        Some(nd) => spec_parts_lt(date, nd),
        None => true,
    }
    &&& forall|j: int|
        old_s.pos < j <= new_s.pos ==> !spec_parts_lt(date, #[trigger] new_s.rows@[j])
}

impl CsvDateTimeStream {
    /// The cursor addresses a sample whenever there is one.
    pub open spec fn wf(&self) -> bool {
        if self.rows@.len() == 0 {
            self.pos == 0
        } else {
            self.pos < self.rows@.len()
        }
    }

    /// Timestamp of the current sample.
    pub open spec fn spec_current_date(&self) -> Option<DateTimeParts> {
        if self.rows@.len() == 0 {
            None
        } else {
            Some(self.rows@[self.pos as int])
        }
    }

    /// Timestamp of the sample after the current one.
    pub open spec fn spec_next_date(&self) -> Option<DateTimeParts> {
        if self.pos + 1 < self.rows@.len() {
            Some(self.rows@[self.pos as int + 1])
        } else {
            None
        }
    }

    /// A source over already-parsed timestamps, at the first one.
    pub fn from_rows(rows: Vec<DateTimeParts>) -> (r: Self)
        ensures
            r.wf(),
            r.rows == rows,
            r.pos == 0,
    {
        CsvDateTimeStream { rows, pos: 0 }
    }

    /// A source from semicolon-delimited text: the header names the
    /// `Date` column, every record after it must parse.
    #[verifier::loop_isolation(false)]
    pub fn from_text(text: &str) -> (r: Result<CsvDateTimeStream, StreamError>)
        ensures
            r matches Ok(s) ==> s.wf() && s.pos == 0 && {
                let rows = csv_rows_of(text@);
                &&& rows.len() >= 1
                &&& spec_date_column(rows) is Some
                &&& s.rows@.len() == rows.len() - 1
                &&& date_rows_ok(s.rows@, rows, spec_date_column(rows).unwrap())
            },
            r matches Err(e) && e is MissingColumn <==> csv_rows_of(text@).len() == 0
                || spec_date_column(csv_rows_of(text@)) is None,
            r matches Err(e) && e is BadRow <==> csv_rows_of(text@).len() >= 1 && spec_date_column(
                csv_rows_of(text@),
            ) is Some && exists|k: int|
                1 <= k < csv_rows_of(text@).len() && !spec_date_row_ok(
                    #[trigger] csv_rows_of(text@)[k],
                    spec_date_column(csv_rows_of(text@)).unwrap(),
                ),
    {
        let raw = split_csv(text);
        let ghost rows = csv_rows_of(text@);
        proof {
            assert(raw.deep_view() == rows);
            assert(raw.deep_view().len() == raw@.len());
        }
        if raw.len() == 0 {
            return Err(StreamError::MissingColumn);
        }
        proof {
            assert(rows[0] == raw@[0].deep_view());
        }
        let dc = match crate::csv_stream::find_column(&raw[0], "Date") {
            Some(c) => c,
            None => {
                return Err(StreamError::MissingColumn);
            },
        };
        let mut parsed: Vec<DateTimeParts> = Vec::new();
        let n = raw.len();
        for k in 1..n
            invariant
                n == raw@.len(),
                n == rows.len(),
                spec_date_column(rows) == Some(dc as int),
                parsed@.len() == k - 1,
                date_rows_ok(parsed@, rows, dc as int),
            decreases n - k,
        {
            let row = &raw[k];
            proof {
                assert(rows[k as int] == raw@[k as int].deep_view());
                assert(forall|j: int|
                    0 <= j < row@.len() ==> #[trigger] rows[k as int][j] == row@[j]@);
            }
            if dc >= row.len() {
                proof {
                    assert(!spec_date_row_ok(rows[k as int], dc as int));
                }
                return Err(StreamError::BadRow);
            }
            let date = match parse_datetime(row[dc].as_str(), "%Y-%m-%d %H:%M:%S") {
                Some(d) => d,
                None => {
                    proof {
                        assert(!spec_date_row_ok(rows[k as int], dc as int));
                    }
                    return Err(StreamError::BadRow);
                },
            };
            let ghost old_parsed = parsed@;
            parsed.push(date);
            proof {
                assert(spec_date_row_ok(rows[k as int], dc as int));
                lemma_date_rows_push(old_parsed, date, rows, dc as int);
                assert(parsed@ == old_parsed.push(date));
            }
        }
        proof {
            assert forall|k2: int|
                1 <= k2 < rows.len() implies spec_date_row_ok(
                #[trigger] rows[k2],
                spec_date_column(rows).unwrap(),
            ) by {
                assert(parsed@[k2 - 1] == parsed_datetime(
                    rows[k2 - 1 + 1][dc as int],
                    "%Y-%m-%d %H:%M:%S"@,
                ).unwrap());
            }
        }
        Ok(CsvDateTimeStream::from_rows(parsed))
    }

    /// The current sample, printed under the usual layout.
    pub fn get_value(&self) -> (r: ComplexTimelineValue)
        requires
            self.wf(),
            self.rows@.len() >= 1,
        ensures
            r matches ComplexTimelineValue::Datetime(s) && s@ == match formatted_datetime(
                self.rows@[self.pos as int],
                "%Y-%m-%d %H:%M:%S"@,
            ) {
                Some(t) => t,
                None => Seq::empty(),
            },
    {
        let current = self.rows[self.pos];
        match format_datetime(&current, "%Y-%m-%d %H:%M:%S") {
            Some(text) => ComplexTimelineValue::Datetime(text),
            None => ComplexTimelineValue::Datetime(String::new()),
        }
    }

    /// Timestamp of the current sample.
    pub fn get_date(&self) -> (r: Option<DateTimeParts>)
        requires
            self.wf(),
        ensures
            r == self.spec_current_date(),
    {
        if self.rows.len() == 0 {
            None
        } else {
            Some(self.rows[self.pos])
        }
    }

    /// Timestamp of the sample after the current one.
    pub fn get_next_date(&self) -> (r: Option<DateTimeParts>)
        requires
            self.wf(),
        ensures
            r == self.spec_next_date(),
    {
        let n = self.rows.len();
        if self.pos + 1 < n {
            Some(self.rows[self.pos + 1])
        } else {
            None
        }
    }

    /// The source is exhausted: no sample follows the current one.
    pub fn is_finish(&self) -> (r: bool)
        requires
            self.wf(),
        ensures
            r == (self.spec_next_date() is None),
    {
        let n = self.rows.len();
        self.pos + 1 >= n
    }

    /// The next sample, if any, lies strictly beyond `date`.
    fn is_date_in_interval(&self, date: &DateTimeParts) -> (r: bool)
        requires
            self.wf(),
        ensures
            r == match self.spec_next_date() {
                Some(nd) => spec_parts_lt(*date, nd),
                None => true,
            },
    {
        let n = self.rows.len();
        if self.pos + 1 < n {
            parts_lt(date, &self.rows[self.pos + 1])
        } else {
            true
        }
    }

    /// Move the cursor to the sample after the current one, when one
    /// exists.
    fn step(&mut self)
        requires
            old(self).wf(),
        ensures
            final(self).wf(),
            final(self).rows == old(self).rows,
            final(self).pos == if old(self).spec_next_date() is Some {
                old(self).pos + 1
            } else {
                old(self).pos as int
            },
    {
        let n = self.rows.len();
        if self.pos + 1 < n {
            self.pos = self.pos + 1;
        }
    }

    /// Advance the cursor until the next sample lies strictly beyond
    /// `date`; an exhausted source stays put.
    pub fn set_date(&mut self, date: &DateTimeParts)
        requires
            old(self).wf(),
        ensures
            csv_datetime_advanced(*old(self), *final(self), *date),
    {
        if self.is_finish() {
            return ;
        }
        while !self.is_date_in_interval(date)
            invariant
                self.wf(),
                self.rows == old(self).rows,
                old(self).pos <= self.pos,
                forall|j: int|
                    old(self).pos < j <= self.pos ==> !spec_parts_lt(
                        *date,
                        #[trigger] self.rows@[j],
                    ),
            ensures
                match self.spec_next_date() {
                    Some(nd) => spec_parts_lt(*date, nd),
                    None => true,
                },
            decreases self.rows@.len() - self.pos,
        {
            self.step();
        }
    }
}

} // verus!
