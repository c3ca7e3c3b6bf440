//! The merged training stream: several timestamp-ordered sources
//! walked together. One step computes the earliest next timestamp over
//! all sources and advances every source up to it, so no source lags by
//! more than one slot.

use vstd::prelude::*;
use crate::csv_datetime_stream::{CsvDateTimeStream, CsvDateTimeStreamConfig, csv_datetime_advanced};
use crate::csv_stream::{CsvStream, CsvStreamConfig, csv_advanced};
use crate::date_parts::{DateTimeParts, spec_parts_lt};
use crate::structures::ComplexTimelineValue;

verus! {

/// Configuration of one training source.
#[derive(Clone, Debug)]
pub enum TrainingStreamConfig {
    /// A timestamp source
    CsvDateTime(CsvDateTimeStreamConfig),
    /// A value source
    Csv(CsvStreamConfig),
}

/// One training source: a value source or a timestamp source.
pub enum TrainingStream {
    /// A value source
    Csv(CsvStream),
    /// A timestamp source
    CsvDateTime(CsvDateTimeStream),
}

impl TrainingStream {
    /// The wrapped source is well formed.
    pub open spec fn wf(&self) -> bool {
        match self {
            TrainingStream::Csv(s) => s.wf(),
            TrainingStream::CsvDateTime(s) => s.wf(),
        }
    }

    /// The source can report a current sample.
    pub open spec fn can_read(&self) -> bool {
        match self {
            TrainingStream::Csv(_) => true,
            TrainingStream::CsvDateTime(s) => s.rows@.len() >= 1,
        }
    }

    /// Timestamp of the sample after the current one.
    pub open spec fn spec_next_date(&self) -> Option<DateTimeParts> {
        match self {
            TrainingStream::Csv(s) => s.spec_next_date(),
            TrainingStream::CsvDateTime(s) => s.spec_next_date(),
        }
    }

    /// Timestamp of the current sample.
    pub open spec fn spec_current_date(&self) -> Option<DateTimeParts> {
        match self {
            TrainingStream::Csv(s) => s.spec_current_date(),
            TrainingStream::CsvDateTime(s) => s.spec_current_date(),
        }
    }

    /// `r` is the current sample of this source.
    pub open spec fn value_ok(&self, r: ComplexTimelineValue) -> bool {
        match self {
            TrainingStream::Csv(s) => r matches ComplexTimelineValue::Float(v) && v == (
            if s.rows@.len() == 0 {
                0int
            } else {
                s.rows@[s.pos as int].value as int
            }),
            TrainingStream::CsvDateTime(s) => r matches ComplexTimelineValue::Datetime(t) && t@
                == match crate::date_parts::formatted_datetime(
                s.rows@[s.pos as int],
                "%Y-%m-%d %H:%M:%S"@,
            ) {
                Some(text) => text,
                None => Seq::empty(),
            },
        }
    }

    /// How `set_date` moves this source's cursor.
    pub open spec fn advanced(&self, new_s: TrainingStream, date: DateTimeParts) -> bool {
        match self {
            TrainingStream::Csv(s) => new_s matches TrainingStream::Csv(n) && csv_advanced(
                *s,
                n,
                date,
            ),
            TrainingStream::CsvDateTime(s) => new_s matches TrainingStream::CsvDateTime(n)
                && csv_datetime_advanced(*s, n, date),
        }
    }

    /// The current sample of this source.
    pub fn get_value(&self) -> (r: ComplexTimelineValue)
        requires
            self.wf(),
            self.can_read(),
        ensures
            self.value_ok(r),
    {
        match self {
            TrainingStream::Csv(s) => s.get_value(),
            TrainingStream::CsvDateTime(s) => s.get_value(),
        }
    }

    /// Timestamp of the current sample.
    pub fn get_date(&self) -> (r: Option<DateTimeParts>)
        requires
            self.wf(),
        ensures
            r == self.spec_current_date(),
    {
        match self {
            TrainingStream::Csv(s) => s.get_date(),
            TrainingStream::CsvDateTime(s) => s.get_date(),
        }
    }

    /// Timestamp of the sample after the current one.
    pub fn get_next_date(&self) -> (r: Option<DateTimeParts>)
        requires
            self.wf(),
        ensures
            r == self.spec_next_date(),
    {
        match self {
            TrainingStream::Csv(s) => s.get_next_date(),
            TrainingStream::CsvDateTime(s) => s.get_next_date(),
        }
    }

    /// The source is exhausted.
    pub fn is_finish(&self) -> (r: bool)
        requires
            self.wf(),
        ensures
            r == (self.spec_next_date() is None),
    {
        match self {
            TrainingStream::Csv(s) => s.is_finish(),
            TrainingStream::CsvDateTime(s) => s.is_finish(),
        }
    }

    /// Advance the cursor until the next sample lies strictly beyond
    /// `date`.
    pub fn set_date(&mut self, date: &DateTimeParts)
        requires
            old(self).wf(),
        ensures
            old(self).advanced(*final(self), *date),
            final(self).wf(),
            final(self).can_read() == old(self).can_read(),
    {
        match self {
            TrainingStream::Csv(s) => s.set_date(date),
            TrainingStream::CsvDateTime(s) => s.set_date(date),
        }
    }
}

/// The earlier of an accumulated minimum and one more next timestamp,
/// keeping the accumulated one on ties.
pub open spec fn combine_min(
    acc: Option<DateTimeParts>,
    nd: Option<DateTimeParts>,
) -> Option<DateTimeParts> {
    match nd {
        None => acc,
        Some(v) => match acc {
            None => Some(v),
            Some(u) => if spec_parts_lt(v, u) {
                Some(v)
            } else {
                Some(u)
            },
        },
    }
}

/// The earliest next timestamp over the first `i` sources.
pub open spec fn spec_min_prefix(s: Seq<TrainingStream>, i: int) -> Option<DateTimeParts>
    decreases i,
{
    if i <= 0 {
        None
    } else {
        combine_min(spec_min_prefix(s, i - 1), s[i - 1].spec_next_date())
    }
}

/// The earliest next timestamp over all sources; absent when all are
/// exhausted.
pub open spec fn spec_min_next(s: Seq<TrainingStream>) -> Option<DateTimeParts> {
    spec_min_prefix(s, s.len() as int)
}

/// The merged training stream.
pub struct ComplexStream {
    /// The sources, in channel order
    pub streams: Vec<TrainingStream>,
}

impl ComplexStream {
    /// Every source is well formed.
    pub open spec fn wf(&self) -> bool {
        forall|i: int| 0 <= i < self.streams@.len() ==> (#[trigger] self.streams@[i]).wf()
    }

    /// Every source can report a current sample.
    pub open spec fn can_read(&self) -> bool {
        forall|i: int| 0 <= i < self.streams@.len() ==> (#[trigger] self.streams@[i]).can_read()
    }

    /// A merged stream over its sources.
    pub fn new(streams: Vec<TrainingStream>) -> (r: Self)
        ensures
            r.streams == streams,
    {
        ComplexStream { streams }
    }

    /// The current sample of every source, in order.
    pub fn get_value(&self) -> (r: Vec<ComplexTimelineValue>)
        requires
            self.wf(),
            self.can_read(),
        ensures
            r@.len() == self.streams@.len(),
            forall|i: int|
                0 <= i < r@.len() ==> (#[trigger] self.streams@[i]).value_ok(r@[i]),
    {
        let mut result: Vec<ComplexTimelineValue> = Vec::new();
        let n = self.streams.len();
        for i in 0..n
            invariant
                n == self.streams@.len(),
                self.wf(),
                self.can_read(),
                result@.len() == i,
                forall|j: int|
                    0 <= j < i ==> (#[trigger] self.streams@[j]).value_ok(result@[j]),
            decreases n - i,
        {
            let value = self.streams[i].get_value();
            result.push(value);
        }
        result
    }

    /// Every source is exhausted.
    pub fn is_finish(&self) -> (r: bool)
        requires
            self.wf(),
        ensures
            r == forall|i: int|
                0 <= i < self.streams@.len() ==> (#[trigger] self.streams@[i]).spec_next_date()
                    is None,
    {
        let n = self.streams.len();
        for i in 0..n
            invariant
                n == self.streams@.len(),
                self.wf(),
                forall|j: int|
                    0 <= j < i ==> (#[trigger] self.streams@[j]).spec_next_date() is None,
            decreases n - i,
        {
            if !self.streams[i].is_finish() {
                return false;
            }
        }
        true
    }

    /// The earliest next timestamp over the sources that still have
    /// one.
    fn get_min_next_date(&self) -> (r: Option<DateTimeParts>)
        requires
            self.wf(),
        ensures
            r == spec_min_next(self.streams@),
    {
        let mut result: Option<DateTimeParts> = None;
        let n = self.streams.len();
        for i in 0..n
            invariant
                n == self.streams@.len(),
                self.wf(),
                result == spec_min_prefix(self.streams@, i as int),
            decreases n - i,
        {
            let next_date_option = self.streams[i].get_next_date();
            if let Some(next_date) = next_date_option {
                match result {
                    Some(current_result) => {
                        if crate::date_parts::parts_lt(&next_date, &current_result) {
                            result = Some(next_date);
                        }
                    },
                    None => {
                        result = Some(next_date);
                    },
                }
            }
        }
        result
    }

    /// One merged step: compute the earliest next timestamp over all
    /// sources and advance every source up to it. When every source is
    /// exhausted nothing moves.
    pub fn step(&mut self)
        requires
            old(self).wf(),
        ensures
            final(self).wf(),
            final(self).streams@.len() == old(self).streams@.len(),
            final(self).can_read() == old(self).can_read(),
            spec_min_next(old(self).streams@) is None ==> *final(self) == *old(self),
            spec_min_next(old(self).streams@) matches Some(t) ==> forall|k: int|
                0 <= k < old(self).streams@.len() ==> (#[trigger] old(self).streams@[k]).advanced(
                    final(self).streams@[k],
                    t,
                ),
    {
        let next_date_option = self.get_min_next_date();

        if let Some(next_date) = next_date_option {
            let n = self.streams.len();
            for k in 0..n
                invariant
                    n == self.streams@.len(),
                    self.streams@.len() == old(self).streams@.len(),
                    self.wf(),
                    forall|j: int|
                        0 <= j < self.streams@.len() ==> (#[trigger] self.streams@[j]).can_read()
                            == old(self).streams@[j].can_read(),
                    forall|j: int|
                        0 <= j < k ==> (#[trigger] old(self).streams@[j]).advanced(
                            self.streams@[j],
                            next_date,
                        ),
                    forall|j: int|
                        k <= j < self.streams@.len() ==> #[trigger] self.streams@[j] == old(
                            self,
                        ).streams@[j],
                decreases n - k,
            {
                self.streams[k].set_date(&next_date);
            }
            proof {
                assert(self.can_read() == old(self).can_read()) by {
                    if old(self).can_read() {
                        assert forall|i: int|
                            0 <= i < self.streams@.len() implies (
                        #[trigger] self.streams@[i]).can_read() by {
                            assert(old(self).streams@[i].can_read());
                        }
                    } else {
                        let i = choose|i: int|
                            0 <= i < old(self).streams@.len() && !(
                            #[trigger] old(self).streams@[i]).can_read();
                        assert(!self.streams@[i].can_read());
                    }
                }
            }
        }
    }
}

} // verus!
