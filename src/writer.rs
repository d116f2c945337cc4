use vstd::prelude::*;

use crate::csv_writer::{CsvRecord, CsvRecordWriter};
use crate::json_writer::{JsonRecord, JsonRecordWriter};
use crate::text::csv_row_text;

verus! {

/// A writer that turns each record of type `R` into one line of its output
/// format; one impl per format.
pub trait RecordWriter<R> {
    /// The line written for `r`, line feed included.
    spec fn line_spec(&self, r: &R) -> Seq<char>;

    fn write_record_line(&self, r: &R) -> (line: String)
        ensures
            line@ == self.line_spec(r),
    ;
}

impl<W, R: JsonRecord> RecordWriter<R> for JsonRecordWriter<W> {
    open spec fn line_spec(&self, r: &R) -> Seq<char> {
        r.json_spec().push('\n')
    }

    fn write_record_line(&self, r: &R) -> (line: String) {
        self.record_line(r)
    }
}

impl<W, R: CsvRecord> RecordWriter<R> for CsvRecordWriter<W> {
    open spec fn line_spec(&self, r: &R) -> Seq<char> {
        csv_row_text(r.csv_fields())
    }

    fn write_record_line(&self, r: &R) -> (line: String) {
        self.record_line(r)
    }
}

} // verus!
