use vstd::prelude::*;

use crate::text::{
    count_lines, csv_join, csv_row, csv_row_text, lemma_count_lines_concat, lemma_count_one_line,
    lemma_csv_join_line_free, line_free, strings_view,
};
use crate::json_writer::{fasta_json, json_object};
use crate::parquet_writer::{fasta_columns, ColumnView};
use crate::text::json_quoted;
use crate::types::{FastaRecord, FastqRecord};

verus! {

/// A record that can be written as one CSV row under a fixed header.
pub trait CsvRecord {
    /// The column names of the header row.
    spec fn csv_header_spec() -> Seq<Seq<char>>;

    /// The fields of the record's row, in header order; an absent value is
    /// an empty field.
    spec fn csv_fields(&self) -> Seq<Seq<char>>;

    fn csv_header() -> (r: Vec<String>)
        ensures
            strings_view(r@) == Self::csv_header_spec(),
            r.len() >= 2,
    ;

    fn csv_values(&self) -> (r: Vec<String>)
        ensures
            strings_view(r@) == self.csv_fields(),
            r.len() >= 2,
    ;
}

/// The text of an optional field: its value, or the empty field.
pub open spec fn field_or_empty(o: Option<String>) -> Seq<char> {
    match o {
        Some(s) => s@,
        None => Seq::empty(),
    }
}

fn value_or_empty(o: &Option<String>) -> (r: String)
    ensures
        r@ == field_or_empty(*o),
{
    match o {
        Some(s) => s.clone(),
        None => String::new(),
    }
}

impl CsvRecord for FastaRecord {
    open spec fn csv_header_spec() -> Seq<Seq<char>> {
        seq!["id"@, "desc"@, "seq"@]
    }

    open spec fn csv_fields(&self) -> Seq<Seq<char>> {
        seq![self.id@, field_or_empty(self.description), self.sequence@]
    }

    fn csv_header() -> (r: Vec<String>) {
        let mut v: Vec<String> = Vec::new();
        v.push(String::from_str("id"));
        v.push(String::from_str("desc"));
        v.push(String::from_str("seq"));
        assert(strings_view(v@) =~= seq!["id"@, "desc"@, "seq"@]);
        v
    }

    fn csv_values(&self) -> (r: Vec<String>) {
        let mut v: Vec<String> = Vec::new();
        v.push(self.id.clone());
        v.push(value_or_empty(&self.description));
        v.push(self.sequence.clone());
        assert(strings_view(v@) =~= self.csv_fields());
        v
    }
}

impl CsvRecord for FastqRecord {
    open spec fn csv_header_spec() -> Seq<Seq<char>> {
        seq!["id"@, "desc"@, "seq"@, "quality"@]
    }

    open spec fn csv_fields(&self) -> Seq<Seq<char>> {
        seq![self.id@, field_or_empty(self.description), self.sequence@, self.quality@]
    }

    fn csv_header() -> (r: Vec<String>) {
        let mut v: Vec<String> = Vec::new();
        v.push(String::from_str("id"));
        v.push(String::from_str("desc"));
        v.push(String::from_str("seq"));
        v.push(String::from_str("quality"));
        assert(strings_view(v@) =~= seq!["id"@, "desc"@, "seq"@, "quality"@]);
        v
    }

    fn csv_values(&self) -> (r: Vec<String>) {
        let mut v: Vec<String> = Vec::new();
        v.push(self.id.clone());
        v.push(value_or_empty(&self.description));
        v.push(self.sequence.clone());
        v.push(self.quality.clone());
        assert(strings_view(v@) =~= self.csv_fields());
        v
    }
}

/// The rows of `records`, one after the other, without the header.
pub open spec fn csv_rows_spec<R: CsvRecord>(records: Seq<R>) -> Seq<char>
    decreases records.len(),
{
    if records.len() == 0 {
        Seq::empty()
    } else {
        csv_rows_spec(records.drop_last()) + csv_row_text(records.last().csv_fields())
    }
}

/// No field of the record's row holds a line feed.
pub open spec fn fields_line_free(fields: Seq<Seq<char>>) -> bool {
    forall|i: int| 0 <= i < fields.len() ==> line_free(#[trigger] fields[i])
}

/// A row whose fields hold no line feed is exactly one line.
pub proof fn lemma_csv_row_one_line(fields: Seq<Seq<char>>)
    requires
        fields_line_free(fields),
    ensures
        count_lines(csv_row_text(fields)) == 1,
{
    lemma_csv_join_line_free(fields);
    lemma_count_one_line(csv_join(fields));
}

/// Writes records as CSV rows onto a sink it holds: a header row first, then
/// one row per record. The sink itself is driven by the caller, which hands
/// it each line.
pub struct CsvRecordWriter<W> {
    writer: W,
}

impl<W> CsvRecordWriter<W> {
    /// The sink the rows are meant for.
    pub closed spec fn inner(&self) -> W {
        self.writer
    }

    /// Creates a new CsvRecordWriter with a writer.
    pub fn new(w: W) -> (r: Self)
        ensures
            r.inner() == w,
    {
        Self { writer: w }
    }

    /// The sink, to write a row to.
    pub fn get_mut(&mut self) -> (r: &mut W)
        ensures
            *r == old(self).inner(),
            final(self).inner() == *final(r),
    {
        &mut self.writer
    }

    /// Gives the sink back.
    pub fn into_inner(self) -> (r: W)
        ensures
            r == self.inner(),
    {
        self.writer
    }

    /// The header row for records of type `R`, written once before them.
    pub fn header_line<R: CsvRecord>(&self) -> (r: String)
        ensures
            r@ == csv_row_text(R::csv_header_spec()),
    {
        csv_row(&R::csv_header())
    }

    /// The row for one record.
    pub fn record_line<R: CsvRecord>(&self, record: &R) -> (r: String)
        ensures
            r@ == csv_row_text(record.csv_fields()),
            fields_line_free(record.csv_fields()) ==> count_lines(r@) == 1,
    {
        proof {
            if fields_line_free(record.csv_fields()) {
                lemma_csv_row_one_line(record.csv_fields());
            }
        }
        csv_row(&record.csv_values())
    }
}

/// The CSV text of a list of records: the header row, then one row per
/// record, in order. When no field holds a line feed, the text has exactly
/// one line more than there are records.
pub fn csv_text<R: CsvRecord>(records: &Vec<R>) -> (r: String)
    ensures
        r@ == csv_row_text(R::csv_header_spec()) + csv_rows_spec(records@),
        fields_line_free(R::csv_header_spec()) && (forall|i: int|
            0 <= i < records.len() ==> fields_line_free(#[trigger] records@[i].csv_fields()))
            ==> count_lines(r@) == records.len() + 1,
{
    let w = CsvRecordWriter::new(());
    let mut out = w.header_line::<R>();
    let ghost head = out@;
    let ghost ok = fields_line_free(R::csv_header_spec()) && (forall|i: int|
        0 <= i < records.len() ==> fields_line_free(#[trigger] records@[i].csv_fields()));
    proof {
        if ok {
            lemma_csv_row_one_line(R::csv_header_spec());
        }
        assert(out@ =~= head + csv_rows_spec(records@.subrange(0, 0)));
    }
    let mut i: usize = 0;
    while i < records.len()
        invariant
            i <= records.len(),
            head == csv_row_text(R::csv_header_spec()),
            out@ == head + csv_rows_spec(records@.subrange(0, i as int)),
            ok == (fields_line_free(R::csv_header_spec()) && (forall|j: int|
                0 <= j < records.len() ==> fields_line_free(#[trigger] records@[j].csv_fields()))),
            ok ==> count_lines(out@) == i + 1,
        decreases records.len() - i,
    {
        let line = w.record_line(&records[i]);
        let ghost before = out@;
        out.append(line.as_str());
        proof {
            let s = records@.subrange(0, i as int + 1);
            assert(s.drop_last() =~= records@.subrange(0, i as int));
            assert(s.last() == records@[i as int]);
            assert(out@ =~= head + csv_rows_spec(s));
            lemma_count_lines_concat(before, line@);
        }
        i = i + 1;
    }
    assert(records@.subrange(0, records.len() as int) =~= records@);
    out
}

/// An absent description is written, never dropped: as `null` under its
/// key in JSON, as an empty field in CSV, and as a null at its row of the
/// description column of a batch, which keeps one entry per record.
pub proof fn lemma_absent_description_written(rs: Seq<FastaRecord>, i: int)
    requires
        0 <= i < rs.len(),
        rs[i].description is None,
    ensures
        fasta_json(rs[i]) == json_object(
            seq![
                ("id"@, json_quoted(rs[i].id@)),
                ("description"@, "null"@),
                ("sequence"@, json_quoted(rs[i].sequence@)),
            ],
        ),
        rs[i].csv_fields() == seq![rs[i].id@, Seq::<char>::empty(), rs[i].sequence@],
        fasta_columns(rs)[1] matches ColumnView::Utf8(v) && v.len() == rs.len() && v[i] is None,
{
}

} // verus!
