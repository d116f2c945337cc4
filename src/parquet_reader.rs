use vstd::prelude::*;

use crate::attributes::{
    first_wins, keys_distinct, lemma_first_wins_distinct, lemma_first_wins_first_value,
    lemma_first_wins_keys, pairs_view, AttributeMap,
};
use crate::parquet_writer::{
    column_view, columns_view, schema_view, Column, ColumnSpec, fasta_columns, fasta_schema_spec, fastq_columns, fastq_schema_spec, gff_columns,
    gff_schema_spec, score_whole, ColumnKind, ColumnView,
};
use crate::types::{opt_view, FastaRecord, FastaView, FastqRecord, FastqView, GffRecord};

verus! {

/// A single value of a columnar row, as the row accessor hands it out.
#[derive(Clone, Debug, PartialEq, Eq)]
pub enum Scalar {
    Null,
    Str(String),
    Long(i64),
    /// A value of a type no record field is read from.
    Other,
}

/// The value of one column of a row: a single value or a map's entries.
#[derive(Clone, Debug, PartialEq, Eq)]
pub enum Cell {
    Scalar(Scalar),
    Entries(Vec<(Scalar, Scalar)>),
}

/// One row of a columnar file: each column's name and value, in the file's
/// column order.
#[derive(Clone, Debug, PartialEq, Eq)]
pub struct Row {
    pub cells: Vec<(String, Cell)>,
}

/// Why a row cannot be turned into a record.
#[derive(Clone, Copy, Debug, PartialEq, Eq, Structural)]
pub enum RowError {
    /// The column at this index holds a value of the wrong type.
    Mistyped(usize),
    /// The position in the column at this index is below one.
    OutOfRange(usize),
    /// A column the record needs is absent.
    Missing,
}

pub enum ScalarView {
    Null,
    Str(Seq<char>),
    Long(int),
    Other,
}

pub enum CellView {
    Scalar(ScalarView),
    Entries(Seq<(ScalarView, ScalarView)>),
}

pub open spec fn scalar_view(s: Scalar) -> ScalarView {
    match s {
        Scalar::Null => ScalarView::Null,
        Scalar::Str(t) => ScalarView::Str(t@),
        Scalar::Long(n) => ScalarView::Long(n as int),
        Scalar::Other => ScalarView::Other,
    }
}

pub open spec fn cell_view(c: Cell) -> CellView {
    match c {
        Cell::Scalar(s) => CellView::Scalar(scalar_view(s)),
        Cell::Entries(v) => CellView::Entries(
            v@.map_values(|p: (Scalar, Scalar)| (scalar_view(p.0), scalar_view(p.1))),
        ),
    }
}

/// The plain-value form of a row.
pub open spec fn row_view(r: Row) -> Seq<(Seq<char>, CellView)> {
    r.cells@.map_values(|p: (String, Cell)| (p.0@, cell_view(p.1)))
}

/// The text a cell holds, if it holds text.
pub open spec fn cell_str(c: CellView) -> Option<Seq<char>> {
    match c {
        CellView::Scalar(ScalarView::Str(s)) => Some(s),
        _ => None,
    }
}

/// The integer a cell holds, if it holds one.
pub open spec fn cell_long(c: CellView) -> Option<int> {
    match c {
        CellView::Scalar(ScalarView::Long(n)) => Some(n),
        _ => None,
    }
}

/// The entries of a map cell as text pairs, if it is a map of text to text.
pub open spec fn cell_pairs(c: CellView) -> Option<Seq<(Seq<char>, Seq<char>)>> {
    match c {
        CellView::Entries(entries) => text_pairs(entries),
        _ => None,
    }
}

pub open spec fn text_pairs(entries: Seq<(ScalarView, ScalarView)>) -> Option<
    Seq<(Seq<char>, Seq<char>)>,
>
    decreases entries.len(),
{
    if entries.len() == 0 {
        Some(Seq::empty())
    } else {
        match (text_pairs(entries.drop_last()), entries.last()) {
            (Some(prev), (ScalarView::Str(k), ScalarView::Str(v))) => Some(prev.push((k, v))),
            _ => None,
        }
    }
}

/// What a row has given so far toward a sequence record.
pub struct SeqSlots {
    pub id: Option<Seq<char>>,
    pub description: Option<Seq<char>>,
    pub sequence: Option<Seq<char>>,
    pub quality: Option<Seq<char>>,
}

/// Reads the columns of a row in order. `id`, `sequence` and `quality` must
/// hold text, else the row is rejected at that column; `description` is
/// taken when it holds text and is absent otherwise; other columns are
/// skipped. A later column of the same name replaces an earlier one.
pub open spec fn seq_scan(cells: Seq<(Seq<char>, CellView)>) -> Result<SeqSlots, RowError>
    decreases cells.len(),
{
    if cells.len() == 0 {
        Ok(SeqSlots { id: None, description: None, sequence: None, quality: None })
    } else {
        match seq_scan(cells.drop_last()) {
            Err(e) => Err(e),
            Ok(s) => {
                let name = cells.last().0;
                let cell = cells.last().1;
                let at = (cells.len() - 1) as usize;
                if name == "id"@ {
                    match cell_str(cell) {
                        Some(v) => Ok(SeqSlots { id: Some(v), ..s }),
                        None => Err(RowError::Mistyped(at)),
                    }
                } else if name == "sequence"@ {
                    match cell_str(cell) {
                        Some(v) => Ok(SeqSlots { sequence: Some(v), ..s }),
                        None => Err(RowError::Mistyped(at)),
                    }
                } else if name == "quality"@ {
                    match cell_str(cell) {
                        Some(v) => Ok(SeqSlots { quality: Some(v), ..s }),
                        None => Err(RowError::Mistyped(at)),
                    }
                } else if name == "description"@ {
                    Ok(SeqSlots { description: cell_str(cell), ..s })
                } else {
                    Ok(s)
                }
            },
        }
    }
}

/// Once a prefix of a row is rejected, the whole row is, for the same reason.
proof fn lemma_seq_scan_err(cells: Seq<(Seq<char>, CellView)>, n: int)
    requires
        0 <= n <= cells.len(),
        seq_scan(cells.subrange(0, n)) is Err,
    ensures
        seq_scan(cells) == seq_scan(cells.subrange(0, n)),
    decreases cells.len() - n,
{
    if n < cells.len() {
        let next = cells.subrange(0, n + 1);
        assert(next.drop_last() =~= cells.subrange(0, n));
        lemma_seq_scan_err(cells, n + 1);
    } else {
        assert(cells.subrange(0, n) =~= cells);
    }
}

/// The sequence record a row holds: it needs an `id` and a `sequence`.
pub open spec fn fasta_from_cells(cells: Seq<(Seq<char>, CellView)>) -> Result<
    FastaView,
    RowError,
> {
    match seq_scan(cells) {
        Err(e) => Err(e),
        Ok(s) => match (s.id, s.sequence) {
            (Some(i), Some(q)) => Ok(FastaView { id: i, description: s.description, sequence: q }),
            _ => Err(RowError::Missing),
        },
    }
}

/// The sequence-with-quality record a row holds: it needs an `id`, a
/// `sequence` and a `quality`.
pub open spec fn fastq_from_cells(cells: Seq<(Seq<char>, CellView)>) -> Result<
    FastqView,
    RowError,
> {
    match seq_scan(cells) {
        Err(e) => Err(e),
        Ok(s) => match (s.id, s.sequence, s.quality) {
            (Some(i), Some(q), Some(u)) => Ok(
                FastqView { id: i, description: s.description, sequence: q, quality: u },
            ),
            _ => Err(RowError::Missing),
        },
    }
}

fn text_of(c: &Cell) -> (r: Option<String>)
    ensures
        opt_view(r) == cell_str(cell_view(*c)),
{
    match c {
        Cell::Scalar(Scalar::Str(s)) => Some(s.clone()),
        _ => None,
    }
}

/// The slots after reading `cells`, as exec values.
struct Slots {
    id: Option<String>,
    description: Option<String>,
    sequence: Option<String>,
    quality: Option<String>,
}

spec fn slots_view(s: Slots) -> SeqSlots {
    SeqSlots {
        id: opt_view(s.id),
        description: opt_view(s.description),
        sequence: opt_view(s.sequence),
        quality: opt_view(s.quality),
    }
}

fn scan_seq_row(row: &Row) -> (r: Result<Slots, RowError>)
    ensures
        match r {
            Ok(s) => seq_scan(row_view(*row)) == Ok::<SeqSlots, RowError>(slots_view(s)),
            Err(e) => seq_scan(row_view(*row)) == Err::<SeqSlots, RowError>(e),
        },
{
    let ghost cells = row_view(*row);
    let id_name = String::from_str("id");
    let seq_name = String::from_str("sequence");
    let qual_name = String::from_str("quality");
    let desc_name = String::from_str("description");
    let mut s = Slots { id: None, description: None, sequence: None, quality: None };
    let mut e: usize = 0;
    while e < row.cells.len()
        invariant
            e <= row.cells.len(),
            cells == row_view(*row),
            id_name@ == "id"@,
            seq_name@ == "sequence"@,
            qual_name@ == "quality"@,
            desc_name@ == "description"@,
            seq_scan(cells.subrange(0, e as int)) == Ok::<SeqSlots, RowError>(slots_view(s)),
        decreases row.cells.len() - e,
    {
        let name = &row.cells[e].0;
        let cell = &row.cells[e].1;
        proof {
            let sub = cells.subrange(0, e as int + 1);
            assert(sub.drop_last() =~= cells.subrange(0, e as int));
            assert(sub.last() == (name@, cell_view(*cell)));
        }
        if *name == id_name {
            match text_of(cell) {
                Some(v) => {
                    s.id = Some(v);
                },
                None => {
                    proof {
                        lemma_seq_scan_err(cells, e as int + 1);
                    }
                    return Err(RowError::Mistyped(e));
                },
            }
        } else if *name == seq_name {
            match text_of(cell) {
                Some(v) => {
                    s.sequence = Some(v);
                },
                None => {
                    proof {
                        lemma_seq_scan_err(cells, e as int + 1);
                    }
                    return Err(RowError::Mistyped(e));
                },
            }
        } else if *name == qual_name {
            match text_of(cell) {
                Some(v) => {
                    s.quality = Some(v);
                },
                None => {
                    proof {
                        lemma_seq_scan_err(cells, e as int + 1);
                    }
                    return Err(RowError::Mistyped(e));
                },
            }
        } else if *name == desc_name {
            s.description = text_of(cell);
        }
        e = e + 1;
    }
    assert(cells.subrange(0, row.cells.len() as int) =~= cells);
    Ok(s)
}

/// Rebuilds a sequence record from a row of a columnar file.
pub fn fasta_from_row(row: &Row) -> (r: Result<FastaRecord, RowError>)
    ensures
        match r {
            Ok(rec) => fasta_from_cells(row_view(*row)) == Ok::<FastaView, RowError>(rec@),
            Err(e) => fasta_from_cells(row_view(*row)) == Err::<FastaView, RowError>(e),
        },
{
    match scan_seq_row(row) {
        Err(e) => Err(e),
        Ok(s) => match (s.id, s.sequence) {
            (Some(i), Some(q)) => Ok(FastaRecord::new(i, s.description, q)),
            _ => Err(RowError::Missing),
        },
    }
}

/// Rebuilds a sequence-with-quality record from a row of a columnar file.
pub fn fastq_from_row(row: &Row) -> (r: Result<FastqRecord, RowError>)
    ensures
        match r {
            Ok(rec) => fastq_from_cells(row_view(*row)) == Ok::<FastqView, RowError>(rec@),
            Err(e) => fastq_from_cells(row_view(*row)) == Err::<FastqView, RowError>(e),
        },
{
    match scan_seq_row(row) {
        Err(e) => Err(e),
        Ok(s) => match (s.id, s.sequence, s.quality) {
            (Some(i), Some(q), Some(u)) => Ok(
                FastqRecord { id: i, description: s.description, sequence: q, quality: u },
            ),
            _ => Err(RowError::Missing),
        },
    }
}

/// The fields an annotation row gives, as the columnar file holds them. The
/// positions are at least one. Absent optional columns leave `None`, and an
/// absent attribute column leaves no attributes.
#[derive(Clone, Debug, PartialEq, Eq)]
pub struct GffRow {
    pub seqname: String,
    pub source: Option<String>,
    pub feature: String,
    pub start: i64,
    pub end: i64,
    pub score: Option<i64>,
    pub strand: Option<String>,
    pub frame: Option<String>,
    pub attributes: AttributeMap,
}

pub struct GffRowView {
    pub seqname: Seq<char>,
    pub source: Option<Seq<char>>,
    pub feature: Seq<char>,
    pub start: int,
    pub end: int,
    pub score: Option<int>,
    pub strand: Option<Seq<char>>,
    pub frame: Option<Seq<char>>,
    pub attributes: Seq<(Seq<char>, Seq<char>)>,
}

impl View for GffRow {
    type V = GffRowView;

    open spec fn view(&self) -> GffRowView {
        GffRowView {
            seqname: self.seqname@,
            source: opt_view(self.source),
            feature: self.feature@,
            start: self.start as int,
            end: self.end as int,
            score: match self.score {
                Some(n) => Some(n as int),
                None => None,
            },
            strand: opt_view(self.strand),
            frame: opt_view(self.frame),
            attributes: self.attributes@,
        }
    }
}

/// What a row has given so far toward an annotation record.
pub struct GffSlots {
    pub seqname: Option<Seq<char>>,
    pub source: Option<Seq<char>>,
    pub feature: Option<Seq<char>>,
    pub start: Option<int>,
    pub end: Option<int>,
    pub score: Option<int>,
    pub strand: Option<Seq<char>>,
    pub frame: Option<Seq<char>>,
    pub attributes: Option<Seq<(Seq<char>, Seq<char>)>>,
}

/// A position read from a cell: it must be an integer of at least one.
pub open spec fn position_step(cell: CellView, at: usize) -> Result<int, RowError> {
    match cell_long(cell) {
        Some(v) => if v >= 1 {
            Ok(v)
        } else {
            Err(RowError::OutOfRange(at))
        },
        None => Err(RowError::Mistyped(at)),
    }
}

/// Reads the columns of an annotation row in order. `seqname`, `source`,
/// `feature_type` and `strand` must hold text, `start` and `end` integers of
/// at least one, `attributes` a map of text to text, else the row is
/// rejected at that column; `score` is taken when it holds an integer and
/// `frame` when it holds text, and are left as they were otherwise; other
/// columns are skipped.
pub open spec fn gff_scan(cells: Seq<(Seq<char>, CellView)>) -> Result<GffSlots, RowError>
    decreases cells.len(),
{
    if cells.len() == 0 {
        Ok(
            GffSlots {
                seqname: None,
                source: None,
                feature: None,
                start: None,
                end: None,
                score: None,
                strand: None,
                frame: None,
                attributes: None,
            },
        )
    } else {
        match gff_scan(cells.drop_last()) {
            Err(e) => Err(e),
            Ok(s) => {
                let name = cells.last().0;
                let cell = cells.last().1;
                let at = (cells.len() - 1) as usize;
                if name == "seqname"@ {
                    match cell_str(cell) {
                        Some(v) => Ok(GffSlots { seqname: Some(v), ..s }),
                        None => Err(RowError::Mistyped(at)),
                    }
                } else if name == "source"@ {
                    match cell_str(cell) {
                        Some(v) => Ok(GffSlots { source: Some(v), ..s }),
                        None => Err(RowError::Mistyped(at)),
                    }
                } else if name == "feature_type"@ {
                    match cell_str(cell) {
                        Some(v) => Ok(GffSlots { feature: Some(v), ..s }),
                        None => Err(RowError::Mistyped(at)),
                    }
                } else if name == "start"@ {
                    match position_step(cell, at) {
                        Ok(v) => Ok(GffSlots { start: Some(v), ..s }),
                        Err(e) => Err(e),
                    }
                } else if name == "end"@ {
                    match position_step(cell, at) {
                        Ok(v) => Ok(GffSlots { end: Some(v), ..s }),
                        Err(e) => Err(e),
                    }
                } else if name == "score"@ {
                    match cell_long(cell) {
                        Some(v) => Ok(GffSlots { score: Some(v), ..s }),
                        None => Ok(s),
                    }
                } else if name == "strand"@ {
                    match cell_str(cell) {
                        Some(v) => Ok(GffSlots { strand: Some(v), ..s }),
                        None => Err(RowError::Mistyped(at)),
                    }
                } else if name == "frame"@ {
                    match cell_str(cell) {
                        Some(v) => Ok(GffSlots { frame: Some(v), ..s }),
                        None => Ok(s),
                    }
                } else if name == "attributes"@ {
                    match cell_pairs(cell) {
                        Some(p) => Ok(GffSlots { attributes: Some(p), ..s }),
                        None => Err(RowError::Mistyped(at)),
                    }
                } else {
                    Ok(s)
                }
            },
        }
    }
}

/// The annotation fields a row holds: it needs `seqname`, `feature_type`,
/// `start` and `end`. Of repeated attribute keys the first pair is kept.
pub open spec fn gff_from_cells(cells: Seq<(Seq<char>, CellView)>) -> Result<
    GffRowView,
    RowError,
> {
    match gff_scan(cells) {
        Err(e) => Err(e),
        Ok(s) => match (s.seqname, s.feature, s.start, s.end) {
            (Some(n), Some(f), Some(b), Some(e)) => Ok(
                GffRowView {
                    seqname: n,
                    source: s.source,
                    feature: f,
                    start: b,
                    end: e,
                    score: s.score,
                    strand: s.strand,
                    frame: s.frame,
                    attributes: first_wins(
                        match s.attributes {
                            Some(p) => p,
                            None => Seq::empty(),
                        },
                    ),
                },
            ),
            _ => Err(RowError::Missing),
        },
    }
}

proof fn lemma_gff_scan_err(cells: Seq<(Seq<char>, CellView)>, n: int)
    requires
        0 <= n <= cells.len(),
        gff_scan(cells.subrange(0, n)) is Err,
    ensures
        gff_scan(cells) == gff_scan(cells.subrange(0, n)),
    decreases cells.len() - n,
{
    if n < cells.len() {
        let next = cells.subrange(0, n + 1);
        assert(next.drop_last() =~= cells.subrange(0, n));
        lemma_gff_scan_err(cells, n + 1);
    } else {
        assert(cells.subrange(0, n) =~= cells);
    }
}

fn long_of(c: &Cell) -> (r: Option<i64>)
    ensures
        match r {
            Some(n) => cell_long(cell_view(*c)) == Some(n as int),
            None => cell_long(cell_view(*c)) is None,
        },
{
    match c {
        Cell::Scalar(Scalar::Long(n)) => Some(*n),
        _ => None,
    }
}

fn pairs_of(c: &Cell) -> (r: Option<Vec<(String, String)>>)
    ensures
        match r {
            Some(v) => cell_pairs(cell_view(*c)) == Some(pairs_view(v@)),
            None => cell_pairs(cell_view(*c)) is None,
        },
{
    match c {
        Cell::Entries(entries) => {
            let ghost ev = entries@.map_values(
                |p: (Scalar, Scalar)| (scalar_view(p.0), scalar_view(p.1)),
            );
            let mut out: Vec<(String, String)> = Vec::new();
            assert(cell_view(*c) == CellView::Entries(ev));
            let mut i: usize = 0;
            while i < entries.len()
                invariant
                    i <= entries.len(),
                    ev == entries@.map_values(
                        |p: (Scalar, Scalar)| (scalar_view(p.0), scalar_view(p.1)),
                    ),
                    text_pairs(ev.subrange(0, i as int)) == Some(pairs_view(out@)),
                    cell_view(*c) == CellView::Entries(ev),
                decreases entries.len() - i,
            {
                proof {
                    let sub = ev.subrange(0, i as int + 1);
                    assert(sub.drop_last() =~= ev.subrange(0, i as int));
                    assert(sub.last() == (scalar_view(entries@[i as int].0), scalar_view(
                        entries@[i as int].1,
                    )));
                }
                match (&entries[i].0, &entries[i].1) {
                    (Scalar::Str(k), Scalar::Str(v)) => {
                        out.push((k.clone(), v.clone()));
                        assert(pairs_view(out@) =~= pairs_view(out@.drop_last()).push((k@, v@)));
                    },
                    _ => {
                        proof {
                            let sub = ev.subrange(0, i as int + 1);
                            assert(text_pairs(sub) is None);
                            lemma_text_pairs_none(ev, i as int + 1);
                            assert(cell_view(*c) == CellView::Entries(ev));
                        }
                        return None;
                    },
                }
                i = i + 1;
            }
            assert(ev.subrange(0, entries.len() as int) =~= ev);
            Some(out)
        },
        _ => None,
    }
}

proof fn lemma_text_pairs_none(entries: Seq<(ScalarView, ScalarView)>, n: int)
    requires
        0 <= n <= entries.len(),
        text_pairs(entries.subrange(0, n)) is None,
    ensures
        text_pairs(entries) is None,
    decreases entries.len() - n,
{
    if n < entries.len() {
        let next = entries.subrange(0, n + 1);
        assert(next.drop_last() =~= entries.subrange(0, n));
        lemma_text_pairs_none(entries, n + 1);
    } else {
        assert(entries.subrange(0, n) =~= entries);
    }
}

struct AnnotationSlots {
    seqname: Option<String>,
    source: Option<String>,
    feature: Option<String>,
    start: Option<i64>,
    end: Option<i64>,
    score: Option<i64>,
    strand: Option<String>,
    frame: Option<String>,
    attributes: Option<Vec<(String, String)>>,
}

spec fn opt_i64(o: Option<i64>) -> Option<int> {
    match o {
        Some(n) => Some(n as int),
        None => None,
    }
}

spec fn annotation_view(s: AnnotationSlots) -> GffSlots {
    GffSlots {
        seqname: opt_view(s.seqname),
        source: opt_view(s.source),
        feature: opt_view(s.feature),
        start: opt_i64(s.start),
        end: opt_i64(s.end),
        score: opt_i64(s.score),
        strand: opt_view(s.strand),
        frame: opt_view(s.frame),
        attributes: match s.attributes {
            Some(v) => Some(pairs_view(v@)),
            None => None,
        },
    }
}

/// Rebuilds the fields of an annotation record from a row of a columnar file.
pub fn gff_from_row(row: &Row) -> (r: Result<GffRow, RowError>)
    ensures
        match r {
            Ok(rec) => gff_from_cells(row_view(*row)) == Ok::<GffRowView, RowError>(rec@),
            Err(e) => gff_from_cells(row_view(*row)) == Err::<GffRowView, RowError>(e),
        },
        r matches Ok(rec) ==> rec.attributes.wf(),
{
    let ghost cells = row_view(*row);
    let seqname_name = String::from_str("seqname");
    let source_name = String::from_str("source");
    let feature_name = String::from_str("feature_type");
    let start_name = String::from_str("start");
    let end_name = String::from_str("end");
    let score_name = String::from_str("score");
    let strand_name = String::from_str("strand");
    let frame_name = String::from_str("frame");
    let attributes_name = String::from_str("attributes");
    let mut s = AnnotationSlots {
        seqname: None,
        source: None,
        feature: None,
        start: None,
        end: None,
        score: None,
        strand: None,
        frame: None,
        attributes: None,
    };
    let mut e: usize = 0;
    while e < row.cells.len()
        invariant
            e <= row.cells.len(),
            cells == row_view(*row),
            seqname_name@ == "seqname"@,
            source_name@ == "source"@,
            feature_name@ == "feature_type"@,
            start_name@ == "start"@,
            end_name@ == "end"@,
            score_name@ == "score"@,
            strand_name@ == "strand"@,
            frame_name@ == "frame"@,
            attributes_name@ == "attributes"@,
            gff_scan(cells.subrange(0, e as int)) == Ok::<GffSlots, RowError>(annotation_view(s)),
        decreases row.cells.len() - e,
    {
        let name = &row.cells[e].0;
        let cell = &row.cells[e].1;
        proof {
            let sub = cells.subrange(0, e as int + 1);
            assert(sub.drop_last() =~= cells.subrange(0, e as int));
            assert(sub.last() == (name@, cell_view(*cell)));
        }
        let mut failed: Option<RowError> = None;
        if *name == seqname_name {
            match text_of(cell) {
                Some(v) => s.seqname = Some(v),
                None => failed = Some(RowError::Mistyped(e)),
            }
        } else if *name == source_name {
            match text_of(cell) {
                Some(v) => s.source = Some(v),
                None => failed = Some(RowError::Mistyped(e)),
            }
        } else if *name == feature_name {
            match text_of(cell) {
                Some(v) => s.feature = Some(v),
                None => failed = Some(RowError::Mistyped(e)),
            }
        } else if *name == start_name {
            match long_of(cell) {
                Some(v) => if v >= 1 {
                    s.start = Some(v);
                } else {
                    failed = Some(RowError::OutOfRange(e));
                },
                None => failed = Some(RowError::Mistyped(e)),
            }
        } else if *name == end_name {
            match long_of(cell) {
                Some(v) => if v >= 1 {
                    s.end = Some(v);
                } else {
                    failed = Some(RowError::OutOfRange(e));
                },
                None => failed = Some(RowError::Mistyped(e)),
            }
        } else if *name == score_name {
            match long_of(cell) {
                Some(v) => s.score = Some(v),
                None => {},
            }
        } else if *name == strand_name {
            match text_of(cell) {
                Some(v) => s.strand = Some(v),
                None => failed = Some(RowError::Mistyped(e)),
            }
        } else if *name == frame_name {
            match text_of(cell) {
                Some(v) => s.frame = Some(v),
                None => {},
            }
        } else if *name == attributes_name {
            match pairs_of(cell) {
                Some(v) => s.attributes = Some(v),
                None => failed = Some(RowError::Mistyped(e)),
            }
        }
        if let Some(err) = failed {
            proof {
                lemma_gff_scan_err(cells, e as int + 1);
            }
            return Err(err);
        }
        e = e + 1;
    }
    assert(cells.subrange(0, row.cells.len() as int) =~= cells);
    match (s.seqname, s.feature, s.start, s.end) {
        (Some(n), Some(f), Some(b), Some(t)) => {
            let attributes = match s.attributes {
                Some(v) => AttributeMap::from_entries(v),
                None => {
                    let m = AttributeMap::new();
                    proof {
                        assert(first_wins(Seq::<(Seq<char>, Seq<char>)>::empty()) =~= Seq::<
                            (Seq<char>, Seq<char>),
                        >::empty());
                    }
                    m
                },
            };
            Ok(
                GffRow {
                    seqname: n,
                    source: s.source,
                    feature: f,
                    start: b,
                    end: t,
                    score: s.score,
                    strand: s.strand,
                    frame: s.frame,
                    attributes,
                },
            )
        },
        _ => Err(RowError::Missing),
    }
}

/// The cell at row `i` of a column, as the row accessor hands it out.
pub open spec fn cell_of(c: ColumnView, i: int) -> CellView {
    match c {
        ColumnView::Utf8(v) => match v[i] {
            Some(s) => CellView::Scalar(ScalarView::Str(s)),
            None => CellView::Scalar(ScalarView::Null),
        },
        ColumnView::Int64(v) => match v[i] {
            Some(n) => CellView::Scalar(ScalarView::Long(n)),
            None => CellView::Scalar(ScalarView::Null),
        },
        ColumnView::Utf8Map(v) => CellView::Entries(
            v[i].map_values(
                |p: (Seq<char>, Seq<char>)| (ScalarView::Str(p.0), ScalarView::Str(p.1)),
            ),
        ),
    }
}

/// Row `i` of a batch with the given schema: each column's name and cell.
pub open spec fn batch_row(
    schema: Seq<(Seq<char>, ColumnKind, bool)>,
    cols: Seq<ColumnView>,
    i: int,
) -> Seq<(Seq<char>, CellView)> {
    Seq::new(cols.len(), |j: int| (schema[j].0, cell_of(cols[j], i)))
}

/// The number of rows a column holds.
pub open spec fn column_len(c: Column) -> nat {
    match c {
        Column::Utf8(v) => v@.len(),
        Column::Int64(v) => v@.len(),
        Column::Utf8Map(v) => v@.len(),
    }
}

fn cell_at(c: &Column, i: usize) -> (r: Cell)
    requires
        i < column_len(*c),
    ensures
        cell_view(r) == cell_of(column_view(*c), i as int),
{
    match c {
        Column::Utf8(v) => match &v[i] {
            Some(s) => Cell::Scalar(Scalar::Str(s.clone())),
            None => Cell::Scalar(Scalar::Null),
        },
        Column::Int64(v) => match v[i] {
            Some(n) => Cell::Scalar(Scalar::Long(n)),
            None => Cell::Scalar(Scalar::Null),
        },
        Column::Utf8Map(v) => {
            let pairs = &v[i];
            let ghost target = pairs_view(pairs@).map_values(
                |p: (Seq<char>, Seq<char>)| (ScalarView::Str(p.0), ScalarView::Str(p.1)),
            );
            let mut out: Vec<(Scalar, Scalar)> = Vec::new();
            let mut k: usize = 0;
            while k < pairs.len()
                invariant
                    k <= pairs.len(),
                    out.len() == k,
                    target == pairs_view(pairs@).map_values(
                        |p: (Seq<char>, Seq<char>)| (ScalarView::Str(p.0), ScalarView::Str(p.1)),
                    ),
                    forall|j: int|
                        0 <= j < k ==> (scalar_view((#[trigger] out@[j]).0), scalar_view(out@[j].1))
                            == target[j],
                decreases pairs.len() - k,
            {
                out.push((Scalar::Str(pairs[k].0.clone()), Scalar::Str(pairs[k].1.clone())));
                k = k + 1;
            }
            let r = Cell::Entries(out);
            assert(out@.map_values(|p: (Scalar, Scalar)| (scalar_view(p.0), scalar_view(p.1)))
                =~= target);
            r
        },
    }
}

/// Row `i` of a batch, as the columnar file's row accessor hands it out:
/// each column's name and its value at that row.
pub fn row_at(schema: &Vec<ColumnSpec>, cols: &Vec<Column>, i: usize) -> (r: Row)
    requires
        schema.len() == cols.len(),
        forall|j: int| 0 <= j < cols.len() ==> i < column_len(#[trigger] cols@[j]),
    ensures
        row_view(r) == batch_row(schema_view(schema@), columns_view(cols@), i as int),
{
    let mut cells: Vec<(String, Cell)> = Vec::new();
    let mut j: usize = 0;
    while j < cols.len()
        invariant
            j <= cols.len(),
            schema.len() == cols.len(),
            forall|m: int| 0 <= m < cols.len() ==> i < column_len(#[trigger] cols@[m]),
            cells.len() == j,
            forall|m: int|
                0 <= m < j ==> (#[trigger] cells@[m]).0@ == schema@[m].name@ && cell_view(
                    cells@[m].1,
                ) == cell_of(column_view(cols@[m]), i as int),
        decreases cols.len() - j,
    {
        let c = cell_at(&cols[j], i);
        cells.push((schema[j].name.clone(), c));
        j = j + 1;
    }
    let r = Row { cells };
    assert(row_view(r) =~= batch_row(schema_view(schema@), columns_view(cols@), i as int));
    r
}

proof fn lemma_text_pairs_of_strings(p: Seq<(Seq<char>, Seq<char>)>)
    ensures
        text_pairs(
            p.map_values(|q: (Seq<char>, Seq<char>)| (ScalarView::Str(q.0), ScalarView::Str(q.1))),
        ) == Some(p),
    decreases p.len(),
{
    let m = p.map_values(
        |q: (Seq<char>, Seq<char>)| (ScalarView::Str(q.0), ScalarView::Str(q.1)),
    );
    if p.len() > 0 {
        lemma_text_pairs_of_strings(p.drop_last());
        assert(m.drop_last() =~= p.drop_last().map_values(
            |q: (Seq<char>, Seq<char>)| (ScalarView::Str(q.0), ScalarView::Str(q.1)),
        ));
        assert(p.drop_last().push(p.last()) =~= p);
    } else {
        assert(m =~= Seq::<(ScalarView, ScalarView)>::empty());
    }
}

/// A sequence record written to the columnar layout reads back unchanged:
/// row `i` of the batch of `rs` rebuilds `rs[i]`.
pub proof fn lemma_fasta_round_trip(rs: Seq<FastaRecord>, i: int)
    requires
        0 <= i < rs.len(),
    ensures
        fasta_from_cells(batch_row(fasta_schema_spec(), fasta_columns(rs), i)) == Ok::<
            FastaView,
            RowError,
        >(rs[i]@),
{
    reveal_strlit("id");
    reveal_strlit("description");
    reveal_strlit("sequence");
    reveal_strlit("quality");
    let row = batch_row(fasta_schema_spec(), fasta_columns(rs), i);
    let r = rs[i];
    let cols = fasta_columns(rs);
    assert(row.len() == 3);
    assert(row[0].0 == "id"@ && cell_str(row[0].1) == Some(r.id@));
    assert(row[1].0 == "description"@ && cell_str(row[1].1) == opt_view(r.description));
    assert(row[2].0 == "sequence"@ && cell_str(row[2].1) == Some(r.sequence@));
    let s0 = row.subrange(0, 0);
    let s1 = row.subrange(0, 1);
    let s2 = row.subrange(0, 2);
    assert(s0 =~= Seq::<(Seq<char>, CellView)>::empty());
    assert(s1.drop_last() =~= s0 && s1.last() == row[0]);
    assert(s2.drop_last() =~= s1 && s2.last() == row[1]);
    assert(row.drop_last() =~= s2 && row.last() == row[2]);
    assert(seq_scan(s0) == Ok::<SeqSlots, RowError>(
        SeqSlots { id: None, description: None, sequence: None, quality: None },
    ));
    assert(s1.last().0 == "id"@);
    assert(cell_str(s1.last().1) == Some(r.id@));
    assert(seq_scan(s1) == Ok::<SeqSlots, RowError>(
        SeqSlots { id: Some(r.id@), description: None, sequence: None, quality: None },
    ));
    assert(seq_scan(s2) == Ok::<SeqSlots, RowError>(
        SeqSlots {
            id: Some(r.id@),
            description: opt_view(r.description),
            sequence: None,
            quality: None,
        },
    ));
    assert(seq_scan(row) == Ok::<SeqSlots, RowError>(
        SeqSlots {
            id: Some(r.id@),
            description: opt_view(r.description),
            sequence: Some(r.sequence@),
            quality: None,
        },
    ));
}

/// A sequence-with-quality record written to the columnar layout reads back
/// unchanged.
pub proof fn lemma_fastq_round_trip(rs: Seq<FastqRecord>, i: int)
    requires
        0 <= i < rs.len(),
    ensures
        fastq_from_cells(batch_row(fastq_schema_spec(), fastq_columns(rs), i)) == Ok::<
            FastqView,
            RowError,
        >(rs[i]@),
{
    reveal_strlit("id");
    reveal_strlit("description");
    reveal_strlit("sequence");
    reveal_strlit("quality");
    let row = batch_row(fastq_schema_spec(), fastq_columns(rs), i);
    let r = rs[i];
    assert(row.len() == 4);
    assert(row[0].0 == "id"@ && cell_str(row[0].1) == Some(r.id@));
    assert(row[1].0 == "sequence"@ && cell_str(row[1].1) == Some(r.sequence@));
    assert(row[2].0 == "description"@ && cell_str(row[2].1) == opt_view(r.description));
    assert(row[3].0 == "quality"@ && cell_str(row[3].1) == Some(r.quality@));
    let s0 = row.subrange(0, 0);
    let s1 = row.subrange(0, 1);
    let s2 = row.subrange(0, 2);
    let s3 = row.subrange(0, 3);
    assert(s0 =~= Seq::<(Seq<char>, CellView)>::empty());
    assert(s1.drop_last() =~= s0 && s1.last() == row[0]);
    assert(s2.drop_last() =~= s1 && s2.last() == row[1]);
    assert(s3.drop_last() =~= s2 && s3.last() == row[2]);
    assert(row.drop_last() =~= s3 && row.last() == row[3]);
    assert(seq_scan(s0) == Ok::<SeqSlots, RowError>(
        SeqSlots { id: None, description: None, sequence: None, quality: None },
    ));
    assert(s1.last().0 == "id"@);
    assert(cell_str(s1.last().1) == Some(r.id@));
    assert(seq_scan(s1) == Ok::<SeqSlots, RowError>(
        SeqSlots { id: Some(r.id@), description: None, sequence: None, quality: None },
    ));
    assert(seq_scan(s2) == Ok::<SeqSlots, RowError>(
        SeqSlots { id: Some(r.id@), description: None, sequence: Some(r.sequence@), quality: None },
    ));
    assert(seq_scan(s3) == Ok::<SeqSlots, RowError>(
        SeqSlots {
            id: Some(r.id@),
            description: opt_view(r.description),
            sequence: Some(r.sequence@),
            quality: None,
        },
    ));
    assert(seq_scan(row) == Ok::<SeqSlots, RowError>(
        SeqSlots {
            id: Some(r.id@),
            description: opt_view(r.description),
            sequence: Some(r.sequence@),
            quality: Some(r.quality@),
        },
    ));
}

/// What reading back an annotation record gives: every field as written,
/// the score as its whole part.
pub open spec fn gff_written(r: GffRecord) -> GffRowView {
    GffRowView {
        seqname: r.seqname@,
        source: Some(r.source@),
        feature: r.feature@,
        start: r.start as int,
        end: r.end as int,
        score: score_whole(r.score),
        strand: Some(r.strand@),
        frame: opt_view(r.frame),
        attributes: r.attributes@,
    }
}

/// An annotation record written to the columnar layout reads back with the
/// same fields, when its positions are between one and the largest `i64`.
pub proof fn lemma_gff_round_trip(rs: Seq<GffRecord>, i: int)
    requires
        0 <= i < rs.len(),
        rs[i].wf(),
        1 <= rs[i].start <= i64::MAX,
        1 <= rs[i].end <= i64::MAX,
    ensures
        gff_from_cells(batch_row(gff_schema_spec(), gff_columns(rs), i)) == Ok::<
            GffRowView,
            RowError,
        >(gff_written(rs[i])),
{
    reveal_strlit("seqname");
    reveal_strlit("source");
    reveal_strlit("feature_type");
    reveal_strlit("start");
    reveal_strlit("end");
    reveal_strlit("score");
    reveal_strlit("strand");
    reveal_strlit("frame");
    reveal_strlit("attributes");
    let r = rs[i];
    let row = batch_row(gff_schema_spec(), gff_columns(rs), i);
    assert("start"@[1] != "score"@[1]);
    assert("start"@[0] != "frame"@[0]);
    assert("score"@[0] != "frame"@[0]);
    assert("source"@[1] != "strand"@[1]);
    lemma_text_pairs_of_strings(r.attributes@);
    lemma_first_wins_distinct(r.attributes@);
    assert(row.len() == 9);
    assert(row[0].0 == "seqname"@ && cell_str(row[0].1) == Some(r.seqname@));
    assert(row[1].0 == "source"@ && cell_str(row[1].1) == Some(r.source@));
    assert(row[2].0 == "feature_type"@ && cell_str(row[2].1) == Some(r.feature@));
    assert(row[3].0 == "start"@ && cell_long(row[3].1) == Some(r.start as int));
    assert(row[4].0 == "end"@ && cell_long(row[4].1) == Some(r.end as int));
    assert(row[5].0 == "score"@ && cell_long(row[5].1) == score_whole(r.score));
    assert(row[6].0 == "strand"@ && cell_str(row[6].1) == Some(r.strand@));
    assert(row[7].0 == "frame"@ && cell_str(row[7].1) == opt_view(r.frame));
    assert(row[8].0 == "attributes"@ && cell_pairs(row[8].1) == Some(r.attributes@));
    let e = GffSlots {
        seqname: None,
        source: None,
        feature: None,
        start: None,
        end: None,
        score: None,
        strand: None,
        frame: None,
        attributes: None,
    };
    let t1 = GffSlots { seqname: Some(r.seqname@), ..e };
    let t2 = GffSlots { source: Some(r.source@), ..t1 };
    let t3 = GffSlots { feature: Some(r.feature@), ..t2 };
    let t4 = GffSlots { start: Some(r.start as int), ..t3 };
    let t5 = GffSlots { end: Some(r.end as int), ..t4 };
    let t6 = GffSlots { score: score_whole(r.score), ..t5 };
    let t7 = GffSlots { strand: Some(r.strand@), ..t6 };
    let t8 = GffSlots { frame: opt_view(r.frame), ..t7 };
    let t9 = GffSlots { attributes: Some(r.attributes@), ..t8 };
    assert(row.subrange(0, 0) =~= Seq::<(Seq<char>, CellView)>::empty());
    assert(gff_scan(row.subrange(0, 0)) == Ok::<GffSlots, RowError>(e));
    assert(row.subrange(0, 1).drop_last() =~= row.subrange(0, 0));
    assert(row.subrange(0, 1).last() == row[0]);
    assert(gff_scan(row.subrange(0, 1)) == Ok::<GffSlots, RowError>(t1));
    assert(row.subrange(0, 2).drop_last() =~= row.subrange(0, 1));
    assert(row.subrange(0, 2).last() == row[1]);
    assert(gff_scan(row.subrange(0, 2)) == Ok::<GffSlots, RowError>(t2));
    assert(row.subrange(0, 3).drop_last() =~= row.subrange(0, 2));
    assert(row.subrange(0, 3).last() == row[2]);
    assert(gff_scan(row.subrange(0, 3)) == Ok::<GffSlots, RowError>(t3));
    assert(row.subrange(0, 4).drop_last() =~= row.subrange(0, 3));
    assert(row.subrange(0, 4).last() == row[3]);
    assert(gff_scan(row.subrange(0, 4)) == Ok::<GffSlots, RowError>(t4));
    assert(row.subrange(0, 5).drop_last() =~= row.subrange(0, 4));
    assert(row.subrange(0, 5).last() == row[4]);
    assert(gff_scan(row.subrange(0, 5)) == Ok::<GffSlots, RowError>(t5));
    assert(row.subrange(0, 6).drop_last() =~= row.subrange(0, 5));
    assert(row.subrange(0, 6).last() == row[5]);
    assert(gff_scan(row.subrange(0, 6)) == Ok::<GffSlots, RowError>(t6)) by {
        match r.score {
            Some(sc) => {},
            None => {
                assert(t6 == t5);
            },
        }
    }
    assert(row.subrange(0, 7).drop_last() =~= row.subrange(0, 6));
    assert(row.subrange(0, 7).last() == row[6]);
    assert(gff_scan(row.subrange(0, 7)) == Ok::<GffSlots, RowError>(t7));
    assert(row.subrange(0, 8).drop_last() =~= row.subrange(0, 7));
    assert(row.subrange(0, 8).last() == row[7]);
    assert(gff_scan(row.subrange(0, 8)) == Ok::<GffSlots, RowError>(t8)) by {
        match r.frame {
            Some(f) => {},
            None => {
                assert(t8 == t7);
            },
        }
    }
    assert(row.drop_last() =~= row.subrange(0, 8));
    assert(row.last() == row[8]);
    assert(gff_scan(row) == Ok::<GffSlots, RowError>(t9));
}

/// Of an attribute key given more than once, the first value is the one
/// that survives a write to the columnar layout and a read back, and it is
/// the only value left for that key. `entries` are the record's attribute
/// pairs as listed, which the record keeps first-wins.
pub proof fn lemma_duplicate_attribute_first_kept(
    entries: Seq<(Seq<char>, Seq<char>)>,
    rs: Seq<GffRecord>,
    i: int,
    k: int,
)
    requires
        0 <= i < rs.len(),
        rs[i].attributes@ == first_wins(entries),
        1 <= rs[i].start <= i64::MAX,
        1 <= rs[i].end <= i64::MAX,
        0 <= k < entries.len(),
        forall|j: int| 0 <= j < k ==> #[trigger] entries[j].0 != entries[k].0,
    ensures
        gff_from_cells(batch_row(gff_schema_spec(), gff_columns(rs), i)) matches Ok(back) && {
            &&& back.attributes.contains(entries[k])
            &&& keys_distinct(back.attributes)
        },
{
    lemma_first_wins_keys(entries);
    lemma_first_wins_first_value(entries, k);
    lemma_gff_round_trip(rs, i);
}

} // verus!
