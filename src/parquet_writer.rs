use vstd::prelude::*;

use crate::attributes::pairs_view;
use crate::types::{opt_view, FastaRecord, FastqRecord, GffRecord, GffScore};

verus! {

/// The number of records a columnar batch holds at most.
pub const CHUNK_SIZE: usize = 1048576;

/// The value type of a column.
#[derive(Clone, Copy, Debug, PartialEq, Eq, Structural)]
pub enum ColumnKind {
    /// Text.
    Utf8,
    /// Signed 64-bit integers.
    Int64,
    /// A map from text keys to text values per row.
    Utf8Map,
}

/// One column of a schema: its name, value type and whether it takes nulls.
#[derive(Clone, Debug, PartialEq, Eq)]
pub struct ColumnSpec {
    pub name: String,
    pub kind: ColumnKind,
    pub nullable: bool,
}

/// The plain-value form of a schema.
pub open spec fn schema_view(s: Seq<ColumnSpec>) -> Seq<(Seq<char>, ColumnKind, bool)> {
    s.map_values(|c: ColumnSpec| (c.name@, c.kind, c.nullable))
}

fn column_spec(name: &str, kind: ColumnKind, nullable: bool) -> (r: ColumnSpec)
    ensures
        r.name@ == name@,
        r.kind == kind,
        r.nullable == nullable,
{
    ColumnSpec { name: String::from_str(name), kind, nullable }
}

/// The values of one column of a batch, one per row.
#[derive(Clone, Debug, PartialEq, Eq)]
pub enum Column {
    Utf8(Vec<Option<String>>),
    Int64(Vec<Option<i64>>),
    Utf8Map(Vec<Vec<(String, String)>>),
}

/// The plain-value form of a column.
pub enum ColumnView {
    Utf8(Seq<Option<Seq<char>>>),
    Int64(Seq<Option<int>>),
    Utf8Map(Seq<Seq<(Seq<char>, Seq<char>)>>),
}

pub open spec fn opt_int(o: Option<i64>) -> Option<int> {
    match o {
        Some(n) => Some(n as int),
        None => None,
    }
}

pub open spec fn column_view(c: Column) -> ColumnView {
    match c {
        Column::Utf8(v) => ColumnView::Utf8(v@.map_values(|o: Option<String>| opt_view(o))),
        Column::Int64(v) => ColumnView::Int64(v@.map_values(|o: Option<i64>| opt_int(o))),
        Column::Utf8Map(v) => ColumnView::Utf8Map(
            v@.map_values(|row: Vec<(String, String)>| pairs_view(row@)),
        ),
    }
}

/// The plain-value form of a batch's columns.
pub open spec fn columns_view(cs: Seq<Column>) -> Seq<ColumnView> {
    cs.map_values(|c: Column| column_view(c))
}

/// The rows of `b` followed by the rows of `a` of the same column.
pub open spec fn concat_column(a: ColumnView, b: ColumnView) -> ColumnView {
    match (a, b) {
        (ColumnView::Utf8(x), ColumnView::Utf8(y)) => ColumnView::Utf8(x + y),
        (ColumnView::Int64(x), ColumnView::Int64(y)) => ColumnView::Int64(x + y),
        (ColumnView::Utf8Map(x), ColumnView::Utf8Map(y)) => ColumnView::Utf8Map(x + y),
        _ => a,
    }
}

/// The batch holding the rows of `a` and then the rows of `b`.
pub open spec fn concat_batches(a: Seq<ColumnView>, b: Seq<ColumnView>) -> Seq<ColumnView> {
    Seq::new(a.len(), |j: int| concat_column(a[j], b[j]))
}

/// A record shape with a fixed columnar schema.
pub trait ColumnarRecord: Sized {
    /// The schema: column names, types and nullability, in column order.
    spec fn schema_spec() -> Seq<(Seq<char>, ColumnKind, bool)>;

    /// The columns of a batch holding `rs`, one row per record, in order.
    spec fn columns_spec(rs: Seq<Self>) -> Seq<ColumnView>;

    fn schema() -> (r: Vec<ColumnSpec>)
        ensures
            schema_view(r@) == Self::schema_spec(),
    ;

    /// Builds the columns of a batch holding `rs`.
    fn columns(rs: &Vec<Self>) -> (r: Vec<Column>)
        ensures
            columns_view(r@) == Self::columns_spec(rs@),
    ;

    /// A batch of `a + b` is the batch of `a` with the rows of `b` appended.
    proof fn lemma_columns_concat(a: Seq<Self>, b: Seq<Self>)
        ensures
            Self::columns_spec(a + b) == concat_batches(
                Self::columns_spec(a),
                Self::columns_spec(b),
            ),
    ;
}

pub open spec fn fasta_schema_spec() -> Seq<(Seq<char>, ColumnKind, bool)> {
    seq![
        ("id"@, ColumnKind::Utf8, false),
        ("description"@, ColumnKind::Utf8, true),
        ("sequence"@, ColumnKind::Utf8, false),
    ]
}

pub open spec fn fasta_columns(rs: Seq<FastaRecord>) -> Seq<ColumnView> {
    seq![
        ColumnView::Utf8(rs.map_values(|r: FastaRecord| Some(r.id@))),
        ColumnView::Utf8(rs.map_values(|r: FastaRecord| opt_view(r.description))),
        ColumnView::Utf8(rs.map_values(|r: FastaRecord| Some(r.sequence@))),
    ]
}

fn clone_opt(o: &Option<String>) -> (r: Option<String>)
    ensures
        opt_view(r) == opt_view(*o),
{
    match o {
        Some(s) => Some(s.clone()),
        None => None,
    }
}

impl ColumnarRecord for FastaRecord {
    open spec fn schema_spec() -> Seq<(Seq<char>, ColumnKind, bool)> {
        fasta_schema_spec()
    }

    open spec fn columns_spec(rs: Seq<Self>) -> Seq<ColumnView> {
        fasta_columns(rs)
    }

    fn schema() -> (r: Vec<ColumnSpec>) {
        let mut v: Vec<ColumnSpec> = Vec::new();
        v.push(column_spec("id", ColumnKind::Utf8, false));
        v.push(column_spec("description", ColumnKind::Utf8, true));
        v.push(column_spec("sequence", ColumnKind::Utf8, false));
        assert(schema_view(v@) =~= fasta_schema_spec());
        v
    }

    fn columns(rs: &Vec<Self>) -> (r: Vec<Column>) {
        let mut ids: Vec<Option<String>> = Vec::new();
        let mut descs: Vec<Option<String>> = Vec::new();
        let mut seqs: Vec<Option<String>> = Vec::new();
        let mut i: usize = 0;
        while i < rs.len()
            invariant
                i <= rs.len(),
                ids.len() == i,
                descs.len() == i,
                seqs.len() == i,
                forall|j: int| 0 <= j < i ==> opt_view(#[trigger] ids@[j]) == Some(rs@[j].id@),
                forall|j: int|
                    0 <= j < i ==> opt_view(#[trigger] descs@[j]) == opt_view(rs@[j].description),
                forall|j: int|
                    0 <= j < i ==> opt_view(#[trigger] seqs@[j]) == Some(rs@[j].sequence@),
            decreases rs.len() - i,
        {
            ids.push(Some(rs[i].id.clone()));
            descs.push(clone_opt(&rs[i].description));
            seqs.push(Some(rs[i].sequence.clone()));
            i = i + 1;
        }
        let mut r: Vec<Column> = Vec::new();
        r.push(Column::Utf8(ids));
        r.push(Column::Utf8(descs));
        r.push(Column::Utf8(seqs));
        proof {
            assert(ids@.map_values(|o: Option<String>| opt_view(o)) =~= rs@.map_values(
                |r: FastaRecord| Some(r.id@),
            ));
            assert(descs@.map_values(|o: Option<String>| opt_view(o)) =~= rs@.map_values(
                |r: FastaRecord| opt_view(r.description),
            ));
            assert(seqs@.map_values(|o: Option<String>| opt_view(o)) =~= rs@.map_values(
                |r: FastaRecord| Some(r.sequence@),
            ));
            assert(columns_view(r@) =~= fasta_columns(rs@));
        }
        r
    }

    proof fn lemma_columns_concat(a: Seq<Self>, b: Seq<Self>) {
        assert((a + b).map_values(|r: FastaRecord| Some(r.id@)) =~= a.map_values(
            |r: FastaRecord| Some(r.id@),
        ) + b.map_values(|r: FastaRecord| Some(r.id@)));
        assert((a + b).map_values(|r: FastaRecord| opt_view(r.description)) =~= a.map_values(
            |r: FastaRecord| opt_view(r.description),
        ) + b.map_values(|r: FastaRecord| opt_view(r.description)));
        assert((a + b).map_values(|r: FastaRecord| Some(r.sequence@)) =~= a.map_values(
            |r: FastaRecord| Some(r.sequence@),
        ) + b.map_values(|r: FastaRecord| Some(r.sequence@)));
        assert(fasta_columns(a + b) =~= concat_batches(fasta_columns(a), fasta_columns(b)));
    }
}

pub open spec fn fastq_schema_spec() -> Seq<(Seq<char>, ColumnKind, bool)> {
    seq![
        ("id"@, ColumnKind::Utf8, false),
        ("sequence"@, ColumnKind::Utf8, false),
        ("description"@, ColumnKind::Utf8, true),
        ("quality"@, ColumnKind::Utf8, false),
    ]
}

pub open spec fn fastq_columns(rs: Seq<FastqRecord>) -> Seq<ColumnView> {
    seq![
        ColumnView::Utf8(rs.map_values(|r: FastqRecord| Some(r.id@))),
        ColumnView::Utf8(rs.map_values(|r: FastqRecord| Some(r.sequence@))),
        ColumnView::Utf8(rs.map_values(|r: FastqRecord| opt_view(r.description))),
        ColumnView::Utf8(rs.map_values(|r: FastqRecord| Some(r.quality@))),
    ]
}

impl ColumnarRecord for FastqRecord {
    open spec fn schema_spec() -> Seq<(Seq<char>, ColumnKind, bool)> {
        fastq_schema_spec()
    }

    open spec fn columns_spec(rs: Seq<Self>) -> Seq<ColumnView> {
        fastq_columns(rs)
    }

    fn schema() -> (r: Vec<ColumnSpec>) {
        let mut v: Vec<ColumnSpec> = Vec::new();
        v.push(column_spec("id", ColumnKind::Utf8, false));
        v.push(column_spec("sequence", ColumnKind::Utf8, false));
        v.push(column_spec("description", ColumnKind::Utf8, true));
        v.push(column_spec("quality", ColumnKind::Utf8, false));
        assert(schema_view(v@) =~= fastq_schema_spec());
        v
    }

    fn columns(rs: &Vec<Self>) -> (r: Vec<Column>) {
        let mut ids: Vec<Option<String>> = Vec::new();
        let mut seqs: Vec<Option<String>> = Vec::new();
        let mut descs: Vec<Option<String>> = Vec::new();
        let mut quals: Vec<Option<String>> = Vec::new();
        let mut i: usize = 0;
        while i < rs.len()
            invariant
                i <= rs.len(),
                ids.len() == i,
                seqs.len() == i,
                descs.len() == i,
                quals.len() == i,
                forall|j: int| 0 <= j < i ==> opt_view(#[trigger] ids@[j]) == Some(rs@[j].id@),
                forall|j: int|
                    0 <= j < i ==> opt_view(#[trigger] seqs@[j]) == Some(rs@[j].sequence@),
                forall|j: int|
                    0 <= j < i ==> opt_view(#[trigger] descs@[j]) == opt_view(rs@[j].description),
                forall|j: int|
                    0 <= j < i ==> opt_view(#[trigger] quals@[j]) == Some(rs@[j].quality@),
            decreases rs.len() - i,
        {
            ids.push(Some(rs[i].id.clone()));
            seqs.push(Some(rs[i].sequence.clone()));
            descs.push(clone_opt(&rs[i].description));
            quals.push(Some(rs[i].quality.clone()));
            i = i + 1;
        }
        let mut r: Vec<Column> = Vec::new();
        r.push(Column::Utf8(ids));
        r.push(Column::Utf8(seqs));
        r.push(Column::Utf8(descs));
        r.push(Column::Utf8(quals));
        proof {
            assert(ids@.map_values(|o: Option<String>| opt_view(o)) =~= rs@.map_values(
                |r: FastqRecord| Some(r.id@),
            ));
            assert(seqs@.map_values(|o: Option<String>| opt_view(o)) =~= rs@.map_values(
                |r: FastqRecord| Some(r.sequence@),
            ));
            assert(descs@.map_values(|o: Option<String>| opt_view(o)) =~= rs@.map_values(
                |r: FastqRecord| opt_view(r.description),
            ));
            assert(quals@.map_values(|o: Option<String>| opt_view(o)) =~= rs@.map_values(
                |r: FastqRecord| Some(r.quality@),
            ));
            assert(columns_view(r@) =~= fastq_columns(rs@));
        }
        r
    }

    proof fn lemma_columns_concat(a: Seq<Self>, b: Seq<Self>) {
        assert((a + b).map_values(|r: FastqRecord| Some(r.id@)) =~= a.map_values(
            |r: FastqRecord| Some(r.id@),
        ) + b.map_values(|r: FastqRecord| Some(r.id@)));
        assert((a + b).map_values(|r: FastqRecord| Some(r.sequence@)) =~= a.map_values(
            |r: FastqRecord| Some(r.sequence@),
        ) + b.map_values(|r: FastqRecord| Some(r.sequence@)));
        assert((a + b).map_values(|r: FastqRecord| opt_view(r.description)) =~= a.map_values(
            |r: FastqRecord| opt_view(r.description),
        ) + b.map_values(|r: FastqRecord| opt_view(r.description)));
        assert((a + b).map_values(|r: FastqRecord| Some(r.quality@)) =~= a.map_values(
            |r: FastqRecord| Some(r.quality@),
        ) + b.map_values(|r: FastqRecord| Some(r.quality@)));
        assert(fastq_columns(a + b) =~= concat_batches(fastq_columns(a), fastq_columns(b)));
    }
}

pub open spec fn gff_schema_spec() -> Seq<(Seq<char>, ColumnKind, bool)> {
    seq![
        ("seqname"@, ColumnKind::Utf8, false),
        ("source"@, ColumnKind::Utf8, true),
        ("feature_type"@, ColumnKind::Utf8, false),
        ("start"@, ColumnKind::Int64, false),
        ("end"@, ColumnKind::Int64, false),
        ("score"@, ColumnKind::Int64, true),
        ("strand"@, ColumnKind::Utf8, false),
        ("frame"@, ColumnKind::Utf8, true),
        ("attributes"@, ColumnKind::Utf8Map, false),
    ]
}

/// The stored form of an optional score: its whole part.
pub open spec fn score_whole(o: Option<GffScore>) -> Option<int> {
    match o {
        Some(s) => Some(s.whole as int),
        None => None,
    }
}

pub open spec fn gff_columns(rs: Seq<GffRecord>) -> Seq<ColumnView> {
    seq![
        ColumnView::Utf8(rs.map_values(|r: GffRecord| Some(r.seqname@))),
        ColumnView::Utf8(rs.map_values(|r: GffRecord| Some(r.source@))),
        ColumnView::Utf8(rs.map_values(|r: GffRecord| Some(r.feature@))),
        ColumnView::Int64(rs.map_values(|r: GffRecord| Some((r.start as i64) as int))),
        ColumnView::Int64(rs.map_values(|r: GffRecord| Some((r.end as i64) as int))),
        ColumnView::Int64(rs.map_values(|r: GffRecord| score_whole(r.score))),
        ColumnView::Utf8(rs.map_values(|r: GffRecord| Some(r.strand@))),
        ColumnView::Utf8(rs.map_values(|r: GffRecord| opt_view(r.frame))),
        ColumnView::Utf8Map(rs.map_values(|r: GffRecord| r.attributes@)),
    ]
}

impl ColumnarRecord for GffRecord {
    open spec fn schema_spec() -> Seq<(Seq<char>, ColumnKind, bool)> {
        gff_schema_spec()
    }

    open spec fn columns_spec(rs: Seq<Self>) -> Seq<ColumnView> {
        gff_columns(rs)
    }

    fn schema() -> (r: Vec<ColumnSpec>) {
        let mut v: Vec<ColumnSpec> = Vec::new();
        v.push(column_spec("seqname", ColumnKind::Utf8, false));
        v.push(column_spec("source", ColumnKind::Utf8, true));
        v.push(column_spec("feature_type", ColumnKind::Utf8, false));
        v.push(column_spec("start", ColumnKind::Int64, false));
        v.push(column_spec("end", ColumnKind::Int64, false));
        v.push(column_spec("score", ColumnKind::Int64, true));
        v.push(column_spec("strand", ColumnKind::Utf8, false));
        v.push(column_spec("frame", ColumnKind::Utf8, true));
        v.push(column_spec("attributes", ColumnKind::Utf8Map, false));
        assert(schema_view(v@) =~= gff_schema_spec());
        v
    }

    fn columns(rs: &Vec<Self>) -> (r: Vec<Column>) {
        let mut names: Vec<Option<String>> = Vec::new();
        let mut sources: Vec<Option<String>> = Vec::new();
        let mut features: Vec<Option<String>> = Vec::new();
        let mut starts: Vec<Option<i64>> = Vec::new();
        let mut ends: Vec<Option<i64>> = Vec::new();
        let mut scores: Vec<Option<i64>> = Vec::new();
        let mut strands: Vec<Option<String>> = Vec::new();
        let mut frames: Vec<Option<String>> = Vec::new();
        let mut attrs: Vec<Vec<(String, String)>> = Vec::new();
        let mut i: usize = 0;
        while i < rs.len()
            invariant
                i <= rs.len(),
                names.len() == i,
                sources.len() == i,
                features.len() == i,
                starts.len() == i,
                ends.len() == i,
                scores.len() == i,
                strands.len() == i,
                frames.len() == i,
                attrs.len() == i,
                forall|j: int|
                    0 <= j < i ==> opt_view(#[trigger] names@[j]) == Some(rs@[j].seqname@),
                forall|j: int|
                    0 <= j < i ==> opt_view(#[trigger] sources@[j]) == Some(rs@[j].source@),
                forall|j: int|
                    0 <= j < i ==> opt_view(#[trigger] features@[j]) == Some(rs@[j].feature@),
                forall|j: int|
                    0 <= j < i ==> opt_int(#[trigger] starts@[j]) == Some(
                        (rs@[j].start as i64) as int,
                    ),
                forall|j: int|
                    0 <= j < i ==> opt_int(#[trigger] ends@[j]) == Some((rs@[j].end as i64) as int),
                forall|j: int|
                    0 <= j < i ==> opt_int(#[trigger] scores@[j]) == score_whole(rs@[j].score),
                forall|j: int|
                    0 <= j < i ==> opt_view(#[trigger] strands@[j]) == Some(rs@[j].strand@),
                forall|j: int|
                    0 <= j < i ==> opt_view(#[trigger] frames@[j]) == opt_view(rs@[j].frame),
                forall|j: int|
                    0 <= j < i ==> pairs_view((#[trigger] attrs@[j])@) == rs@[j].attributes@,
            decreases rs.len() - i,
        {
            let r = &rs[i];
            names.push(Some(r.seqname.clone()));
            sources.push(Some(r.source.clone()));
            features.push(Some(r.feature.clone()));
            starts.push(Some(r.start as i64));
            ends.push(Some(r.end as i64));
            scores.push(
                match &r.score {
                    Some(s) => Some(s.whole),
                    None => None,
                },
            );
            strands.push(Some(r.strand.clone()));
            frames.push(clone_opt(&r.frame));
            attrs.push(r.attributes.to_vec());
            i = i + 1;
        }
        let mut r: Vec<Column> = Vec::new();
        r.push(Column::Utf8(names));
        r.push(Column::Utf8(sources));
        r.push(Column::Utf8(features));
        r.push(Column::Int64(starts));
        r.push(Column::Int64(ends));
        r.push(Column::Int64(scores));
        r.push(Column::Utf8(strands));
        r.push(Column::Utf8(frames));
        r.push(Column::Utf8Map(attrs));
        proof {
            assert(names@.map_values(|o: Option<String>| opt_view(o)) =~= rs@.map_values(
                |r: GffRecord| Some(r.seqname@),
            ));
            assert(sources@.map_values(|o: Option<String>| opt_view(o)) =~= rs@.map_values(
                |r: GffRecord| Some(r.source@),
            ));
            assert(features@.map_values(|o: Option<String>| opt_view(o)) =~= rs@.map_values(
                |r: GffRecord| Some(r.feature@),
            ));
            assert(starts@.map_values(|o: Option<i64>| opt_int(o)) =~= rs@.map_values(
                |r: GffRecord| Some((r.start as i64) as int),
            ));
            assert(ends@.map_values(|o: Option<i64>| opt_int(o)) =~= rs@.map_values(
                |r: GffRecord| Some((r.end as i64) as int),
            ));
            assert(scores@.map_values(|o: Option<i64>| opt_int(o)) =~= rs@.map_values(
                |r: GffRecord| score_whole(r.score),
            ));
            assert(strands@.map_values(|o: Option<String>| opt_view(o)) =~= rs@.map_values(
                |r: GffRecord| Some(r.strand@),
            ));
            assert(frames@.map_values(|o: Option<String>| opt_view(o)) =~= rs@.map_values(
                |r: GffRecord| opt_view(r.frame),
            ));
            assert(attrs@.map_values(|row: Vec<(String, String)>| pairs_view(row@))
                =~= rs@.map_values(|r: GffRecord| r.attributes@));
            assert(columns_view(r@) =~= gff_columns(rs@));
        }
        r
    }

    proof fn lemma_columns_concat(a: Seq<Self>, b: Seq<Self>) {
        assert((a + b).map_values(|r: GffRecord| Some(r.seqname@)) =~= a.map_values(
            |r: GffRecord| Some(r.seqname@),
        ) + b.map_values(|r: GffRecord| Some(r.seqname@)));
        assert((a + b).map_values(|r: GffRecord| Some(r.source@)) =~= a.map_values(
            |r: GffRecord| Some(r.source@),
        ) + b.map_values(|r: GffRecord| Some(r.source@)));
        assert((a + b).map_values(|r: GffRecord| Some(r.feature@)) =~= a.map_values(
            |r: GffRecord| Some(r.feature@),
        ) + b.map_values(|r: GffRecord| Some(r.feature@)));
        assert((a + b).map_values(|r: GffRecord| Some((r.start as i64) as int)) =~= a.map_values(
            |r: GffRecord| Some((r.start as i64) as int),
        ) + b.map_values(|r: GffRecord| Some((r.start as i64) as int)));
        assert((a + b).map_values(|r: GffRecord| Some((r.end as i64) as int)) =~= a.map_values(
            |r: GffRecord| Some((r.end as i64) as int),
        ) + b.map_values(|r: GffRecord| Some((r.end as i64) as int)));
        assert((a + b).map_values(|r: GffRecord| score_whole(r.score)) =~= a.map_values(
            |r: GffRecord| score_whole(r.score),
        ) + b.map_values(|r: GffRecord| score_whole(r.score)));
        assert((a + b).map_values(|r: GffRecord| Some(r.strand@)) =~= a.map_values(
            |r: GffRecord| Some(r.strand@),
        ) + b.map_values(|r: GffRecord| Some(r.strand@)));
        assert((a + b).map_values(|r: GffRecord| opt_view(r.frame)) =~= a.map_values(
            |r: GffRecord| opt_view(r.frame),
        ) + b.map_values(|r: GffRecord| opt_view(r.frame)));
        assert((a + b).map_values(|r: GffRecord| r.attributes@) =~= a.map_values(
            |r: GffRecord| r.attributes@,
        ) + b.map_values(|r: GffRecord| r.attributes@));
        assert(gff_columns(a + b) =~= concat_batches(gff_columns(a), gff_columns(b)));
    }
}

/// Consecutive groups of `c` records of `rs` in order, all of `c` records but
/// the last, which holds the rest.
pub open spec fn chunks_of<R>(rs: Seq<R>, c: nat) -> Seq<Seq<R>>
    decreases rs.len(),
{
    if rs.len() == 0 || c == 0 {
        Seq::empty()
    } else if rs.len() <= c {
        seq![rs]
    } else {
        seq![rs.subrange(0, c as int)] + chunks_of(rs.subrange(c as int, rs.len() as int), c)
    }
}

/// The rows of the batches of `chunks`, one batch after the other.
pub open spec fn joined_columns<R: ColumnarRecord>(chunks: Seq<Seq<R>>) -> Seq<ColumnView>
    decreases chunks.len(),
{
    if chunks.len() == 0 {
        R::columns_spec(Seq::empty())
    } else {
        concat_batches(R::columns_spec(chunks[0]), joined_columns::<R>(chunks.drop_first()))
    }
}

/// Chunking cannot be seen in the output: the batches of `rs` cut into
/// chunks of any size `c`, taken one after the other, hold the same columns
/// as a single batch of all of `rs`.
pub proof fn lemma_chunking_invisible<R: ColumnarRecord>(rs: Seq<R>, c: nat)
    requires
        c > 0,
    ensures
        joined_columns::<R>(chunks_of(rs, c)) == R::columns_spec(rs),
    decreases rs.len(),
{
    if rs.len() == 0 {
        assert(rs =~= Seq::<R>::empty());
    } else if rs.len() <= c {
        let chunks = chunks_of(rs, c);
        assert(chunks =~= seq![rs]);
        assert(chunks[0] == rs);
        assert(chunks.drop_first() =~= Seq::<Seq<R>>::empty());
        assert(joined_columns::<R>(chunks.drop_first()) == R::columns_spec(Seq::empty()));
        R::lemma_columns_concat(rs, Seq::empty());
        assert(rs + Seq::<R>::empty() =~= rs);
    } else {
        let head = rs.subrange(0, c as int);
        let tail = rs.subrange(c as int, rs.len() as int);
        lemma_chunking_invisible(tail, c);
        R::lemma_columns_concat(head, tail);
        assert(head + tail =~= rs);
        let chunks = chunks_of(rs, c);
        assert(chunks =~= seq![head] + chunks_of(tail, c));
        assert(chunks[0] == head);
        assert(chunks.drop_first() =~= chunks_of(tail, c));
    }
}

/// Collects records into chunks of a fixed size and hands out the columns
/// of each chunk as soon as it is full, so that at most one chunk of
/// records is held at a time.
pub struct ChunkedWriter<R> {
    pending: Vec<R>,
    chunk_size: usize,
    pushed: Ghost<Seq<R>>,
    flushed: Ghost<nat>,
}

impl<R: ColumnarRecord> ChunkedWriter<R> {
    /// All records pushed so far, in order.
    pub closed spec fn pushed(&self) -> Seq<R> {
        self.pushed@
    }

    /// How many of the pushed records have been handed out in batches.
    pub closed spec fn flushed(&self) -> nat {
        self.flushed@
    }

    pub closed spec fn chunk_size(&self) -> nat {
        self.chunk_size as nat
    }

    pub closed spec fn wf(&self) -> bool {
        &&& self.chunk_size > 0
        &&& self.pending.len() < self.chunk_size
        &&& self.pushed@.len() == self.flushed@ + self.pending.len()
        &&& self.pending@ == self.pushed@.subrange(self.flushed@ as int, self.pushed@.len() as int)
    }

    /// A writer that cuts its input into chunks of `chunk_size` records.
    pub fn new(chunk_size: usize) -> (r: Self)
        requires
            chunk_size > 0,
        ensures
            r.wf(),
            r.pushed() == Seq::<R>::empty(),
            r.flushed() == 0,
            r.chunk_size() == chunk_size,
    {
        let r = ChunkedWriter {
            pending: Vec::new(),
            chunk_size,
            pushed: Ghost(Seq::empty()),
            flushed: Ghost(0),
        };
        assert(r.pending@ =~= r.pushed@.subrange(0, 0));
        r
    }

    /// Adds one record. When that fills the current chunk, returns the
    /// columns of the chunk, which is then dropped.
    pub fn push(&mut self, r: R) -> (b: Option<Vec<Column>>)
        requires
            old(self).wf(),
        ensures
            final(self).wf(),
            final(self).chunk_size() == old(self).chunk_size(),
            final(self).pushed() == old(self).pushed().push(r),
            old(self).pushed().len() + 1 == old(self).flushed() + old(self).chunk_size() ==> {
                &&& final(self).flushed() == final(self).pushed().len()
                &&& b matches Some(cols)
                &&& columns_view(cols@) == R::columns_spec(
                    final(self).pushed().subrange(
                        old(self).flushed() as int,
                        final(self).pushed().len() as int,
                    ),
                )
            },
            old(self).pushed().len() + 1 != old(self).flushed() + old(self).chunk_size() ==> {
                &&& final(self).flushed() == old(self).flushed()
                &&& b is None
            },
    {
        self.pending.push(r);
        self.pushed = Ghost(self.pushed@.push(r));
        assert(self.pending@ =~= self.pushed@.subrange(self.flushed@ as int, self.pushed@.len() as int));
        if self.pending.len() == self.chunk_size {
            let cols = R::columns(&self.pending);
            self.pending = Vec::new();
            self.flushed = Ghost(self.pushed@.len());
            assert(self.pending@ =~= self.pushed@.subrange(self.flushed@ as int, self.pushed@.len() as int));
            Some(cols)
        } else {
            None
        }
    }

    /// Ends the input: returns the columns of the last, partly filled chunk,
    /// if it holds any record.
    pub fn finish(self) -> (b: Option<Vec<Column>>)
        requires
            self.wf(),
        ensures
            self.flushed() == self.pushed().len() ==> b is None,
            self.flushed() < self.pushed().len() ==> {
                &&& b matches Some(cols)
                &&& columns_view(cols@) == R::columns_spec(
                    self.pushed().subrange(self.flushed() as int, self.pushed().len() as int),
                )
            },
    {
        if self.pending.len() == 0 {
            None
        } else {
            Some(R::columns(&self.pending))
        }
    }
}

} // verus!
