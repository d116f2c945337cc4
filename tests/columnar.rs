use brrrr::parquet_reader::{
    fasta_from_row, fastq_from_row, gff_from_row, row_at, Cell, Row, RowError, Scalar,
};
use brrrr::parquet_writer::{
    ChunkedWriter, Column, ColumnKind, ColumnarRecord, CHUNK_SIZE,
};
use brrrr::types::{FastaRecord, FastqRecord, GffRecord, GffScore};

fn fasta(i: usize) -> FastaRecord {
    let description = if i % 2 == 0 { None } else { Some(format!("d{}", i)) };
    FastaRecord::new(format!("r{}", i), description, "ACGT".repeat(i % 3 + 1))
}

fn concat(a: Vec<Column>, b: Vec<Column>) -> Vec<Column> {
    a.into_iter()
        .zip(b)
        .map(|(x, y)| match (x, y) {
            (Column::Utf8(mut p), Column::Utf8(q)) => {
                p.extend(q);
                Column::Utf8(p)
            }
            (Column::Int64(mut p), Column::Int64(q)) => {
                p.extend(q);
                Column::Int64(p)
            }
            (Column::Utf8Map(mut p), Column::Utf8Map(q)) => {
                p.extend(q);
                Column::Utf8Map(p)
            }
            _ => panic!("column types differ"),
        })
        .collect()
}

fn chunked_columns(records: &[FastaRecord], chunk: usize) -> (Vec<Column>, usize) {
    let mut w = ChunkedWriter::<FastaRecord>::new(chunk);
    let mut batches = Vec::new();
    for r in records {
        if let Some(b) = w.push(r.clone()) {
            batches.push(b);
        }
    }
    if let Some(b) = w.finish() {
        batches.push(b);
    }
    let n = batches.len();
    let mut it = batches.into_iter();
    let first = it.next().unwrap_or_else(|| FastaRecord::columns(&Vec::new()));
    (it.fold(first, concat), n)
}

#[test]
fn chunk_size_is_two_to_the_twentieth() {
    assert_eq!(CHUNK_SIZE, 1 << 20);
}

#[test]
fn chunking_matches_single_batch() {
    let chunk = 4;
    for n in [chunk - 1, chunk, chunk + 1, 2 * chunk, 0, 1] {
        let records: Vec<FastaRecord> = (0..n).map(fasta).collect();
        let (joined, batches) = chunked_columns(&records, chunk);
        assert_eq!(joined, FastaRecord::columns(&records), "n = {}", n);
        assert_eq!(batches, (n + chunk - 1) / chunk);
    }
}

#[test]
fn chunked_writer_flushes_when_full() {
    let mut w = ChunkedWriter::<FastaRecord>::new(2);
    assert!(w.push(fasta(0)).is_none());
    let full = w.push(fasta(1)).expect("a full chunk");
    assert_eq!(full, FastaRecord::columns(&vec![fasta(0), fasta(1)]));
    assert!(w.push(fasta(2)).is_none());
    assert_eq!(w.finish(), Some(FastaRecord::columns(&vec![fasta(2)])));
    let empty = ChunkedWriter::<FastaRecord>::new(2);
    assert_eq!(empty.finish(), None);
}

#[test]
fn fasta_schema_and_columns() {
    let schema = FastaRecord::schema();
    let names: Vec<&str> = schema.iter().map(|c| c.name.as_str()).collect();
    assert_eq!(names, vec!["id", "description", "sequence"]);
    assert!(schema.iter().all(|c| c.kind == ColumnKind::Utf8));
    assert_eq!(schema.iter().map(|c| c.nullable).collect::<Vec<_>>(), vec![false, true, false]);
    let cols = FastaRecord::columns(&vec![fasta(0), fasta(1)]);
    assert_eq!(
        cols[1],
        Column::Utf8(vec![None, Some("d1".to_string())])
    );
}

#[test]
fn gff_schema_names() {
    let schema = GffRecord::schema();
    let names: Vec<&str> = schema.iter().map(|c| c.name.as_str()).collect();
    assert_eq!(
        names,
        vec!["seqname", "source", "feature_type", "start", "end", "score", "strand", "frame", "attributes"]
    );
    assert_eq!(schema[8].kind, ColumnKind::Utf8Map);
    assert_eq!(schema[3].kind, ColumnKind::Int64);
}

#[test]
fn parquet_fasta_base_test() {
    let r = FastaRecord::new("name".to_string(), Some("description".to_string()), "ATCG".to_string());
    let records = vec![r.clone()];
    let schema = FastaRecord::schema();
    let cols = FastaRecord::columns(&records);
    let row = row_at(&schema, &cols, 0);
    let back = fasta_from_row(&row).expect("fa2pq failed");
    assert_eq!(back.id, r.id);
    assert_eq!(back.description, r.description);
    assert_eq!(back.sequence, "ATCG");
}

#[test]
fn parquet_fastq_base_test() {
    let r = FastqRecord::new("r0".to_string(), "AGCT".to_string(), "NDLS".to_string());
    let schema = FastqRecord::schema();
    let cols = FastqRecord::columns(&vec![r.clone()]);
    let back = fastq_from_row(&row_at(&schema, &cols, 0)).expect("fa2pq failed");
    assert_eq!(back, r);
}

fn sample_gff() -> GffRecord {
    GffRecord::new(
        "sq0".to_string(),
        "NOODLES".to_string(),
        "gene".to_string(),
        8,
        13,
        None,
        "+".to_string(),
        None,
        vec![
            ("gene_id".to_string(), "ndls0".to_string()),
            ("gene_name".to_string(), "gene0".to_string()),
        ],
    )
}

#[test]
fn parquet_gff_base_test() {
    let r = sample_gff();
    let schema = GffRecord::schema();
    let cols = GffRecord::columns(&vec![r.clone()]);
    let back = gff_from_row(&row_at(&schema, &cols, 0)).expect("pq2gff failed");
    assert_eq!(back.seqname, r.seqname);
    assert_eq!(back.source, Some(r.source.clone()));
    assert_eq!(back.feature, r.feature);
    assert_eq!(back.start, 8);
    assert_eq!(back.end, 13);
    assert_eq!(back.score, None);
    assert_eq!(back.strand, Some("+".to_string()));
    assert_eq!(back.frame, None);
    assert_eq!(back.attributes, r.attributes);
}

#[test]
fn gff_duplicate_attribute_round_trip_keeps_first() {
    let r = GffRecord::new(
        "sq0".to_string(),
        ".".to_string(),
        "gene".to_string(),
        1,
        2,
        Some(GffScore { json: "7.9".to_string(), whole: 7 }),
        "-".to_string(),
        Some("0".to_string()),
        vec![
            ("k".to_string(), "first".to_string()),
            ("other".to_string(), "x".to_string()),
            ("k".to_string(), "second".to_string()),
        ],
    );
    let cols = GffRecord::columns(&vec![r]);
    let back = gff_from_row(&row_at(&GffRecord::schema(), &cols, 0)).unwrap();
    assert_eq!(back.attributes.len(), 2);
    assert_eq!(back.attributes.get(&"k".to_string()), Some(&"first".to_string()));
    assert_eq!(back.score, Some(7));
    assert_eq!(back.frame, Some("0".to_string()));
}

#[test]
fn row_missing_required_column() {
    let row = Row {
        cells: vec![("id".to_string(), Cell::Scalar(Scalar::Str("A".to_string())))],
    };
    assert_eq!(fasta_from_row(&row), Err(RowError::Missing));
}

#[test]
fn row_mistyped_column() {
    let row = Row {
        cells: vec![
            ("extra".to_string(), Cell::Scalar(Scalar::Other)),
            ("id".to_string(), Cell::Scalar(Scalar::Long(3))),
            ("sequence".to_string(), Cell::Scalar(Scalar::Str("AC".to_string()))),
        ],
    };
    assert_eq!(fasta_from_row(&row), Err(RowError::Mistyped(1)));
}

#[test]
fn row_description_not_text_is_absent() {
    let row = Row {
        cells: vec![
            ("sequence".to_string(), Cell::Scalar(Scalar::Str("AC".to_string()))),
            ("description".to_string(), Cell::Scalar(Scalar::Null)),
            ("id".to_string(), Cell::Scalar(Scalar::Str("A".to_string()))),
        ],
    };
    assert_eq!(
        fasta_from_row(&row),
        Ok(FastaRecord::new("A".to_string(), None, "AC".to_string()))
    );
}

#[test]
fn fastq_row_without_quality_is_rejected() {
    let row = Row {
        cells: vec![
            ("id".to_string(), Cell::Scalar(Scalar::Str("A".to_string()))),
            ("sequence".to_string(), Cell::Scalar(Scalar::Str("AC".to_string()))),
        ],
    };
    assert_eq!(fastq_from_row(&row), Err(RowError::Missing));
}

#[test]
fn gff_row_position_below_one() {
    let r = sample_gff();
    let mut row = row_at(&GffRecord::schema(), &GffRecord::columns(&vec![r]), 0);
    row.cells[3].1 = Cell::Scalar(Scalar::Long(0));
    assert_eq!(gff_from_row(&row).err(), Some(RowError::OutOfRange(3)));
}

#[test]
fn gff_row_bad_map_entry() {
    let r = sample_gff();
    let mut row = row_at(&GffRecord::schema(), &GffRecord::columns(&vec![r]), 0);
    row.cells[8].1 = Cell::Entries(vec![(Scalar::Str("k".to_string()), Scalar::Null)]);
    assert_eq!(gff_from_row(&row).err(), Some(RowError::Mistyped(8)));
}

#[test]
fn gff_row_optional_columns_absent() {
    let row = Row {
        cells: vec![
            ("seqname".to_string(), Cell::Scalar(Scalar::Str("s".to_string()))),
            ("feature_type".to_string(), Cell::Scalar(Scalar::Str("f".to_string()))),
            ("start".to_string(), Cell::Scalar(Scalar::Long(5))),
            ("end".to_string(), Cell::Scalar(Scalar::Long(9))),
            ("score".to_string(), Cell::Scalar(Scalar::Null)),
        ],
    };
    let back = gff_from_row(&row).unwrap();
    assert_eq!(back.source, None);
    assert_eq!(back.strand, None);
    assert_eq!(back.score, None);
    assert_eq!(back.attributes.len(), 0);
}
