use brrrr::attributes::AttributeMap;
use brrrr::json_writer::{json_lines, JsonRecord, JsonRecordWriter};
use brrrr::types::{Cigar, Data, FastaRecord, FastqRecord, GffRecord, GffScore, Operation, SamRecord};

fn parse_fasta(input: &[u8]) -> Vec<FastaRecord> {
    let mut reader = noodles::fasta::io::Reader::new(input);
    let mut out = Vec::new();
    for result in reader.records() {
        let record = result.expect("valid FASTA");
        let id = String::from_utf8(record.name().to_vec()).unwrap();
        let description = record.description().map(|d| String::from_utf8(d.to_vec()).unwrap());
        let sequence = String::from_utf8(record.sequence().as_ref().to_vec()).unwrap();
        out.push(FastaRecord::new(id, description, sequence));
    }
    out
}

#[test]
fn test_fa2jsonl() {
    let input = b">A\nATCG\n" as &[u8];
    let output_str = json_lines(&parse_fasta(input));
    let expected_output =
        "{\"id\":\"A\",\"description\":null,\"sequence\":\"ATCG\"}\n".to_string();
    assert_eq!(output_str, expected_output);
}

#[test]
fn fa2jsonl_two_records_two_lines() {
    let input = b">A\nATCG\n>B\nGCTA" as &[u8];
    let out = json_lines(&parse_fasta(input));
    let lines: Vec<&str> = out.lines().collect();
    assert_eq!(lines.len(), 2);
    assert_eq!(lines[0], "{\"id\":\"A\",\"description\":null,\"sequence\":\"ATCG\"}");
    assert_eq!(lines[1], "{\"id\":\"B\",\"description\":null,\"sequence\":\"GCTA\"}");
    assert_eq!(out.matches('\n').count(), 2);
}

#[test]
fn json_line_count_matches_record_count() {
    let mut records = Vec::new();
    for i in 0..7 {
        records.push(FastaRecord::new(format!("r{}\nx", i), Some("d\n".to_string()), "AC".to_string()));
    }
    let out = json_lines(&records);
    assert_eq!(out.matches('\n').count(), 7);
    assert_eq!(json_lines::<FastaRecord>(&Vec::new()), "");
}

#[test]
fn json_description_present_and_absent() {
    let with = FastaRecord::new("A".to_string(), Some("first one".to_string()), "AC".to_string());
    assert_eq!(with.to_json(), "{\"id\":\"A\",\"description\":\"first one\",\"sequence\":\"AC\"}");
    let without = FastaRecord::new("A".to_string(), None, "AC".to_string());
    assert!(without.to_json().contains("\"description\":null"));
}

#[test]
fn json_string_escaping() {
    let r = FastaRecord::new("a\"b\\c".to_string(), Some("tab\there\nnl".to_string()), "\u{1}".to_string());
    assert_eq!(
        r.to_json(),
        "{\"id\":\"a\\\"b\\\\c\",\"description\":\"tab\\there\\nnl\",\"sequence\":\"\\u0001\"}"
    );
}

#[test]
fn fastq_json_line() {
    let r = FastqRecord::new("r0".to_string(), "AGCT".to_string(), "NDLS".to_string());
    let w = JsonRecordWriter::new(Vec::<u8>::new());
    assert_eq!(
        w.record_line(&r),
        "{\"id\":\"r0\",\"description\":null,\"sequence\":\"AGCT\",\"quality\":\"NDLS\"}\n"
    );
    assert_eq!(w.into_inner(), Vec::<u8>::new());
}

#[test]
fn gff_json_line_keeps_first_attribute() {
    let r = GffRecord::new(
        "sq0".to_string(),
        "NOODLES".to_string(),
        "gene".to_string(),
        8,
        13,
        Some(GffScore { json: "1.5".to_string(), whole: 1 }),
        "+".to_string(),
        None,
        vec![
            ("gene_id".to_string(), "ndls0".to_string()),
            ("gene_name".to_string(), "gene0".to_string()),
            ("gene_id".to_string(), "ndls1".to_string()),
        ],
    );
    assert_eq!(
        r.to_json(),
        "{\"seqname\":\"sq0\",\"source\":\"NOODLES\",\"feature\":\"gene\",\"start\":8,\"end\":13,\"score\":1.5,\"strand\":\"+\",\"frame\":null,\"attribute\":{\"gene_id\":\"ndls0\",\"gene_name\":\"gene0\"}}"
    );
}

#[test]
fn sam_json_line() {
    let r = SamRecord::new(
        "8".to_string(),
        99,
        Some(0),
        Some(17),
        None,
        Cigar::new(vec![Operation::new("M".to_string(), 4), Operation::new("S".to_string(), 2)]),
        None,
        None,
        -250,
        "ACGTNN".to_string(),
        vec!["30".to_string(), "31".to_string()],
        Data::new(vec![("NM".to_string(), "0".to_string())]),
    );
    assert_eq!(
        r.to_json(),
        "{\"read_name\":\"8\",\"flags\":99,\"reference_sequence_id\":0,\"alignment_start\":17,\"mapping_quality\":null,\"cigar\":{\"operations\":[{\"kind\":\"M\",\"len\":4},{\"kind\":\"S\",\"len\":2}]},\"mate_reference_sequence_id\":null,\"mate_alignment_start\":null,\"template_length\":-250,\"sequence\":\"ACGTNN\",\"quality_scores\":[\"30\",\"31\"],\"data\":{\"fields\":{\"NM\":\"0\"}}}"
    );
}

#[test]
fn sam_json_empty_lists() {
    let r = SamRecord::new(
        "q".to_string(),
        4,
        None,
        None,
        Some(255),
        Cigar::new(Vec::new()),
        None,
        None,
        0,
        String::new(),
        Vec::new(),
        Data::new(Vec::new()),
    );
    let json = r.to_json();
    assert!(json.contains("\"mapping_quality\":255"));
    assert!(json.contains("\"cigar\":{\"operations\":[]}"));
    assert!(json.contains("\"quality_scores\":[]"));
    assert!(json.contains("\"data\":{\"fields\":{}}"));
    let _ = AttributeMap::new();
}
