use brrrr::csv_writer::{csv_text, CsvRecordWriter};
use brrrr::types::{FastaRecord, FastqRecord};

fn parse_fasta(input: &[u8]) -> Vec<FastaRecord> {
    let mut reader = noodles::fasta::io::Reader::new(input);
    let mut out = Vec::new();
    for result in reader.records() {
        let record = result.expect("valid FASTA");
        let id = String::from_utf8(record.name().to_vec()).unwrap();
        let description = record.description().map(|d| String::from_utf8(d.to_vec()).unwrap());
        let sequence = String::from_utf8(record.sequence().as_ref().to_vec()).unwrap();
        out.push(FastaRecord::new(id, description, sequence));
    }
    out
}

#[test]
fn test_fa2csv() {
    let input = b">A\nATCG\n" as &[u8];
    let output_str = csv_text(&parse_fasta(input));
    let expected_output = "id,desc,seq\nA,,ATCG\n".to_string();
    assert_eq!(output_str, expected_output);
}

#[test]
fn csv_line_count_is_records_plus_header() {
    let records: Vec<FastaRecord> = (0..5)
        .map(|i| FastaRecord::new(format!("r{}", i), None, "AC".to_string()))
        .collect();
    let out = csv_text(&records);
    assert_eq!(out.matches('\n').count(), 6);
    assert_eq!(csv_text::<FastaRecord>(&Vec::new()), "id,desc,seq\n");
}

#[test]
fn csv_quotes_special_fields() {
    let r = FastaRecord::new("a,b".to_string(), Some("say \"hi\"".to_string()), "AC".to_string());
    let w = CsvRecordWriter::new(());
    assert_eq!(w.record_line(&r), "\"a,b\",\"say \"\"hi\"\"\",AC\n");
}

#[test]
fn fastq_csv_header_and_row() {
    let r = FastqRecord::new("r0".to_string(), "AGCT".to_string(), "NDLS".to_string());
    let w = CsvRecordWriter::new(Vec::<u8>::new());
    assert_eq!(w.header_line::<FastqRecord>(), "id,desc,seq,quality\n");
    assert_eq!(w.record_line(&r), "r0,,AGCT,NDLS\n");
    assert_eq!(csv_text(&vec![r]), "id,desc,seq,quality\nr0,,AGCT,NDLS\n");
}
