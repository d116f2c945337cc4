use brrrr::attributes::AttributeMap;
use brrrr::csv_writer::CsvRecordWriter;
use brrrr::json_writer::JsonRecordWriter;
use brrrr::pipeline::{next_action, Action, Event};
use brrrr::types::{
    Cigar, Data, FastaRecord, FastqRecord, KmerPreTokenizer, Operation, Phase, Strand,
};
use brrrr::writer::RecordWriter;

fn line<W: RecordWriter<FastaRecord>>(w: &W, r: &FastaRecord) -> String {
    w.write_record_line(r)
}

#[test]
fn attributes_first_occurrence_wins() {
    let m = AttributeMap::from_entries(vec![
        ("a".to_string(), "1".to_string()),
        ("b".to_string(), "2".to_string()),
        ("a".to_string(), "3".to_string()),
        ("c".to_string(), "4".to_string()),
        ("b".to_string(), "5".to_string()),
    ]);
    assert_eq!(
        m.to_vec(),
        vec![
            ("a".to_string(), "1".to_string()),
            ("b".to_string(), "2".to_string()),
            ("c".to_string(), "4".to_string()),
        ]
    );
    assert_eq!(m.get(&"zz".to_string()), None);
    assert_eq!(m.key(2), "c");
    assert_eq!(m.value(0), "1");
}

#[test]
fn fastq_record_has_no_description() {
    let r = FastqRecord::new("r".to_string(), "AC".to_string(), "II".to_string());
    assert_eq!(r.description, None);
    assert_eq!(r.quality, "II");
}

#[test]
fn alignment_parts() {
    let op = Operation::new("M".to_string(), 10);
    assert_eq!(op.len, 10);
    let cigar = Cigar::new(vec![op.clone()]);
    assert_eq!(cigar.operations, vec![op]);
    let data = Data::new(vec![("NM".to_string(), "1".to_string())]);
    assert_eq!(data.fields.len(), 1);
}

#[test]
fn kmer_default_is_one() {
    assert_eq!(KmerPreTokenizer::default().k, 1);
}

#[test]
fn loop_decisions() {
    assert_eq!(next_action(Event::Written), Action::ReadNext);
    assert_eq!(next_action(Event::BrokenPipe), Action::Finish);
    assert_eq!(next_action(Event::EndOfInput), Action::Finish);
    assert_eq!(next_action(Event::ParseError), Action::Abort);
    assert_eq!(next_action(Event::WriteError), Action::Abort);
}

#[test]
fn strand_codes() {
    for (code, strand) in [
        (".", Strand::Unstranded),
        ("+", Strand::Forward),
        ("-", Strand::Reverse),
        ("?", Strand::Unknown),
    ] {
        assert_eq!(Strand::parse(&code.to_string()), Some(strand));
        assert_eq!(strand.code(), code);
    }
    assert_eq!(Strand::parse(&"++".to_string()), None);
}

#[test]
fn phase_codes() {
    for (code, phase) in [("0", Phase::Zero), ("1", Phase::One), ("2", Phase::Two)] {
        assert_eq!(Phase::parse(&code.to_string()), Some(phase));
        assert_eq!(phase.code(), code);
    }
    assert_eq!(Phase::parse(&".".to_string()), None);
}

#[test]
fn one_interface_for_both_formats() {
    let r = FastaRecord::new("A".to_string(), None, "ATCG".to_string());
    assert_eq!(line(&JsonRecordWriter::new(()), &r), "{\"id\":\"A\",\"description\":null,\"sequence\":\"ATCG\"}\n");
    assert_eq!(line(&CsvRecordWriter::new(()), &r), "A,,ATCG\n");
}

#[test]
fn writer_sink_access() {
    let mut w = JsonRecordWriter::new(vec![1u8]);
    w.get_mut().push(2);
    assert_eq!(w.into_inner(), vec![1, 2]);
}
