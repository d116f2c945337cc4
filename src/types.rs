use vstd::prelude::*;

use crate::attributes::{pairs_view, first_wins, AttributeMap};

verus! {

/// The plain-value form of an optional string.
pub open spec fn opt_view(o: Option<String>) -> Option<Seq<char>> {
    match o {
        Some(s) => Some(s@),
        None => None,
    }
}

/// The plain-value form of a sequence record.
pub struct FastaView {
    pub id: Seq<char>,
    pub description: Option<Seq<char>>,
    pub sequence: Seq<char>,
}

/// The plain-value form of a sequence-with-quality record.
pub struct FastqView {
    pub id: Seq<char>,
    pub description: Option<Seq<char>>,
    pub sequence: Seq<char>,
    pub quality: Seq<char>,
}

/// A sequence record, as read from FASTA.
#[derive(Clone, Debug, PartialEq, Eq)]
pub struct FastaRecord {
    pub id: String,
    pub description: Option<String>,
    pub sequence: String,
}

impl View for FastaRecord {
    type V = FastaView;

    open spec fn view(&self) -> FastaView {
        FastaView { id: self.id@, description: opt_view(self.description), sequence: self.sequence@ }
    }
}

impl FastaRecord {
    /// A record from its name, optional description and residues.
    pub fn new(id: String, description: Option<String>, sequence: String) -> (r: FastaRecord)
        ensures
            r.id == id,
            r.description == description,
            r.sequence == sequence,
    {
        FastaRecord { id, description, sequence }
    }
}

/// A sequence record with per-base qualities, as read from FASTQ.
#[derive(Clone, Debug, PartialEq, Eq)]
pub struct FastqRecord {
    pub id: String,
    pub description: Option<String>,
    pub sequence: String,
    pub quality: String,
}

impl View for FastqRecord {
    type V = FastqView;

    open spec fn view(&self) -> FastqView {
        FastqView {
            id: self.id@,
            description: opt_view(self.description),
            sequence: self.sequence@,
            quality: self.quality@,
        }
    }
}

impl FastqRecord {
    /// A record from its name, residues and quality characters. FASTQ names
    /// carry no separate description, so it is absent.
    pub fn new(id: String, sequence: String, quality: String) -> (r: FastqRecord)
        ensures
            r.id == id,
            r.description is None,
            r.sequence == sequence,
            r.quality == quality,
    {
        FastqRecord { id, description: None, sequence, quality }
    }
}

/// The score of an annotation record in the two forms the writers need:
/// `json` is its JSON number text and `whole` its value truncated toward
/// zero, which is what the columnar layout stores.
#[derive(Clone, Debug, PartialEq, Eq)]
pub struct GffScore {
    pub json: String,
    pub whole: i64,
}

/// A feature record, as read from GFF.
#[derive(Clone, Debug, PartialEq, Eq)]
pub struct GffRecord {
    pub seqname: String,
    pub source: String,
    pub feature: String,
    pub start: usize,
    pub end: usize,
    pub score: Option<GffScore>,
    pub strand: String,
    pub frame: Option<String>,
    pub attributes: AttributeMap,
}

impl GffRecord {
    /// The record is well formed: its attribute keys are distinct.
    pub open spec fn wf(&self) -> bool {
        self.attributes.wf()
    }

    /// A record from its fields; `attribute_entries` are the attribute pairs
    /// in the order the record lists them, and of a repeated key only the
    /// first pair is kept.
    pub fn new(
        seqname: String,
        source: String,
        feature: String,
        start: usize,
        end: usize,
        score: Option<GffScore>,
        strand: String,
        frame: Option<String>,
        attribute_entries: Vec<(String, String)>,
    ) -> (r: GffRecord)
        ensures
            r.wf(),
            r.seqname == seqname,
            r.source == source,
            r.feature == feature,
            r.start == start,
            r.end == end,
            r.score == score,
            r.strand == strand,
            r.frame == frame,
            r.attributes@ == first_wins(pairs_view(attribute_entries@)),
    {
        let attributes = AttributeMap::from_entries(attribute_entries);
        GffRecord { seqname, source, feature, start, end, score, strand, frame, attributes }
    }
}

/// The strand of an annotation record.
#[derive(Clone, Copy, Debug, PartialEq, Eq, Structural)]
pub enum Strand {
    /// `.`: not stranded.
    Unstranded,
    /// `+`
    Forward,
    /// `-`
    Reverse,
    /// `?`: stranded, strand unknown.
    Unknown,
}

/// The text code of a strand.
pub open spec fn strand_code(k: Strand) -> Seq<char> {
    match k {
        Strand::Unstranded => "."@,
        Strand::Forward => "+"@,
        Strand::Reverse => "-"@,
        Strand::Unknown => "?"@,
    }
}

/// The strand a text code names, if any.
pub open spec fn strand_of(s: Seq<char>) -> Option<Strand> {
    if s == "."@ {
        Some(Strand::Unstranded)
    } else if s == "+"@ {
        Some(Strand::Forward)
    } else if s == "-"@ {
        Some(Strand::Reverse)
    } else if s == "?"@ {
        Some(Strand::Unknown)
    } else {
        None
    }
}

impl Strand {
    /// The strand's text code.
    pub fn code(self) -> (r: String)
        ensures
            r@ == strand_code(self),
    {
        match self {
            Strand::Unstranded => String::from_str("."),
            Strand::Forward => String::from_str("+"),
            Strand::Reverse => String::from_str("-"),
            Strand::Unknown => String::from_str("?"),
        }
    }

    /// Reads a strand code; `None` when the text is none of `. + - ?`.
    pub fn parse(s: &String) -> (r: Option<Strand>)
        ensures
            r == strand_of(s@),
    {
        if *s == String::from_str(".") {
            Some(Strand::Unstranded)
        } else if *s == String::from_str("+") {
            Some(Strand::Forward)
        } else if *s == String::from_str("-") {
            Some(Strand::Reverse)
        } else if *s == String::from_str("?") {
            Some(Strand::Unknown)
        } else {
            None
        }
    }
}

/// A strand code reads back as the strand it was written from.
pub proof fn lemma_strand_code_round_trip(k: Strand)
    ensures
        strand_of(strand_code(k)) == Some(k),
{
    reveal_strlit(".");
    reveal_strlit("+");
    reveal_strlit("-");
    reveal_strlit("?");
    assert("+"@[0] != "."@[0] && "-"@[0] != "."@[0] && "?"@[0] != "."@[0]);
    assert("-"@[0] != "+"@[0] && "?"@[0] != "+"@[0] && "?"@[0] != "-"@[0]);
}

/// The phase of a coding feature: where the next codon begins.
#[derive(Clone, Copy, Debug, PartialEq, Eq, Structural)]
pub enum Phase {
    Zero,
    One,
    Two,
}

/// The text code of a phase.
pub open spec fn phase_code(p: Phase) -> Seq<char> {
    match p {
        Phase::Zero => "0"@,
        Phase::One => "1"@,
        Phase::Two => "2"@,
    }
}

/// The phase a text code names, if any.
pub open spec fn phase_of(s: Seq<char>) -> Option<Phase> {
    if s == "0"@ {
        Some(Phase::Zero)
    } else if s == "1"@ {
        Some(Phase::One)
    } else if s == "2"@ {
        Some(Phase::Two)
    } else {
        None
    }
}

impl Phase {
    /// The phase's text code.
    pub fn code(self) -> (r: String)
        ensures
            r@ == phase_code(self),
    {
        match self {
            Phase::Zero => String::from_str("0"),
            Phase::One => String::from_str("1"),
            Phase::Two => String::from_str("2"),
        }
    }

    /// Reads a phase code; `None` when the text is none of `0 1 2`.
    pub fn parse(s: &String) -> (r: Option<Phase>)
        ensures
            r == phase_of(s@),
    {
        if *s == String::from_str("0") {
            Some(Phase::Zero)
        } else if *s == String::from_str("1") {
            Some(Phase::One)
        } else if *s == String::from_str("2") {
            Some(Phase::Two)
        } else {
            None
        }
    }
}

/// A phase code reads back as the phase it was written from.
pub proof fn lemma_phase_code_round_trip(p: Phase)
    ensures
        phase_of(phase_code(p)) == Some(p),
{
    reveal_strlit("0");
    reveal_strlit("1");
    reveal_strlit("2");
    assert("1"@[0] != "0"@[0] && "2"@[0] != "0"@[0] && "2"@[0] != "1"@[0]);
}

/// How a sequence input file is compressed.
#[allow(non_camel_case_types)]
#[derive(Clone, Copy, Debug, PartialEq, Eq, Structural)]
pub enum BioFileCompression {
    UNCOMPRESSED,
    GZIP,
}

/// One CIGAR operation: its kind code and length.
#[derive(Clone, Debug, PartialEq, Eq)]
pub struct Operation {
    pub kind: String,
    pub len: usize,
}

impl Operation {
    pub fn new(kind: String, len: usize) -> (r: Self)
        ensures
            r.kind == kind,
            r.len == len,
    {
        Self { kind, len }
    }
}

/// The CIGAR operations of an alignment, in order.
#[derive(Clone, Debug, PartialEq, Eq)]
pub struct Cigar {
    pub operations: Vec<Operation>,
}

impl Cigar {
    pub fn new(operations: Vec<Operation>) -> (r: Self)
        ensures
            r.operations == operations,
    {
        Self { operations }
    }
}

/// The auxiliary fields of an alignment as (tag, value) text pairs, in the
/// order the record holds them.
#[derive(Clone, Debug, PartialEq, Eq)]
pub struct Data {
    pub fields: Vec<(String, String)>,
}

impl Data {
    pub fn new(fields: Vec<(String, String)>) -> (r: Self)
        ensures
            r.fields == fields,
    {
        Self { fields }
    }
}

/// An alignment record, as read from BAM/SAM.
#[derive(Clone, Debug, PartialEq, Eq)]
pub struct SamRecord {
    pub read_name: String,
    pub flags: u16,
    pub reference_sequence_id: Option<usize>,
    pub alignment_start: Option<usize>,
    pub mapping_quality: Option<u8>,
    pub cigar: Cigar,
    pub mate_reference_sequence_id: Option<usize>,
    pub mate_alignment_start: Option<usize>,
    pub template_length: i32,
    pub sequence: String,
    pub quality_scores: Vec<String>,
    pub data: Data,
}

impl SamRecord {
    /// A record from its fields.
    pub fn new(
        read_name: String,
        flags: u16,
        reference_sequence_id: Option<usize>,
        alignment_start: Option<usize>,
        mapping_quality: Option<u8>,
        cigar: Cigar,
        mate_reference_sequence_id: Option<usize>,
        mate_alignment_start: Option<usize>,
        template_length: i32,
        sequence: String,
        quality_scores: Vec<String>,
        data: Data,
    ) -> (r: Self)
        ensures
            r.read_name == read_name,
            r.flags == flags,
            r.reference_sequence_id == reference_sequence_id,
            r.alignment_start == alignment_start,
            r.mapping_quality == mapping_quality,
            r.cigar == cigar,
            r.mate_reference_sequence_id == mate_reference_sequence_id,
            r.mate_alignment_start == mate_alignment_start,
            r.template_length == template_length,
            r.sequence == sequence,
            r.quality_scores == quality_scores,
            r.data == data,
    {
        SamRecord {
            read_name,
            flags,
            reference_sequence_id,
            alignment_start,
            mapping_quality,
            cigar,
            mate_reference_sequence_id,
            mate_alignment_start,
            template_length,
            sequence,
            quality_scores,
            data,
        }
    }
}

/// A k-mer pre-tokenizer setting: the length of the pieces a sequence is
/// cut into.
#[derive(Clone, Copy, Debug, PartialEq, Eq)]
pub struct KmerPreTokenizer {
    pub k: i32,
}

impl Default for KmerPreTokenizer {
    /// Single-residue pieces.
    fn default() -> (r: Self)
        ensures
            r.k == 1,
    {
        Self { k: 1 }
    }
}

} // verus!
