use vstd::prelude::*;

use crate::attributes::pairs_view;
use crate::text::{
    count_lines, json_integer, json_quoted, json_string, decimal_text, lemma_count_lines_concat,
    lemma_count_one_line, lemma_decimal_text_line_free, lemma_json_quoted_line_free,
    lemma_line_free_concat, line_free,
};
use crate::types::{Cigar, Data, FastaRecord, FastqRecord, GffRecord, GffScore, Operation, SamRecord};

verus! {

/// The members of a JSON object, each a key and the JSON text of its value,
/// written `"key":value` and separated by commas.
pub open spec fn json_members(fields: Seq<(Seq<char>, Seq<char>)>) -> Seq<char>
    decreases fields.len(),
{
    if fields.len() == 0 {
        Seq::empty()
    } else if fields.len() == 1 {
        json_quoted(fields[0].0) + seq![':'] + fields[0].1
    } else {
        json_members(fields.drop_last()) + seq![','] + json_quoted(fields.last().0) + seq![':']
            + fields.last().1
    }
}

/// A JSON object with the given members, in their order.
pub open spec fn json_object(fields: Seq<(Seq<char>, Seq<char>)>) -> Seq<char> {
    seq!['{'] + json_members(fields) + seq!['}']
}

/// The items of a JSON array, each given as JSON text, separated by commas.
pub open spec fn json_items(items: Seq<Seq<char>>) -> Seq<char>
    decreases items.len(),
{
    if items.len() == 0 {
        Seq::empty()
    } else if items.len() == 1 {
        items[0]
    } else {
        json_items(items.drop_last()) + seq![','] + items.last()
    }
}

/// A JSON array of the given items, in their order.
pub open spec fn json_array(items: Seq<Seq<char>>) -> Seq<char> {
    seq!['['] + json_items(items) + seq![']']
}

/// The JSON text of an optional string: its literal, or `null`.
pub open spec fn json_opt_string(o: Option<String>) -> Seq<char> {
    match o {
        Some(s) => json_quoted(s@),
        None => "null"@,
    }
}

/// The JSON text of an optional integer: its decimal text, or `null`.
pub open spec fn json_opt_integer(o: Option<int>) -> Seq<char> {
    match o {
        Some(n) => decimal_text(n),
        None => "null"@,
    }
}

pub proof fn lemma_null_line_free()
    ensures
        line_free("null"@),
{
    reveal_strlit("null");
}

proof fn lemma_json_members_line_free(fields: Seq<(Seq<char>, Seq<char>)>)
    requires
        forall|i: int| 0 <= i < fields.len() ==> line_free(#[trigger] fields[i].1),
    ensures
        line_free(json_members(fields)),
    decreases fields.len(),
{
    if fields.len() == 1 {
        lemma_json_quoted_line_free(fields[0].0);
        lemma_line_free_concat(json_quoted(fields[0].0), seq![':']);
        lemma_line_free_concat(json_quoted(fields[0].0) + seq![':'], fields[0].1);
    } else if fields.len() > 1 {
        let d = fields.drop_last();
        assert forall|i: int| 0 <= i < d.len() implies line_free(#[trigger] d[i].1) by {
            assert(d[i] == fields[i]);
        }
        lemma_json_members_line_free(d);
        let l = fields.last();
        assert(line_free(fields[fields.len() - 1].1));
        lemma_json_quoted_line_free(l.0);
        let a = json_members(d) + seq![','];
        lemma_line_free_concat(json_members(d), seq![',']);
        lemma_line_free_concat(a, json_quoted(l.0));
        lemma_line_free_concat(a + json_quoted(l.0), seq![':']);
        lemma_line_free_concat(a + json_quoted(l.0) + seq![':'], l.1);
    }
}

/// An object whose member values hold no line feed holds none.
pub proof fn lemma_json_object_line_free(fields: Seq<(Seq<char>, Seq<char>)>)
    requires
        forall|i: int| 0 <= i < fields.len() ==> line_free(#[trigger] fields[i].1),
    ensures
        line_free(json_object(fields)),
{
    lemma_json_members_line_free(fields);
    lemma_line_free_concat(seq!['{'], json_members(fields));
    lemma_line_free_concat(seq!['{'] + json_members(fields), seq!['}']);
}

proof fn lemma_json_items_line_free(items: Seq<Seq<char>>)
    requires
        forall|i: int| 0 <= i < items.len() ==> line_free(#[trigger] items[i]),
    ensures
        line_free(json_items(items)),
    decreases items.len(),
{
    if items.len() > 1 {
        let d = items.drop_last();
        assert forall|i: int| 0 <= i < d.len() implies line_free(#[trigger] d[i]) by {
            assert(d[i] == items[i]);
        }
        lemma_json_items_line_free(d);
        assert(line_free(items[items.len() - 1]));
        lemma_line_free_concat(json_items(d), seq![',']);
        lemma_line_free_concat(json_items(d) + seq![','], items.last());
    } else if items.len() == 1 {
        assert(line_free(items[0]));
    }
}

/// An array whose items hold no line feed holds none.
pub proof fn lemma_json_array_line_free(items: Seq<Seq<char>>)
    requires
        forall|i: int| 0 <= i < items.len() ==> line_free(#[trigger] items[i]),
    ensures
        line_free(json_array(items)),
{
    lemma_json_items_line_free(items);
    lemma_line_free_concat(seq!['['], json_items(items));
    lemma_line_free_concat(seq!['['] + json_items(items), seq![']']);
}

/// Writes the object whose members are `fields` (key, JSON text of value).
pub(crate) fn object_text(fields: &Vec<(String, String)>) -> (r: String)
    ensures
        r@ == json_object(pairs_view(fields@)),
{
    let ghost fv = pairs_view(fields@);
    let mut out = String::from_str("{");
    proof {
        reveal_strlit("{");
        assert(out@ =~= seq!['{'] + json_members(fv.subrange(0, 0)));
    }
    let mut i: usize = 0;
    while i < fields.len()
        invariant
            i <= fields.len(),
            fv == pairs_view(fields@),
            out@ == seq!['{'] + json_members(fv.subrange(0, i as int)),
        decreases fields.len() - i,
    {
        let key = json_string(fields[i].0.as_str());
        if i > 0 {
            out.append(",");
        }
        out.append(key.as_str());
        out.append(":");
        out.append(fields[i].1.as_str());
        proof {
            reveal_strlit(",");
            reveal_strlit(":");
            let s = fv.subrange(0, i as int + 1);
            assert(s.drop_last() =~= fv.subrange(0, i as int));
            assert(s.last() == (fields@[i as int].0@, fields@[i as int].1@));
            assert(out@ =~= seq!['{'] + json_members(s));
        }
        i = i + 1;
    }
    out.append("}");
    proof {
        reveal_strlit("{");
        reveal_strlit("}");
        assert(fv.subrange(0, fields.len() as int) =~= fv);
    }
    out
}

/// Writes the array whose items are the JSON texts `items`.
pub(crate) fn array_text(items: &Vec<String>) -> (r: String)
    ensures
        r@ == json_array(items@.map_values(|s: String| s@)),
{
    let ghost iv = items@.map_values(|s: String| s@);
    let mut out = String::from_str("[");
    proof {
        reveal_strlit("[");
        assert(out@ =~= seq!['['] + json_items(iv.subrange(0, 0)));
    }
    let mut i: usize = 0;
    while i < items.len()
        invariant
            i <= items.len(),
            iv == items@.map_values(|s: String| s@),
            out@ == seq!['['] + json_items(iv.subrange(0, i as int)),
        decreases items.len() - i,
    {
        if i > 0 {
            out.append(",");
        }
        out.append(items[i].as_str());
        proof {
            reveal_strlit(",");
            let s = iv.subrange(0, i as int + 1);
            assert(s.drop_last() =~= iv.subrange(0, i as int));
            assert(s.last() == items@[i as int]@);
            assert(out@ =~= seq!['['] + json_items(s));
        }
        i = i + 1;
    }
    out.append("]");
    proof {
        reveal_strlit("[");
        reveal_strlit("]");
        assert(iv.subrange(0, items.len() as int) =~= iv);
    }
    out
}

/// The JSON text of an optional string.
pub(crate) fn opt_string_text(o: &Option<String>) -> (r: String)
    ensures
        r@ == json_opt_string(*o),
        line_free(r@),
{
    match o {
        Some(s) => {
            proof {
                lemma_json_quoted_line_free(s@);
            }
            json_string(s.as_str())
        },
        None => {
            proof {
                lemma_null_line_free();
            }
            String::from_str("null")
        },
    }
}

/// The JSON text of an integer.
pub(crate) fn integer_text(n: i128) -> (r: String)
    ensures
        r@ == decimal_text(n as int),
        line_free(r@),
{
    proof {
        lemma_decimal_text_line_free(n as int);
    }
    json_integer(n)
}

/// The JSON text of an optional integer.
pub(crate) fn opt_integer_text(o: Option<i128>) -> (r: String)
    ensures
        r@ == json_opt_integer(
            match o {
                Some(n) => Some(n as int),
                None => None,
            },
        ),
        line_free(r@),
{
    match o {
        Some(n) => integer_text(n),
        None => {
            proof {
                lemma_null_line_free();
            }
            String::from_str("null")
        },
    }
}

/// The JSON text of a string.
pub(crate) fn string_text(s: &String) -> (r: String)
    ensures
        r@ == json_quoted(s@),
        line_free(r@),
{
    proof {
        lemma_json_quoted_line_free(s@);
    }
    json_string(s.as_str())
}

/// A record that can be written as one JSON object.
pub trait JsonRecord {
    /// The JSON object text of the record.
    spec fn json_spec(&self) -> Seq<char>;

    /// The record's JSON text is known to hold no line feed.
    spec fn json_wf(&self) -> bool;

    fn to_json(&self) -> (r: String)
        ensures
            r@ == self.json_spec(),
            self.json_wf() ==> line_free(r@),
    ;
}

/// The JSON object of a sequence record: `id`, `description` (null when
/// absent) and `sequence`, in that order.
pub open spec fn fasta_json(r: FastaRecord) -> Seq<char> {
    json_object(
        seq![
            ("id"@, json_quoted(r.id@)),
            ("description"@, json_opt_string(r.description)),
            ("sequence"@, json_quoted(r.sequence@)),
        ],
    )
}

/// The JSON object of a sequence-with-quality record: `id`, `description`,
/// `sequence` and `quality`, in that order.
pub open spec fn fastq_json(r: FastqRecord) -> Seq<char> {
    json_object(
        seq![
            ("id"@, json_quoted(r.id@)),
            ("description"@, json_opt_string(r.description)),
            ("sequence"@, json_quoted(r.sequence@)),
            ("quality"@, json_quoted(r.quality@)),
        ],
    )
}

impl JsonRecord for FastaRecord {
    open spec fn json_spec(&self) -> Seq<char> {
        fasta_json(*self)
    }

    open spec fn json_wf(&self) -> bool {
        true
    }

    fn to_json(&self) -> (r: String) {
        let mut f: Vec<(String, String)> = Vec::new();
        f.push((String::from_str("id"), string_text(&self.id)));
        f.push((String::from_str("description"), opt_string_text(&self.description)));
        f.push((String::from_str("sequence"), string_text(&self.sequence)));
        let r = object_text(&f);
        proof {
            let fv = pairs_view(f@);
            assert(fv =~= seq![
                ("id"@, json_quoted(self.id@)),
                ("description"@, json_opt_string(self.description)),
                ("sequence"@, json_quoted(self.sequence@)),
            ]);
            assert forall|i: int| 0 <= i < fv.len() implies line_free(#[trigger] fv[i].1) by {}
            lemma_json_object_line_free(fv);
        }
        r
    }
}

impl JsonRecord for FastqRecord {
    open spec fn json_spec(&self) -> Seq<char> {
        fastq_json(*self)
    }

    open spec fn json_wf(&self) -> bool {
        true
    }

    fn to_json(&self) -> (r: String) {
        let mut f: Vec<(String, String)> = Vec::new();
        f.push((String::from_str("id"), string_text(&self.id)));
        f.push((String::from_str("description"), opt_string_text(&self.description)));
        f.push((String::from_str("sequence"), string_text(&self.sequence)));
        f.push((String::from_str("quality"), string_text(&self.quality)));
        let r = object_text(&f);
        proof {
            let fv = pairs_view(f@);
            assert(fv =~= seq![
                ("id"@, json_quoted(self.id@)),
                ("description"@, json_opt_string(self.description)),
                ("sequence"@, json_quoted(self.sequence@)),
                ("quality"@, json_quoted(self.quality@)),
            ]);
            assert forall|i: int| 0 <= i < fv.len() implies line_free(#[trigger] fv[i].1) by {}
            lemma_json_object_line_free(fv);
        }
        r
    }
}

/// A JSON object mapping each key of `pairs` to its value as a string.
pub open spec fn string_map_json(pairs: Seq<(Seq<char>, Seq<char>)>) -> Seq<char> {
    json_object(pairs.map_values(|p: (Seq<char>, Seq<char>)| (p.0, json_quoted(p.1))))
}

/// A JSON array of strings.
pub open spec fn string_array_json(items: Seq<String>) -> Seq<char> {
    json_array(items.map_values(|s: String| json_quoted(s@)))
}

fn string_map_text(pairs: &Vec<(String, String)>) -> (r: String)
    ensures
        r@ == string_map_json(pairs_view(pairs@)),
        line_free(r@),
{
    let mut out: Vec<(String, String)> = Vec::new();
    let mut i: usize = 0;
    while i < pairs.len()
        invariant
            i <= pairs.len(),
            out.len() == i,
            forall|j: int|
                0 <= j < i ==> (#[trigger] out@[j]).0@ == pairs@[j].0@ && out@[j].1@
                    == json_quoted(pairs@[j].1@) && line_free(out@[j].1@),
        decreases pairs.len() - i,
    {
        let k = pairs[i].0.clone();
        let v = string_text(&pairs[i].1);
        out.push((k, v));
        i = i + 1;
    }
    let r = object_text(&out);
    proof {
        let ov = pairs_view(out@);
        assert(ov =~= pairs_view(pairs@).map_values(
            |p: (Seq<char>, Seq<char>)| (p.0, json_quoted(p.1)),
        ));
        assert forall|j: int| 0 <= j < ov.len() implies line_free(#[trigger] ov[j].1) by {
            assert(ov[j].1 == out@[j].1@);
        }
        lemma_json_object_line_free(ov);
    }
    r
}

fn string_array_text(items: &Vec<String>) -> (r: String)
    ensures
        r@ == string_array_json(items@),
        line_free(r@),
{
    let mut out: Vec<String> = Vec::new();
    let mut i: usize = 0;
    while i < items.len()
        invariant
            i <= items.len(),
            out.len() == i,
            forall|j: int|
                0 <= j < i ==> (#[trigger] out@[j])@ == json_quoted(items@[j]@) && line_free(
                    out@[j]@,
                ),
        decreases items.len() - i,
    {
        out.push(string_text(&items[i]));
        i = i + 1;
    }
    let r = array_text(&out);
    proof {
        let ov = out@.map_values(|s: String| s@);
        assert(ov =~= items@.map_values(|s: String| json_quoted(s@)));
        assert forall|j: int| 0 <= j < ov.len() implies line_free(#[trigger] ov[j]) by {
            assert(ov[j] == out@[j]@);
        }
        lemma_json_array_line_free(ov);
    }
    r
}

/// The JSON text of an optional score: its number text, or `null`.
pub open spec fn json_score(o: Option<GffScore>) -> Seq<char> {
    match o {
        Some(s) => s.json@,
        None => "null"@,
    }
}

/// The JSON object of an annotation record, its attributes under
/// `attribute` as an object of strings in their order.
pub open spec fn gff_json(r: GffRecord) -> Seq<char> {
    json_object(
        seq![
            ("seqname"@, json_quoted(r.seqname@)),
            ("source"@, json_quoted(r.source@)),
            ("feature"@, json_quoted(r.feature@)),
            ("start"@, decimal_text(r.start as int)),
            ("end"@, decimal_text(r.end as int)),
            ("score"@, json_score(r.score)),
            ("strand"@, json_quoted(r.strand@)),
            ("frame"@, json_opt_string(r.frame)),
            ("attribute"@, string_map_json(r.attributes@)),
        ],
    )
}

impl JsonRecord for GffRecord {
    open spec fn json_spec(&self) -> Seq<char> {
        gff_json(*self)
    }

    /// The score's number text is a single line.
    open spec fn json_wf(&self) -> bool {
        self.score matches Some(s) ==> line_free(s.json@)
    }

    fn to_json(&self) -> (r: String) {
        let score = match &self.score {
            Some(sc) => sc.json.clone(),
            None => {
                proof {
                    lemma_null_line_free();
                }
                String::from_str("null")
            },
        };
        let attrs = self.attributes.to_vec();
        let mut f: Vec<(String, String)> = Vec::new();
        f.push((String::from_str("seqname"), string_text(&self.seqname)));
        f.push((String::from_str("source"), string_text(&self.source)));
        f.push((String::from_str("feature"), string_text(&self.feature)));
        f.push((String::from_str("start"), integer_text(self.start as i128)));
        f.push((String::from_str("end"), integer_text(self.end as i128)));
        f.push((String::from_str("score"), score));
        f.push((String::from_str("strand"), string_text(&self.strand)));
        f.push((String::from_str("frame"), opt_string_text(&self.frame)));
        f.push((String::from_str("attribute"), string_map_text(&attrs)));
        let r = object_text(&f);
        proof {
            let fv = pairs_view(f@);
            assert(fv =~= seq![
                ("seqname"@, json_quoted(self.seqname@)),
                ("source"@, json_quoted(self.source@)),
                ("feature"@, json_quoted(self.feature@)),
                ("start"@, decimal_text(self.start as int)),
                ("end"@, decimal_text(self.end as int)),
                ("score"@, json_score(self.score)),
                ("strand"@, json_quoted(self.strand@)),
                ("frame"@, json_opt_string(self.frame)),
                ("attribute"@, string_map_json(self.attributes@)),
            ]);
            if self.json_wf() {
                assert forall|i: int| 0 <= i < fv.len() implies line_free(#[trigger] fv[i].1) by {}
                lemma_json_object_line_free(fv);
            }
        }
        r
    }
}

/// The JSON object of a CIGAR operation.
pub open spec fn operation_json(o: Operation) -> Seq<char> {
    json_object(seq![("kind"@, json_quoted(o.kind@)), ("len"@, decimal_text(o.len as int))])
}

/// The JSON object of a CIGAR: its operations as an array, in order.
pub open spec fn cigar_json(c: Cigar) -> Seq<char> {
    json_object(
        seq![("operations"@, json_array(c.operations@.map_values(|o: Operation| operation_json(o))))],
    )
}

/// The JSON object of auxiliary data: its fields as an object of strings.
pub open spec fn data_json(d: Data) -> Seq<char> {
    json_object(seq![("fields"@, string_map_json(pairs_view(d.fields@)))])
}

pub open spec fn opt_usize(o: Option<usize>) -> Option<int> {
    match o {
        Some(n) => Some(n as int),
        None => None,
    }
}

/// The JSON object of an alignment record, fields in declaration order.
pub open spec fn sam_json(r: SamRecord) -> Seq<char> {
    json_object(
        seq![
            ("read_name"@, json_quoted(r.read_name@)),
            ("flags"@, decimal_text(r.flags as int)),
            ("reference_sequence_id"@, json_opt_integer(opt_usize(r.reference_sequence_id))),
            ("alignment_start"@, json_opt_integer(opt_usize(r.alignment_start))),
            ("mapping_quality"@, json_opt_integer(
                match r.mapping_quality {
                    Some(q) => Some(q as int),
                    None => None,
                },
            )),
            ("cigar"@, cigar_json(r.cigar)),
            ("mate_reference_sequence_id"@, json_opt_integer(
                opt_usize(r.mate_reference_sequence_id),
            )),
            ("mate_alignment_start"@, json_opt_integer(opt_usize(r.mate_alignment_start))),
            ("template_length"@, decimal_text(r.template_length as int)),
            ("sequence"@, json_quoted(r.sequence@)),
            ("quality_scores"@, string_array_json(r.quality_scores@)),
            ("data"@, data_json(r.data)),
        ],
    )
}

fn operation_text(o: &Operation) -> (r: String)
    ensures
        r@ == operation_json(*o),
        line_free(r@),
{
    let mut f: Vec<(String, String)> = Vec::new();
    f.push((String::from_str("kind"), string_text(&o.kind)));
    f.push((String::from_str("len"), integer_text(o.len as i128)));
    let r = object_text(&f);
    proof {
        let fv = pairs_view(f@);
        assert(fv =~= seq![("kind"@, json_quoted(o.kind@)), ("len"@, decimal_text(o.len as int))]);
        assert forall|i: int| 0 <= i < fv.len() implies line_free(#[trigger] fv[i].1) by {}
        lemma_json_object_line_free(fv);
    }
    r
}

fn cigar_text(c: &Cigar) -> (r: String)
    ensures
        r@ == cigar_json(*c),
        line_free(r@),
{
    let mut ops: Vec<String> = Vec::new();
    let mut i: usize = 0;
    while i < c.operations.len()
        invariant
            i <= c.operations.len(),
            ops.len() == i,
            forall|j: int|
                0 <= j < i ==> (#[trigger] ops@[j])@ == operation_json(c.operations@[j])
                    && line_free(ops@[j]@),
        decreases c.operations.len() - i,
    {
        ops.push(operation_text(&c.operations[i]));
        i = i + 1;
    }
    let arr = array_text(&ops);
    let mut f: Vec<(String, String)> = Vec::new();
    f.push((String::from_str("operations"), arr));
    let r = object_text(&f);
    proof {
        let ov = ops@.map_values(|s: String| s@);
        assert(ov =~= c.operations@.map_values(|o: Operation| operation_json(o)));
        assert forall|j: int| 0 <= j < ov.len() implies line_free(#[trigger] ov[j]) by {
            assert(ov[j] == ops@[j]@);
        }
        lemma_json_array_line_free(ov);
        let fv = pairs_view(f@);
        assert(fv =~= seq![("operations"@, json_array(ov))]);
        assert forall|i: int| 0 <= i < fv.len() implies line_free(#[trigger] fv[i].1) by {}
        lemma_json_object_line_free(fv);
    }
    r
}

fn data_text(d: &Data) -> (r: String)
    ensures
        r@ == data_json(*d),
        line_free(r@),
{
    let mut f: Vec<(String, String)> = Vec::new();
    f.push((String::from_str("fields"), string_map_text(&d.fields)));
    let r = object_text(&f);
    proof {
        let fv = pairs_view(f@);
        assert(fv =~= seq![("fields"@, string_map_json(pairs_view(d.fields@)))]);
        assert forall|i: int| 0 <= i < fv.len() implies line_free(#[trigger] fv[i].1) by {}
        lemma_json_object_line_free(fv);
    }
    r
}

fn opt_usize_text(o: Option<usize>) -> (r: String)
    ensures
        r@ == json_opt_integer(opt_usize(o)),
        line_free(r@),
{
    match o {
        Some(n) => opt_integer_text(Some(n as i128)),
        None => opt_integer_text(None),
    }
}

impl JsonRecord for SamRecord {
    open spec fn json_spec(&self) -> Seq<char> {
        sam_json(*self)
    }

    open spec fn json_wf(&self) -> bool {
        true
    }

    fn to_json(&self) -> (r: String) {
        let mq = match self.mapping_quality {
            Some(q) => opt_integer_text(Some(q as i128)),
            None => opt_integer_text(None),
        };
        let mut f: Vec<(String, String)> = Vec::new();
        f.push((String::from_str("read_name"), string_text(&self.read_name)));
        f.push((String::from_str("flags"), integer_text(self.flags as i128)));
        f.push(
            (String::from_str("reference_sequence_id"), opt_usize_text(self.reference_sequence_id)),
        );
        f.push((String::from_str("alignment_start"), opt_usize_text(self.alignment_start)));
        f.push((String::from_str("mapping_quality"), mq));
        f.push((String::from_str("cigar"), cigar_text(&self.cigar)));
        f.push(
            (
                String::from_str("mate_reference_sequence_id"),
                opt_usize_text(self.mate_reference_sequence_id),
            ),
        );
        f.push(
            (String::from_str("mate_alignment_start"), opt_usize_text(self.mate_alignment_start)),
        );
        f.push((String::from_str("template_length"), integer_text(self.template_length as i128)));
        f.push((String::from_str("sequence"), string_text(&self.sequence)));
        f.push((String::from_str("quality_scores"), string_array_text(&self.quality_scores)));
        f.push((String::from_str("data"), data_text(&self.data)));
        let r = object_text(&f);
        proof {
            let fv = pairs_view(f@);
            assert(fv =~= seq![
                ("read_name"@, json_quoted(self.read_name@)),
                ("flags"@, decimal_text(self.flags as int)),
                ("reference_sequence_id"@, json_opt_integer(opt_usize(self.reference_sequence_id))),
                ("alignment_start"@, json_opt_integer(opt_usize(self.alignment_start))),
                ("mapping_quality"@, json_opt_integer(
                    match self.mapping_quality {
                        Some(q) => Some(q as int),
                        None => None,
                    },
                )),
                ("cigar"@, cigar_json(self.cigar)),
                ("mate_reference_sequence_id"@, json_opt_integer(
                    opt_usize(self.mate_reference_sequence_id),
                )),
                ("mate_alignment_start"@, json_opt_integer(opt_usize(self.mate_alignment_start))),
                ("template_length"@, decimal_text(self.template_length as int)),
                ("sequence"@, json_quoted(self.sequence@)),
                ("quality_scores"@, string_array_json(self.quality_scores@)),
                ("data"@, data_json(self.data)),
            ]);
            assert forall|i: int| 0 <= i < fv.len() implies line_free(#[trigger] fv[i].1) by {}
            lemma_json_object_line_free(fv);
        }
        r
    }
}

/// The JSON-lines text of `records`: each record's object followed by a line
/// feed, in order.
pub open spec fn json_lines_spec<R: JsonRecord>(records: Seq<R>) -> Seq<char>
    decreases records.len(),
{
    if records.len() == 0 {
        Seq::empty()
    } else {
        json_lines_spec(records.drop_last()) + records.last().json_spec().push('\n')
    }
}

/// Writes records as newline-delimited JSON objects onto a sink it holds.
/// The sink itself is driven by the caller, which hands it each line.
pub struct JsonRecordWriter<W> {
    writer: W,
}

impl<W> JsonRecordWriter<W> {
    /// The sink the lines are meant for.
    pub closed spec fn inner(&self) -> W {
        self.writer
    }

    /// Creates a new JsonRecordWriter with a writer.
    pub fn new(w: W) -> (r: Self)
        ensures
            r.inner() == w,
    {
        Self { writer: w }
    }

    /// The sink, to write a line to.
    pub fn get_mut(&mut self) -> (r: &mut W)
        ensures
            *r == old(self).inner(),
            final(self).inner() == *final(r),
    {
        &mut self.writer
    }

    /// Gives the sink back.
    pub fn into_inner(self) -> (r: W)
        ensures
            r == self.inner(),
    {
        self.writer
    }

    /// The line for one record: its JSON object and a line feed, which is
    /// then the only line feed in it.
    pub fn record_line<R: JsonRecord>(&self, record: &R) -> (r: String)
        ensures
            r@ == record.json_spec().push('\n'),
            record.json_wf() ==> count_lines(r@) == 1,
    {
        let mut line = record.to_json();
        line.append("\n");
        proof {
            reveal_strlit("\n");
            assert(line@ =~= record.json_spec().push('\n'));
            if record.json_wf() {
                lemma_count_one_line(record.json_spec());
            }
        }
        line
    }
}

/// The newline-delimited JSON text of a list of records: one line per record,
/// in order. When every record's JSON is line free, the text has exactly as
/// many line feeds as there are records.
pub fn json_lines<R: JsonRecord>(records: &Vec<R>) -> (r: String)
    ensures
        r@ == json_lines_spec(records@),
        (forall|i: int| 0 <= i < records.len() ==> (#[trigger] records@[i]).json_wf())
            ==> count_lines(r@) == records.len(),
{
    let w = JsonRecordWriter::new(());
    let mut out = String::new();
    let mut i: usize = 0;
    while i < records.len()
        invariant
            i <= records.len(),
            out@ == json_lines_spec(records@.subrange(0, i as int)),
            (forall|j: int| 0 <= j < records.len() ==> (#[trigger] records@[j]).json_wf())
                ==> count_lines(out@) == i,
        decreases records.len() - i,
    {
        let line = w.record_line(&records[i]);
        let ghost before = out@;
        out.append(line.as_str());
        proof {
            let s = records@.subrange(0, i as int + 1);
            assert(s.drop_last() =~= records@.subrange(0, i as int));
            assert(s.last() == records@[i as int]);
            lemma_count_lines_concat(before, line@);
        }
        i = i + 1;
    }
    assert(records@.subrange(0, records.len() as int) =~= records@);
    out
}

} // verus!
