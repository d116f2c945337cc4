use vstd::prelude::*;

verus! {

/// `s` holds no line feed.
pub open spec fn line_free(s: Seq<char>) -> bool {
    forall|i: int| 0 <= i < s.len() ==> s[i] != '\n'
}

pub proof fn lemma_line_free_concat(a: Seq<char>, b: Seq<char>)
    requires
        line_free(a),
        line_free(b),
    ensures
        line_free(a + b),
{
    assert forall|i: int| 0 <= i < (a + b).len() implies (a + b)[i] != '\n' by {
        if i < a.len() {
            assert((a + b)[i] == a[i]);
        } else {
            assert((a + b)[i] == b[i - a.len()]);
        }
    }
}

/// The number of line feeds in `s`.
pub open spec fn count_lines(s: Seq<char>) -> nat
    decreases s.len(),
{
    if s.len() == 0 {
        0
    } else {
        count_lines(s.drop_last()) + if s.last() == '\n' {
            1nat
        } else {
            0nat
        }
    }
}

pub proof fn lemma_count_lines_concat(a: Seq<char>, b: Seq<char>)
    ensures
        count_lines(a + b) == count_lines(a) + count_lines(b),
    decreases b.len(),
{
    if b.len() == 0 {
        assert(a + b =~= a);
    } else {
        lemma_count_lines_concat(a, b.drop_last());
        assert((a + b).drop_last() =~= a + b.drop_last());
    }
}

pub proof fn lemma_count_lines_free(s: Seq<char>)
    requires
        line_free(s),
    ensures
        count_lines(s) == 0,
    decreases s.len(),
{
    if s.len() > 0 {
        assert(s.last() == s[s.len() - 1]);
        lemma_count_lines_free(s.drop_last());
    }
}

/// A line-free text followed by one line feed counts as one line.
pub proof fn lemma_count_one_line(s: Seq<char>)
    requires
        line_free(s),
    ensures
        count_lines(s.push('\n')) == 1,
{
    lemma_count_lines_free(s);
    assert(s.push('\n').drop_last() =~= s);
}

/// The lower-case hexadecimal digit of `n`, for `n` below 16.
pub open spec fn hex_digit(n: int) -> char {
    seq!['0', '1', '2', '3', '4', '5', '6', '7', '8', '9', 'a', 'b', 'c', 'd', 'e', 'f'][n]
}

/// How JSON writes one character inside a string literal.
pub open spec fn json_escape_char(c: char) -> Seq<char> {
    if c == '"' {
        seq!['\\', '"']
    } else if c == '\\' {
        seq!['\\', '\\']
    } else if c == '\u{08}' {
        seq!['\\', 'b']
    } else if c == '\t' {
        seq!['\\', 't']
    } else if c == '\n' {
        seq!['\\', 'n']
    } else if c == '\u{0C}' {
        seq!['\\', 'f']
    } else if c == '\r' {
        seq!['\\', 'r']
    } else if (c as u32) < 0x20 {
        seq!['\\', 'u', '0', '0', hex_digit((c as u32) as int / 16), hex_digit((c as u32) as int % 16)]
    } else {
        seq![c]
    }
}

/// The escaped body of a JSON string literal for `s`.
pub open spec fn json_escape(s: Seq<char>) -> Seq<char>
    decreases s.len(),
{
    if s.len() == 0 {
        Seq::empty()
    } else {
        json_escape(s.drop_last()) + json_escape_char(s.last())
    }
}

/// The JSON string literal for `s`, quotes included.
pub open spec fn json_quoted(s: Seq<char>) -> Seq<char> {
    seq!['"'] + json_escape(s) + seq!['"']
}

pub proof fn lemma_json_quoted_line_free(s: Seq<char>)
    ensures
        line_free(json_quoted(s)),
{
    lemma_json_escape_line_free(s);
    lemma_line_free_concat(seq!['"'], json_escape(s));
    lemma_line_free_concat(seq!['"'] + json_escape(s), seq!['"']);
}

proof fn lemma_json_escape_line_free(s: Seq<char>)
    ensures
        line_free(json_escape(s)),
    decreases s.len(),
{
    if s.len() > 0 {
        lemma_json_escape_line_free(s.drop_last());
        let c = s.last();
        let e = json_escape_char(c);
        assert(line_free(e)) by {
            if (c as u32) < 0x20 && c != '\u{08}' && c != '\t' && c != '\n' && c != '\u{0C}'
                && c != '\r' {
                let hi = (c as u32) as int / 16;
                let lo = (c as u32) as int % 16;
                assert(0 <= hi < 2);
                assert(hex_digit(hi as int) == '0' || hex_digit(hi as int) == '1');
                assert(hex_digit(lo as int) != '\n');
            }
        }
        lemma_line_free_concat(json_escape(s.drop_last()), e);
    }
}

/// The decimal digits of `n`, without leading zeros.
pub open spec fn decimal_digits(n: nat) -> Seq<char>
    decreases n,
{
    if n < 10 {
        seq![hex_digit(n as int)]
    } else {
        decimal_digits(n / 10).push(hex_digit((n % 10) as int))
    }
}

/// The decimal text of `n`, with a leading minus sign when negative.
pub open spec fn decimal_text(n: int) -> Seq<char> {
    if n < 0 {
        seq!['-'] + decimal_digits((-n) as nat)
    } else {
        decimal_digits(n as nat)
    }
}

proof fn lemma_decimal_digits_line_free(n: nat)
    ensures
        line_free(decimal_digits(n)),
    decreases n,
{
    if n >= 10 {
        lemma_decimal_digits_line_free(n / 10);
        lemma_line_free_concat(decimal_digits(n / 10), seq![hex_digit((n % 10) as int)]);
        assert(decimal_digits(n / 10).push(hex_digit((n % 10) as int)) =~= decimal_digits(n / 10)
            + seq![hex_digit((n % 10) as int)]);
    }
}

pub proof fn lemma_decimal_text_line_free(n: int)
    ensures
        line_free(decimal_text(n)),
{
    if n < 0 {
        lemma_decimal_digits_line_free((-n) as nat);
        lemma_line_free_concat(seq!['-'], decimal_digits((-n) as nat));
    } else {
        lemma_decimal_digits_line_free(n as nat);
    }
}

/// Relies on serde_json::to_string on a `str`: it writes the string literal
/// with `"` and `\` escaped by a backslash, the control characters U+0000 to
/// U+001F escaped (`\b \t \n \f \r`, else `\u00` and two lower-case hex
/// digits), and every other character as it is. Serialising a `str` into a
/// byte buffer cannot fail.
#[verifier::external_body]
pub(crate) fn json_string(s: &str) -> (r: String)
    ensures
        r@ == json_quoted(s@),
{
    match serde_json::to_string(s) {
        Ok(t) => t,
        Err(_) => String::new(),
    }
}

/// Relies on serde_json::to_string on an `i128`: it writes the decimal
/// digits without leading zeros, after a `-` when negative. Serialising an
/// integer into a byte buffer cannot fail.
#[verifier::external_body]
pub(crate) fn json_integer(n: i128) -> (r: String)
    ensures
        r@ == decimal_text(n as int),
{
    match serde_json::to_string(&n) {
        Ok(t) => t,
        Err(_) => String::new(),
    }
}

/// Characters that make a CSV field need quotes.
pub open spec fn csv_special(c: char) -> bool {
    c == ',' || c == '"' || c == '\n' || c == '\r'
}

/// `f` holds a character that makes a CSV field need quotes.
pub open spec fn csv_needs_quotes(f: Seq<char>) -> bool {
    exists|i: int| 0 <= i < f.len() && csv_special(#[trigger] f[i])
}

/// `f` with every quote character doubled.
pub open spec fn csv_double_quotes(f: Seq<char>) -> Seq<char>
    decreases f.len(),
{
    if f.len() == 0 {
        Seq::empty()
    } else {
        csv_double_quotes(f.drop_last()) + if f.last() == '"' {
            seq!['"', '"']
        } else {
            seq![f.last()]
        }
    }
}

/// How a CSV row writes one field.
pub open spec fn csv_field_text(f: Seq<char>) -> Seq<char> {
    if csv_needs_quotes(f) {
        seq!['"'] + csv_double_quotes(f) + seq!['"']
    } else {
        f
    }
}

/// The fields of a row written one after the other, separated by commas.
pub open spec fn csv_join(fields: Seq<Seq<char>>) -> Seq<char>
    decreases fields.len(),
{
    if fields.len() == 0 {
        Seq::empty()
    } else if fields.len() == 1 {
        csv_field_text(fields[0])
    } else {
        csv_join(fields.drop_last()) + seq![','] + csv_field_text(fields.last())
    }
}

/// A CSV row: the joined fields and a line feed.
pub open spec fn csv_row_text(fields: Seq<Seq<char>>) -> Seq<char> {
    csv_join(fields).push('\n')
}

/// The plain-value form of a list of strings.
pub open spec fn strings_view(v: Seq<String>) -> Seq<Seq<char>> {
    v.map_values(|s: String| s@)
}

proof fn lemma_csv_double_quotes_line_free(f: Seq<char>)
    requires
        line_free(f),
    ensures
        line_free(csv_double_quotes(f)),
    decreases f.len(),
{
    if f.len() > 0 {
        assert(f.last() == f[f.len() - 1]);
        lemma_csv_double_quotes_line_free(f.drop_last());
        let tail = if f.last() == '"' {
            seq!['"', '"']
        } else {
            seq![f.last()]
        };
        lemma_line_free_concat(csv_double_quotes(f.drop_last()), tail);
    }
}

/// A row whose fields hold no line feed holds no line feed before its end.
pub proof fn lemma_csv_join_line_free(fields: Seq<Seq<char>>)
    requires
        forall|i: int| 0 <= i < fields.len() ==> line_free(#[trigger] fields[i]),
    ensures
        line_free(csv_join(fields)),
    decreases fields.len(),
{
    if fields.len() == 1 {
        lemma_csv_field_line_free(fields[0]);
    } else if fields.len() > 1 {
        lemma_csv_join_line_free(fields.drop_last());
        assert(line_free(fields[fields.len() - 1]));
        lemma_csv_field_line_free(fields.last());
        lemma_line_free_concat(csv_join(fields.drop_last()), seq![',']);
        lemma_line_free_concat(
            csv_join(fields.drop_last()) + seq![','],
            csv_field_text(fields.last()),
        );
    }
}

proof fn lemma_csv_field_line_free(f: Seq<char>)
    requires
        line_free(f),
    ensures
        line_free(csv_field_text(f)),
{
    if csv_needs_quotes(f) {
        lemma_csv_double_quotes_line_free(f);
        lemma_line_free_concat(seq!['"'], csv_double_quotes(f));
        lemma_line_free_concat(seq!['"'] + csv_double_quotes(f), seq!['"']);
    }
}

/// Relies on csv::Writer (default configuration: comma delimiter, `"`
/// quotes doubled inside quoted fields, quotes only where needed, `\n`
/// terminator) writing one record into a byte buffer through write_record and
/// into_inner: a field is quoted when it holds a comma, a quote, `\r` or
/// `\n`. With two fields or more the special case of a lone empty field does
/// not arise, and writing into a byte buffer cannot fail.
#[verifier::external_body]
pub(crate) fn csv_row(fields: &Vec<String>) -> (r: String)
    requires
        fields.len() >= 2,
    ensures
        r@ == csv_row_text(strings_view(fields@)),
{
    let mut w = csv::Writer::from_writer(Vec::<u8>::new());
    if w.write_record(fields).is_err() {
        return String::new();
    }
    match w.into_inner() {
        Ok(bytes) => String::from_utf8(bytes).unwrap_or_default(),
        Err(_) => String::new(),
    }
}

} // verus!
