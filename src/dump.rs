//! Decoding of one dump line: the `INSERT INTO ... VALUES (..),(..);`
//! statement of a table, read as a flat list of fields cut into tuples of
//! the table's width.
use vstd::prelude::*;
use vstd::arithmetic::div_mod::lemma_fundamental_div_mod;
use crate::text::{has_prefix, starts_with};

verus! {

/// The fields of the first record that the `csv` crate reads from `line`,
/// configured for SQL literals: comma delimiter, `'` as quote, `\` as escape,
/// no doubled quotes, no header row. `None` where it reports an error or reads
/// no record.
pub uninterp spec fn csv_record_of(line: Seq<char>) -> Option<Seq<Seq<char>>>;

pub open spec fn fields_view(v: Seq<String>) -> Seq<Seq<char>> {
    v.map_values(|f: String| f@)
}

/// Relies on csv's `ReaderBuilder`/`Reader::records`: the result depends on
/// the text alone.
#[verifier::external_body]
fn read_sql_fields(body: &str) -> (r: Option<Vec<String>>)
    ensures
        match r {
            Some(v) => csv_record_of(body@) == Some(fields_view(v@)),
            None => csv_record_of(body@) is None,
        },
{
    let mut reader = csv::ReaderBuilder::new().has_headers(false).quote(b'\'').escape(
        Some(b'\\'),
    ).double_quote(false).from_reader(body.as_bytes());
    let records = reader.records().collect::<Result<Vec<csv::StringRecord>, csv::Error>>().ok()?;
    let first = records.into_iter().next()?;
    Some(first.iter().map(String::from).collect())
}

/// What a line of a dump holds for a table.
pub ghost enum DecodedLine {
    /// The line is not a statement of the table.
    Skipped,
    /// The line is a statement of the table that cannot be cut into tuples.
    Malformed,
    /// The statement's fields, a whole number of tuples.
    Tuples(Seq<Seq<char>>),
}

/// The meaning of `line` for the table whose statements begin with `prefix`
/// and whose tuples have `width` fields. The statement's last character (its
/// `;`) is dropped before the tuples are read.
pub open spec fn decoded_line(line: Seq<char>, prefix: Seq<char>, width: nat) -> DecodedLine {
    if !starts_with(line, prefix) {
        DecodedLine::Skipped
    } else if line.len() == prefix.len() {
        DecodedLine::Malformed
    } else {
        match csv_record_of(line.subrange(prefix.len() as int, line.len() - 1)) {
            None => DecodedLine::Malformed,
            Some(f) => if width > 0 && f.len() % width == 0 {
                DecodedLine::Tuples(f)
            } else {
                DecodedLine::Malformed
            },
        }
    }
}

/// The `k`-th tuple of a statement's fields.
pub open spec fn tuple_at(fields: Seq<Seq<char>>, width: nat, k: int) -> Seq<Seq<char>> {
    fields.subrange(k * width, k * width + width)
}

/// A statement line that matches its table's prefix but cannot be read: its
/// fields do not form whole tuples, or an integer field is not a number.
/// `line` counts from zero.
#[derive(Debug, Clone, Copy, PartialEq, Eq, Structural)]
pub struct MalformedRecord {
    pub line: usize,
}

/// The `k`-th of the `len / width` tuples lies within the fields.
pub proof fn lemma_tuple_in_bounds(len: nat, width: nat, k: int)
    requires
        width > 0,
        len % width == 0,
        0 <= k < len / width,
    ensures
        k * width + width <= len,
{
    lemma_fundamental_div_mod(len as int, width as int);
    assert(k * width + width <= (len / width) * width) by (nonlinear_arith)
        requires
            k < len / width,
            width > 0,
    ;
}

/// A decoded line, as the library hands it out.
pub enum LineDecode {
    Skipped,
    Malformed,
    Fields(Vec<String>),
}

impl View for LineDecode {
    type V = DecodedLine;

    open spec fn view(&self) -> DecodedLine {
        match self {
            LineDecode::Skipped => DecodedLine::Skipped,
            LineDecode::Malformed => DecodedLine::Malformed,
            LineDecode::Fields(v) => DecodedLine::Tuples(fields_view(v@)),
        }
    }
}

/// Reads `line` as a statement of the table whose statements begin with
/// `prefix` and whose tuples have `width` fields.
pub fn decode_line(line: &str, prefix: &str, width: usize) -> (r: LineDecode)
    requires
        width > 0,
    ensures
        r@ == decoded_line(line@, prefix@, width as nat),
{
    if !has_prefix(line, prefix) {
        return LineDecode::Skipped;
    }
    let n = line.unicode_len();
    let p = prefix.unicode_len();
    if n == p {
        return LineDecode::Malformed;
    }
    let body = line.substring_char(p, n - 1);
    match read_sql_fields(body) {
        None => LineDecode::Malformed,
        Some(f) => {
            if f.len() % width == 0 {
                LineDecode::Fields(f)
            } else {
                LineDecode::Malformed
            }
        },
    }
}

} // verus!
