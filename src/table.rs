use vstd::prelude::*;
use vstd::string::*;
use crate::token::{MergedToken, TokenModel, merged_models};
use crate::vocabulary::texts;

verus! {

/// The decimal digit `d` (below ten) as a character.
pub open spec fn digit_char(d: nat) -> char {
    if d == 0 {
        '0'
    } else if d == 1 {
        '1'
    } else if d == 2 {
        '2'
    } else if d == 3 {
        '3'
    } else if d == 4 {
        '4'
    } else if d == 5 {
        '5'
    } else if d == 6 {
        '6'
    } else if d == 7 {
        '7'
    } else if d == 8 {
        '8'
    } else {
        '9'
    }
}

/// `n` written in decimal, most significant digit first, with no leading zero.
pub open spec fn decimal(n: nat) -> Seq<char>
    decreases n,
{
    if n < 10 {
        seq![digit_char(n)]
    } else {
        decimal(n / 10).push(digit_char(n % 10))
    }
}

fn digit_str(d: usize) -> (r: &'static str)
    requires
        d < 10,
    ensures
        r@ == seq![digit_char(d as nat)],
{
    let r = if d == 0 {
        "0"
    } else if d == 1 {
        "1"
    } else if d == 2 {
        "2"
    } else if d == 3 {
        "3"
    } else if d == 4 {
        "4"
    } else if d == 5 {
        "5"
    } else if d == 6 {
        "6"
    } else if d == 7 {
        "7"
    } else if d == 8 {
        "8"
    } else {
        "9"
    };
    proof {
        reveal_strlit("0");
        reveal_strlit("1");
        reveal_strlit("2");
        reveal_strlit("3");
        reveal_strlit("4");
        reveal_strlit("5");
        reveal_strlit("6");
        reveal_strlit("7");
        reveal_strlit("8");
        reveal_strlit("9");
        assert(r@ =~= seq![digit_char(d as nat)]);
    }
    r
}

/// `n` written in decimal.
pub fn decimal_string(n: usize) -> (r: String)
    ensures
        r@ == decimal(n as nat),
    decreases n,
{
    if n < 10 {
        String::from_str(digit_str(n))
    } else {
        let mut r = decimal_string(n / 10);
        r.append(digit_str(n % 10));
        r
    }
}

/// The byte-order mark that opens the output table: UTF-8's encoding of
/// U+FEFF.
pub fn utf8_bom() -> (r: Vec<u8>)
    ensures
        r@ == seq![0xEFu8, 0xBBu8, 0xBFu8],
{
    let r = vec![0xEFu8, 0xBBu8, 0xBFu8];
    assert(r@ =~= seq![0xEFu8, 0xBBu8, 0xBFu8]);
    r
}

/// The column names of the output table, in order.
pub fn header_record() -> (r: Vec<String>)
    ensures
        r@.len() == 5,
        r@[0]@ == "Token"@,
        r@[1]@ == "byte_start"@,
        r@[2]@ == "byte_end"@,
        r@[3]@ == "position"@,
        r@[4]@ == "position_length"@,
{
    let mut r: Vec<String> = Vec::new();
    r.push(String::from_str("Token"));
    r.push(String::from_str("byte_start"));
    r.push(String::from_str("byte_end"));
    r.push(String::from_str("position"));
    r.push(String::from_str("position_length"));
    r
}

/// The row of the output table for `t`: its text verbatim, then its byte
/// range and position in decimal.
pub fn token_record(t: &MergedToken) -> (r: Vec<String>)
    ensures
        r@.len() == 5,
        r@[0]@ == t.text@,
        r@[1]@ == decimal(t.byte_start as nat),
        r@[2]@ == decimal(t.byte_end as nat),
        r@[3]@ == decimal(t.position as nat),
        r@[4]@ == decimal(t.position_length as nat),
{
    let mut r: Vec<String> = Vec::new();
    r.push(t.text.clone());
    r.push(decimal_string(t.byte_start));
    r.push(decimal_string(t.byte_end));
    r.push(decimal_string(t.position));
    r.push(decimal_string(t.position_length));
    r
}

#[verifier::external_type_specification]
#[verifier::external_body]
pub struct ExCsvError(csv::Error);

/// The bytes that the csv crate's writer, with its default settings, gives
/// for one record with the fields `fields`: quoted and escaped as CSV asks,
/// separated by commas, ended by a line feed.
pub uninterp spec fn csv_row(fields: Seq<Seq<char>>) -> Seq<u8>;

/// Relies on csv's `Writer::from_writer`, `Writer::write_record` and
/// `Writer::into_inner`: one record written to a fresh writer over a byte
/// vector, whose bytes depend on the fields alone. Writing into memory
/// never fails.
#[verifier::external_body]
fn csv_record_bytes(fields: &Vec<String>) -> (r: Result<Vec<u8>, csv::Error>)
    ensures
        r is Ok,
        r matches Ok(b) ==> b@ == csv_row(texts(fields@)),
{
    let mut wtr = csv::Writer::from_writer(Vec::new());
    wtr.write_record(fields)?;
    wtr.into_inner().map_err(|e| csv::Error::from(e.into_error()))
}

/// The column names of the output table, as character sequences.
pub open spec fn header_fields() -> Seq<Seq<char>> {
    seq!["Token"@, "byte_start"@, "byte_end"@, "position"@, "position_length"@]
}

/// The fields of the output table's row for `m`.
pub open spec fn record_fields(m: TokenModel) -> Seq<Seq<char>> {
    seq![
        m.text,
        decimal(m.byte_start as nat),
        decimal(m.byte_end as nat),
        decimal(m.position as nat),
        decimal(m.position_length as nat),
    ]
}

/// The encoded rows of the output table for `ms`, in order.
pub open spec fn table_rows(ms: Seq<TokenModel>) -> Seq<u8>
    decreases ms.len(),
{
    if ms.len() == 0 {
        Seq::empty()
    } else {
        table_rows(ms.drop_last()) + csv_row(record_fields(ms.last()))
    }
}

/// Why the output table could not be encoded, with the csv crate's error.
pub enum TableError {
    Encoding(csv::Error),
}

/// The whole output table for `tokens`: the byte-order mark, the header
/// row, then one row per token in order. Encoding into memory always
/// succeeds.
pub fn encode_table(tokens: &[MergedToken]) -> (r: Result<Vec<u8>, TableError>)
    ensures
        r is Ok,
        r matches Ok(b) ==> b@ == seq![0xEFu8, 0xBBu8, 0xBFu8] + csv_row(header_fields())
            + table_rows(merged_models(tokens@)),
{
    let mut out = utf8_bom();
    let header = header_record();
    assert(texts(header@) =~= header_fields());
    let mut head = match csv_record_bytes(&header) {
        Ok(b) => b,
        Err(e) => {
            return Err(TableError::Encoding(e));
        },
    };
    out.append(&mut head);
    let ghost start = out@;
    let ghost ms = merged_models(tokens@);
    let mut k: usize = 0;
    while k < tokens.len()
        invariant
            k <= tokens@.len(),
            ms == merged_models(tokens@),
            start == seq![0xEFu8, 0xBBu8, 0xBFu8] + csv_row(header_fields()),
            out@ == start + table_rows(ms.subrange(0, k as int)),
        decreases tokens@.len() - k,
    {
        let fields = token_record(&tokens[k]);
        assert(texts(fields@) =~= record_fields(ms[k as int]));
        let mut row = match csv_record_bytes(&fields) {
            Ok(b) => b,
            Err(e) => {
                return Err(TableError::Encoding(e));
            },
        };
        out.append(&mut row);
        assert(ms.subrange(0, k + 1).drop_last() =~= ms.subrange(0, k as int));
        assert(out@ =~= start + table_rows(ms.subrange(0, k + 1)));
        k = k + 1;
    }
    assert(ms.subrange(0, k as int) =~= ms);
    Ok(out)
}

} // verus!
