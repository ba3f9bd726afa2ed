//! The catalog of named reference colours, and how it is read from CSV text.
//!
//! The text has a header row and then one row for each reference colour: its
//! name and its red, green and blue channels, in this order.

use vstd::prelude::*;
use crate::color::Color;

verus! {

/// A reference colour: a colour together with the name it goes by.
#[derive(Clone, Debug, PartialEq, Eq)]
pub struct StandardColor {
    pub name: String,
    pub color: Color,
}

/// Why a catalog could not be loaded. Rows and columns count from zero; the
/// header row is not counted.
#[derive(Clone, Copy, Debug, PartialEq, Eq, Structural)]
pub enum LoadError {
    /// The text is not CSV with rows of equal length.
    Malformed,
    /// The row has fewer than the four fields of an entry.
    MissingField { row: usize },
    /// The field is not a decimal number.
    NotANumber { row: usize, column: usize },
    /// The field is a number, but none between 0 and 255.
    OutOfRange { row: usize, column: usize },
}

/// Pairs a name with a colour.
pub fn build_standard_color(name: String, color: Color) -> (entry: StandardColor)
    ensures
        entry.name == name,
        entry.color == color,
{
    StandardColor { name, color }
}

/// The records that the `csv` crate reads from `text` with its default
/// settings, the header row left out, each record as the sequence of its
/// fields; `None` where it reports an error.
pub uninterp spec fn csv_records(text: Seq<char>) -> Option<Seq<Seq<Seq<char>>>>;

/// The error type of the `csv` crate, carried through unopened: nothing is
/// claimed of what it holds.
#[verifier::external_type_specification]
#[verifier::external_body]
pub struct ExCsvError(csv::Error);

/// The value of a run of decimal digits.
pub open spec fn digits_value(digits: Seq<char>) -> nat
    decreases digits.len(),
{
    if digits.len() == 0 {
        0
    } else {
        digits_value(digits.drop_last()) * 10 + (digits.last() as nat - '0' as nat) as nat
    }
}

/// The text is made of decimal digits, at least one.
pub open spec fn is_digits(digits: Seq<char>) -> bool {
    digits.len() > 0 && forall|i: int| 0 <= i < digits.len() ==> '0' <= #[trigger] digits[i] <= '9'
}

/// The number that `text` is the decimal notation of: an optional sign, `+`
/// or `-`, then digits and nothing else. `None` where `text` is not of this
/// form or the number does not fit into an `i64`.
pub open spec fn decimal_i64(text: Seq<char>) -> Option<i64> {
    let signed = text.len() > 0 && (text[0] == '-' || text[0] == '+');
    let digits = if signed {
        text.skip(1)
    } else {
        text
    };
    let value = if signed && text[0] == '-' {
        -digits_value(digits)
    } else {
        digits_value(digits) as int
    };
    if is_digits(digits) && i64::MIN <= value <= i64::MAX {
        Some(value as i64)
    } else {
        None
    }
}

/// The channel that a field of a row stands for.
pub open spec fn channel_of(field: Seq<char>, row: usize, column: usize) -> Result<u8, LoadError> {
    match decimal_i64(field) {
        None => Err(LoadError::NotANumber { row, column }),
        Some(value) => if 0 <= value <= 255 {
            Ok(value as u8)
        } else {
            Err(LoadError::OutOfRange { row, column })
        },
    }
}

/// The name and colour that a row stands for, or the first thing wrong with
/// it, going through its fields from left to right.
pub open spec fn entry_of(record: Seq<Seq<char>>, row: usize) -> Result<(Seq<char>, Color), LoadError> {
    if record.len() < 4 {
        Err(LoadError::MissingField { row })
    } else {
        match channel_of(record[1], row, 1) {
            Err(e) => Err(e),
            Ok(r) => match channel_of(record[2], row, 2) {
                Err(e) => Err(e),
                Ok(g) => match channel_of(record[3], row, 3) {
                    Err(e) => Err(e),
                    Ok(b) => Ok((record[0], Color { r, g, b })),
                },
            },
        }
    }
}

/// `result` is what loading `records` gives: the entries of all rows in
/// their order where every row is in order, and otherwise what is wrong with
/// the first row that is not.
pub open spec fn loads(records: Seq<Seq<Seq<char>>>, result: Result<Vec<StandardColor>, LoadError>) -> bool {
    match result {
        Ok(catalog) => {
            &&& catalog.len() == records.len()
            &&& forall|i: int|
                0 <= i < records.len() ==> entry_of(#[trigger] records[i], i as usize) == Ok::<
                    (Seq<char>, Color),
                    LoadError,
                >((catalog[i].name@, catalog[i].color))
        },
        Err(e) => exists|i: int|
            {
                &&& 0 <= i < records.len()
                &&& entry_of(#[trigger] records[i], i as usize) == Err::<(Seq<char>, Color), LoadError>(e)
                &&& forall|j: int| 0 <= j < i ==> entry_of(#[trigger] records[j], j as usize) is Ok
            },
    }
}

/// Reads `text` with the `csv` crate.
///
/// Trusted: `csv::Reader::records` on the bytes of `text` yields the same
/// records, or the same failure, whenever it is given the same text.
#[verifier::external_body]
fn read_records(text: &str) -> (out: Result<Vec<Vec<String>>, csv::Error>)
    ensures
        out is Ok <==> csv_records(text@) is Some,
        out matches Ok(records) ==> csv_records(text@) == Some(records.deep_view()),
{
    let mut reader = csv::Reader::from_reader(text.as_bytes());
    let mut records = Vec::new();
    for record in reader.records() {
        records.push(record?.iter().map(String::from).collect());
    }
    Ok(records)
}

/// Reads a decimal number.
///
/// Trusted: `str::parse::<i64>` accepts an optional sign followed by
/// decimal digits and nothing else, and fails where there is no digit or
/// the number does not fit into an `i64`.
#[verifier::external_body]
fn parse_i64(text: &str) -> (out: Option<i64>)
    ensures
        out == decimal_i64(text@),
{
    text.parse::<i64>().ok()
}

/// Reads one channel of an entry from a field of row `row`.
pub fn channel_from(field: &str, row: usize, column: usize) -> (result: Result<u8, LoadError>)
    ensures
        result == channel_of(field@, row, column),
{
    match parse_i64(field) {
        None => Err(LoadError::NotANumber { row, column }),
        Some(value) => {
            if 0 <= value && value <= 255 {
                Ok(value as u8)
            } else {
                Err(LoadError::OutOfRange { row, column })
            }
        },
    }
}

/// Builds the entry that row `row` stands for.
pub fn entry_from(record: &Vec<String>, row: usize) -> (result: Result<StandardColor, LoadError>)
    ensures
        match result {
            Ok(entry) => entry_of(record.deep_view(), row) == Ok::<(Seq<char>, Color), LoadError>(
                (entry.name@, entry.color),
            ),
            Err(e) => entry_of(record.deep_view(), row) == Err::<(Seq<char>, Color), LoadError>(e),
        },
{
    if record.len() < 4 {
        return Err(LoadError::MissingField { row });
    }
    assert(record.deep_view()[0] == record[0]@);
    assert(record.deep_view()[1] == record[1]@);
    assert(record.deep_view()[2] == record[2]@);
    assert(record.deep_view()[3] == record[3]@);
    let r = match channel_from(record[1].as_str(), row, 1) {
        Ok(r) => r,
        Err(e) => {
            return Err(e);
        },
    };
    let g = match channel_from(record[2].as_str(), row, 2) {
        Ok(g) => g,
        Err(e) => {
            return Err(e);
        },
    };
    let b = match channel_from(record[3].as_str(), row, 3) {
        Ok(b) => b,
        Err(e) => {
            return Err(e);
        },
    };
    Ok(build_standard_color(record[0].clone(), Color { r, g, b }))
}

/// Builds the catalog from the records of a CSV text, header row left out.
/// The first row that is not in order ends the loading with its error.
pub fn catalog_from_records(records: &Vec<Vec<String>>) -> (result: Result<
    Vec<StandardColor>,
    LoadError,
>)
    ensures
        loads(records.deep_view(), result),
{
    let mut catalog: Vec<StandardColor> = Vec::with_capacity(records.len());
    let mut row: usize = 0;
    while row < records.len()
        invariant
            0 <= row <= records.len(),
            catalog.len() == row,
            forall|i: int|
                0 <= i < row ==> entry_of(#[trigger] records.deep_view()[i], i as usize) == Ok::<
                    (Seq<char>, Color),
                    LoadError,
                >((catalog[i].name@, catalog[i].color)),
        decreases records.len() - row,
    {
        assert(records.deep_view()[row as int] == records[row as int].deep_view());
        match entry_from(&records[row], row) {
            Ok(entry) => {
                catalog.push(entry);
            },
            Err(e) => {
                return Err(e);
            },
        }
        row = row + 1;
    }
    Ok(catalog)
}

/// Loads the catalog from CSV text: a header row, then one row for each
/// reference colour with its name and its three channels.
pub fn get_standard_colors(text: &str) -> (result: Result<Vec<StandardColor>, LoadError>)
    ensures
        csv_records(text@) is None ==> result == Err::<Vec<StandardColor>, LoadError>(
            LoadError::Malformed,
        ),
        csv_records(text@) matches Some(records) ==> loads(records, result),
{
    match read_records(text) {
        Err(_) => Err(LoadError::Malformed),
        Ok(records) => catalog_from_records(&records),
    }
}

} // verus!
