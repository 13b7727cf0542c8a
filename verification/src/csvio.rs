//! Reading the CSV import schema: raw bytes are split into rows by the csv
//! crate, and the fixed column schema — `lastName, firstName, school, [tel,]
//! balance`, with an optional header row — is applied by verified code.

use vstd::prelude::*;

use crate::account::{Account, CsvRecord, CsvRecordV, ToCanonical, csv_canonical_spec};
use crate::error::MigrateError;
use crate::money::money_spec;
use crate::school::{enumerate, enumerate_spec, lower_seq};

verus! {

/// What the csv crate yields on a byte input: the rows, each a sequence of
/// fields, or nothing when the input is rejected (for instance as invalid
/// UTF-8). A pure function of the bytes alone.
pub uninterp spec fn csv_rows_of(data: Seq<u8>) -> Option<Seq<Seq<Seq<char>>>>;

/// Relies on csv::ReaderBuilder / csv::Reader: comma-delimited splitting of
/// the input into records of fields, with no header handling and no length
/// checks (both are applied afterwards by verified code).
#[verifier::external_body]
fn split_csv(data: &[u8]) -> (r: Result<Vec<Vec<String>>, String>)
    ensures
        match r {
            Ok(rows) => csv_rows_of(data@) == Some(rows.deep_view()),
            Err(_) => csv_rows_of(data@) is None,
        },
{
    let mut rdr = csv::ReaderBuilder::new().has_headers(false).flexible(true).delimiter(
        b',',
    ).from_reader(data);
    let mut rows: Vec<Vec<String>> = Vec::new();
    for rec in rdr.records() {
        match rec {
            Ok(fields) => rows.push(fields.iter().map(|f| f.to_string()).collect()),
            Err(e) => {
                return Err(e.to_string());
            },
        }
    }
    Ok(rows)
}

/// Whether a row is the optional header row: its first field, lower-cased,
/// names the last-name column.
pub open spec fn row_is_header(row: Seq<Seq<char>>) -> bool {
    row.len() > 0 && (lower_seq(row[0]) == "lastname"@ || lower_seq(row[0]) == "last_name"@)
}

/// The data rows of a file: every row, except a leading header row when one
/// is present.
pub open spec fn data_rows(rows: Seq<Seq<Seq<char>>>) -> Seq<Seq<Seq<char>>> {
    if rows.len() > 0 && row_is_header(rows[0]) {
        rows.skip(1)
    } else {
        rows
    }
}

/// Whether a data row has an accepted shape: four columns, or five when the
/// optional telephone column is present.
pub open spec fn row_arity_ok(row: Seq<Seq<char>>) -> bool {
    row.len() == 4 || row.len() == 5
}

/// The balance column of a row: the last column in either accepted shape.
pub open spec fn row_balance_field(row: Seq<Seq<char>>) -> Seq<char> {
    if row.len() == 5 {
        row[4]
    } else {
        row[3]
    }
}

/// Whether a data row parses: accepted shape and a well-formed money string
/// in the balance column. The school column never fails — an unknown label
/// is tolerated and maps to `Unknown`.
pub open spec fn row_valid(row: Seq<Seq<char>>) -> bool {
    row_arity_ok(row) && money_spec(row_balance_field(row)) is Some
}

/// The record a valid data row denotes.
pub open spec fn row_record_spec(row: Seq<Seq<char>>) -> CsvRecordV {
    CsvRecordV {
        last_name: row[0],
        first_name: row[1],
        school: enumerate_spec(row[2]),
        balance: money_spec(row_balance_field(row)).unwrap(),
    }
}

/// Whether the data rows contain a failing row, every row before it being
/// valid: the shape of the first-error abort.
pub open spec fn has_first_bad_row(drows: Seq<Seq<Seq<char>>>) -> bool {
    exists|i: int|
        0 <= i < drows.len() && !row_valid(#[trigger] drows[i]) && forall|j: int|
            0 <= j < i ==> row_valid(drows[j])
}

proof fn lemma_header_lits_are_lower()
    ensures
        lower_seq("lastname"@) == "lastname"@,
        lower_seq("last_name"@) == "last_name"@,
{
    reveal_strlit("lastname");
    reveal_strlit("last_name");
    assert(lower_seq("lastname"@) =~= "lastname"@);
    assert(lower_seq("last_name"@) =~= "last_name"@);
}

fn is_header_row(row: &Vec<String>) -> (r: bool)
    ensures
        r == row_is_header(row.deep_view()),
{
    proof {
        lemma_header_lits_are_lower();
    }
    if row.len() == 0 {
        return false;
    }
    let first = row[0].as_str();
    crate::school::eq_fold(first, "lastname") || crate::school::eq_fold(first, "last_name")
}

/// Turns one data row into a record, or the error the row surfaces: a
/// `Schema` error on a wrong column count, a `Parse` error on a malformed
/// balance.
fn row_to_record(row: &Vec<String>) -> (r: Result<CsvRecord, MigrateError>)
    ensures
        match r {
            Ok(rec) => row_valid(row.deep_view()) && rec@ == row_record_spec(row.deep_view())
                && rec.convertible(),
            Err(e) => !row_valid(row.deep_view()) && (e is Parse || e is Schema),
        },
{
    if !(row.len() == 4 || row.len() == 5) {
        return Err(
            MigrateError::Schema("a row must have 4 columns, or 5 with a telephone".to_owned()),
        );
    }
    let balance_field = if row.len() == 5 {
        row[4].as_str()
    } else {
        row[3].as_str()
    };
    let balance = match crate::money::parse_money(balance_field) {
        Ok(m) => m,
        Err(e) => {
            return Err(e);
        },
    };
    Ok(
        CsvRecord {
            last_name: row[0].clone(),
            first_name: row[1].clone(),
            school: enumerate(row[2].as_str()),
            balance,
        },
    )
}

/// Applies the column schema to the split rows: skips a leading header row,
/// then reads every data row, stopping at the first row that fails. Either
/// the complete record sequence comes back, or the first row-level error.
pub fn rows_to_records(rows: &Vec<Vec<String>>) -> (r: Result<Vec<CsvRecord>, MigrateError>)
    ensures
        ({
            let drows = data_rows(rows.deep_view());
            match r {
                Ok(recs) => {
                    &&& recs@.len() == drows.len()
                    &&& forall|i: int| 0 <= i < drows.len() ==> row_valid(#[trigger] drows[i])
                    &&& forall|i: int|
                        0 <= i < drows.len() ==> (#[trigger] recs@[i])@ == row_record_spec(
                            drows[i],
                        ) && recs@[i].convertible()
                },
                Err(e) => {
                    &&& has_first_bad_row(drows)
                    &&& (e is Parse || e is Schema)
                },
            }
        }),
{
    let ghost drows = data_rows(rows.deep_view());
    let start: usize = if rows.len() > 0 && is_header_row(&rows[0]) {
        1
    } else {
        0
    };
    assert(drows =~= rows.deep_view().subrange(start as int, rows.deep_view().len() as int));
    let mut recs: Vec<CsvRecord> = Vec::new();
    let mut i: usize = start;
    while i < rows.len()
        invariant
            start <= i <= rows@.len(),
            drows == data_rows(rows.deep_view()),
            drows =~= rows.deep_view().subrange(start as int, rows.deep_view().len() as int),
            rows.deep_view().len() == rows@.len(),
            recs@.len() == i - start,
            forall|k: int| 0 <= k < i - start ==> row_valid(#[trigger] drows[k]),
            forall|k: int|
                0 <= k < i - start ==> (#[trigger] recs@[k])@ == row_record_spec(drows[k])
                    && recs@[k].convertible(),
        decreases rows@.len() - i,
    {
        assert(drows[i - start] == rows.deep_view()[i as int]);
        match row_to_record(&rows[i]) {
            Ok(rec) => {
                recs.push(rec);
            },
            Err(e) => {
                proof {
                    let w = i - start;
                    let post_rows = data_rows(rows.deep_view());
                    assert(post_rows == drows);
                    assert(post_rows[w] == drows[w]);
                    assert(0 <= w < post_rows.len() && !row_valid(post_rows[w]) && forall|j: int|
                        0 <= j < w ==> row_valid(post_rows[j]));
                    assert(has_first_bad_row(post_rows));
                }
                return Err(e);
            },
        }
        i += 1;
    }
    Ok(recs)
}

/// Reads CSV bytes into import records: the csv crate splits the bytes, then
/// the verified schema mapping applies. A byte input the csv crate rejects
/// surfaces as a `Parse` error.
pub fn read_csv_records(data: &[u8]) -> (r: Result<Vec<CsvRecord>, MigrateError>)
    ensures
        match csv_rows_of(data@) {
            Option::None => r is Err,
            Option::Some(rows) => {
                let drows = data_rows(rows);
                match r {
                    Ok(recs) => {
                        &&& recs@.len() == drows.len()
                        &&& forall|i: int| 0 <= i < drows.len() ==> row_valid(#[trigger] drows[i])
                        &&& forall|i: int|
                            0 <= i < drows.len() ==> (#[trigger] recs@[i])@ == row_record_spec(
                                drows[i],
                            ) && recs@[i].convertible()
                    },
                    Err(e) => {
                        &&& has_first_bad_row(drows)
                        &&& (e is Parse || e is Schema)
                    },
                }
            },
        },
{
    let rows = match split_csv(data) {
        Ok(rows) => rows,
        Err(m) => {
            return Err(MigrateError::Parse(m));
        },
    };
    rows_to_records(&rows)
}

/// Reads CSV bytes straight through to canonical accounts: the rows are
/// split and mapped as in `read_csv_records`, and every record is converted
/// by the canonical rule.
pub fn read_csv_accounts(data: &[u8]) -> (r: Result<Vec<Account>, MigrateError>)
    ensures
        match csv_rows_of(data@) {
            Option::None => r is Err,
            Option::Some(rows) => {
                let drows = data_rows(rows);
                match r {
                    Ok(accs) => {
                        &&& accs@.len() == drows.len()
                        &&& forall|i: int| 0 <= i < drows.len() ==> row_valid(#[trigger] drows[i])
                        &&& forall|i: int|
                            0 <= i < drows.len() ==> (#[trigger] accs@[i])@ == csv_canonical_spec(
                                row_record_spec(drows[i]),
                            )
                    },
                    Err(e) => {
                        &&& has_first_bad_row(drows)
                        &&& (e is Parse || e is Schema)
                    },
                }
            },
        },
{
    let records = match read_csv_records(data) {
        Ok(recs) => recs,
        Err(e) => {
            return Err(e);
        },
    };
    Ok(convert_all(&records))
}

/// Converts every import record to its canonical account, in order.
pub fn convert_all(records: &Vec<CsvRecord>) -> (r: Vec<Account>)
    requires
        forall|i: int| 0 <= i < records@.len() ==> (#[trigger] records@[i]).convertible(),
    ensures
        r@.len() == records@.len(),
        forall|i: int|
            0 <= i < records@.len() ==> (#[trigger] r@[i])@ == csv_canonical_spec(records@[i]@),
{
    let mut out: Vec<Account> = Vec::new();
    let mut i: usize = 0;
    while i < records.len()
        invariant
            0 <= i <= records@.len(),
            forall|k: int| 0 <= k < records@.len() ==> (#[trigger] records@[k]).convertible(),
            out@.len() == i,
            forall|k: int|
                0 <= k < i ==> (#[trigger] out@[k])@ == csv_canonical_spec(records@[k]@),
        decreases records@.len() - i,
    {
        out.push(records[i].to_canonical());
        i += 1;
    }
    out
}

} // verus!
