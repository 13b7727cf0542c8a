//! Mapping a fetched spreadsheet matrix onto full-export records: fixed
//! zero-based column offsets, and a per-column default — zero, `false` or
//! `Unknown` — wherever a cell is missing or unreadable, rather than a
//! per-row failure. Only an entirely empty matrix fails, with the
//! empty-result error. The remote fetch itself is the shell's business; the
//! mapping works on the plain cell values it hands over.

use vstd::prelude::*;

use crate::account::{Account, SheetRecord, SheetRecordV, ToCanonical, sheet_canonical_spec};
use crate::error::MigrateError;
use crate::money::{MoneyV, Money, all_digits, digits_val, money_spec, parse_money};
use crate::school::{School, enumerate, enumerate_spec, lower_seq};

verus! {

/// The fixed column offsets of the export schema.
pub open spec fn spec_cell(row: Seq<Seq<char>>, k: int) -> Seq<char> {
    if 0 <= k < row.len() {
        row[k]
    } else {
        Seq::<char>::empty()
    }
}

/// A money cell: its parsed amount, or a zero amount when the cell is empty,
/// missing or unreadable.
pub open spec fn money_or_zero(s: Seq<char>) -> MoneyV {
    match money_spec(s) {
        Some(m) => m,
        None => MoneyV { negative: false, mantissa: 0, scale: 0 },
    }
}

/// A count cell: a plain digit run of at most nine digits, anything else —
/// empty, missing or unreadable — counting as zero.
pub open spec fn count_or_zero(s: Seq<char>) -> int {
    if all_digits(s) && 1 <= s.len() <= 9 {
        digits_val(s)
    } else {
        0
    }
}

/// A membership cell: affirmative exactly on `true` (in any casing) or `1`.
pub open spec fn member_of(s: Seq<char>) -> bool {
    lower_seq(s) == "true"@ || s == "1"@
}

/// The record a row of the export matrix denotes, under the fixed offsets:
/// last name, first name, school, membership, balance, the two drink counts,
/// recharge.
pub open spec fn sheet_row_spec(row: Seq<Seq<char>>) -> SheetRecordV {
    SheetRecordV {
        last_name: spec_cell(row, 0),
        first_name: spec_cell(row, 1),
        school: enumerate_spec(spec_cell(row, 2)),
        is_member: member_of(spec_cell(row, 3)),
        balance: money_or_zero(spec_cell(row, 4)),
        normal_count: count_or_zero(spec_cell(row, 5)) as u32,
        special_count: count_or_zero(spec_cell(row, 6)) as u32,
        recharge: money_or_zero(spec_cell(row, 7)),
    }
}

fn cell<'a>(row: &'a Vec<String>, k: usize, empty: &'a String) -> (r: &'a String)
    requires
        empty@ == Seq::<char>::empty(),
    ensures
        r@ == spec_cell(row.deep_view(), k as int),
{
    if k < row.len() {
        &row[k]
    } else {
        empty
    }
}

fn parse_money_cell(s: &str) -> (r: Money)
    ensures
        r@ == money_or_zero(s@),
        r.wf(),
{
    match parse_money(s) {
        Ok(m) => m,
        Err(_) => {
            let z = Money { negative: false, mantissa: 0, scale: 0 };
            assert(z.wf()) by {
                crate::money::lemma_pow10_vals();
            };
            z
        },
    }
}

fn parse_count_cell(s: &str) -> (r: u32)
    ensures
        r == count_or_zero(s@),
{
    let n = s.unicode_len();
    if n < 1 || n > 9 {
        return 0;
    }
    let mut i: usize = 0;
    let mut acc: u32 = 0;
    while i < n
        invariant
            0 <= i <= n == s@.len(),
            1 <= n <= 9,
            all_digits(s@.take(i as int)),
            acc == digits_val(s@.take(i as int)),
            acc < 1000000000,
        decreases n - i,
    {
        let c = s.get_char(i);
        let u = c as u32;
        proof {
            assert(s@.take(i + 1).drop_last() =~= s@.take(i as int));
            assert(s@.take(i + 1).last() == s@[i as int]);
            crate::money::lemma_digits_val_bound(s@.take(i as int));
            crate::money::lemma_pow10_vals();
            crate::money::lemma_pow10_mono(i as nat, 8);
        }
        if !(48 <= u && u <= 57) {
            assert(!crate::money::is_digit(s@[i as int]));
            assert(!all_digits(s@));
            return 0;
        }
        acc = acc * 10 + (u - 48);
        i += 1;
        assert(all_digits(s@.take(i as int)));
    }
    assert(s@.take(n as int) =~= s@);
    acc
}

fn parse_member_cell(s: &str) -> (r: bool)
    ensures
        r == member_of(s@),
{
    proof {
        reveal_strlit("true");
        reveal_strlit("1");
        assert(lower_seq("true"@) =~= "true"@);
    }
    if crate::school::eq_fold(s, "true") {
        return true;
    }
    if s.unicode_len() == 1 && s.get_char(0) == '1' {
        assert(s@ =~= "1"@);
        return true;
    }
    assert(s@ != "1"@);
    false
}

/// Maps one fetched row onto a full-export record; every cell falls back to
/// its column's default instead of failing.
pub fn sheet_row_to_record(row: &Vec<String>) -> (r: SheetRecord)
    ensures
        r@ == sheet_row_spec(row.deep_view()),
        r.convertible(),
{
    let empty = String::new();
    let rec = SheetRecord {
        last_name: cell(row, 0, &empty).clone(),
        first_name: cell(row, 1, &empty).clone(),
        school: enumerate(cell(row, 2, &empty).as_str()),
        is_member: parse_member_cell(cell(row, 3, &empty).as_str()),
        balance: parse_money_cell(cell(row, 4, &empty).as_str()),
        normal_count: parse_count_cell(cell(row, 5, &empty).as_str()),
        special_count: parse_count_cell(cell(row, 6, &empty).as_str()),
        recharge: parse_money_cell(cell(row, 7, &empty).as_str()),
    };
    proof {
        crate::money::lemma_pow10_vals();
    }
    rec
}

/// Converts the whole fetched matrix: an empty matrix fails with the
/// empty-result error, any other matrix maps row by row — defaults, never
/// per-row errors — and converts each record to its canonical account.
pub fn sheet_rows_to_accounts(rows: &Vec<Vec<String>>) -> (r: Result<Vec<Account>, MigrateError>)
    ensures
        match r {
            Ok(accs) => {
                &&& rows.deep_view().len() > 0
                &&& accs@.len() == rows.deep_view().len()
                &&& forall|i: int|
                    0 <= i < rows.deep_view().len() ==> (#[trigger] accs@[i])@
                        == sheet_canonical_spec(sheet_row_spec(rows.deep_view()[i]))
            },
            Err(e) => rows.deep_view().len() == 0 && e is EmptyResult,
        },
{
    if rows.len() == 0 {
        return Err(MigrateError::EmptyResult);
    }
    let mut out: Vec<Account> = Vec::new();
    let mut i: usize = 0;
    while i < rows.len()
        invariant
            0 <= i <= rows@.len(),
            rows.deep_view().len() == rows@.len(),
            out@.len() == i,
            forall|k: int|
                0 <= k < i ==> (#[trigger] out@[k])@ == sheet_canonical_spec(
                    sheet_row_spec(rows.deep_view()[k]),
                ),
        decreases rows@.len() - i,
    {
        let rec = sheet_row_to_record(&rows[i]);
        out.push(rec.to_canonical());
        i += 1;
    }
    Ok(out)
}

} // verus!
