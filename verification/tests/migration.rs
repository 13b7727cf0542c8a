use migration_tools::account::{Account, CsvRecord, SheetRecord, Stats, ToCanonical};
use migration_tools::backup::{parse_backup, render_backup};
use migration_tools::csvio::{convert_all, read_csv_records};
use migration_tools::error::MigrateError;
use migration_tools::money::{parse_money, Money};
use migration_tools::ops::{append_writes, delete_all_targets, doc_rel_id, restore_writes};
use migration_tools::school::{enumerate, School};
use migration_tools::sheets::sheet_rows_to_accounts;

fn money(negative: bool, mantissa: u64, scale: u8) -> Money {
    Money { negative, mantissa, scale }
}

fn account(
    last: &str,
    first: &str,
    school: School,
    member: bool,
    balance: i64,
    drank: u64,
    total: i64,
) -> Account {
    Account {
        last_name: last.to_string(),
        first_name: first.to_string(),
        school,
        is_member: member,
        balance,
        stats: Stats { quantity_drank: drank, total_money: total },
    }
}

#[test]
fn money_string_with_unit_parses() {
    let m = parse_money("12,34 \u{20ac}").unwrap();
    assert_eq!(m, money(false, 1234, 2));
    assert_eq!(m.to_minor_units(), 1234);
}

#[test]
fn money_dot_separator_parses() {
    let m = parse_money("42.50").unwrap();
    assert_eq!(m, money(false, 4250, 2));
    assert_eq!(m.to_minor_units(), 4250);
}

#[test]
fn money_plain_integer_parses() {
    let m = parse_money("7").unwrap();
    assert_eq!(m, money(false, 7, 0));
    assert_eq!(m.to_minor_units(), 700);
}

#[test]
fn money_suffix_does_not_change_value() {
    let forms = ["5,5", "5,5 ", "5,5\u{20ac}", "5,5 \u{20ac}", "5,5 euros"];
    for f in forms {
        let m = parse_money(f).unwrap();
        assert_eq!(m, money(false, 55, 1), "on input {f:?}");
        assert_eq!(m.to_minor_units(), 550);
    }
}

#[test]
fn money_negative_parses() {
    let m = parse_money("-12,34").unwrap();
    assert_eq!(m, money(true, 1234, 2));
    assert_eq!(m.to_minor_units(), -1234);
}

#[test]
fn money_rounds_half_away_from_zero() {
    assert_eq!(parse_money("0,005").unwrap().to_minor_units(), 1);
    assert_eq!(parse_money("1,005").unwrap().to_minor_units(), 101);
    assert_eq!(parse_money("-0,005").unwrap().to_minor_units(), -1);
    assert_eq!(parse_money("2,004").unwrap().to_minor_units(), 200);
}

#[test]
fn money_malformed_inputs_are_parse_errors() {
    for bad in ["", ",5", "5,", "1,2,3", "a12", "1.2,3", "-", "--1", " 12", "\u{20ac}12"] {
        let r = parse_money(bad);
        assert!(
            matches!(r, Err(MigrateError::Parse(_))),
            "expected a parse error on {bad:?}, got {r:?}"
        );
    }
}

#[test]
fn money_prefix_before_space_wins() {
    // Everything from the first space on is an ignored suffix.
    let m = parse_money("12 ,5").unwrap();
    assert_eq!(m, money(false, 12, 0));
}

#[test]
fn school_mapping_is_case_insensitive() {
    assert_eq!(enumerate("ENSIMAG"), School::Ensimag);
    assert_eq!(enumerate("ensimag"), School::Ensimag);
    assert_eq!(enumerate("EnSiMaG"), School::Ensimag);
    assert_eq!(enumerate("Phelma"), School::Phelma);
    assert_eq!(enumerate("uga"), School::Uga);
}

#[test]
fn school_mapping_is_total() {
    assert_eq!(enumerate("harvard"), School::Unknown);
    assert_eq!(enumerate(""), School::Unknown);
    assert_eq!(enumerate("  "), School::Unknown);
    assert_eq!(enumerate(" ensimag"), School::Unknown);
}

#[test]
fn school_ordinals_follow_declaration_order() {
    let all = [
        School::Ensimag,
        School::Phelma,
        School::E3,
        School::Papet,
        School::Gi,
        School::Polytech,
        School::Esisar,
        School::Iae,
        School::Uga,
        School::Unknown,
    ];
    for (i, s) in all.iter().enumerate() {
        assert_eq!(s.ordinal() as usize, i);
        assert_eq!(School::from_ordinal(i as i64), *s);
    }
    assert_eq!(School::from_ordinal(42), School::Unknown);
    assert_eq!(School::from_ordinal(-1), School::Unknown);
}

#[test]
fn csv_row_converts_to_canonical_account() {
    let recs = read_csv_records(b"Doe,Jane,ENSIMAG,42.50").unwrap();
    assert_eq!(recs.len(), 1);
    let accounts = convert_all(&recs);
    assert_eq!(
        accounts[0],
        account("Doe", "Jane", School::Ensimag, true, 4250, 0, 0)
    );
}

#[test]
fn csv_header_row_is_skipped() {
    let data = b"last_name,first_name,school,balance\nDoe,Jane,E3,1.50\n";
    let recs = read_csv_records(data).unwrap();
    assert_eq!(recs.len(), 1);
    assert_eq!(recs[0].last_name, "Doe");
    assert_eq!(recs[0].school, School::E3);
    assert_eq!(recs[0].balance, money(false, 150, 2));
}

#[test]
fn csv_quoted_comma_balance_parses() {
    let recs = read_csv_records(b"Doe,Jane,GI,\"1,50\"").unwrap();
    assert_eq!(recs[0].balance, money(false, 150, 2));
}

#[test]
fn csv_optional_telephone_column_is_tolerated() {
    let recs = read_csv_records(b"Doe,Jane,E3,0612345678,10.00").unwrap();
    assert_eq!(recs.len(), 1);
    assert_eq!(recs[0].balance, money(false, 1000, 2));
}

#[test]
fn csv_wrong_column_count_is_schema_error() {
    let r = read_csv_records(b"Doe,Jane,E3");
    assert!(matches!(r, Err(MigrateError::Schema(_))), "got {r:?}");
}

#[test]
fn csv_first_bad_row_aborts_whole_read() {
    let r = read_csv_records(b"A,B,E3,bad\nC,D,GI,1.00");
    assert!(matches!(r, Err(MigrateError::Parse(_))), "got {r:?}");
}

#[test]
fn csv_unknown_school_is_tolerated() {
    let recs = read_csv_records(b"Doe,Jane,MIT,1.00").unwrap();
    assert_eq!(recs[0].school, School::Unknown);
}

#[test]
fn csv_invalid_utf8_is_rejected() {
    let r = read_csv_records(b"Doe,Jane,E3,\xff\xfe1.00");
    assert!(r.is_err());
}

#[test]
fn conversion_is_deterministic() {
    let rec = CsvRecord {
        last_name: "Doe".to_string(),
        first_name: "Jane".to_string(),
        school: School::Papet,
        balance: money(false, 999, 2),
    };
    assert_eq!(rec.to_canonical(), rec.clone().to_canonical());
}

#[test]
fn backup_rendering_is_canonical_and_deterministic() {
    let accs = vec![account("Doe", "Jane", School::Ensimag, true, 4250, 0, 0)];
    let text = render_backup(&accs);
    assert_eq!(
        text,
        "[{\"lastName\":\"Doe\",\"firstName\":\"Jane\",\"school\":0,\"isMember\":true,\
         \"balance\":4250,\"stats\":{\"quantityDrank\":0.0,\"totalMoney\":0}}]"
    );
    assert_eq!(text, render_backup(&accs));
}

#[test]
fn backup_restore_round_trip_preserves_every_field() {
    let accs = vec![
        account("O\"Connor", "Anne\\Marie", School::Uga, false, -250, 7, 1300),
        account("Doe\nLine", "Tab\tHere", School::Unknown, true, 0, 0, 0),
        account("Plain", "Name", School::Esisar, true, 9999999, 12, -1),
    ];
    let text = render_backup(&accs);
    let parsed = parse_backup(&text).unwrap();
    assert_eq!(parsed, accs);
}

#[test]
fn backup_empty_array_round_trips() {
    let accs: Vec<Account> = Vec::new();
    let text = render_backup(&accs);
    assert_eq!(text, "[]");
    assert_eq!(parse_backup(&text).unwrap(), accs);
}

#[test]
fn backup_reader_accepts_the_store_shape() {
    let text = "[{\"lastName\":\"A\",\"firstName\":\"B\",\"school\":8,\"isMember\":false,\
                \"balance\":-12,\"stats\":{\"quantityDrank\":5.0,\"totalMoney\":300}}]";
    let parsed = parse_backup(text).unwrap();
    assert_eq!(parsed, vec![account("A", "B", School::Uga, false, -12, 5, 300)]);
}

#[test]
fn backup_malformed_inputs_are_deserialization_errors() {
    let bad = [
        "",
        "not json",
        "[",
        "[] ",
        "[{\"lastName\":\"A\"}]",
        // a school ordinal outside the closed set
        "[{\"lastName\":\"A\",\"firstName\":\"B\",\"school\":42,\"isMember\":true,\
         \"balance\":0,\"stats\":{\"quantityDrank\":0.0,\"totalMoney\":0}}]",
        // a fractional drink quantity cannot be a whole count
        "[{\"lastName\":\"A\",\"firstName\":\"B\",\"school\":1,\"isMember\":true,\
         \"balance\":0,\"stats\":{\"quantityDrank\":3.5,\"totalMoney\":0}}]",
    ];
    for text in bad {
        let r = parse_backup(text);
        assert!(
            matches!(r, Err(MigrateError::Deserialization(_))),
            "expected a deserialization error on {text:?}, got {r:?}"
        );
    }
}

#[test]
fn declined_restore_plans_no_writes() {
    let accs = vec![account("Doe", "Jane", School::Gi, true, 100, 0, 0)];
    assert!(restore_writes(accs.clone(), false).is_empty());
    assert_eq!(restore_writes(accs.clone(), true), accs);
}

#[test]
fn declined_append_plans_no_writes() {
    let recs = read_csv_records(b"Doe,Jane,E3,1.00").unwrap();
    assert!(append_writes(&recs, false).is_empty());
    assert_eq!(append_writes(&recs, true).len(), 1);
}

#[test]
fn appending_twice_doubles_the_writes() {
    let recs = read_csv_records(b"Doe,Jane,E3,1.00\nRoe,John,GI,2.00").unwrap();
    let mut remote: Vec<Account> = Vec::new();
    let first = append_writes(&recs, true);
    remote.extend(first.iter().cloned());
    let second = append_writes(&recs, true);
    remote.extend(second.iter().cloned());
    assert_eq!(remote.len(), 4);
    assert_eq!(remote[0], remote[2]);
    assert_eq!(remote[1], remote[3]);
}

#[test]
fn delete_all_needs_two_affirmations() {
    let ids = vec!["accounts/a".to_string(), "accounts/b".to_string()];
    assert!(delete_all_targets(ids.clone(), false, false).is_empty());
    assert!(delete_all_targets(ids.clone(), true, false).is_empty());
    assert!(delete_all_targets(ids.clone(), false, true).is_empty());
    assert_eq!(delete_all_targets(ids.clone(), true, true), ids);
}

#[test]
fn document_path_yields_relative_identifier() {
    let id = doc_rel_id("projects/demo/databases/(default)/documents/accounts/doc42");
    assert_eq!(id.as_deref(), Some("accounts/doc42"));
}

#[test]
fn document_path_without_marker_yields_nothing() {
    assert_eq!(doc_rel_id("projects/demo/databases/main/documents/accounts/doc42"), None);
    assert_eq!(doc_rel_id("(default)/doc"), None);
    assert_eq!(doc_rel_id(""), None);
}

#[test]
fn empty_sheet_matrix_is_empty_result_error() {
    let rows: Vec<Vec<String>> = Vec::new();
    let r = sheet_rows_to_accounts(&rows);
    assert!(matches!(r, Err(MigrateError::EmptyResult)));
}

#[test]
fn sheet_row_maps_by_position_with_history() {
    let row: Vec<String> = ["Doe", "Jane", "phelma", "TRUE", "10,00", "3", "2", "5,00"]
        .iter()
        .map(|s| s.to_string())
        .collect();
    let accs = sheet_rows_to_accounts(&vec![row]).unwrap();
    assert_eq!(
        accs[0],
        account("Doe", "Jane", School::Phelma, true, 1000, 5, 500)
    );
}

#[test]
fn sheet_missing_cells_default_instead_of_failing() {
    let row: Vec<String> = vec!["Solo".to_string()];
    let accs = sheet_rows_to_accounts(&vec![row]).unwrap();
    assert_eq!(
        accs[0],
        account("Solo", "", School::Unknown, false, 0, 0, 0)
    );
}

#[test]
fn sheet_unreadable_cells_default_instead_of_failing() {
    let row: Vec<String> = ["Doe", "Jane", "??", "maybe", "junk", "x", "-3", "junk"]
        .iter()
        .map(|s| s.to_string())
        .collect();
    let accs = sheet_rows_to_accounts(&vec![row]).unwrap();
    assert_eq!(
        accs[0],
        account("Doe", "Jane", School::Unknown, false, 0, 0, 0)
    );
}

#[test]
fn sheet_record_conversion_carries_membership_through() {
    let rec = SheetRecord {
        last_name: "Doe".to_string(),
        first_name: "Jane".to_string(),
        school: School::Iae,
        is_member: false,
        balance: money(false, 150, 1),
        normal_count: 4,
        special_count: 1,
        recharge: money(true, 25, 1),
    };
    let a = rec.to_canonical();
    assert!(!a.is_member);
    assert_eq!(a.balance, 1500);
    assert_eq!(a.stats.quantity_drank, 5);
    assert_eq!(a.stats.total_money, -250);
}

#[test]
fn error_messages_carry_their_diagnostic() {
    let e = MigrateError::Parse("bad field".to_string());
    assert_eq!(e.message(), "bad field");
    assert_eq!(
        MigrateError::EmptyResult.message(),
        "remote query returned no rows"
    );
}
