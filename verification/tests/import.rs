use sensor_plot::import::{
    create_table_sql_query, filter_out_field, insert_entry_sql_query, normalize_sensor_name,
    space,
};
use sensor_plot::text::{
    chars_of, ends_with, join_texts, push_decimal, push_signed_decimal, replace_char, same_text,
    split_once, starts_with, string_of,
};

fn strings(items: &[&str]) -> Vec<String> {
    items.iter().map(|s| s.to_string()).collect()
}

#[test]
fn sensor_names_become_table_names() {
    assert_eq!(normalize_sensor_name("Тест Студии"), "Тест_Студии");
    assert_eq!(normalize_sensor_name("Паскаль-11 v2\t"), "Паскаль_11_v2_");
    assert_eq!(normalize_sensor_name("a\u{a0}b\u{2003}c\u{3000}"), "a_b_c_");
    assert_eq!(normalize_sensor_name("plain_name"), "plain_name");
    assert_eq!(normalize_sensor_name(""), "");
}

#[test]
fn white_space_is_what_the_standard_library_calls_so() {
    for code in 0..0x3100u32 {
        if let Some(c) = char::from_u32(code) {
            assert_eq!(space(c), c.is_whitespace(), "U+{code:04X}");
        }
    }
    assert!(!space('\u{feff}'));
    assert!(!space('\u{10ffff}'));
}

#[test]
fn which_fields_an_import_keeps() {
    assert!(filter_out_field("temperature"));
    assert!(filter_out_field("date"));
    assert!(filter_out_field("system"));
    assert!(filter_out_field("date_"));
    assert!(!filter_out_field(""));
    assert!(!filter_out_field("Date"));
    assert!(!filter_out_field("system_Version"));
    assert!(!filter_out_field("NTP_sync"));
    assert!(!filter_out_field("last_date"));
    assert!(!filter_out_field("up_time"));
    assert!(!filter_out_field("_time"));
}

#[test]
fn the_statement_that_creates_a_table() {
    assert_eq!(
        create_table_sql_query("S1", &strings(&["a-b", "c"])),
        "CREATE TABLE IF NOT EXISTS S1 (id INTEGER PRIMARY KEY, a_b REAL,c REAL,serial TEXT,date INTEGER, UNIQUE(serial, date))"
    );
    assert_eq!(
        create_table_sql_query("S1", &[]),
        "CREATE TABLE IF NOT EXISTS S1 (id INTEGER PRIMARY KEY, serial TEXT,date INTEGER, UNIQUE(serial, date))"
    );
}

#[test]
fn the_statement_that_inserts_a_row() {
    assert_eq!(
        insert_entry_sql_query("S1", &strings(&["a-b", "c"])),
        "INSERT INTO S1 (a_b,c,serial,date) VALUES (?1,?2,?3,?4)"
    );
    assert_eq!(
        insert_entry_sql_query("S1", &[]),
        "INSERT INTO S1 (,serial,date) VALUES (?1,?2)"
    );
    let many = strings(&["a", "b", "c", "d", "e", "f", "g", "h", "i", "j"]);
    assert_eq!(
        insert_entry_sql_query("T", &many),
        "INSERT INTO T (a,b,c,d,e,f,g,h,i,j,serial,date) VALUES (?1,?2,?3,?4,?5,?6,?7,?8,?9,?10,?11,?12)"
    );
}

#[test]
fn numbers_in_decimal() {
    let mut out = String::from("n=");
    push_decimal(&mut out, 0);
    out.push(' ');
    push_decimal(&mut out, 7);
    out.push(' ');
    push_decimal(&mut out, 10);
    out.push(' ');
    push_decimal(&mut out, 1672531200);
    out.push(' ');
    push_decimal(&mut out, 18446744073709551615);
    out.push(' ');
    push_decimal(&mut out, u128::MAX);
    assert_eq!(
        out,
        "n=0 7 10 1672531200 18446744073709551615 340282366920938463463374607431768211455"
    );
    let mut out = String::new();
    push_signed_decimal(&mut out, -1);
    out.push(' ');
    push_signed_decimal(&mut out, 0);
    out.push(' ');
    push_signed_decimal(&mut out, i64::MAX);
    out.push(' ');
    push_signed_decimal(&mut out, i64::MIN);
    assert_eq!(out, "-1 0 9223372036854775807 -9223372036854775808");
}

#[test]
fn strings_as_characters() {
    assert_eq!(chars_of("Poле"), vec!['P', 'o', 'л', 'е']);
    assert_eq!(string_of(&vec!['a', 'б', 'c', 'd'], 1, 3), "бc");
    assert_eq!(string_of(&vec!['a'], 1, 1), "");
    assert!(same_text("Poле", "Poле"));
    assert!(!same_text("Poле", "Pole"));
    assert!(!same_text("a", "ab"));
    assert!(starts_with("system_x", "system_"));
    assert!(starts_with("abc", ""));
    assert!(!starts_with("sys", "system_"));
    assert!(!starts_with("xsystem_", "system_"));
    assert!(ends_with("up_time", "_time"));
    assert!(ends_with("abc", ""));
    assert!(!ends_with("time", "_time"));
    assert!(!ends_with("_time_", "_time"));
    assert_eq!(split_once("a;b;c", ';'), Some(("a".to_string(), "b;c".to_string())));
    assert_eq!(split_once("abc", ';'), None);
    assert_eq!(replace_char("a-b-c", '-', '_'), "a_b_c");
    assert_eq!(join_texts(&strings(&["a", "b", "c"]), ", "), "a, b, c");
    assert_eq!(join_texts(&strings(&["a"]), ","), "a");
    assert_eq!(join_texts(&strings(&["", ""]), ","), ",");
    assert_eq!(join_texts(&Vec::new(), ","), "");
}
