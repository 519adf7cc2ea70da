use sensor_plot::import::{get_all_sensors_fields, kept_fields, keys_of, shared_texts, Reading};
use sensor_plot::rows::{
    columns_to_keep, csv_row_of, import_csv, parse_csv_title, plan_csv_import, plan_csv_rows,
    plan_json_import, plan_json_rows, row_of, table_plan, value_in, CsvImport,
};
use sensor_plot::text::{split_at_pattern, split_by, trim_end};

fn strings(items: &[&str]) -> Vec<String> {
    items.iter().map(|s| s.to_string()).collect()
}

fn reading(name: &str, serial: &str, date: &str, data: &[(&str, &str)]) -> Reading {
    Reading {
        name: name.to_string(),
        serial: serial.to_string(),
        date: date.to_string(),
        data: data.iter().map(|(k, v)| (k.to_string(), v.to_string())).collect(),
    }
}

fn readings() -> Vec<Reading> {
    vec![
        reading(
            "Паскаль-11",
            "a",
            "2023-01-01 00:00:00",
            &[("t", "1"), ("p", "2"), ("system_v", "x")],
        ),
        reading("Other", "z", "not a date", &[("NTP_x", "1"), ("up_time", "2")]),
        reading(
            "Паскаль 11",
            "b",
            "2023-01-01 00:00:10",
            &[("p", "3"), ("t", "4"), ("h", "5")],
        ),
        reading("Тест", "c", "1970-01-01 00:00:00", &[("h", "6")]),
    ]
}

fn windows_1251(text: &str) -> Vec<u8> {
    let (bytes, _, unmappable) = encoding_rs::WINDOWS_1251.encode(text);
    assert!(!unmappable);
    bytes.into_owned()
}

const EXPORT: &str = "Прибор;Тест-Студии (01);\nDate;t-1;h;system_x;\nunits;C;%;;\n2023-01-01 00:00:00;1.5;40;x;\n2023-01-01 00:00:01;1.6;41;y;\n";

#[test]
fn pieces_of_a_line() {
    assert_eq!(split_by("a;b;;c", ';'), strings(&["a", "b", "", "c"]));
    assert_eq!(split_by("abc", ';'), strings(&["abc"]));
    assert_eq!(split_by("", ';'), strings(&[""]));
    assert_eq!(split_by(";", ';'), strings(&["", ""]));
    assert_eq!(
        split_at_pattern("name (01)", " ("),
        Some(("name".to_string(), "01)".to_string()))
    );
    assert_eq!(
        split_at_pattern("a (b (c", " ("),
        Some(("a".to_string(), "b (c".to_string()))
    );
    assert_eq!(split_at_pattern("a ( b", " ("), Some(("a".to_string(), " b".to_string())));
    assert_eq!(split_at_pattern("name(01)", " ("), None);
    assert_eq!(split_at_pattern(" ", " ("), None);
    assert_eq!(split_at_pattern("", " ("), None);
    assert_eq!(split_at_pattern(" (", " ("), Some((String::new(), String::new())));
    assert_eq!(trim_end("01))", ')'), "01");
    assert_eq!(trim_end("0)1", ')'), "0)1");
    assert_eq!(trim_end(")))", ')'), "");
    assert_eq!(trim_end("", ')'), "");
}

#[test]
fn the_fields_that_all_readings_of_a_sensor_share() {
    let catalog = get_all_sensors_fields(&readings());
    assert_eq!(catalog.len(), 2);
    assert_eq!(catalog.name(0), "Паскаль_11");
    assert_eq!(catalog.values(0), &strings(&["p", "t"]));
    assert_eq!(catalog.name(1), "Тест");
    assert_eq!(catalog.values(1), &strings(&["h"]));
    assert_eq!(catalog.get("Other"), None);
    assert_eq!(get_all_sensors_fields(&Vec::new()).len(), 0);
}

#[test]
fn a_sensor_whose_readings_share_nothing_is_left_out() {
    let list = vec![
        reading("S", "a", "", &[("t", "1")]),
        reading("S", "a", "", &[("h", "1")]),
        reading("S", "a", "", &[("t", "1"), ("h", "2")]),
    ];
    assert_eq!(get_all_sensors_fields(&list).len(), 0);
}

#[test]
fn helpers_on_lists_of_fields() {
    let all = readings();
    assert_eq!(keys_of(&all[0]), strings(&["t", "p", "system_v"]));
    assert_eq!(kept_fields(&strings(&["t", "", "Date", "x_date", "p"])), strings(&["t", "p"]));
    assert_eq!(
        shared_texts(&strings(&["a", "b", "c"]), &strings(&["c", "a", "d"])),
        strings(&["a", "c"])
    );
    assert_eq!(value_in(&all[0], "p"), "2");
    assert_eq!(value_in(&all[0], "h"), "");
    assert_eq!(
        row_of(&all[2], &strings(&["p", "t"]), -5),
        strings(&["3", "4", "b", "-5"])
    );
}

#[test]
fn an_import_of_readings() {
    let plan = plan_json_import(&readings());
    assert_eq!(plan.catalog.len(), 2);
    assert_eq!(plan.tables.len(), 2);
    assert_eq!(plan.tables[0].sensor, "Паскаль_11");
    assert_eq!(
        plan.tables[0].create_table_sql,
        "CREATE TABLE IF NOT EXISTS Паскаль_11 (id INTEGER PRIMARY KEY, p REAL,t REAL,serial TEXT,date INTEGER, UNIQUE(serial, date))"
    );
    assert_eq!(
        plan.tables[0].insert_entry_sql,
        "INSERT INTO Паскаль_11 (p,t,serial,date) VALUES (?1,?2,?3,?4)"
    );
    assert_eq!(plan.tables[1].sensor, "Тест");
    let rows = plan.rows.unwrap();
    assert_eq!(rows.len(), 3);
    assert_eq!(rows[0].table, 0);
    assert_eq!(rows[0].values, strings(&["2", "1", "a", "1672531200"]));
    assert_eq!(rows[1].table, 0);
    assert_eq!(rows[1].values, strings(&["3", "4", "b", "1672531210"]));
    assert_eq!(rows[2].table, 1);
    assert_eq!(rows[2].values, strings(&["6", "c", "0"]));
}

#[test]
fn a_date_that_is_no_date_leaves_no_rows() {
    let mut list = readings();
    list[2].date = "2023-01-01".to_string();
    let plan = plan_json_import(&list);
    assert_eq!(plan.tables.len(), 2);
    assert!(plan.rows.is_none());
}

#[test]
fn rows_of_readings_with_given_moments() {
    let list = readings();
    let catalog = get_all_sensors_fields(&list);
    let rows = plan_json_rows(&catalog, &list, &vec![Some(1), None, Some(3), Some(4)]).unwrap();
    assert_eq!(rows.len(), 3);
    assert_eq!(rows[1].values, strings(&["3", "4", "b", "3"]));
    assert!(plan_json_rows(&catalog, &list, &vec![Some(1), Some(2), None, Some(4)]).is_none());
    assert!(plan_json_rows(&catalog, &list, &vec![None, Some(2), Some(3), Some(4)]).is_none());
}

#[test]
fn the_title_of_an_export() {
    assert_eq!(
        parse_csv_title("Прибор;Тест-Студии (01);"),
        Some(("Тест-Студии".to_string(), "01".to_string()))
    );
    assert_eq!(
        parse_csv_title("x;name (a (b)))"),
        Some(("name".to_string(), "a (b".to_string()))
    );
    assert_eq!(parse_csv_title("Прибор"), None);
    assert_eq!(parse_csv_title("Прибор;Тест"), None);
    assert_eq!(parse_csv_title("name (01);x"), None);
}

#[test]
fn the_columns_of_an_export() {
    assert_eq!(
        columns_to_keep(&strings(&["Date", "t-1", "h", "system_x", ""])),
        vec![1, 2]
    );
    assert_eq!(columns_to_keep(&strings(&["Date", ""])), Vec::<usize>::new());
    let record = strings(&["2023-01-01 00:00:00", "1.5", "40"]);
    assert_eq!(
        csv_row_of(&record, &vec![2, 1], "01", Some(7)),
        Some(strings(&["40", "1.5", "01", "7"]))
    );
    assert_eq!(csv_row_of(&record, &vec![2, 3], "01", Some(7)), None);
    assert_eq!(csv_row_of(&record, &vec![1], "01", None), None);
    assert_eq!(csv_row_of(&Vec::new(), &Vec::new(), "01", Some(7)), None);
    let records = vec![record.clone(), record];
    assert_eq!(
        plan_csv_rows(&records, &vec![1], "s", &vec![Some(1), Some(2)]),
        Some(vec![strings(&["1.5", "s", "1"]), strings(&["1.5", "s", "2"])])
    );
    assert_eq!(plan_csv_rows(&records, &vec![1], "s", &vec![Some(1), None]), None);
    assert_eq!(plan_csv_rows(&records, &vec![5], "s", &vec![Some(1), Some(2)]), None);
}

#[test]
fn a_table_and_its_statements() {
    let table = table_plan("T", &strings(&["a-b"]));
    assert_eq!(table.sensor, "T");
    assert_eq!(
        table.create_table_sql,
        "CREATE TABLE IF NOT EXISTS T (id INTEGER PRIMARY KEY, a_b REAL,serial TEXT,date INTEGER, UNIQUE(serial, date))"
    );
    assert_eq!(table.insert_entry_sql, "INSERT INTO T (a_b,serial,date) VALUES (?1,?2,?3)");
}

#[test]
fn an_import_of_an_export() {
    match import_csv(&windows_1251(EXPORT)) {
        CsvImport::Table { table, rows } => {
            assert_eq!(table.sensor, "Тест_Студии");
            assert_eq!(
                table.create_table_sql,
                "CREATE TABLE IF NOT EXISTS Тест_Студии (id INTEGER PRIMARY KEY, t_1 REAL,h REAL,serial TEXT,date INTEGER, UNIQUE(serial, date))"
            );
            assert_eq!(
                table.insert_entry_sql,
                "INSERT INTO Тест_Студии (t_1,h,serial,date) VALUES (?1,?2,?3,?4)"
            );
            assert_eq!(
                rows,
                Some(vec![
                    strings(&["1.5", "40", "01", "1672531200"]),
                    strings(&["1.6", "41", "01", "1672531201"]),
                ])
            );
        }
        other => panic!("{other:?}"),
    }
}

#[test]
fn the_bytes_of_an_export_are_not_read_as_utf8() {
    // the same text in UTF-8 names another sensor
    match import_csv(EXPORT.as_bytes()) {
        CsvImport::Table { table, .. } => assert_ne!(table.sensor, "Тест_Студии"),
        other => panic!("{other:?}"),
    }
}

#[test]
fn an_export_with_a_bad_record_has_no_rows() {
    let bad_date = EXPORT.replace("2023-01-01 00:00:01", "yesterday");
    match import_csv(&windows_1251(&bad_date)) {
        CsvImport::Table { table, rows } => {
            assert_eq!(table.sensor, "Тест_Студии");
            assert_eq!(rows, None);
        }
        other => panic!("{other:?}"),
    }
    let short_record = EXPORT.replace("1.6;41;y;", "1.6");
    match import_csv(&windows_1251(&short_record)) {
        CsvImport::Table { rows, .. } => assert_eq!(rows, None),
        other => panic!("{other:?}"),
    }
}

#[test]
fn what_is_no_export() {
    assert!(matches!(import_csv(b""), CsvImport::Invalid));
    assert!(matches!(import_csv(b"no title\nDate;t\n"), CsvImport::Invalid));
    assert!(matches!(import_csv(b"x;name (1)\nDate;t"), CsvImport::Invalid));
    assert!(matches!(import_csv(b"x;name (1)\nDate;system_t\n1;2\n"), CsvImport::Nothing));
    assert!(matches!(
        import_csv(b"x;name (1)\nDate;t\n"),
        CsvImport::Table { rows: Some(rows), .. } if rows.is_empty()
    ));
}

#[test]
fn planning_an_export_with_given_records() {
    let records = vec![strings(&["2023-01-01 00:00:00", "1.5", "40", "x", ""])];
    match plan_csv_import(EXPORT, Some(&records)) {
        CsvImport::Table { rows, .. } => {
            assert_eq!(rows, Some(vec![strings(&["1.5", "40", "01", "1672531200"])]));
        }
        other => panic!("{other:?}"),
    }
    assert!(matches!(
        plan_csv_import(EXPORT, None),
        CsvImport::Table { rows: None, .. }
    ));
}
