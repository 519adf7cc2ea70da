use sensor_plot::candidates::{
    block_of, build_x_fields, build_y_fields, composite_entry, composite_field, date_field,
    field_name, field_part, find_text, metadata_field, qualified_entry, qualify, raw_fields,
    rebase, sensor_name, split_entry,
};
use sensor_plot::catalog::SensorLists;

fn strings(items: &[&str]) -> Vec<String> {
    items.iter().map(|s| s.to_string()).collect()
}

fn catalog() -> SensorLists {
    let mut fields = SensorLists::new();
    fields.insert("S2".to_string(), strings(&["id", "t", "h", "date", "serial"]));
    fields.insert("S1".to_string(), strings(&["Poле1", "Poле2"]));
    fields
}

#[test]
fn the_names_of_the_special_entries() {
    assert_eq!(date_field(), "date");
    assert_eq!(composite_field(), "Эфф. темп.");
}

#[test]
fn entries_split_at_the_first_slash() {
    assert_eq!(qualify("S1", "t"), "S1/t");
    assert_eq!(split_entry("S1/t"), Some(("S1".to_string(), "t".to_string())));
    assert_eq!(split_entry("S1/a/b"), Some(("S1".to_string(), "a/b".to_string())));
    assert_eq!(split_entry("date"), None);
    assert_eq!(split_entry("/"), Some((String::new(), String::new())));
    assert_eq!(sensor_name("S1/t"), "S1");
    assert_eq!(sensor_name("date"), "date");
    assert_eq!(field_part("S1/t"), "t");
    assert_eq!(field_part("date"), "");
    assert_eq!(field_name("S1/t"), "t");
    assert_eq!(field_name("date"), "date");
    assert!(qualified_entry("S1/t"));
    assert!(!qualified_entry("date"));
    assert!(composite_entry("S1/Эфф. темп."));
    assert!(!composite_entry("S1/t"));
    assert!(!composite_entry("Эфф. темп."));
}

#[test]
fn metadata_is_no_measurement() {
    assert!(metadata_field("id"));
    assert!(metadata_field("serial"));
    assert!(metadata_field("date"));
    assert!(!metadata_field("Date"));
    assert!(!metadata_field("t"));
    assert!(!metadata_field(""));
}

#[test]
fn a_block_lists_the_measured_fields_of_a_sensor() {
    assert_eq!(
        block_of("S2", &strings(&["date", "h", "id", "serial", "t"])),
        strings(&["S2/h", "S2/t"])
    );
    assert_eq!(raw_fields(&catalog(), "S2"), strings(&["S2/h", "S2/t"]));
    assert_eq!(raw_fields(&catalog(), "S9"), Vec::<String>::new());
}

#[test]
fn the_x_list_begins_with_the_date() {
    assert_eq!(build_x_fields(&SensorLists::new()), strings(&["date"]));
    assert_eq!(
        build_x_fields(&catalog()),
        strings(&["date", "S1/Poле1", "S1/Poле2", "S2/h", "S2/t"])
    );
}

#[test]
fn the_y_list_has_a_derived_field_behind_every_sensor() {
    let x = build_x_fields(&catalog());
    let expected = strings(&[
        "S1/Poле1",
        "S1/Poле2",
        "S1/Эфф. темп.",
        "S2/h",
        "S2/t",
        "S2/Эфф. темп.",
    ]);
    assert_eq!(build_y_fields(&x, None), expected);
    assert_eq!(build_y_fields(&x, Some("date")), expected);
}

#[test]
fn the_y_list_keeps_to_the_sensor_of_x() {
    let x = build_x_fields(&catalog());
    assert_eq!(
        build_y_fields(&x, Some("S2/t")),
        strings(&["S2/h", "S2/t", "S2/Эфф. темп."])
    );
    assert_eq!(
        build_y_fields(&x, Some("S1/Poле1")),
        strings(&["S1/Poле1", "S1/Poле2", "S1/Эфф. темп."])
    );
    assert_eq!(build_y_fields(&x, Some("S9/t")), Vec::<String>::new());
}

#[test]
fn an_empty_catalog_has_an_empty_y_list() {
    let x = build_x_fields(&SensorLists::new());
    assert_eq!(build_y_fields(&x, None), Vec::<String>::new());
}

#[test]
fn find_text_gives_the_first_place() {
    let list = strings(&["a", "b", "a"]);
    assert_eq!(find_text(&list, "a"), Some(0));
    assert_eq!(find_text(&list, "b"), Some(1));
    assert_eq!(find_text(&list, "c"), None);
}

#[test]
fn a_choice_follows_its_entry() {
    let old = strings(&["date", "S1/a", "S2/b"]);
    let new = strings(&["date", "S0/z", "S1/a"]);
    assert_eq!(rebase(&old, &new, Some(1)), Some(2));
    assert_eq!(rebase(&old, &new, Some(0)), Some(0));
    assert_eq!(rebase(&old, &new, Some(2)), None);
    assert_eq!(rebase(&old, &new, None), None);
    assert_eq!(rebase(&old, &new, Some(3)), None);
}

#[test]
fn a_choice_that_is_carried_over_twice_stays() {
    let old = strings(&["x", "a", "b"]);
    let new = strings(&["a", "b", "a"]);
    let once = rebase(&old, &new, Some(1));
    assert_eq!(once, Some(0));
    assert_eq!(rebase(&new, &new, once), once);
}
