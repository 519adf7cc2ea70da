use sensor_plot::catalog::{locate, sorted_set, SensorLists};
use sensor_plot::text::{rank, Rank};

fn strings(items: &[&str]) -> Vec<String> {
    items.iter().map(|s| s.to_string()).collect()
}

#[test]
fn ranks_follow_the_code_points() {
    assert_eq!(rank("a", "b"), Rank::Before);
    assert_eq!(rank("b", "a"), Rank::After);
    assert_eq!(rank("ab", "ab"), Rank::Same);
    assert_eq!(rank("a", "ab"), Rank::Before);
    assert_eq!(rank("", "a"), Rank::Before);
    assert_eq!(rank("", ""), Rank::Same);
    assert_eq!(rank("Z", "a"), Rank::Before);
    assert_eq!(rank("z", "я"), Rank::Before);
    assert_eq!(rank("S10", "S2"), Rank::Before);
}

#[test]
fn ranks_agree_with_the_order_of_strings() {
    let samples = ["", "a", "ab", "b", "Poле1", "Poле2", "S1", "s1", "я", "😀", "\u{ffff}"];
    for a in samples {
        for b in samples {
            let expected = match a.cmp(b) {
                std::cmp::Ordering::Less => Rank::Before,
                std::cmp::Ordering::Equal => Rank::Same,
                std::cmp::Ordering::Greater => Rank::After,
            };
            assert_eq!(rank(a, b), expected);
        }
    }
}

#[test]
fn a_sorted_set_is_sorted_and_holds_nothing_twice() {
    let set = sorted_set(strings(&["b", "a", "c", "a", "b"]));
    assert_eq!(set, strings(&["a", "b", "c"]));
    assert_eq!(sorted_set(Vec::new()), Vec::<String>::new());
}

#[test]
fn locate_finds_the_place() {
    let list = strings(&["b", "d", "f"]);
    assert_eq!(locate(&list, "a"), (0, false));
    assert_eq!(locate(&list, "b"), (0, true));
    assert_eq!(locate(&list, "c"), (1, false));
    assert_eq!(locate(&list, "f"), (2, true));
    assert_eq!(locate(&list, "g"), (3, false));
}

#[test]
fn a_catalog_keeps_its_sensors_in_order() {
    let mut catalog = SensorLists::new();
    assert_eq!(catalog.len(), 0);
    catalog.insert("S2".to_string(), strings(&["t"]));
    catalog.insert("S1".to_string(), strings(&["Poле2", "Poле1", "Poле2"]));
    catalog.insert("S3".to_string(), Vec::new());
    assert_eq!(catalog.len(), 3);
    assert_eq!(catalog.name(0), "S1");
    assert_eq!(catalog.name(1), "S2");
    assert_eq!(catalog.name(2), "S3");
    assert_eq!(catalog.values(0), &strings(&["Poле1", "Poле2"]));
    assert_eq!(catalog.values(2), &Vec::<String>::new());
    assert_eq!(catalog.position("S2"), Some(1));
    assert_eq!(catalog.position("S0"), None);
    assert_eq!(catalog.get("S2"), Some(&strings(&["t"])));
    assert_eq!(catalog.get("S4"), None);
}

#[test]
fn inserting_a_known_sensor_replaces_its_list() {
    let mut catalog = SensorLists::new();
    catalog.insert("S1".to_string(), strings(&["a", "b"]));
    catalog.insert("S2".to_string(), strings(&["c"]));
    catalog.insert("S1".to_string(), strings(&["z", "y"]));
    assert_eq!(catalog.len(), 2);
    assert_eq!(catalog.get("S1"), Some(&strings(&["y", "z"])));
    assert_eq!(catalog.get("S2"), Some(&strings(&["c"])));
}

#[test]
fn a_copy_holds_the_same() {
    let mut catalog = SensorLists::new();
    catalog.insert("S1".to_string(), strings(&["a", "b"]));
    let copy = catalog.clone();
    catalog.insert("S1".to_string(), strings(&["c"]));
    assert_eq!(copy.len(), 1);
    assert_eq!(copy.get("S1"), Some(&strings(&["a", "b"])));
}
