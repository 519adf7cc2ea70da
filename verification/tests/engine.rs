use sensor_plot::catalog::SensorLists;
use sensor_plot::engine::{
    build_range_clause, build_select, build_serial_clause, build_where_clause, resolve_bound,
    Bound, CurvePlan, DatasetPlan,
};
use sensor_plot::graph::GraphState;
use sensor_plot::input::InputEdit;

fn strings(items: &[&str]) -> Vec<String> {
    items.iter().map(|s| s.to_string()).collect()
}

fn plot() -> GraphState {
    let mut fields = SensorLists::new();
    fields.insert("S1".to_string(), strings(&["Poле1", "Poле2"]));
    fields.insert("S2".to_string(), strings(&["t"]));
    let mut serials = SensorLists::new();
    serials.insert("S1".to_string(), strings(&["001"]));
    serials.insert("S2".to_string(), strings(&["Средн.", "7"]));
    GraphState::new(&fields, &serials)
}

fn goto(state: &mut GraphState, index: usize) {
    if state.selected().is_none() {
        state.start_editing();
    }
    let mut guard = 0;
    while state.selected() != Some(index) {
        state.select_next(1);
        guard += 1;
        assert!(guard < 1000, "slot {index} cannot be reached");
    }
}

fn pick(state: &mut GraphState, index: usize, value: &str) {
    goto(state, index);
    state.open_selected();
    let list = state.candidates(index);
    let at = list.iter().position(|v| v == value).unwrap();
    while state.field_state(index).menu().unwrap().highlighted() != Some(at) {
        state.move_highlight(true);
    }
    state.commit_selected();
}

fn type_text(state: &mut GraphState, index: usize, text: &str) {
    goto(state, index);
    state.open_selected();
    state.edit_input(InputEdit::Start);
    while !state.field_state(index).input().unwrap().content().is_empty() {
        state.edit_input(InputEdit::End);
        state.edit_input(InputEdit::Remove);
    }
    for ch in text.chars() {
        state.edit_input(InputEdit::Insert(ch));
    }
    state.commit_selected();
}

fn sql_of(plan: &DatasetPlan, curve: usize) -> String {
    match &plan.curves[curve] {
        CurvePlan::Query { sql, .. } => sql.clone(),
        CurvePlan::Empty => panic!("curve {curve} is empty"),
    }
}

fn is_empty(plan: &DatasetPlan, curve: usize) -> bool {
    matches!(plan.curves[curve], CurvePlan::Empty)
}

#[test]
fn nothing_is_planned_before_x_is_chosen() {
    let mut state = plot();
    pick(&mut state, 4, "S1/Poле1");
    assert!(state.was_edited());
    assert!(state.update_datasets(None, None).is_none());
    assert!(state.was_edited());
}

#[test]
fn nothing_is_planned_while_nothing_was_edited() {
    let mut state = plot();
    assert!(state.update_datasets(None, None).is_none());
    pick(&mut state, 0, "date");
    assert!(state.update_datasets(None, None).is_some());
    assert!(!state.was_edited());
    assert!(state.update_datasets(None, None).is_none());
}

#[test]
fn a_curve_over_the_date() {
    let mut state = plot();
    pick(&mut state, 0, "date");
    pick(&mut state, 4, "S1/Poле1");
    pick(&mut state, 5, "001");
    let plan = state.update_datasets(None, None).unwrap();
    assert!(plan.x_is_date);
    assert!(matches!(plan.x_min, Bound::Open));
    assert!(matches!(plan.x_max, Bound::Open));
    assert_eq!(plan.curves.len(), 1);
    assert_eq!(
        sql_of(&plan, 0),
        "SELECT Poле1,date,serial FROM S1 WHERE serial = '001' ORDER BY date"
    );
    assert!(matches!(plan.curves[0], CurvePlan::Query { composite: false, .. }));
    assert!(!state.was_edited());
}

#[test]
fn a_curve_without_a_serial_is_empty() {
    let mut state = plot();
    pick(&mut state, 0, "date");
    pick(&mut state, 4, "S1/Poле1");
    state.add_curve();
    let plan = state.update_datasets(None, None).unwrap();
    assert_eq!(plan.curves.len(), 2);
    assert!(is_empty(&plan, 0));
    assert!(is_empty(&plan, 1));
}

#[test]
fn date_bounds_are_read_as_moments() {
    let mut state = plot();
    pick(&mut state, 0, "date");
    pick(&mut state, 4, "S1/Poле1");
    pick(&mut state, 5, "001");
    type_text(&mut state, 2, "2023-01-01 00:00:00");
    type_text(&mut state, 3, "2023-01-02 12:30:45");
    let plan = state.update_datasets(None, None).unwrap();
    assert!(matches!(plan.x_min, Bound::Date(1672531200)));
    assert!(matches!(plan.x_max, Bound::Date(1672662645)));
    assert_eq!(
        sql_of(&plan, 0),
        "SELECT Poле1,date,serial FROM S1 WHERE date BETWEEN 1672531200 AND 1672662645 AND serial = '001' ORDER BY date"
    );

    type_text(&mut state, 2, "");
    let plan = state.update_datasets(None, None).unwrap();
    assert!(matches!(plan.x_min, Bound::Open));
    assert_eq!(
        sql_of(&plan, 0),
        "SELECT Poле1,date,serial FROM S1 WHERE date < 1672662645 AND serial = '001' ORDER BY date"
    );

    type_text(&mut state, 2, "1969-12-31 23:59:59");
    type_text(&mut state, 3, "");
    let plan = state.update_datasets(None, None).unwrap();
    assert!(matches!(plan.x_min, Bound::Date(-1)));
    assert_eq!(
        sql_of(&plan, 0),
        "SELECT Poле1,date,serial FROM S1 WHERE date > -1 AND serial = '001' ORDER BY date"
    );
}

#[test]
fn a_date_bound_that_is_no_date_withholds_the_plan() {
    let mut state = plot();
    pick(&mut state, 0, "date");
    for text in ["abc", "2023-13-01 00:00:00", "2023-01-01", "12.5", "2023-01-01 25:00:00"] {
        type_text(&mut state, 2, text);
        // a number is of no use where X is the date
        assert!(state.update_datasets(Some("12.5"), None).is_none());
        assert!(state.was_edited());
    }
    type_text(&mut state, 2, "");
    type_text(&mut state, 3, "abc");
    assert!(state.update_datasets(None, None).is_none());
    assert!(state.was_edited());
}

#[test]
fn a_number_bound_that_is_no_number_withholds_the_plan() {
    let mut state = plot();
    pick(&mut state, 0, "S1/Poле1");
    pick(&mut state, 1, "001");
    pick(&mut state, 4, "S1/Poле2");
    assert!(state.update_datasets(None, None).is_some());
    type_text(&mut state, 2, "abc");
    assert!(state.was_edited());
    assert!(state.update_datasets(None, None).is_none());
    assert!(state.was_edited());
    assert_eq!(state.field_state(2).input().unwrap().content(), "abc");
    // a date is of no use where X is a field
    type_text(&mut state, 2, "2023-01-01 00:00:00");
    assert!(state.update_datasets(None, None).is_none());
    assert!(state.was_edited());
}

#[test]
fn number_bounds_go_into_the_query_as_given() {
    let mut state = plot();
    pick(&mut state, 0, "S1/Poле1");
    pick(&mut state, 1, "001");
    pick(&mut state, 4, "S1/Poле2");
    type_text(&mut state, 2, "1.50");
    let plan = state.update_datasets(Some("1.5"), None).unwrap();
    assert!(!plan.x_is_date);
    match &plan.x_min {
        Bound::Number(text) => assert_eq!(text, "1.5"),
        other => panic!("{other:?}"),
    }
    assert!(matches!(plan.x_max, Bound::Open));
    assert_eq!(
        sql_of(&plan, 0),
        "SELECT Poле2,Poле1,serial FROM S1 WHERE Poле1 > 1.5 AND serial = '001' ORDER BY Poле1"
    );
    type_text(&mut state, 3, "1e3");
    let plan = state.update_datasets(Some("1.5"), Some("1000")).unwrap();
    assert_eq!(
        sql_of(&plan, 0),
        "SELECT Poле2,Poле1,serial FROM S1 WHERE Poле1 BETWEEN 1.5 AND 1000 AND serial = '001' ORDER BY Poле1"
    );
    type_text(&mut state, 2, "");
    let plan = state.update_datasets(None, Some("1000")).unwrap();
    assert_eq!(
        sql_of(&plan, 0),
        "SELECT Poле2,Poле1,serial FROM S1 WHERE Poле1 < 1000 AND serial = '001' ORDER BY Poле1"
    );
}

#[test]
fn x_needs_a_serial_for_the_sensor_it_pins() {
    let mut state = plot();
    pick(&mut state, 0, "S1/Poле1");
    pick(&mut state, 4, "S1/Poле2");
    assert!(state.update_datasets(None, None).is_none());
    assert!(state.was_edited());
    pick(&mut state, 1, "001");
    assert!(state.update_datasets(None, None).is_some());
}

#[test]
fn a_derived_curve_reads_its_two_fields() {
    let mut state = plot();
    pick(&mut state, 0, "date");
    pick(&mut state, 4, "S1/Эфф. темп.");
    pick(&mut state, 5, "001");
    let plan = state.update_datasets(None, None).unwrap();
    assert!(is_empty(&plan, 0));
    pick(&mut state, 6, "S1/Poле1");
    let plan = state.update_datasets(None, None).unwrap();
    assert!(is_empty(&plan, 0));
    pick(&mut state, 7, "S1/Poле2");
    let plan = state.update_datasets(None, None).unwrap();
    assert_eq!(
        sql_of(&plan, 0),
        "SELECT Poле1,Poле2,date,serial FROM S1 WHERE serial = '001' ORDER BY date"
    );
    assert!(matches!(plan.curves[0], CurvePlan::Query { composite: true, .. }));
}

#[test]
fn a_serial_that_stands_for_all_units_filters_nothing() {
    let mut state = plot();
    pick(&mut state, 0, "date");
    pick(&mut state, 4, "S2/t");
    pick(&mut state, 5, "Средн.");
    let plan = state.update_datasets(None, None).unwrap();
    assert_eq!(sql_of(&plan, 0), "SELECT t,date,serial FROM S2  ORDER BY date");
    type_text(&mut state, 3, "1970-01-01 00:01:40");
    let plan = state.update_datasets(None, None).unwrap();
    assert_eq!(
        sql_of(&plan, 0),
        "SELECT t,date,serial FROM S2 WHERE date < 100 ORDER BY date"
    );
}

#[test]
fn every_curve_gets_its_own_query() {
    let mut state = plot();
    pick(&mut state, 0, "date");
    pick(&mut state, 4, "S1/Poле2");
    pick(&mut state, 5, "001");
    state.add_curve();
    state.add_curve();
    pick(&mut state, 12, "S2/t");
    pick(&mut state, 13, "7");
    let plan = state.update_datasets(None, None).unwrap();
    assert_eq!(plan.curves.len(), 3);
    assert_eq!(
        sql_of(&plan, 0),
        "SELECT Poле2,date,serial FROM S1 WHERE serial = '001' ORDER BY date"
    );
    assert!(is_empty(&plan, 1));
    assert_eq!(
        sql_of(&plan, 2),
        "SELECT t,date,serial FROM S2 WHERE serial = '7' ORDER BY date"
    );
}

#[test]
fn planning_with_given_moments() {
    let mut state = plot();
    pick(&mut state, 0, "date");
    pick(&mut state, 4, "S2/t");
    pick(&mut state, 5, "7");
    type_text(&mut state, 2, "whatever");
    assert!(state.plan_datasets(None, None, None, None).is_none());
    let plan = state.plan_datasets(Some(5), Some(9), None, None).unwrap();
    assert!(matches!(plan.x_min, Bound::Date(5)));
    // the upper input is empty: what it would read as does not count
    assert!(matches!(plan.x_max, Bound::Open));
    assert_eq!(
        sql_of(&plan, 0),
        "SELECT t,date,serial FROM S2 WHERE date > 5 AND serial = '7' ORDER BY date"
    );
}

#[test]
fn bounds_from_texts() {
    assert!(matches!(resolve_bound("", true, None, None), Some(Bound::Open)));
    assert!(matches!(resolve_bound("", false, Some(1), Some("2")), Some(Bound::Open)));
    assert!(matches!(resolve_bound("x", true, Some(7), Some("2")), Some(Bound::Date(7))));
    assert!(resolve_bound("x", true, None, Some("2")).is_none());
    assert!(resolve_bound("x", false, Some(7), None).is_none());
    match resolve_bound("x", false, Some(7), Some("2")) {
        Some(Bound::Number(text)) => assert_eq!(text, "2"),
        other => panic!("{other:?}"),
    }
}

#[test]
fn the_parts_of_a_query() {
    let low = Bound::Date(-5);
    let high = Bound::Number("2.5".to_string());
    assert_eq!(build_range_clause("x", &Bound::Open, &Bound::Open), "");
    assert_eq!(build_range_clause("x", &low, &Bound::Open), "x > -5");
    assert_eq!(build_range_clause("x", &Bound::Open, &high), "x < 2.5");
    assert_eq!(build_range_clause("x", &low, &high), "x BETWEEN -5 AND 2.5");
    assert_eq!(build_serial_clause("001"), "serial = '001'");
    assert_eq!(build_serial_clause("Средн."), "");
    assert_eq!(build_serial_clause("Мин."), "");
    assert_eq!(build_serial_clause("Макс."), "");
    assert_eq!(build_serial_clause(""), "serial = ''");
    assert_eq!(build_where_clause("", ""), "");
    assert_eq!(build_where_clause("a", ""), "WHERE a");
    assert_eq!(build_where_clause("", "b"), "WHERE b");
    assert_eq!(build_where_clause("a", "b"), "WHERE a AND b");
    assert_eq!(
        build_select("y", "x", "T", "WHERE a"),
        "SELECT y,x,serial FROM T WHERE a ORDER BY x"
    );
    assert_eq!(build_select("y", "x", "T", ""), "SELECT y,x,serial FROM T  ORDER BY x");
}
