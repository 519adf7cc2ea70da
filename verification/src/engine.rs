//! From a configuration to queries: the bounds of the X axis, the filter and
//! the ordering, and for every curve the SQL statement that reads its rows.

use vstd::prelude::*;

use crate::candidates::{
    chosen, date_field, date_name, field_name, field_of, field_part, is_qualified,
    qualified_entry, resolved_field, sensor_name, sensor_of,
};
use crate::field::{GraphFieldState, Slot};
use crate::graph::{raw_candidates, row_view, serial_candidates, text_of, GraphState};
use crate::model::{raw_list, serial_list, GraphModel};
use crate::text::{push_signed_decimal, same_text, signed_decimal, texts};

verus! {

/// The number of seconds from 1970-01-01 00:00:00 to the date and time that
/// `text` gives in the form `YYYY-MM-DD HH:MM:SS`, or `None` where `text` is
/// no such date and time. It stands for what the date parser returns.
pub uninterp spec fn datetime_timestamp(text: Seq<char>) -> Option<i64>;

/// Reads a date and time with `chrono::NaiveDateTime::parse_from_str` and
/// the format `%Y-%m-%d %H:%M:%S`, and turns what was read into seconds with
/// `and_utc().timestamp()`. The contract only gives the result its name: the
/// same text reads as the same moment, whatever the machine.
#[verifier::external_body]
pub(crate) fn parse_datetime(text: &str) -> (r: Option<i64>)
    ensures
        r == datetime_timestamp(text@),
{
    match chrono::NaiveDateTime::parse_from_str(text, "%Y-%m-%d %H:%M:%S") {
        Ok(moment) => Some(moment.and_utc().timestamp()),
        Err(_) => None,
    }
}

/// One end of the X range, as the contracts see it.
pub enum BoundModel {
    /// No bound on this side.
    Open,
    /// A moment, in seconds since 1970.
    Date(i64),
    /// A number, by its decimal text.
    Number(Seq<char>),
}

/// One end of the X range.
#[derive(Debug)]
pub enum Bound {
    /// No bound on this side.
    Open,
    /// A moment, in seconds since 1970.
    Date(i64),
    /// A number, by its decimal text.
    Number(String),
}

impl View for Bound {
    type V = BoundModel;

    open spec fn view(&self) -> BoundModel {
        match self {
            Bound::Open => BoundModel::Open,
            Bound::Date(t) => BoundModel::Date(*t),
            Bound::Number(n) => BoundModel::Number(n@),
        }
    }
}

/// The bound that a bound input stands for. An empty input bounds nothing.
/// Any other input has to read as a moment when X is the date, and as a
/// number when X is a field; where it does not, there is no bound to speak
/// of and the configuration cannot be planned.
pub open spec fn bound_of(
    text: Seq<char>,
    is_date: bool,
    stamp: Option<i64>,
    number: Option<Seq<char>>,
) -> Option<BoundModel> {
    if text.len() == 0 {
        Some(BoundModel::Open)
    } else if is_date {
        match stamp {
            Some(t) => Some(BoundModel::Date(t)),
            None => None,
        }
    } else {
        match number {
            Some(n) => Some(BoundModel::Number(n)),
            None => None,
        }
    }
}

/// How a bound is written in a query.
pub open spec fn bound_text(bound: BoundModel) -> Seq<char> {
    match bound {
        BoundModel::Open => Seq::empty(),
        BoundModel::Date(t) => signed_decimal(t as int),
        BoundModel::Number(n) => n,
    }
}

/// The condition that keeps the rows whose `column` lies within the bounds;
/// empty where both sides are open.
pub open spec fn range_clause(column: Seq<char>, min: BoundModel, max: BoundModel) -> Seq<char> {
    if !(min is Open) && !(max is Open) {
        column + " BETWEEN "@ + bound_text(min) + " AND "@ + bound_text(max)
    } else if !(max is Open) {
        column + " < "@ + bound_text(max)
    } else if !(min is Open) {
        column + " > "@ + bound_text(min)
    } else {
        Seq::empty()
    }
}

/// Whether a serial entry stands for all units of a sensor at once.
pub open spec fn is_aggregate(serial: Seq<char>) -> bool {
    serial == "Средн."@ || serial == "Мин."@ || serial == "Макс."@
}

/// The condition that keeps the rows of one unit; empty for an entry that
/// stands for all units.
pub open spec fn serial_clause(serial: Seq<char>) -> Seq<char> {
    if is_aggregate(serial) {
        Seq::empty()
    } else {
        "serial = '"@ + serial + "'"@
    }
}

/// The filter of a query from its two conditions, each of which may be
/// empty.
pub open spec fn where_clause(range: Seq<char>, serial: Seq<char>) -> Seq<char> {
    if range.len() > 0 && serial.len() > 0 {
        "WHERE "@ + range + " AND "@ + serial
    } else if range.len() == 0 && serial.len() == 0 {
        Seq::empty()
    } else {
        "WHERE "@ + range + serial
    }
}

/// The statement that reads the rows of a curve: the Y columns, the X
/// column and the serial, from the table of the curve's sensor, filtered and
/// in the order of X.
pub open spec fn select_statement(
    columns: Seq<char>,
    x_field: Seq<char>,
    sensor: Seq<char>,
    filter: Seq<char>,
) -> Seq<char> {
    "SELECT "@ + columns + ","@ + x_field + ",serial FROM "@ + sensor + " "@ + filter
        + " ORDER BY "@ + x_field
}

/// The two measured fields of a derived curve, as columns of a query.
pub open spec fn column_pair(first: Seq<char>, second: Seq<char>) -> Seq<char> {
    first + ","@ + second
}

/// What is to be done for one curve, as the contracts see it.
pub enum CurveModel {
    /// Nothing to show yet: a choice is missing.
    Empty,
    /// Run `sql`. With `composite` every row holds two measured values
    /// before X, to be reduced to one by the formula of the derived field;
    /// without it every row holds the Y value before X.
    Query { sql: Seq<char>, composite: bool },
}

/// What is to be done for one curve.
#[derive(Debug)]
pub enum CurvePlan {
    /// Nothing to show yet: a choice is missing.
    Empty,
    /// Run `sql`; `composite` says whether every row holds two measured
    /// values to be reduced by the formula of the derived field.
    Query { sql: String, composite: bool },
}

impl View for CurvePlan {
    type V = CurveModel;

    open spec fn view(&self) -> CurveModel {
        match self {
            CurvePlan::Empty => CurveModel::Empty,
            CurvePlan::Query { sql, composite } => CurveModel::Query {
                sql: sql@,
                composite: *composite,
            },
        }
    }
}

/// What is to be done to draw a configuration, as the contracts see it.
pub struct PlanModel {
    /// Whether X is the date: then a curve is one series, else its rows are
    /// binned by X into a minimum, a mean and a maximum series.
    pub x_is_date: bool,
    /// Lower end of the X range.
    pub x_min: BoundModel,
    /// Upper end of the X range.
    pub x_max: BoundModel,
    /// One entry per curve, in their order.
    pub curves: Seq<CurveModel>,
}

/// What is to be done to draw a configuration.
#[derive(Debug)]
pub struct DatasetPlan {
    /// Whether X is the date: then a curve is one series, else its rows are
    /// binned by X into a minimum, a mean and a maximum series.
    pub x_is_date: bool,
    /// Lower end of the X range.
    pub x_min: Bound,
    /// Upper end of the X range.
    pub x_max: Bound,
    /// One entry per curve, in their order.
    pub curves: Vec<CurvePlan>,
}

impl View for DatasetPlan {
    type V = PlanModel;

    open spec fn view(&self) -> PlanModel {
        PlanModel {
            x_is_date: self.x_is_date,
            x_min: self.x_min@,
            x_max: self.x_max@,
            curves: Seq::new(self.curves@.len(), |k: int| self.curves@[k]@),
        }
    }
}

/// The text of a bound input; a slot that is no input reads as empty.
pub open spec fn input_text(slot: Slot) -> Seq<char> {
    match slot {
        Slot::Input(input) => input.text,
        _ => Seq::empty(),
    }
}

impl GraphModel {
    /// The serial number that X supplies: the choice of its serial menu.
    pub open spec fn x_serial(self) -> Option<Seq<char>> {
        chosen(serial_list(self.serials, self.x_value()), self.x[1].choice())
    }

    /// What is to be done for the curve with the slots `row`, given the
    /// column of X, the serial that X supplies if it supplies one, and the
    /// condition on X. A curve without a chosen entry is empty; so is one
    /// without a serial of its own where X supplies none, and a derived
    /// curve that lacks one of its two measured fields.
    pub open spec fn curve_planned(
        self,
        row: Seq<Slot>,
        x_field: Seq<char>,
        x_serial: Option<Seq<char>>,
        range: Seq<char>,
    ) -> CurveModel {
        let value = self.y_value(row);
        let serial = match x_serial {
            Some(s) => Some(s),
            None => chosen(serial_list(self.serials, value), row[1].choice()),
        };
        let first = chosen(raw_list(self.fields, value), row[2].choice());
        let second = chosen(raw_list(self.fields, value), row[3].choice());
        let composite = row[2] is Menu || row[3] is Menu;
        if value is None || serial is None {
            CurveModel::Empty
        } else if composite && (first is None || second is None) {
            CurveModel::Empty
        } else {
            let columns = if composite {
                column_pair(field_of(first->0), field_of(second->0))
            } else {
                field_of(value->0)
            };
            CurveModel::Query {
                sql: select_statement(
                    columns,
                    x_field,
                    sensor_of(value->0),
                    where_clause(range, serial_clause(serial->0)),
                ),
                composite,
            }
        }
    }

    /// What is to be done to draw the configuration, given what the two
    /// bound inputs read as: as moments (`min_stamp`, `max_stamp`) and as
    /// numbers (`min_number`, `max_number`). There is nothing to do while
    /// nothing was edited, while X has chosen no entry or no serial for the
    /// sensor it pins, and while a bound input holds what does not read as
    /// the kind of value that X has.
    pub open spec fn planned(
        self,
        min_stamp: Option<i64>,
        max_stamp: Option<i64>,
        min_number: Option<Seq<char>>,
        max_number: Option<Seq<char>>,
    ) -> Option<PlanModel> {
        match self.x_value() {
            Some(x) => {
                let x_field = resolved_field(x);
                let is_date = x_field == date_name();
                let min = bound_of(input_text(self.x[2]), is_date, min_stamp, min_number);
                let max = bound_of(input_text(self.x[3]), is_date, max_stamp, max_number);
                if !self.was_edited || (is_qualified(x) && self.x_serial() is None) || min is None
                    || max is None {
                    None
                } else {
                    let x_serial = if is_qualified(x) {
                        self.x_serial()
                    } else {
                        None
                    };
                    let range = range_clause(x_field, min->0, max->0);
                    Some(
                        PlanModel {
                            x_is_date: is_date,
                            x_min: min->0,
                            x_max: max->0,
                            curves: Seq::new(
                                self.ys.len(),
                                |k: int| self.curve_planned(self.ys[k], x_field, x_serial, range),
                            ),
                        },
                    )
                }
            },
            None => None,
        }
    }
}

/// The bound that a bound input stands for, from its text and from what the
/// text reads as.
pub fn resolve_bound(text: &str, is_date: bool, stamp: Option<i64>, number: Option<&str>) -> (r:
    Option<Bound>)
    ensures
        match r {
            Some(b) => bound_of(text@, is_date, stamp, text_of(number)) == Some(b@),
            None => bound_of(text@, is_date, stamp, text_of(number)) is None,
        },
{
    if text.is_empty() {
        Some(Bound::Open)
    } else if is_date {
        match stamp {
            Some(t) => Some(Bound::Date(t)),
            None => None,
        }
    } else {
        match number {
            Some(n) => Some(Bound::Number(String::from_str(n))),
            None => None,
        }
    }
}

/// Writes a bound as it stands in a query.
pub fn write_bound(out: &mut String, bound: &Bound)
    ensures
        final(out)@ == old(out)@ + bound_text(bound@),
{
    match bound {
        Bound::Open => {
            assert(old(out)@ + bound_text(bound@) =~= old(out)@);
        },
        Bound::Date(t) => push_signed_decimal(out, *t),
        Bound::Number(n) => out.append(n.as_str()),
    }
}

/// The condition that keeps the rows whose `column` lies within the bounds.
pub fn build_range_clause(column: &str, min: &Bound, max: &Bound) -> (out: String)
    ensures
        out@ == range_clause(column@, min@, max@),
{
    let open_min = match min {
        Bound::Open => true,
        _ => false,
    };
    let open_max = match max {
        Bound::Open => true,
        _ => false,
    };
    if open_min && open_max {
        String::new()
    } else {
        let mut out = String::from_str(column);
        if !open_min && !open_max {
            out.append(" BETWEEN ");
            write_bound(&mut out, min);
            out.append(" AND ");
            write_bound(&mut out, max);
        } else if !open_max {
            out.append(" < ");
            write_bound(&mut out, max);
        } else {
            out.append(" > ");
            write_bound(&mut out, min);
        }
        out
    }
}

/// The condition that keeps the rows of one unit.
pub fn build_serial_clause(serial: &str) -> (out: String)
    ensures
        out@ == serial_clause(serial@),
{
    if same_text(serial, "Средн.") || same_text(serial, "Мин.") || same_text(serial, "Макс.") {
        String::new()
    } else {
        let mut out = String::from_str("serial = '");
        out.append(serial);
        out.append("'");
        out
    }
}

/// The filter of a query from its two conditions.
pub fn build_where_clause(range: &str, serial: &str) -> (out: String)
    ensures
        out@ == where_clause(range@, serial@),
{
    let has_range = !range.is_empty();
    let has_serial = !serial.is_empty();
    if !has_range && !has_serial {
        String::new()
    } else {
        let mut out = String::from_str("WHERE ");
        out.append(range);
        if has_range && has_serial {
            out.append(" AND ");
        }
        out.append(serial);
        out
    }
}

/// The statement that reads the rows of a curve.
pub fn build_select(columns: &str, x_field: &str, sensor: &str, filter: &str) -> (out: String)
    ensures
        out@ == select_statement(columns@, x_field@, sensor@, filter@),
{
    let mut out = String::from_str("SELECT ");
    out.append(columns);
    out.append(",");
    out.append(x_field);
    out.append(",serial FROM ");
    out.append(sensor);
    out.append(" ");
    out.append(filter);
    out.append(" ORDER BY ");
    out.append(x_field);
    out
}

/// The choice of a menu slot; `None` for any other slot.
pub fn choice_of(slot: &GraphFieldState) -> (r: Option<usize>)
    ensures
        r == slot@.choice(),
{
    match slot {
        GraphFieldState::Menu(menu) => menu.selected(),
        _ => None,
    }
}

/// The entry of `list` that `choice` points at, if it points into the list.
pub fn pick(list: &Vec<String>, choice: Option<usize>) -> (r: Option<&str>)
    ensures
        text_of(r) == chosen(texts(list@), choice),
{
    match choice {
        Some(i) => {
            if i < list.len() {
                Some(list[i].as_str())
            } else {
                None
            }
        },
        None => None,
    }
}

/// Whether a slot is a menu.
pub fn is_menu(slot: &GraphFieldState) -> (r: bool)
    ensures
        r == slot@ is Menu,
{
    match slot {
        GraphFieldState::Menu(_) => true,
        _ => false,
    }
}

/// The text of a bound input; a slot that is no input reads as empty.
pub fn text_in(slot: &GraphFieldState) -> (r: &str)
    ensures
        r@ == input_text(slot@),
{
    match slot {
        GraphFieldState::Input(input) => input.content(),
        _ => {
            let r = "";
            proof {
                reveal_strlit("");
            }
            assert(r@ =~= Seq::<char>::empty());
            r
        },
    }
}

impl GraphState {
    /// What is to be done for curve `k`, given the column of X, the serial
    /// that X supplies if it supplies one, and the condition on X.
    pub fn plan_curve(&self, k: usize, x_field: &str, x_serial: Option<&str>, range: &str) -> (r:
        CurvePlan)
        requires
            self.wf(),
            k < self@.ys.len(),
        ensures
            r@ == self@.curve_planned(self@.ys[k as int], x_field@, text_of(x_serial), range@),
    {
        let value = self.y_value(k);
        let rows = self.ys_states();
        let row = &rows[k];
        assert(self@.ys[k as int] == row_view(*row));
        let v: &str = match value {
            Some(v) => v,
            None => {
                return CurvePlan::Empty;
            },
        };
        let own_serials = serial_candidates(self.serial_fields(), value);
        let serial: &str = match x_serial {
            Some(s) => s,
            None => match pick(&own_serials, choice_of(&row[1])) {
                Some(s) => s,
                None => {
                    return CurvePlan::Empty;
                },
            },
        };
        let composite = is_menu(&row[2]) || is_menu(&row[3]);
        let raw = raw_candidates(self.sensor_fields(), value);
        let columns: String = if composite {
            let first = pick(&raw, choice_of(&row[2]));
            let second = pick(&raw, choice_of(&row[3]));
            match first {
                Some(a) => match second {
                    Some(b) => {
                        let mut pair = field_part(a);
                        pair.append(",");
                        pair.append(field_part(b).as_str());
                        pair
                    },
                    None => {
                        return CurvePlan::Empty;
                    },
                },
                None => {
                    return CurvePlan::Empty;
                },
            }
        } else {
            field_part(v)
        };
        let serial_part = build_serial_clause(serial);
        let filter = build_where_clause(range, serial_part.as_str());
        let sensor = sensor_name(v);
        let sql = build_select(columns.as_str(), x_field, sensor.as_str(), filter.as_str());
        CurvePlan::Query { sql, composite }
    }

    /// Plans the datasets of the configuration, given what the two bound
    /// inputs read as, and notes that nothing is left to plan. Where there
    /// is nothing to do yet the state stays as it is, marked as edited.
    #[verifier::loop_isolation(false)]
    pub fn plan_datasets(
        &mut self,
        min_stamp: Option<i64>,
        max_stamp: Option<i64>,
        min_number: Option<&str>,
        max_number: Option<&str>,
    ) -> (r: Option<DatasetPlan>)
        requires
            old(self).wf(),
        ensures
            match r {
                Some(plan) => old(self)@.planned(
                    min_stamp,
                    max_stamp,
                    text_of(min_number),
                    text_of(max_number),
                ) == Some(plan@),
                None => old(self)@.planned(
                    min_stamp,
                    max_stamp,
                    text_of(min_number),
                    text_of(max_number),
                ) is None,
            },
            final(self)@ == (if r is Some {
                GraphModel { was_edited: false, ..old(self)@ }
            } else {
                old(self)@
            }),
            final(self).wf(),
    {
        if !self.was_edited() {
            return None;
        }
        let x: &str = match self.x_value() {
            Some(x) => x,
            None => {
                return None;
            },
        };
        let pinned = qualified_entry(x);
        let x_serials = serial_candidates(self.serial_fields(), self.x_value());
        let slots = self.x_states();
        let x_serial: Option<&str> = if pinned {
            match pick(&x_serials, choice_of(&slots[1])) {
                Some(s) => Some(s),
                None => {
                    return None;
                },
            }
        } else {
            None
        };
        let x_field = field_name(x);
        let is_date = same_text(x_field.as_str(), date_field());
        let x_min = match resolve_bound(text_in(&slots[2]), is_date, min_stamp, min_number) {
            Some(b) => b,
            None => {
                return None;
            },
        };
        let x_max = match resolve_bound(text_in(&slots[3]), is_date, max_stamp, max_number) {
            Some(b) => b,
            None => {
                return None;
            },
        };
        let range = build_range_clause(x_field.as_str(), &x_min, &x_max);
        let mut curves: Vec<CurvePlan> = Vec::new();
        let count = self.ys_states().len();
        let mut k: usize = 0;
        while k < count
            invariant
                k <= count,
                count == self@.ys.len(),
                curves.len() == k,
                forall|j: int|
                    0 <= j < k ==> curves@[j]@ == self@.curve_planned(
                        self@.ys[j],
                        x_field@,
                        text_of(x_serial),
                        range@,
                    ),
            decreases count - k,
        {
            let curve = self.plan_curve(k, x_field.as_str(), x_serial, range.as_str());
            curves.push(curve);
            k += 1;
        }
        let plan = DatasetPlan { x_is_date: is_date, x_min, x_max, curves };
        proof {
            let wanted = self@.planned(
                min_stamp,
                max_stamp,
                text_of(min_number),
                text_of(max_number),
            );
            assert(wanted is Some);
            assert(plan@.curves =~= wanted->0.curves);
        }
        self.clear_edited();
        Some(plan)
    }

    /// Plans the datasets of the configuration. The bound inputs are read as
    /// moments here; `min_number` and `max_number` say what they read as
    /// numbers, in the decimal form that goes into a query, or `None` where
    /// they are no numbers.
    pub fn update_datasets(&mut self, min_number: Option<&str>, max_number: Option<&str>) -> (r:
        Option<DatasetPlan>)
        requires
            old(self).wf(),
        ensures
            match r {
                Some(plan) => old(self)@.planned(
                    datetime_timestamp(input_text(old(self)@.x[2])),
                    datetime_timestamp(input_text(old(self)@.x[3])),
                    text_of(min_number),
                    text_of(max_number),
                ) == Some(plan@),
                None => old(self)@.planned(
                    datetime_timestamp(input_text(old(self)@.x[2])),
                    datetime_timestamp(input_text(old(self)@.x[3])),
                    text_of(min_number),
                    text_of(max_number),
                ) is None,
            },
            final(self)@ == (if r is Some {
                GraphModel { was_edited: false, ..old(self)@ }
            } else {
                old(self)@
            }),
            final(self).wf(),
    {
        let slots = self.x_states();
        let min_stamp = parse_datetime(text_in(&slots[2]));
        let max_stamp = parse_datetime(text_in(&slots[3]));
        self.plan_datasets(min_stamp, max_stamp, min_number, max_number)
    }
}

} // verus!
