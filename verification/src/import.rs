//! What an import needs to know before it talks to the store: the name of a
//! sensor's table, the fields worth keeping, and the statements that create
//! a table and insert a row.

use vstd::prelude::*;

use crate::candidates::find_text;
use crate::catalog::{
    lemma_contains_inserted, lemma_sorted_index, listed, lookup, names, Entry, SensorLists,
};
use crate::text::{
    after_first, before_first, chars_of, decimal, ends_with, join, join_texts, last_match,
    push_decimal, replace_char, replaced, same_text, split, split_at_last_pattern, split_by,
    split_once, starts_with, string_of, texts,
};

verus! {

/// Whether `c` is white space: one of the characters that Unicode lists
/// under White_Space.
pub open spec fn is_space(c: char) -> bool {
    let n = c as int;
    ||| 0x09 <= n <= 0x0D
    ||| n == 0x20
    ||| n == 0x85
    ||| n == 0xA0
    ||| n == 0x1680
    ||| 0x2000 <= n <= 0x200A
    ||| n == 0x2028
    ||| n == 0x2029
    ||| n == 0x202F
    ||| n == 0x205F
    ||| n == 0x3000
}

/// A sensor's name as the name of its table: every hyphen and every white
/// space turned into an underscore.
pub open spec fn normalized(name: Seq<char>) -> Seq<char> {
    Seq::new(
        name.len(),
        |i: int|
            if name[i] == '-' || is_space(name[i]) {
                '_'
            } else {
                name[i]
            },
    )
}

/// Whether an import keeps a field: it has a name, is not the date of the
/// reading, and is none of the device's own bookkeeping.
pub open spec fn is_kept_field(field: Seq<char>) -> bool {
    &&& field.len() > 0
    &&& field != "Date"@
    &&& !"system_"@.is_prefix_of(field)
    &&& !"NTP_"@.is_prefix_of(field)
    &&& !"_date"@.is_suffix_of(field)
    &&& !"_time"@.is_suffix_of(field)
}

/// Every field as a column of real numbers.
pub open spec fn real_columns(fields: Seq<Seq<char>>) -> Seq<Seq<char>> {
    Seq::new(fields.len(), |i: int| fields[i] + " REAL"@)
}

/// The statement that creates the table of `sensor` with one real column
/// per field, the serial and the date; hyphens in column names become
/// underscores.
pub open spec fn create_table_statement(sensor: Seq<char>, fields: Seq<Seq<char>>) -> Seq<char> {
    "CREATE TABLE IF NOT EXISTS "@ + sensor + " (id INTEGER PRIMARY KEY, "@ + replaced(
        join(real_columns(fields).push("serial TEXT"@).push("date INTEGER"@), ","@),
        '-',
        '_',
    ) + ", UNIQUE(serial, date))"@
}

/// The placeholders `?1` to `?count`.
pub open spec fn placeholders(count: nat) -> Seq<Seq<char>> {
    Seq::new(count, |i: int| "?"@ + decimal((i + 1) as nat))
}

/// The statement that inserts one row into the table of `sensor`: a value
/// for every field, then the serial and the date.
pub open spec fn insert_entry_statement(sensor: Seq<char>, fields: Seq<Seq<char>>) -> Seq<char> {
    "INSERT INTO "@ + sensor + " ("@ + replaced(join(fields, ","@), '-', '_')
        + ",serial,date) VALUES ("@ + join(placeholders(fields.len() + 2), ","@) + ")"@
}

/// `s` without the white space at its end.
pub open spec fn without_trailing_space(s: Seq<char>) -> Seq<char>
    decreases s.len(),
{
    if s.len() > 0 && is_space(s.last()) {
        without_trailing_space(s.drop_last())
    } else {
        s
    }
}

/// `s` without the white space at its beginning.
pub open spec fn without_leading_space(s: Seq<char>) -> Seq<char>
    decreases s.len(),
{
    if s.len() > 0 && is_space(s[0]) {
        without_leading_space(s.drop_first())
    } else {
        s
    }
}

/// `s` without the white space around it.
pub open spec fn trimmed(s: Seq<char>) -> Seq<char> {
    without_leading_space(without_trailing_space(s))
}

/// The name of a column from its definition: what stands before the first
/// blank, white space around the definition apart.
pub open spec fn column_name(definition: Seq<char>) -> Seq<char> {
    before_first(trimmed(definition), ' ')
}

/// The names of the columns of a table, from the statement that created
/// it: the definitions stand between the first `(` and the last
/// `, UNIQUE`, parted by commas, each a name, a blank and a type. `None`
/// for a statement that is not of this form.
pub open spec fn table_columns(sql: Seq<char>) -> Option<Seq<Seq<char>>> {
    let body = after_first(sql, '(');
    let definitions = split(body.take(last_match(body, ", UNIQUE"@)), ',');
    if !sql.contains('(') || last_match(body, ", UNIQUE"@) < 0 || exists|i: int|
        0 <= i < definitions.len() && !trimmed(#[trigger] definitions[i]).contains(' ') {
        None
    } else {
        Some(Seq::new(definitions.len(), |i: int| column_name(definitions[i])))
    }
}

/// Whether `c` is white space.
pub fn space(c: char) -> (r: bool)
    ensures
        r == is_space(c),
{
    let n: u32 = c as u32;
    (0x09 <= n && n <= 0x0D) || n == 0x20 || n == 0x85 || n == 0xA0 || n == 0x1680 || (0x2000 <= n
        && n <= 0x200A) || n == 0x2028 || n == 0x2029 || n == 0x202F || n == 0x205F || n == 0x3000
}

/// A sensor's name as the name of its table.
#[verifier::loop_isolation(false)]
pub fn normalize_sensor_name(name: &str) -> (out: String)
    ensures
        out@ == normalized(name@),
{
    let chars = chars_of(name);
    let mut out = String::new();
    let mut i: usize = 0;
    while i < chars.len()
        invariant
            i <= chars.len(),
            out@ == normalized(chars@.take(i as int)),
        decreases chars.len() - i,
    {
        let c = chars[i];
        let mapped = if c == '-' || space(c) {
            '_'
        } else {
            c
        };
        out.push(mapped);
        i += 1;
        assert(normalized(chars@.take(i as int)) =~= normalized(chars@.take(i - 1)).push(mapped));
    }
    assert(chars@.take(chars.len() as int) =~= chars@);
    out
}

/// `s` without the white space around it.
#[verifier::loop_isolation(false)]
pub fn trim(s: &str) -> (out: String)
    ensures
        out@ == trimmed(s@),
{
    let chars = chars_of(s);
    let mut end: usize = chars.len();
    assert(chars@.take(end as int) =~= chars@);
    while end > 0 && space(chars[end - 1])
        invariant
            end <= chars.len(),
            without_trailing_space(chars@) == without_trailing_space(chars@.take(end as int)),
        decreases end,
    {
        assert(chars@.take(end as int).drop_last() =~= chars@.take(end - 1));
        end -= 1;
    }
    let ghost body = chars@.take(end as int);
    let mut start: usize = 0;
    assert(body.skip(0) =~= body);
    while start < end && space(chars[start])
        invariant
            start <= end <= chars.len(),
            without_leading_space(body) == without_leading_space(body.skip(start as int)),
        decreases end - start,
    {
        assert(body.skip(start as int).drop_first() =~= body.skip(start + 1));
        start += 1;
    }
    assert(chars@.subrange(start as int, end as int) =~= body.skip(start as int));
    string_of(&chars, start, end)
}

/// The names of the columns of a table, from the statement that created it.
#[verifier::loop_isolation(false)]
pub fn columns_of_table(sql: &str) -> (r: Option<Vec<String>>)
    ensures
        match r {
            Some(columns) => table_columns(sql@) == Some(texts(columns@)),
            None => table_columns(sql@) is None,
        },
{
    let body = match split_once(sql, '(') {
        Some((_, body)) => body,
        None => {
            return None;
        },
    };
    let list = match split_at_last_pattern(body.as_str(), ", UNIQUE") {
        Some((list, _)) => list,
        None => {
            return None;
        },
    };
    let definitions = split_by(list.as_str(), ',');
    let mut columns: Vec<String> = Vec::new();
    let mut i: usize = 0;
    while i < definitions.len()
        invariant
            i <= definitions.len(),
            columns.len() == i,
            forall|j: int| 0 <= j < i ==> trimmed(#[trigger] texts(definitions@)[j]).contains(' '),
            forall|j: int| 0 <= j < i ==> columns@[j]@ == column_name(definitions@[j]@),
        decreases definitions.len() - i,
    {
        let definition = trim(definitions[i].as_str());
        match split_once(definition.as_str(), ' ') {
            Some((name, _)) => columns.push(name),
            None => {
                assert(!trimmed(texts(definitions@)[i as int]).contains(' '));
                return None;
            },
        }
        i += 1;
    }
    assert(texts(columns@) =~= Seq::new(
        definitions@.len(),
        |i: int| column_name(texts(definitions@)[i]),
    ));
    Some(columns)
}

/// Whether an import keeps a field.
pub fn filter_out_field(field: &str) -> (r: bool)
    ensures
        r == is_kept_field(field@),
{
    !field.is_empty() && !same_text(field, "Date") && !starts_with(field, "system_")
        && !starts_with(field, "NTP_") && !ends_with(field, "_date") && !ends_with(field, "_time")
}

/// The statement that creates the table of `sensor`.
#[verifier::loop_isolation(false)]
pub fn create_table_sql_query(sensor: &str, fields: &[String]) -> (out: String)
    ensures
        out@ == create_table_statement(sensor@, texts(fields@)),
{
    let mut columns: Vec<String> = Vec::new();
    let mut i: usize = 0;
    while i < fields.len()
        invariant
            i <= fields.len(),
            texts(columns@) == real_columns(texts(fields@)).take(i as int),
        decreases fields.len() - i,
    {
        let ghost before = texts(columns@);
        let mut column = fields[i].clone();
        column.append(" REAL");
        columns.push(column);
        i += 1;
        assert(texts(columns@) =~= before.push(texts(fields@)[i - 1] + " REAL"@));
        assert(texts(columns@) =~= real_columns(texts(fields@)).take(i as int));
    }
    assert(real_columns(texts(fields@)).take(fields.len() as int) =~= real_columns(
        texts(fields@),
    ));
    let ghost reals = texts(columns@);
    columns.push(String::from_str("serial TEXT"));
    assert(texts(columns@) =~= reals.push("serial TEXT"@));
    let ghost with_serial = texts(columns@);
    columns.push(String::from_str("date INTEGER"));
    assert(texts(columns@) =~= with_serial.push("date INTEGER"@));
    let joined = join_texts(&columns, ",");
    let list = replace_char(joined.as_str(), '-', '_');
    let mut out = String::from_str("CREATE TABLE IF NOT EXISTS ");
    out.append(sensor);
    out.append(" (id INTEGER PRIMARY KEY, ");
    out.append(list.as_str());
    out.append(", UNIQUE(serial, date))");
    out
}

/// The statement that inserts one row into the table of `sensor`.
#[verifier::loop_isolation(false)]
pub fn insert_entry_sql_query(sensor: &str, fields: &[String]) -> (out: String)
    ensures
        out@ == insert_entry_statement(sensor@, texts(fields@)),
{
    let mut names: Vec<String> = Vec::new();
    let mut i: usize = 0;
    while i < fields.len()
        invariant
            i <= fields.len(),
            texts(names@) == texts(fields@).take(i as int),
        decreases fields.len() - i,
    {
        let ghost before = texts(names@);
        names.push(fields[i].clone());
        i += 1;
        assert(texts(names@) =~= before.push(texts(fields@)[i - 1]));
        assert(texts(names@) =~= texts(fields@).take(i as int));
    }
    assert(texts(fields@).take(fields.len() as int) =~= texts(fields@));
    let joined = join_texts(&names, ",");
    let fields_names = replace_char(joined.as_str(), '-', '_');
    let count: u128 = fields.len() as u128 + 2;
    let mut places: Vec<String> = Vec::new();
    let mut k: u128 = 0;
    while k < count
        invariant
            k <= count,
            texts(places@) == placeholders(count as nat).take(k as int),
        decreases count - k,
    {
        let ghost before = texts(places@);
        let mut place = String::from_str("?");
        push_decimal(&mut place, k + 1);
        places.push(place);
        k += 1;
        assert(texts(places@) =~= before.push("?"@ + decimal(k as nat)));
        assert(texts(places@) =~= placeholders(count as nat).take(k as int));
    }
    assert(placeholders(count as nat).take(count as int) =~= placeholders(count as nat));
    let fields_places = join_texts(&places, ",");
    let mut out = String::from_str("INSERT INTO ");
    out.append(sensor);
    out.append(" (");
    out.append(fields_names.as_str());
    out.append(",serial,date) VALUES (");
    out.append(fields_places.as_str());
    out.append(")");
    out
}

/// One reading of a sensor as an export gives it, as the contracts see it.
pub struct ReadingModel {
    /// The sensor's name as the export spells it.
    pub name: Seq<char>,
    /// The serial number of the unit.
    pub serial: Seq<char>,
    /// Date and time of the reading.
    pub date: Seq<char>,
    /// The names of the fields measured.
    pub keys: Seq<Seq<char>>,
    /// The value of every field, in the order of `keys`.
    pub values: Seq<Seq<char>>,
}

/// One reading of a sensor as an export gives it.
#[derive(Debug)]
pub struct Reading {
    /// The sensor's name as the export spells it.
    pub name: String,
    /// The serial number of the unit.
    pub serial: String,
    /// Date and time of the reading, as `YYYY-MM-DD HH:MM:SS`.
    pub date: String,
    /// Every field measured, with its value.
    pub data: Vec<(String, String)>,
}

impl View for Reading {
    type V = ReadingModel;

    open spec fn view(&self) -> ReadingModel {
        ReadingModel {
            name: self.name@,
            serial: self.serial@,
            date: self.date@,
            keys: Seq::new(self.data@.len(), |i: int| self.data@[i].0@),
            values: Seq::new(self.data@.len(), |i: int| self.data@[i].1@),
        }
    }
}

/// The views of a list of readings, element by element.
pub open spec fn reading_views(readings: Seq<Reading>) -> Seq<ReadingModel> {
    Seq::new(readings.len(), |i: int| readings[i]@)
}

/// Whether a reading is one of the sensor with the table `sensor`.
pub open spec fn is_of(reading: ReadingModel, sensor: Seq<char>) -> bool {
    normalized(reading.name) == sensor
}

/// Whether some reading is one of `sensor`.
pub open spec fn seen(readings: Seq<ReadingModel>, sensor: Seq<char>) -> bool {
    exists|i: int| 0 <= i < readings.len() && is_of(#[trigger] readings[i], sensor)
}

/// Whether `field` is a field of `sensor` worth a column: an import keeps
/// it, and every reading of the sensor measures it.
pub open spec fn common_field(readings: Seq<ReadingModel>, sensor: Seq<char>, field: Seq<char>) -> bool {
    &&& is_kept_field(field)
    &&& seen(readings, sensor)
    &&& forall|i: int|
        0 <= i < readings.len() && is_of(#[trigger] readings[i], sensor) ==> readings[i].keys.contains(
            field,
        )
}

/// Whether `catalog` lists for every sensor of `readings` the fields worth
/// a column, and leaves out the sensors that have none.
pub open spec fn is_field_catalog(catalog: Seq<Entry>, readings: Seq<ReadingModel>) -> bool {
    &&& forall|sensor: Seq<char>, field: Seq<char>|
        #[trigger] listed(catalog, sensor).contains(field) <==> common_field(
            readings,
            sensor,
            field,
        )
    &&& forall|sensor: Seq<char>|
        (#[trigger] lookup(catalog, sensor)) is Some ==> listed(catalog, sensor).len() > 0
}

/// One more reading: what it does to the fields worth a column.
pub proof fn lemma_common_next(
    readings: Seq<ReadingModel>,
    i: int,
    sensor: Seq<char>,
    field: Seq<char>,
)
    requires
        0 <= i < readings.len(),
    ensures
        seen(readings.take(i + 1), sensor) <==> seen(readings.take(i), sensor) || is_of(
            readings[i],
            sensor,
        ),
        common_field(readings.take(i + 1), sensor, field) <==> (if is_of(readings[i], sensor) {
            is_kept_field(field) && readings[i].keys.contains(field) && (seen(
                readings.take(i),
                sensor,
            ) ==> common_field(readings.take(i), sensor, field))
        } else {
            common_field(readings.take(i), sensor, field)
        }),
{
    let before = readings.take(i);
    let after = readings.take(i + 1);
    assert(after[i] == readings[i]);
    if seen(before, sensor) {
        let k = choose|k: int| 0 <= k < before.len() && is_of(#[trigger] before[k], sensor);
        assert(after[k] == before[k]);
    }
    if seen(after, sensor) && !is_of(readings[i], sensor) {
        let k = choose|k: int| 0 <= k < after.len() && is_of(#[trigger] after[k], sensor);
        assert(before[k] == after[k]);
    }
    if common_field(after, sensor, field) {
        assert forall|k: int| 0 <= k < before.len() && is_of(
            #[trigger] before[k],
            sensor,
        ) implies before[k].keys.contains(field) by {
            assert(after[k] == before[k]);
        }
    }
    if is_kept_field(field) && seen(after, sensor) && (is_of(readings[i], sensor)
        ==> readings[i].keys.contains(field)) && (seen(before, sensor) ==> common_field(
        before,
        sensor,
        field,
    )) {
        assert forall|k: int| 0 <= k < after.len() && is_of(
            #[trigger] after[k],
            sensor,
        ) implies after[k].keys.contains(field) by {
            if k < i {
                assert(before[k] == after[k]);
            }
        }
    }
}

/// The names of the fields that a reading measures.
#[verifier::loop_isolation(false)]
pub fn keys_of(reading: &Reading) -> (out: Vec<String>)
    ensures
        texts(out@) == reading@.keys,
{
    let mut out: Vec<String> = Vec::new();
    let mut i: usize = 0;
    while i < reading.data.len()
        invariant
            i <= reading.data.len(),
            out.len() == i,
            forall|j: int| 0 <= j < i ==> out@[j]@ == reading.data@[j].0@,
        decreases reading.data.len() - i,
    {
        out.push(reading.data[i].0.clone());
        i += 1;
    }
    assert(texts(out@) =~= reading@.keys);
    out
}

/// The strings of `list` that an import keeps as fields.
#[verifier::loop_isolation(false)]
pub fn kept_fields(list: &Vec<String>) -> (out: Vec<String>)
    ensures
        forall|f: Seq<char>|
            #[trigger] texts(out@).contains(f) <==> texts(list@).contains(f) && is_kept_field(f),
{
    let mut out: Vec<String> = Vec::new();
    let ghost all = texts(list@);
    let mut i: usize = 0;
    while i < list.len()
        invariant
            i <= list.len(),
            forall|f: Seq<char>|
                #[trigger] texts(out@).contains(f) <==> all.take(i as int).contains(f)
                    && is_kept_field(f),
        decreases list.len() - i,
    {
        let ghost before = texts(out@);
        let keep = filter_out_field(list[i].as_str());
        if keep {
            out.push(list[i].clone());
        }
        proof {
            let item = all[i as int];
            crate::catalog::lemma_contains_next(all, i as int);
            if keep {
                assert(texts(out@) =~= before.insert(before.len() as int, item));
                lemma_contains_inserted(before, before.len() as int, item);
            }
            assert forall|f: Seq<char>|
                #[trigger] texts(out@).contains(f) <==> all.take(i + 1).contains(f)
                    && is_kept_field(f) by {
                assert(before.contains(f) <==> all.take(i as int).contains(f) && is_kept_field(f));
                assert(all.take(i + 1).contains(f) <==> all.take(i as int).contains(f) || f
                    == item);
                if keep {
                    assert(before.insert(before.len() as int, item).contains(f) <==> before.contains(
                        f,
                    ) || f == item);
                }
            }
        }
        i += 1;
    }
    assert(all.take(list.len() as int) =~= all);
    out
}

/// The strings of `list` that `other` holds too.
#[verifier::loop_isolation(false)]
pub fn shared_texts(list: &Vec<String>, other: &Vec<String>) -> (out: Vec<String>)
    ensures
        forall|f: Seq<char>|
            #[trigger] texts(out@).contains(f) <==> texts(list@).contains(f) && texts(
                other@,
            ).contains(f),
{
    let mut out: Vec<String> = Vec::new();
    let ghost all = texts(list@);
    let mut i: usize = 0;
    while i < list.len()
        invariant
            i <= list.len(),
            forall|f: Seq<char>|
                texts(out@).contains(f) <==> all.take(i as int).contains(f) && texts(
                    other@,
                ).contains(f),
        decreases list.len() - i,
    {
        let ghost before = texts(out@);
        let keep = find_text(other, list[i].as_str()).is_some();
        if keep {
            out.push(list[i].clone());
        }
        proof {
            let item = all[i as int];
            crate::catalog::lemma_contains_next(all, i as int);
            texts(other@).index_of_first_ensures(item);
            if keep {
                assert(texts(out@) =~= before.insert(before.len() as int, item));
                lemma_contains_inserted(before, before.len() as int, item);
            }
            assert forall|f: Seq<char>|
                texts(out@).contains(f) <==> all.take(i + 1).contains(f) && texts(
                    other@,
                ).contains(f) by {
                assert(before.contains(f) <==> all.take(i as int).contains(f) && texts(
                    other@,
                ).contains(f));
                assert(all.take(i + 1).contains(f) <==> all.take(i as int).contains(f) || f
                    == item);
                if keep {
                    assert(before.insert(before.len() as int, item).contains(f) <==> before.contains(
                        f,
                    ) || f == item);
                }
            }
        }
        i += 1;
    }
    assert(all.take(list.len() as int) =~= all);
    out
}

/// The fields worth a column, for every sensor of `readings`: those that an
/// import keeps and that every reading of the sensor measures. A sensor
/// without such a field is left out.
#[verifier::loop_isolation(false)]
pub fn get_all_sensors_fields(readings: &Vec<Reading>) -> (catalog: SensorLists)
    ensures
        is_field_catalog(catalog@, reading_views(readings@)),
{
    let ghost all = reading_views(readings@);
    let mut found = SensorLists::new();
    let mut i: usize = 0;
    proof {
        assert(names(found@) =~= Seq::<Seq<char>>::empty());
        assert forall|sensor: Seq<char>| lookup(found@, sensor) is None by {
            names(found@).index_of_first_ensures(sensor);
        }
    }
    while i < readings.len()
        invariant
            i <= readings.len(),
            forall|sensor: Seq<char>|
                (#[trigger] lookup(found@, sensor)) is Some <==> seen(all.take(i as int), sensor),
            forall|sensor: Seq<char>, field: Seq<char>|
                #[trigger] listed(found@, sensor).contains(field) <==> common_field(
                    all.take(i as int),
                    sensor,
                    field,
                ),
        decreases readings.len() - i,
    {
        let ghost before = found@;
        let reading = &readings[i];
        assert(all[i as int] == reading@);
        let sensor = normalize_sensor_name(reading.name.as_str());
        let keys = keys_of(reading);
        let ghost was_known = lookup(before, sensor@) is Some;
        let fields = match found.get(sensor.as_str()) {
            Some(list) => {
                assert(texts(list@) == listed(before, sensor@));
                shared_texts(list, &keys)
            },
            None => kept_fields(&keys),
        };
        let ghost listing = texts(fields@);
        assert forall|f: Seq<char>|
            #[trigger] listing.contains(f) <==> (if was_known {
                listed(before, sensor@).contains(f) && reading@.keys.contains(f)
            } else {
                reading@.keys.contains(f) && is_kept_field(f)
            }) by {
            assert(texts(keys@) == reading@.keys);
        }
        found.insert(sensor.clone(), fields);
        proof {
            assert forall|other: Seq<char>|
                (#[trigger] lookup(found@, other)) is Some <==> seen(
                    all.take(i + 1),
                    other,
                ) by {
                lemma_common_next(all, i as int, other, Seq::empty());
            }
            assert forall|other: Seq<char>, field: Seq<char>|
                #[trigger] listed(found@, other).contains(field) <==> common_field(
                    all.take(i + 1),
                    other,
                    field,
                ) by {
                lemma_common_next(all, i as int, other, field);
                assert(lookup(before, other) is Some <==> seen(all.take(i as int), other));
                assert(listed(before, other).contains(field) <==> common_field(
                    all.take(i as int),
                    other,
                    field,
                ));
                if other == sensor@ {
                    assert(is_of(all[i as int], other));
                    assert(listed(found@, sensor@).contains(field) <==> listing.contains(field));
                    assert(listing.contains(field) <==> (if was_known {
                        listed(before, sensor@).contains(field) && reading@.keys.contains(field)
                    } else {
                        reading@.keys.contains(field) && is_kept_field(field)
                    }));
                } else {
                    assert(!is_of(all[i as int], other));
                    assert(lookup(found@, other) == lookup(before, other));
                }
            }
        }
        i += 1;
    }
    assert(all.take(readings.len() as int) =~= all);
    let mut catalog = SensorLists::new();
    let mut k: usize = 0;
    proof {
        use_type_invariant(&found);
        assert(names(catalog@) =~= Seq::<Seq<char>>::empty());
        assert forall|sensor: Seq<char>| lookup(catalog@, sensor) is None by {
            names(catalog@).index_of_first_ensures(sensor);
        }
    }
    while k < found.len()
        invariant
            k <= found@.len(),
            forall|sensor: Seq<char>|
                (#[trigger] lookup(catalog@, sensor)) == (if exists|j: int|
                    0 <= j < k && found@[j].name == sensor && found@[j].values.len() > 0 {
                    lookup(found@, sensor)
                } else {
                    None
                }),
        decreases found@.len() - k,
    {
        let ghost before = catalog@;
        proof {
            lemma_sorted_index(names(found@), k as int);
            assert(names(found@)[k as int] == found@[k as int].name);
        }
        let values = found.values(k);
        if values.len() > 0 {
            let copy = crate::text::copy_texts(values);
            catalog.insert(String::from_str(found.name(k)), copy);
            proof {
                let name = found@[k as int].name;
                let listing = found@[k as int].values;
                assert(lookup(found@, name) == Some(listing));
                assert(crate::catalog::strictly_sorted(listing));
                lemma_same_set(listed(catalog@, name), listing);
            }
        }
        proof {
            assert forall|sensor: Seq<char>|
                (#[trigger] lookup(catalog@, sensor)) == (if exists|j: int|
                    0 <= j < k + 1 && found@[j].name == sensor && found@[j].values.len() > 0 {
                    lookup(found@, sensor)
                } else {
                    None
                }) by {
                if sensor == found@[k as int].name {
                    if exists|j: int|
                        0 <= j < k && found@[j].name == sensor && found@[j].values.len() > 0 {
                        let j = choose|j: int|
                            0 <= j < k && found@[j].name == sensor && found@[j].values.len() > 0;
                        lemma_sorted_index(names(found@), j);
                        assert(names(found@)[j] == sensor);
                    }
                } else {
                    assert(lookup(catalog@, sensor) == lookup(before, sensor));
                }
            }
        }
        k += 1;
    }
    proof {
        assert forall|sensor: Seq<char>|
            (#[trigger] lookup(catalog@, sensor)) is Some implies lookup(catalog@, sensor)
            == lookup(found@, sensor) && listed(catalog@, sensor).len() > 0 by {
            let j = choose|j: int|
                0 <= j < k && found@[j].name == sensor && found@[j].values.len() > 0;
            lemma_sorted_index(names(found@), j);
            assert(names(found@)[j] == sensor);
        }
        assert forall|sensor: Seq<char>, field: Seq<char>|
            #[trigger] listed(catalog@, sensor).contains(field) <==> common_field(
                all,
                sensor,
                field,
            ) by {
            assert(listed(found@, sensor).contains(field) <==> common_field(all, sensor, field));
            if listed(found@, sensor).contains(field) {
                names(found@).index_of_first_ensures(sensor);
                let j = names(found@).index_of_first(sensor)->0;
                assert(found@[j].name == sensor);
                assert(found@[j].values.len() > 0);
            }
        }
    }
    catalog
}

/// Two sorted lists that hold the same strings are one list.
pub proof fn lemma_same_set(a: Seq<Seq<char>>, b: Seq<Seq<char>>)
    requires
        crate::catalog::strictly_sorted(a),
        crate::catalog::strictly_sorted(b),
        forall|t: Seq<char>| a.contains(t) <==> b.contains(t),
    ensures
        a == b,
    decreases a.len(),
{
    if a.len() == 0 {
        if b.len() > 0 {
            assert(b.contains(b[0]));
        }
        assert(a =~= b);
    } else if b.len() == 0 {
        assert(a.contains(a[0]));
    } else {
        // the least element of either list is the least of both
        assert(a.contains(a[0]));
        assert(b.contains(b[0]));
        let ia = choose|i: int| 0 <= i < b.len() && b[i] == a[0];
        let ib = choose|i: int| 0 <= i < a.len() && a[i] == b[0];
        crate::text::lemma_lex_total(a[0], b[0]);
        if ia > 0 {
            assert(crate::text::lex_less(b[0], b[ia]));
        }
        if ib > 0 {
            assert(crate::text::lex_less(a[0], a[ib]));
        }
        assert(a[0] == b[0]);
        let ta = a.drop_first();
        let tb = b.drop_first();
        assert forall|t: Seq<char>| ta.contains(t) <==> tb.contains(t) by {
            crate::text::lemma_lex_irreflexive(a[0]);
            if ta.contains(t) {
                let i = choose|i: int| 0 <= i < ta.len() && ta[i] == t;
                assert(a[i + 1] == t);
                assert(crate::text::lex_less(a[0], a[i + 1]));
                assert(a.contains(t));
                let j = choose|j: int| 0 <= j < b.len() && b[j] == t;
                assert(tb[j - 1] == t);
            }
            if tb.contains(t) {
                let i = choose|i: int| 0 <= i < tb.len() && tb[i] == t;
                assert(b[i + 1] == t);
                assert(crate::text::lex_less(b[0], b[i + 1]));
                assert(b.contains(t));
                let j = choose|j: int| 0 <= j < a.len() && a[j] == t;
                assert(ta[j - 1] == t);
            }
        }
        assert(crate::catalog::strictly_sorted(ta)) by {
            assert forall|i: int, j: int| 0 <= i < j < ta.len() implies crate::text::lex_less(
                #[trigger] ta[i],
                #[trigger] ta[j],
            ) by {
                assert(crate::text::lex_less(a[i + 1], a[j + 1]));
            }
        }
        assert(crate::catalog::strictly_sorted(tb)) by {
            assert forall|i: int, j: int| 0 <= i < j < tb.len() implies crate::text::lex_less(
                #[trigger] tb[i],
                #[trigger] tb[j],
            ) by {
                assert(crate::text::lex_less(b[i + 1], b[j + 1]));
            }
        }
        lemma_same_set(ta, tb);
        assert(a =~= seq![a[0]] + ta);
        assert(b =~= seq![b[0]] + tb);
    }
}

} // verus!
