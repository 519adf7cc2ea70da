//! What an import puts into the store: for every table the statements that
//! create and fill it, and the rows, each a list of values.

use std::io::Read;
use vstd::prelude::*;

use crate::catalog::{names, Entry, SensorLists};
use crate::engine::{datetime_timestamp, parse_datetime};
use crate::import::{
    create_table_sql_query, create_table_statement, filter_out_field, get_all_sensors_fields,
    insert_entry_sql_query, insert_entry_statement, is_field_catalog, is_kept_field,
    normalize_sensor_name, normalized, reading_views, Reading, ReadingModel,
};
use crate::text::{
    after_first, before_first, first_match, lemma_first_index, push_signed_decimal, signed_decimal,
    split, split_at_pattern, split_by, split_once, texts, trim_end, trimmed_end,
};

verus! {

/// The records that the CSV reader finds in `data`: fields parted by `;`,
/// the first record taken as a header and left out, every record as long as
/// the first. `None` where the reader reports an error.
pub uninterp spec fn csv_records(data: Seq<char>) -> Option<Seq<Seq<Seq<char>>>>;

/// The text that `bytes` stand for in the Windows-1251 encoding, as the
/// decoder gives it; `None` where the decoder reports an error.
pub uninterp spec fn windows_1251_text(bytes: Seq<u8>) -> Option<Seq<char>>;

/// The views of a list of records, field by field.
pub open spec fn record_views(records: Seq<Vec<String>>) -> Seq<Seq<Seq<char>>> {
    Seq::new(records.len(), |i: int| texts(records[i]@))
}

/// Reads all records of `data` with a `csv::Reader` built by
/// `csv::ReaderBuilder::new().delimiter(b';').from_reader(..)`, going
/// through `records()` until the end or the first error. The contract only
/// gives the result its name: the same text has the same records.
#[verifier::external_body]
pub(crate) fn read_csv_records(data: &str) -> (r: Option<Vec<Vec<String>>>)
    ensures
        match r {
            Some(records) => csv_records(data@) == Some(record_views(records@)),
            None => csv_records(data@) is None,
        },
{
    let mut reader = csv::ReaderBuilder::new().delimiter(b';').from_reader(data.as_bytes());
    let mut records: Vec<Vec<String>> = Vec::new();
    for record in reader.records() {
        match record {
            Ok(fields) => records.push(fields.iter().map(|field| field.to_owned()).collect()),
            Err(_) => return None,
        }
    }
    Some(records)
}

/// Decodes `bytes` with an `encoding_rs_io::DecodeReaderBytes` built by
/// `DecodeReaderBytesBuilder::new().encoding(Some(encoding_rs::WINDOWS_1251))`,
/// reading it to its end. The contract only gives the result its name: the
/// same bytes decode to the same text.
#[verifier::external_body]
pub(crate) fn decode_windows_1251(bytes: &[u8]) -> (r: Option<String>)
    ensures
        match r {
            Some(text) => windows_1251_text(bytes@) == Some(text@),
            None => windows_1251_text(bytes@) is None,
        },
{
    let mut decoder = encoding_rs_io::DecodeReaderBytesBuilder::new()
        .encoding(Some(encoding_rs::WINDOWS_1251))
        .build(bytes);
    let mut text = String::new();
    match decoder.read_to_string(&mut text) {
        Ok(_) => Some(text),
        Err(_) => None,
    }
}

/// A table of the store as the contracts see it.
pub struct TableModel {
    pub sensor: Seq<char>,
    pub create_table_sql: Seq<char>,
    pub insert_entry_sql: Seq<char>,
}

/// A table of the store: its name, the statement that creates it and the
/// statement that inserts a row.
#[derive(Debug)]
pub struct TablePlan {
    pub sensor: String,
    pub create_table_sql: String,
    pub insert_entry_sql: String,
}

impl View for TablePlan {
    type V = TableModel;

    open spec fn view(&self) -> TableModel {
        TableModel {
            sensor: self.sensor@,
            create_table_sql: self.create_table_sql@,
            insert_entry_sql: self.insert_entry_sql@,
        }
    }
}

/// The table of `sensor` with a column for every one of `fields`.
pub open spec fn table_of(sensor: Seq<char>, fields: Seq<Seq<char>>) -> TableModel {
    TableModel {
        sensor,
        create_table_sql: create_table_statement(sensor, fields),
        insert_entry_sql: insert_entry_statement(sensor, fields),
    }
}

/// The table of `sensor` with a column for every one of `fields`.
pub fn table_plan(sensor: &str, fields: &Vec<String>) -> (r: TablePlan)
    ensures
        r@ == table_of(sensor@, texts(fields@)),
{
    TablePlan {
        sensor: String::from_str(sensor),
        create_table_sql: create_table_sql_query(sensor, fields.as_slice()),
        insert_entry_sql: insert_entry_sql_query(sensor, fields.as_slice()),
    }
}

/// The value that a reading gives for `field`; empty where it gives none.
pub open spec fn value_of(reading: ReadingModel, field: Seq<char>) -> Seq<char> {
    match reading.keys.index_of_first(field) {
        Some(i) => reading.values[i],
        None => Seq::empty(),
    }
}

/// The values of a row: one for every field, then the serial, then the
/// moment of the reading in seconds.
pub open spec fn row_values(reading: ReadingModel, fields: Seq<Seq<char>>, stamp: i64) -> Seq<
    Seq<char>,
> {
    Seq::new(fields.len(), |i: int| value_of(reading, fields[i])).push(reading.serial).push(
        signed_decimal(stamp as int),
    )
}

/// A row with the table it goes into, as the contracts see it.
pub struct RowModel {
    /// Index of the table among the tables of the import.
    pub table: usize,
    pub values: Seq<Seq<char>>,
}

/// A row with the table it goes into.
#[derive(Debug)]
pub struct RowPlan {
    /// Index of the table among the tables of the import.
    pub table: usize,
    pub values: Vec<String>,
}

impl View for RowPlan {
    type V = RowModel;

    open spec fn view(&self) -> RowModel {
        RowModel { table: self.table, values: texts(self.values@) }
    }
}

/// The views of a list of rows, element by element.
pub open spec fn row_views(rows: Seq<RowPlan>) -> Seq<RowModel> {
    Seq::new(rows.len(), |i: int| rows[i]@)
}

/// The rows of an import of readings: one for every reading of a sensor
/// that the catalog knows, in the order of the readings. `stamps` holds what
/// the date of each reading reads as. There are no rows at all where the
/// date of a reading that would give a row does not read as a moment.
pub open spec fn json_rows(
    catalog: Seq<Entry>,
    readings: Seq<ReadingModel>,
    stamps: Seq<Option<i64>>,
) -> Option<Seq<RowModel>>
    decreases readings.len(),
{
    if readings.len() == 0 {
        Some(Seq::empty())
    } else {
        let reading = readings.last();
        match json_rows(catalog, readings.drop_last(), stamps.drop_last()) {
            None => None,
            Some(rows) => match names(catalog).index_of_first(normalized(reading.name)) {
                None => Some(rows),
                Some(t) => match stamps.last() {
                    Some(stamp) if t <= usize::MAX => Some(
                        rows.push(
                            RowModel {
                                table: t as usize,
                                values: row_values(reading, catalog[t].values, stamp),
                            },
                        ),
                    ),
                    _ => None,
                },
            },
        }
    }
}

/// The value that a reading gives for `field`.
#[verifier::loop_isolation(false)]
pub fn value_in(reading: &Reading, field: &str) -> (r: String)
    ensures
        r@ == value_of(reading@, field@),
{
    let ghost keys = reading@.keys;
    proof {
        keys.index_of_first_ensures(field@);
    }
    let mut i: usize = 0;
    while i < reading.data.len()
        invariant
            i <= reading.data.len(),
            forall|j: int| 0 <= j < i ==> keys[j] != field@,
        decreases reading.data.len() - i,
    {
        if crate::text::same_text(reading.data[i].0.as_str(), field) {
            assert(keys[i as int] == field@);
            return reading.data[i].1.clone();
        }
        i += 1;
    }
    String::new()
}

/// The values of the row of a reading.
#[verifier::loop_isolation(false)]
pub fn row_of(reading: &Reading, fields: &Vec<String>, stamp: i64) -> (out: Vec<String>)
    ensures
        texts(out@) == row_values(reading@, texts(fields@), stamp),
{
    let mut out: Vec<String> = Vec::new();
    let mut i: usize = 0;
    while i < fields.len()
        invariant
            i <= fields.len(),
            out.len() == i,
            forall|j: int| 0 <= j < i ==> out@[j]@ == value_of(reading@, fields@[j]@),
        decreases fields.len() - i,
    {
        out.push(value_in(reading, fields[i].as_str()));
        i += 1;
    }
    out.push(reading.serial.clone());
    let mut moment = String::new();
    push_signed_decimal(&mut moment, stamp);
    assert(moment@ =~= signed_decimal(stamp as int));
    out.push(moment);
    assert(texts(out@) =~= row_values(reading@, texts(fields@), stamp));
    out
}

/// The rows of an import of readings, given what the date of each reading
/// reads as.
#[verifier::loop_isolation(false)]
pub fn plan_json_rows(catalog: &SensorLists, readings: &Vec<Reading>, stamps: &Vec<Option<i64>>) -> (r:
    Option<Vec<RowPlan>>)
    requires
        stamps.len() == readings.len(),
    ensures
        match r {
            Some(rows) => json_rows(catalog@, reading_views(readings@), stamps@) == Some(
                row_views(rows@),
            ),
            None => json_rows(catalog@, reading_views(readings@), stamps@) is None,
        },
{
    let ghost all = reading_views(readings@);
    let mut rows: Vec<RowPlan> = Vec::new();
    let mut i: usize = 0;
    assert(row_views(rows@) =~= Seq::<RowModel>::empty());
    while i < readings.len()
        invariant
            i <= readings.len(),
            json_rows(catalog@, all.take(i as int), stamps@.take(i as int)) == Some(
                row_views(rows@),
            ),
        decreases readings.len() - i,
    {
        let ghost before = row_views(rows@);
        let reading = &readings[i];
        proof {
            assert(all.take(i + 1).drop_last() =~= all.take(i as int));
            assert(stamps@.take(i + 1).drop_last() =~= stamps@.take(i as int));
            assert(all.take(i + 1).last() == reading@);
            assert(stamps@.take(i + 1).last() == stamps@[i as int]);
        }
        let sensor = normalize_sensor_name(reading.name.as_str());
        match catalog.position(sensor.as_str()) {
            Some(t) => {
                match stamps[i] {
                    Some(stamp) => {
                        let values = row_of(reading, catalog.values(t), stamp);
                        rows.push(RowPlan { table: t, values });
                        assert(row_views(rows@) =~= before.push(
                            RowModel {
                                table: t,
                                values: row_values(reading@, catalog@[t as int].values, stamp),
                            },
                        ));
                    },
                    None => {
                        proof {
                            lemma_json_rows_stay_none(
                                catalog@,
                                all,
                                stamps@,
                                i + 1,
                                readings.len() as int,
                            );
                            assert(all.take(readings.len() as int) =~= all);
                            assert(stamps@.take(readings.len() as int) =~= stamps@);
                        }
                        return None;
                    },
                }
            },
            None => {},
        }
        i += 1;
    }
    assert(all.take(readings.len() as int) =~= all);
    assert(stamps@.take(readings.len() as int) =~= stamps@);
    Some(rows)
}

/// Once a date does not read as a moment, no later reading brings the rows
/// back.
pub proof fn lemma_json_rows_stay_none(
    catalog: Seq<Entry>,
    readings: Seq<ReadingModel>,
    stamps: Seq<Option<i64>>,
    from: int,
    to: int,
)
    requires
        0 <= from <= to <= readings.len(),
        stamps.len() == readings.len(),
        json_rows(catalog, readings.take(from), stamps.take(from)) is None,
    ensures
        json_rows(catalog, readings.take(to), stamps.take(to)) is None,
    decreases to - from,
{
    if from < to {
        lemma_json_rows_stay_none(catalog, readings, stamps, from, to - 1);
        assert(readings.take(to).drop_last() =~= readings.take(to - 1));
        assert(stamps.take(to).drop_last() =~= stamps.take(to - 1));
    }
}

/// What the dates of the readings read as, reading by reading.
pub open spec fn reading_stamps(readings: Seq<ReadingModel>) -> Seq<Option<i64>> {
    Seq::new(readings.len(), |i: int| datetime_timestamp(readings[i].date))
}

/// An import of readings: the catalog of their fields, a table for every
/// sensor of the catalog, and the rows.
#[derive(Debug)]
pub struct JsonImport {
    /// The fields worth a column, sensor by sensor.
    pub catalog: SensorLists,
    /// One table for every sensor of the catalog, in its order.
    pub tables: Vec<TablePlan>,
    /// The rows, or `None` where a date does not read as a moment: then
    /// the tables are created and nothing is inserted.
    pub rows: Option<Vec<RowPlan>>,
}

/// Plans an import of readings.
#[verifier::loop_isolation(false)]
pub fn plan_json_import(readings: &Vec<Reading>) -> (r: JsonImport)
    ensures
        is_field_catalog(r.catalog@, reading_views(readings@)),
        r.tables.len() == r.catalog@.len(),
        forall|t: int|
            0 <= t < r.tables.len() ==> (#[trigger] r.tables@[t])@ == table_of(
                r.catalog@[t].name,
                r.catalog@[t].values,
            ),
        match r.rows {
            Some(rows) => json_rows(
                r.catalog@,
                reading_views(readings@),
                reading_stamps(reading_views(readings@)),
            ) == Some(row_views(rows@)),
            None => json_rows(
                r.catalog@,
                reading_views(readings@),
                reading_stamps(reading_views(readings@)),
            ) is None,
        },
{
    let catalog = get_all_sensors_fields(readings);
    let mut tables: Vec<TablePlan> = Vec::new();
    let mut t: usize = 0;
    while t < catalog.len()
        invariant
            t <= catalog@.len(),
            tables.len() == t,
            forall|j: int|
                0 <= j < t ==> (#[trigger] tables@[j])@ == table_of(
                    catalog@[j].name,
                    catalog@[j].values,
                ),
        decreases catalog@.len() - t,
    {
        tables.push(table_plan(catalog.name(t), catalog.values(t)));
        t += 1;
    }
    let mut stamps: Vec<Option<i64>> = Vec::new();
    let mut i: usize = 0;
    while i < readings.len()
        invariant
            i <= readings.len(),
            stamps.len() == i,
            forall|j: int| 0 <= j < i ==> stamps@[j] == datetime_timestamp(readings@[j].date@),
        decreases readings.len() - i,
    {
        stamps.push(parse_datetime(readings[i].date.as_str()));
        i += 1;
    }
    assert(stamps@ =~= reading_stamps(reading_views(readings@)));
    let rows = plan_json_rows(&catalog, readings, &stamps);
    JsonImport { catalog, tables, rows }
}

/// The sensor and the serial that the first line of a CSV export names: its
/// second field, `name (serial)`.
pub open spec fn csv_title(line: Seq<char>) -> Option<(Seq<char>, Seq<char>)> {
    let parts = split(line, ';');
    if parts.len() < 2 {
        None
    } else {
        let full = parts[1];
        let at = first_match(full, " ("@);
        if at + 2 <= full.len() {
            Some((full.take(at), trimmed_end(full.skip(at + 2), ')')))
        } else {
            None
        }
    }
}

/// The places of the fields of a header that an import keeps.
pub open spec fn kept_columns(header: Seq<Seq<char>>) -> Seq<usize>
    decreases header.len(),
{
    if header.len() == 0 {
        Seq::empty()
    } else {
        let rest = kept_columns(header.drop_last());
        if is_kept_field(header.last()) {
            rest.push((header.len() - 1) as usize)
        } else {
            rest
        }
    }
}

/// The fields of `record` at the places `columns`.
pub open spec fn picked(record: Seq<Seq<char>>, columns: Seq<usize>) -> Seq<Seq<char>> {
    Seq::new(columns.len(), |i: int| record[columns[i] as int])
}

/// The row of a record: the fields at `columns`, then the serial, then the
/// moment that the first field reads as, in seconds. `None` for a record
/// without fields or without one of the columns, and where the first field
/// does not read as a moment.
pub open spec fn csv_row(
    record: Seq<Seq<char>>,
    columns: Seq<usize>,
    serial: Seq<char>,
    stamp: Option<i64>,
) -> Option<Seq<Seq<char>>> {
    if record.len() == 0 || stamp is None || exists|i: int|
        0 <= i < columns.len() && columns[i] >= record.len() {
        None
    } else {
        Some(picked(record, columns).push(serial).push(signed_decimal(stamp->0 as int)))
    }
}

/// The rows of all records, or `None` where one of them has no row.
pub open spec fn csv_rows(
    records: Seq<Seq<Seq<char>>>,
    columns: Seq<usize>,
    serial: Seq<char>,
    stamps: Seq<Option<i64>>,
) -> Option<Seq<Seq<Seq<char>>>>
    decreases records.len(),
{
    if records.len() == 0 {
        Some(Seq::empty())
    } else {
        match csv_rows(records.drop_last(), columns, serial, stamps.drop_last()) {
            None => None,
            Some(rows) => match csv_row(records.last(), columns, serial, stamps.last()) {
                Some(row) => Some(rows.push(row)),
                None => None,
            },
        }
    }
}

/// What the first field of every record reads as.
pub open spec fn record_stamps(records: Seq<Seq<Seq<char>>>) -> Seq<Option<i64>> {
    Seq::new(
        records.len(),
        |i: int|
            if records[i].len() > 0 {
                datetime_timestamp(records[i][0])
            } else {
                None
            },
    )
}

/// The sensor and the serial that the first line of a CSV export names.
pub fn parse_csv_title(line: &str) -> (r: Option<(String, String)>)
    ensures
        match r {
            Some((sensor, serial)) => csv_title(line@) == Some((sensor@, serial@)),
            None => csv_title(line@) is None,
        },
{
    let parts = split_by(line, ';');
    if parts.len() < 2 {
        return None;
    }
    proof {
        reveal_strlit(" (");
    }
    match split_at_pattern(parts[1].as_str(), " (") {
        Some((sensor, rest)) => {
            let serial = trim_end(rest.as_str(), ')');
            Some((sensor, serial))
        },
        None => None,
    }
}

/// The places of the fields of a header that an import keeps.
#[verifier::loop_isolation(false)]
pub fn columns_to_keep(header: &Vec<String>) -> (out: Vec<usize>)
    ensures
        out@ == kept_columns(texts(header@)),
        forall|i: int| 0 <= i < out.len() ==> out@[i] < header.len(),
{
    let ghost all = texts(header@);
    let mut out: Vec<usize> = Vec::new();
    let mut i: usize = 0;
    assert(out@ =~= kept_columns(all.take(0)));
    while i < header.len()
        invariant
            i <= header.len(),
            out@ == kept_columns(all.take(i as int)),
            forall|j: int| 0 <= j < out.len() ==> out@[j] < i,
        decreases header.len() - i,
    {
        proof {
            assert(all.take(i + 1).drop_last() =~= all.take(i as int));
            assert(all.take(i + 1).last() == header@[i as int]@);
        }
        if filter_out_field(header[i].as_str()) {
            out.push(i);
        }
        i += 1;
    }
    assert(all.take(header.len() as int) =~= all);
    out
}

/// The row of a record.
#[verifier::loop_isolation(false)]
pub fn csv_row_of(record: &Vec<String>, columns: &Vec<usize>, serial: &str, stamp: Option<i64>) -> (r:
    Option<Vec<String>>)
    ensures
        match r {
            Some(row) => csv_row(texts(record@), columns@, serial@, stamp) == Some(texts(row@)),
            None => csv_row(texts(record@), columns@, serial@, stamp) is None,
        },
{
    if record.len() == 0 {
        return None;
    }
    let moment: i64 = match stamp {
        Some(t) => t,
        None => {
            return None;
        },
    };
    let mut row: Vec<String> = Vec::new();
    let mut i: usize = 0;
    while i < columns.len()
        invariant
            i <= columns.len(),
            row.len() == i,
            forall|j: int| 0 <= j < i ==> columns@[j] < record.len(),
            forall|j: int| 0 <= j < i ==> row@[j]@ == record@[columns@[j] as int]@,
        decreases columns.len() - i,
    {
        let at = columns[i];
        if at >= record.len() {
            return None;
        }
        row.push(record[at].clone());
        i += 1;
    }
    row.push(String::from_str(serial));
    let mut text = String::new();
    push_signed_decimal(&mut text, moment);
    assert(text@ =~= signed_decimal(moment as int));
    row.push(text);
    assert(texts(row@) =~= picked(texts(record@), columns@).push(serial@).push(
        signed_decimal(moment as int),
    ));
    Some(row)
}

/// The rows of all records, given what the first field of each reads as.
#[verifier::loop_isolation(false)]
pub fn plan_csv_rows(
    records: &Vec<Vec<String>>,
    columns: &Vec<usize>,
    serial: &str,
    stamps: &Vec<Option<i64>>,
) -> (r: Option<Vec<Vec<String>>>)
    requires
        stamps.len() == records.len(),
    ensures
        match r {
            Some(rows) => csv_rows(record_views(records@), columns@, serial@, stamps@) == Some(
                record_views(rows@),
            ),
            None => csv_rows(record_views(records@), columns@, serial@, stamps@) is None,
        },
{
    let ghost all = record_views(records@);
    let mut rows: Vec<Vec<String>> = Vec::new();
    let mut i: usize = 0;
    assert(record_views(rows@) =~= Seq::<Seq<Seq<char>>>::empty());
    while i < records.len()
        invariant
            i <= records.len(),
            csv_rows(all.take(i as int), columns@, serial@, stamps@.take(i as int)) == Some(
                record_views(rows@),
            ),
        decreases records.len() - i,
    {
        let ghost before = record_views(rows@);
        proof {
            assert(all.take(i + 1).drop_last() =~= all.take(i as int));
            assert(stamps@.take(i + 1).drop_last() =~= stamps@.take(i as int));
            assert(all.take(i + 1).last() == texts(records@[i as int]@));
            assert(stamps@.take(i + 1).last() == stamps@[i as int]);
        }
        match csv_row_of(&records[i], columns, serial, stamps[i]) {
            Some(row) => {
                let ghost added = texts(row@);
                rows.push(row);
                assert(record_views(rows@) =~= before.push(added));
            },
            None => {
                proof {
                    lemma_csv_rows_stay_none(
                        all,
                        columns@,
                        serial@,
                        stamps@,
                        i + 1,
                        records.len() as int,
                    );
                    assert(all.take(records.len() as int) =~= all);
                    assert(stamps@.take(records.len() as int) =~= stamps@);
                }
                return None;
            },
        }
        i += 1;
    }
    assert(all.take(records.len() as int) =~= all);
    assert(stamps@.take(records.len() as int) =~= stamps@);
    Some(rows)
}

/// Once a record has no row, no later record brings the rows back.
pub proof fn lemma_csv_rows_stay_none(
    records: Seq<Seq<Seq<char>>>,
    columns: Seq<usize>,
    serial: Seq<char>,
    stamps: Seq<Option<i64>>,
    from: int,
    to: int,
)
    requires
        0 <= from <= to <= records.len(),
        stamps.len() == records.len(),
        csv_rows(records.take(from), columns, serial, stamps.take(from)) is None,
    ensures
        csv_rows(records.take(to), columns, serial, stamps.take(to)) is None,
    decreases to - from,
{
    if from < to {
        lemma_csv_rows_stay_none(records, columns, serial, stamps, from, to - 1);
        assert(records.take(to).drop_last() =~= records.take(to - 1));
        assert(stamps.take(to).drop_last() =~= stamps.take(to - 1));
    }
}

/// An import of a CSV export, as the contracts see it.
pub enum CsvModel {
    /// The text is no export: it lacks the title line or the header line.
    Invalid,
    /// The export holds no field worth a column.
    Nothing,
    /// The table to create, and its rows; without rows where a record has
    /// none or the reader reported an error.
    Table { table: TableModel, rows: Option<Seq<Seq<Seq<char>>>> },
}

/// An import of a CSV export.
#[derive(Debug)]
pub enum CsvImport {
    /// The text is no export: it lacks the title line or the header line.
    Invalid,
    /// The export holds no field worth a column.
    Nothing,
    /// The table to create, and its rows; without rows where a record has
    /// none or the reader reported an error.
    Table { table: TablePlan, rows: Option<Vec<Vec<String>>> },
}

impl View for CsvImport {
    type V = CsvModel;

    open spec fn view(&self) -> CsvModel {
        match self {
            CsvImport::Invalid => CsvModel::Invalid,
            CsvImport::Nothing => CsvModel::Nothing,
            CsvImport::Table { table, rows } => CsvModel::Table {
                table: table@,
                rows: match rows {
                    Some(rows) => Some(record_views(rows@)),
                    None => None,
                },
            },
        }
    }
}

/// The text of an export behind its title line and its header line: what
/// the CSV reader gets.
pub open spec fn csv_data(content: Seq<char>) -> Seq<char> {
    after_first(after_first(content, '\n'), '\n')
}

/// The import of the export `content`, given the records that the reader
/// finds in its data: the first line names the sensor and the serial, the
/// second line the fields, and every record gives a row.
pub open spec fn csv_planned(content: Seq<char>, records: Option<Seq<Seq<Seq<char>>>>) -> CsvModel {
    let title = csv_title(before_first(content, '\n'));
    let rest = after_first(content, '\n');
    let header = split(before_first(rest, '\n'), ';');
    let columns = kept_columns(header);
    let named = title->0;
    if !content.contains('\n') || title is None || !rest.contains('\n') {
        CsvModel::Invalid
    } else if columns.len() == 0 {
        CsvModel::Nothing
    } else {
        CsvModel::Table {
            table: table_of(normalized(named.0), picked(header, columns)),
            rows: match records {
                Some(records) => csv_rows(records, columns, named.1, record_stamps(records)),
                None => None,
            },
        }
    }
}

/// Plans the import of the export `content`, given the records that the
/// reader finds in its data.
#[verifier::loop_isolation(false)]
pub fn plan_csv_import(content: &str, records: Option<&Vec<Vec<String>>>) -> (r: CsvImport)
    ensures
        r@ == csv_planned(
            content@,
            match records {
                Some(records) => Some(record_views(records@)),
                None => None,
            },
        ),
{
    let (first_line, rest) = match split_once(content, '\n') {
        Some(pair) => pair,
        None => {
            return CsvImport::Invalid;
        },
    };
    let (sensor_name, serial) = match parse_csv_title(first_line.as_str()) {
        Some(pair) => pair,
        None => {
            return CsvImport::Invalid;
        },
    };
    let (header_line, _) = match split_once(rest.as_str(), '\n') {
        Some(pair) => pair,
        None => {
            return CsvImport::Invalid;
        },
    };
    let header = split_by(header_line.as_str(), ';');
    let columns = columns_to_keep(&header);
    if columns.len() == 0 {
        return CsvImport::Nothing;
    }
    let mut fields: Vec<String> = Vec::new();
    let mut i: usize = 0;
    while i < columns.len()
        invariant
            i <= columns.len(),
            fields.len() == i,
            forall|j: int| 0 <= j < i ==> fields@[j]@ == header@[columns@[j] as int]@,
        decreases columns.len() - i,
    {
        fields.push(header[columns[i]].clone());
        i += 1;
    }
    assert(texts(fields@) =~= picked(texts(header@), columns@));
    let sensor = normalize_sensor_name(sensor_name.as_str());
    let table = table_plan(sensor.as_str(), &fields);
    let rows = match records {
        Some(records) => {
            let mut stamps: Vec<Option<i64>> = Vec::new();
            let mut k: usize = 0;
            while k < records.len()
                invariant
                    k <= records.len(),
                    stamps.len() == k,
                    forall|j: int|
                        0 <= j < k ==> stamps@[j] == record_stamps(record_views(records@))[j],
                decreases records.len() - k,
            {
                let stamp = if records[k].len() > 0 {
                    parse_datetime(records[k][0].as_str())
                } else {
                    None
                };
                stamps.push(stamp);
                k += 1;
            }
            assert(stamps@ =~= record_stamps(record_views(records@)));
            plan_csv_rows(records, &columns, serial.as_str(), &stamps)
        },
        None => None,
    };
    CsvImport::Table { table, rows }
}

/// Plans the import of a CSV export from the bytes of its file: the text is
/// decoded from Windows-1251, and the CSV reader reads what stands behind
/// the title line and the header line.
pub fn import_csv(bytes: &[u8]) -> (r: CsvImport)
    ensures
        r@ == (match windows_1251_text(bytes@) {
            Some(content) => csv_planned(content, csv_records(csv_data(content))),
            None => CsvModel::Invalid,
        }),
{
    let content = match decode_windows_1251(bytes) {
        Some(content) => content,
        None => {
            return CsvImport::Invalid;
        },
    };
    let data = match split_once(content.as_str(), '\n') {
        Some((_, rest)) => match split_once(rest.as_str(), '\n') {
            Some((_, data)) => data,
            None => String::new(),
        },
        None => String::new(),
    };
    proof {
        lemma_first_index(content@, '\n');
        lemma_first_index(after_first(content@, '\n'), '\n');
    }
    let records = read_csv_records(data.as_str());
    match &records {
        Some(records) => plan_csv_import(content.as_str(), Some(records)),
        None => plan_csv_import(content.as_str(), None),
    }
}

} // verus!
