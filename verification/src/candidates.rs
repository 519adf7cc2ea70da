//! The candidate lists of the menus: what each list holds for a given
//! catalog and the selections above it, and how a selection is carried over
//! when its list is made anew.

use vstd::prelude::*;

use crate::catalog::{listed, Entry, SensorLists};
use crate::text::{
    after_first, before_first, chars_of, find_char, lemma_first_index, lemma_first_index_joined,
    same_text, string_of, texts,
};

verus! {

/// Name of the X entry that stands for the time of a reading.
pub open spec fn date_name() -> Seq<char> {
    "date"@
}

/// Name of the derived field that is computed from two measured fields.
pub open spec fn composite_name() -> Seq<char> {
    "Эфф. темп."@
}

/// Columns that every sensor table has and that are no measurement.
pub open spec fn is_metadata(field: Seq<char>) -> bool {
    field == "id"@ || field == "serial"@ || field == "date"@
}

/// The menu entry of `field` of `sensor`: the two names with `/` between.
pub open spec fn qualified(sensor: Seq<char>, field: Seq<char>) -> Seq<char> {
    sensor.push('/') + field
}

/// Whether an entry names a sensor's field (rather than the bare date).
pub open spec fn is_qualified(entry: Seq<char>) -> bool {
    entry.contains('/')
}

/// The sensor that an entry names: what stands before its first `/`.
pub open spec fn sensor_of(entry: Seq<char>) -> Seq<char> {
    before_first(entry, '/')
}

/// The field that an entry names: what stands after its first `/`.
pub open spec fn field_of(entry: Seq<char>) -> Seq<char> {
    after_first(entry, '/')
}

/// The field that a query reads for an entry: the field of a sensor's entry,
/// and the entry itself where it names no sensor.
pub open spec fn resolved_field(entry: Seq<char>) -> Seq<char> {
    if is_qualified(entry) {
        field_of(entry)
    } else {
        entry
    }
}

/// An entry made of a sensor and a field names that sensor and that field,
/// as long as the sensor's name holds no `/`.
pub proof fn lemma_qualified_splits(sensor: Seq<char>, field: Seq<char>)
    requires
        !sensor.contains('/'),
    ensures
        is_qualified(qualified(sensor, field)),
        sensor_of(qualified(sensor, field)) == sensor,
        field_of(qualified(sensor, field)) == field,
        resolved_field(qualified(sensor, field)) == field,
{
    lemma_first_index_joined(sensor, '/', field);
    lemma_first_index(qualified(sensor, field), '/');
}

/// The entries of one sensor: its measured fields, in their order.
pub open spec fn sensor_block(sensor: Seq<char>, fields: Seq<Seq<char>>) -> Seq<Seq<char>>
    decreases fields.len(),
{
    if fields.len() == 0 {
        Seq::empty()
    } else {
        let rest = sensor_block(sensor, fields.drop_last());
        if is_metadata(fields.last()) {
            rest
        } else {
            rest.push(qualified(sensor, fields.last()))
        }
    }
}

/// The entries of all sensors of a catalog, sensor after sensor.
pub open spec fn all_blocks(catalog: Seq<Entry>) -> Seq<Seq<char>>
    decreases catalog.len(),
{
    if catalog.len() == 0 {
        Seq::empty()
    } else {
        all_blocks(catalog.drop_last()) + sensor_block(catalog.last().name, catalog.last().values)
    }
}

/// The candidate list of the X data slot: the date, then every measured
/// field of every sensor.
pub open spec fn x_candidates(catalog: Seq<Entry>) -> Seq<Seq<char>> {
    seq![date_name()] + all_blocks(catalog)
}

/// Whether a Y list keeps an X entry: it names a sensor's field, and that
/// sensor is the one X has chosen, where X has chosen one.
pub open spec fn keeps(entry: Seq<char>, x_value: Option<Seq<char>>) -> bool {
    &&& is_qualified(entry)
    &&& match x_value {
        Some(x) => is_qualified(x) ==> sensor_of(entry) == sensor_of(x),
        None => true,
    }
}

/// The measured fields that a curve can show for the X value chosen.
pub open spec fn y_base(x_list: Seq<Seq<char>>, x_value: Option<Seq<char>>) -> Seq<Seq<char>>
    decreases x_list.len(),
{
    if x_list.len() == 0 {
        Seq::empty()
    } else {
        let rest = y_base(x_list.drop_last(), x_value);
        if keeps(x_list.last(), x_value) {
            rest.push(x_list.last())
        } else {
            rest
        }
    }
}

/// The first `n` entries of `list`, with the derived field of a sensor put
/// behind the last entry of each run of that sensor.
pub open spec fn with_composites(list: Seq<Seq<char>>, n: int) -> Seq<Seq<char>>
    decreases n,
{
    if n <= 0 {
        Seq::empty()
    } else {
        let head = with_composites(list, n - 1).push(list[n - 1]);
        if n == list.len() || sensor_of(list[n - 1]) != sensor_of(list[n]) {
            head.push(qualified(sensor_of(list[n - 1]), composite_name()))
        } else {
            head
        }
    }
}

/// The candidate list of every Y data slot.
pub open spec fn y_candidates(x_list: Seq<Seq<char>>, x_value: Option<Seq<char>>) -> Seq<
    Seq<char>,
> {
    let base = y_base(x_list, x_value);
    with_composites(base, base.len() as int)
}

/// The entry that a selection points at, if it points into the list.
pub open spec fn chosen(list: Seq<Seq<char>>, choice: Option<usize>) -> Option<Seq<char>> {
    match choice {
        Some(i) if i < list.len() => Some(list[i as int]),
        _ => None,
    }
}

/// A selection carried over from `old_list` to `new_list`: it points at the
/// first place of the same entry in the new list, and is dropped where the
/// new list does not hold that entry (or holds it only beyond what an index
/// can count).
pub open spec fn rebased(
    old_list: Seq<Seq<char>>,
    new_list: Seq<Seq<char>>,
    choice: Option<usize>,
) -> Option<usize> {
    match chosen(old_list, choice) {
        Some(v) => match new_list.index_of_first(v) {
            Some(j) if j <= usize::MAX => Some(j as usize),
            _ => None,
        },
        None => None,
    }
}

/// A selection that was carried over points at the entry it pointed at
/// before, at the first place of that entry; carrying it over once more
/// within the new list leaves it where it is.
pub proof fn lemma_rebased(old_list: Seq<Seq<char>>, new_list: Seq<Seq<char>>, choice: Option<usize>)
    ensures
        rebased(old_list, new_list, choice) matches Some(j) ==> j < new_list.len() && chosen(
            new_list,
            Some(j),
        ) == chosen(old_list, choice) && new_list.index_of_first(new_list[j as int]) == Some(
            j as int,
        ),
        rebased(old_list, new_list, choice) is None ==> chosen(
            new_list,
            rebased(old_list, new_list, choice),
        ) is None,
        rebased(new_list, new_list, rebased(old_list, new_list, choice)) == rebased(
            old_list,
            new_list,
            choice,
        ),
{
    if let Some(v) = chosen(old_list, choice) {
        new_list.index_of_first_ensures(v);
    }
}

/// The name of the date entry.
pub fn date_field() -> (r: &'static str)
    ensures
        r@ == date_name(),
{
    "date"
}

/// The name of the derived field.
pub fn composite_field() -> (r: &'static str)
    ensures
        r@ == composite_name(),
{
    "Эфф. темп."
}

/// Whether `field` is one of the columns that are no measurement.
pub fn metadata_field(field: &str) -> (r: bool)
    ensures
        r == is_metadata(field@),
{
    same_text(field, "id") || same_text(field, "serial") || same_text(field, "date")
}

/// The menu entry of `field` of `sensor`.
pub fn qualify(sensor: &str, field: &str) -> (r: String)
    ensures
        r@ == qualified(sensor@, field@),
{
    let mut r = String::from_str(sensor);
    r.push('/');
    r.append(field);
    r
}

/// The sensor and the field that an entry names; `None` for an entry
/// without `/`.
pub fn split_entry(entry: &str) -> (r: Option<(String, String)>)
    ensures
        r is Some <==> is_qualified(entry@),
        r matches Some((sensor, field)) ==> sensor@ == sensor_of(entry@) && field@ == field_of(
            entry@,
        ),
{
    crate::text::split_once(entry, '/')
}

/// Whether an entry names a sensor's field.
pub fn qualified_entry(entry: &str) -> (r: bool)
    ensures
        r == is_qualified(entry@),
{
    let chars = chars_of(entry);
    proof {
        lemma_first_index(entry@, '/');
    }
    find_char(&chars, '/').is_some()
}

/// The field that an entry names; nothing for an entry without `/`.
pub fn field_part(entry: &str) -> (r: String)
    ensures
        r@ == field_of(entry@),
{
    proof {
        lemma_first_index(entry@, '/');
    }
    match split_entry(entry) {
        Some((_, field)) => field,
        None => String::new(),
    }
}

/// Whether an entry names the derived field of its sensor.
pub fn composite_entry(entry: &str) -> (r: bool)
    ensures
        r == (field_of(entry@) == composite_name()),
{
    let field = field_part(entry);
    same_text(field.as_str(), composite_field())
}

/// The sensor that an entry names.
pub fn sensor_name(entry: &str) -> (r: String)
    ensures
        r@ == sensor_of(entry@),
{
    let chars = chars_of(entry);
    proof {
        lemma_first_index(entry@, '/');
    }
    match find_char(&chars, '/') {
        Some(i) => string_of(&chars, 0, i),
        None => {
            assert(chars@.subrange(0, chars@.len() as int) =~= chars@.take(chars@.len() as int));
            string_of(&chars, 0, chars.len())
        },
    }
}

/// The field that a query reads for an entry.
pub fn field_name(entry: &str) -> (r: String)
    ensures
        r@ == resolved_field(entry@),
{
    match split_entry(entry) {
        Some((_, field)) => field,
        None => String::from_str(entry),
    }
}

/// First place of `value` in `list`, if it is there.
#[verifier::loop_isolation(false)]
pub fn find_text(list: &Vec<String>, value: &str) -> (r: Option<usize>)
    ensures
        match r {
            Some(i) => texts(list@).index_of_first(value@) == Some(i as int) && i < list.len(),
            None => texts(list@).index_of_first(value@) is None,
        },
{
    let ghost all = texts(list@);
    proof {
        all.index_of_first_ensures(value@);
    }
    let mut i: usize = 0;
    while i < list.len()
        invariant
            i <= list.len(),
            forall|j: int| 0 <= j < i ==> all[j] != value@,
        decreases list.len() - i,
    {
        if same_text(list[i].as_str(), value) {
            assert(all[i as int] == value@);
            return Some(i);
        }
        i += 1;
    }
    None
}

/// Carries a selection over from `old_list` to `new_list` by the entry it
/// points at.
pub fn rebase(old_list: &Vec<String>, new_list: &Vec<String>, choice: Option<usize>) -> (r:
    Option<usize>)
    ensures
        r == rebased(texts(old_list@), texts(new_list@), choice),
{
    match choice {
        Some(i) => {
            if i < old_list.len() {
                find_text(new_list, old_list[i].as_str())
            } else {
                None
            }
        },
        None => None,
    }
}

/// The entries of one sensor, from the fields listed under it.
#[verifier::loop_isolation(false)]
pub fn block_of(sensor: &str, fields: &Vec<String>) -> (out: Vec<String>)
    ensures
        texts(out@) == sensor_block(sensor@, texts(fields@)),
{
    let mut out: Vec<String> = Vec::new();
    let ghost all = texts(fields@);
    let mut i: usize = 0;
    assert(texts(out@) =~= sensor_block(sensor@, all.take(0)));
    while i < fields.len()
        invariant
            i <= fields.len(),
            texts(out@) == sensor_block(sensor@, all.take(i as int)),
        decreases fields.len() - i,
    {
        let ghost before = texts(out@);
        proof {
            assert(all.take(i + 1).drop_last() =~= all.take(i as int));
            assert(all.take(i + 1).last() == fields@[i as int]@);
        }
        if !metadata_field(fields[i].as_str()) {
            out.push(qualify(sensor, fields[i].as_str()));
            assert(texts(out@) =~= before.push(qualified(sensor@, fields@[i as int]@)));
        }
        i += 1;
    }
    assert(all.take(fields.len() as int) =~= all);
    out
}

/// The measured fields of `sensor` as menu entries: what the two extra
/// menus of a derived curve offer. A sensor that the catalog does not know
/// has none.
pub fn raw_fields(catalog: &SensorLists, sensor: &str) -> (out: Vec<String>)
    ensures
        texts(out@) == sensor_block(sensor@, listed(catalog@, sensor@)),
{
    match catalog.get(sensor) {
        Some(fields) => block_of(sensor, fields),
        None => {
            let out: Vec<String> = Vec::new();
            assert(texts(out@) =~= sensor_block(sensor@, Seq::empty()));
            out
        },
    }
}

/// Builds the candidate list of the X data slot.
#[verifier::loop_isolation(false)]
pub fn build_x_fields(catalog: &SensorLists) -> (out: Vec<String>)
    ensures
        texts(out@) == x_candidates(catalog@),
{
    let mut out: Vec<String> = Vec::new();
    out.push(String::from_str("date"));
    let mut i: usize = 0;
    assert(texts(out@) =~= seq![date_name()] + all_blocks(catalog@.take(0)));
    while i < catalog.len()
        invariant
            i <= catalog@.len(),
            texts(out@) == seq![date_name()] + all_blocks(catalog@.take(i as int)),
        decreases catalog@.len() - i,
    {
        let block = block_of(catalog.name(i), catalog.values(i));
        let ghost before = texts(out@);
        proof {
            assert(catalog@.take(i + 1).drop_last() =~= catalog@.take(i as int));
            assert(catalog@.take(i + 1).last() == catalog@[i as int]);
        }
        let mut k: usize = 0;
        while k < block.len()
            invariant
                k <= block.len(),
                texts(out@) == before + texts(block@).take(k as int),
            decreases block.len() - k,
        {
            let ghost so_far = texts(out@);
            let item = block[k].clone();
            out.push(item);
            k += 1;
            assert(texts(block@).take(k as int) =~= texts(block@).take(k - 1).push(item@));
            assert(texts(out@) =~= so_far.push(item@));
        }
        assert(texts(block@).take(block.len() as int) =~= texts(block@));
        assert(before + texts(block@) =~= seq![date_name()] + all_blocks(catalog@.take(i + 1)));
        i += 1;
    }
    assert(catalog@.take(catalog@.len() as int) =~= catalog@);
    out
}

/// Builds the candidate list of the Y data slots from the X list and the
/// entry that X has chosen.
#[verifier::loop_isolation(false)]
pub fn build_y_fields(x_list: &Vec<String>, x_value: Option<&str>) -> (out: Vec<String>)
    ensures
        texts(out@) == y_candidates(
            texts(x_list@),
            match x_value {
                Some(x) => Some(x@),
                None => None,
            },
        ),
{
    let ghost xs = texts(x_list@);
    let ghost xv: Option<Seq<char>> = match x_value {
        Some(x) => Some(x@),
        None => None,
    };
    // The sensor that X pins, if it pins one.
    let pinned: Option<String> = match x_value {
        Some(x) => match split_entry(x) {
            Some((sensor, _)) => Some(sensor),
            None => None,
        },
        None => None,
    };
    let mut base: Vec<String> = Vec::new();
    let mut sensors: Vec<String> = Vec::new();
    let mut i: usize = 0;
    assert(texts(base@) =~= y_base(xs.take(0), xv));
    while i < x_list.len()
        invariant
            i <= x_list.len(),
            texts(base@) == y_base(xs.take(i as int), xv),
            sensors.len() == base.len(),
            forall|j: int| 0 <= j < base.len() ==> sensors@[j]@ == sensor_of(base@[j]@),
        decreases x_list.len() - i,
    {
        let ghost before = texts(base@);
        proof {
            assert(xs.take(i + 1).drop_last() =~= xs.take(i as int));
            assert(xs.take(i + 1).last() == x_list@[i as int]@);
        }
        match split_entry(x_list[i].as_str()) {
            Some((sensor, _)) => {
                let keep = match &pinned {
                    Some(p) => same_text(sensor.as_str(), p.as_str()),
                    None => true,
                };
                if keep {
                    base.push(x_list[i].clone());
                    sensors.push(sensor);
                    assert(texts(base@) =~= before.push(x_list@[i as int]@));
                }
            },
            None => {},
        }
        i += 1;
    }
    assert(xs.take(x_list.len() as int) =~= xs);
    let ghost bs = texts(base@);
    let mut out: Vec<String> = Vec::new();
    let mut n: usize = 0;
    assert(texts(out@) =~= with_composites(bs, 0));
    while n < base.len()
        invariant
            n <= base.len(),
            texts(out@) == with_composites(bs, n as int),
        decreases base.len() - n,
    {
        let ghost before = texts(out@);
        out.push(base[n].clone());
        let closes = if n + 1 == base.len() {
            true
        } else {
            !same_text(sensors[n].as_str(), sensors[n + 1].as_str())
        };
        if closes {
            out.push(qualify(sensors[n].as_str(), "Эфф. темп."));
            assert(texts(out@) =~= before.push(bs[n as int]).push(
                qualified(sensor_of(bs[n as int]), composite_name()),
            ));
        } else {
            assert(texts(out@) =~= before.push(bs[n as int]));
        }
        n += 1;
    }
    out
}

} // verus!
