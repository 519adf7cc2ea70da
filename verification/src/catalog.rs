//! The sensor catalog: for every sensor, by name, an ordered set of strings
//! (its measurement fields, or its serial numbers).

use vstd::prelude::*;

use crate::text::{lemma_lex_irreflexive, lemma_lex_transitive, lex_less, rank, texts, Rank};

verus! {

/// One sensor of a catalog, as the contracts see it.
pub struct Entry {
    /// The sensor's name.
    pub name: Seq<char>,
    /// The strings listed under it.
    pub values: Seq<Seq<char>>,
}

/// Every element comes before all that follow it: sorted, nothing twice.
pub open spec fn strictly_sorted(s: Seq<Seq<char>>) -> bool {
    forall|i: int, j: int| 0 <= i < j < s.len() ==> lex_less(#[trigger] s[i], #[trigger] s[j])
}

/// The sensor names of a catalog, in its order.
pub open spec fn names(entries: Seq<Entry>) -> Seq<Seq<char>> {
    Seq::new(entries.len(), |i: int| entries[i].name)
}

/// A catalog lists its sensors by name and each sensor's strings in order,
/// nothing twice.
pub open spec fn catalog_wf(entries: Seq<Entry>) -> bool {
    &&& strictly_sorted(names(entries))
    &&& forall|i: int| 0 <= i < entries.len() ==> strictly_sorted(#[trigger] entries[i].values)
}

/// The strings listed under `name`, if the catalog knows that sensor.
pub open spec fn lookup(entries: Seq<Entry>, name: Seq<char>) -> Option<Seq<Seq<char>>> {
    match names(entries).index_of_first(name) {
        Some(i) => Some(entries[i].values),
        None => None,
    }
}

/// The strings listed under `name`; none for a sensor that is not known.
pub open spec fn listed(entries: Seq<Entry>, name: Seq<char>) -> Seq<Seq<char>> {
    match lookup(entries, name) {
        Some(values) => values,
        None => Seq::empty(),
    }
}

/// In a sorted list a string stands at one place at most.
pub proof fn lemma_sorted_index(s: Seq<Seq<char>>, i: int)
    requires
        strictly_sorted(s),
        0 <= i < s.len(),
    ensures
        s.index_of_first(s[i]) == Some(i),
{
    s.index_of_first_ensures(s[i]);
    assert(s.contains(s[i]));
    let k = s.index_of_first(s[i])->0;
    lemma_lex_irreflexive(s[i]);
    if k < i {
        assert(lex_less(s[k], s[i]));
    } else if i < k {
        assert(s[i] != s[i]);
    }
}

/// A list with one more element holds what it held before, and that element.
pub proof fn lemma_contains_inserted<A>(s: Seq<A>, pos: int, x: A)
    requires
        0 <= pos <= s.len(),
    ensures
        forall|t: A| s.insert(pos, x).contains(t) <==> (s.contains(t) || t == x),
{
    let r = s.insert(pos, x);
    assert forall|t: A| r.contains(t) <==> (s.contains(t) || t == x) by {
        if r.contains(t) {
            let k = choose|k: int| 0 <= k < r.len() && r[k] == t;
            if k < pos {
                assert(s[k] == t);
            } else if k > pos {
                assert(s[k - 1] == t);
            }
        }
        if s.contains(t) {
            let k = choose|k: int| 0 <= k < s.len() && s[k] == t;
            if k < pos {
                assert(r[k] == t);
            } else {
                assert(r[k + 1] == t);
            }
        }
        if t == x {
            assert(r[pos] == t);
        }
    }
}

/// The first `i + 1` elements are the first `i` and the one at `i`.
pub proof fn lemma_contains_next<A>(s: Seq<A>, i: int)
    requires
        0 <= i < s.len(),
    ensures
        forall|t: A| s.take(i + 1).contains(t) <==> (s.take(i).contains(t) || t == s[i]),
{
    assert(s.take(i + 1) =~= s.take(i).push(s[i]));
    lemma_contains_inserted(s.take(i), i, s[i]);
    assert(s.take(i).insert(i, s[i]) =~= s.take(i).push(s[i]));
}

/// Where `item` stands in the sorted `list`, or where it belongs: everything
/// before that place comes before `item`, and what stands at it does not.
#[verifier::loop_isolation(false)]
pub fn locate(list: &Vec<String>, item: &str) -> (r: (usize, bool))
    requires
        strictly_sorted(texts(list@)),
    ensures
        r.0 <= list.len(),
        forall|j: int| 0 <= j < r.0 ==> lex_less(#[trigger] texts(list@)[j], item@),
        r.1 ==> r.0 < list.len() && list@[r.0 as int]@ == item@,
        !r.1 ==> forall|j: int| r.0 <= j < list.len() ==> lex_less(item@, #[trigger] texts(list@)[j]),
        r.1 == texts(list@).contains(item@),
{
    let ghost all = texts(list@);
    let mut i: usize = 0;
    while i < list.len()
        invariant
            i <= list.len(),
            forall|j: int| 0 <= j < i ==> lex_less(#[trigger] all[j], item@),
        decreases list.len() - i,
    {
        match rank(list[i].as_str(), item) {
            Rank::Before => {},
            Rank::Same => {
                assert(all[i as int] == item@);
                return (i, true);
            },
            Rank::After => {
                assert forall|j: int| i <= j < list.len() implies lex_less(item@, #[trigger] all[j]) by {
                    if j > i {
                        assert(lex_less(all[i as int], all[j]));
                        lemma_lex_transitive(item@, all[i as int], all[j]);
                    }
                }
                assert(!all.contains(item@)) by {
                    if all.contains(item@) {
                        let k = choose|k: int| 0 <= k < all.len() && all[k] == item@;
                        lemma_lex_irreflexive(item@);
                    }
                }
                return (i, false);
            },
        }
        i += 1;
    }
    assert(!all.contains(item@)) by {
        if all.contains(item@) {
            let k = choose|k: int| 0 <= k < all.len() && all[k] == item@;
            lemma_lex_irreflexive(item@);
        }
    }
    (i, false)
}

/// The strings of `values` in order, each once.
#[verifier::loop_isolation(false)]
pub fn sorted_set(values: Vec<String>) -> (out: Vec<String>)
    ensures
        strictly_sorted(texts(out@)),
        forall|t: Seq<char>| texts(out@).contains(t) <==> texts(values@).contains(t),
{
    let mut out: Vec<String> = Vec::new();
    let mut i: usize = 0;
    let ghost all = texts(values@);
    while i < values.len()
        invariant
            i <= values.len(),
            strictly_sorted(texts(out@)),
            forall|t: Seq<char>| texts(out@).contains(t) <==> all.take(i as int).contains(t),
        decreases values.len() - i,
    {
        let ghost before = texts(out@);
        let item = values[i].clone();
        let (pos, found) = locate(&out, item.as_str());
        if !found {
            out.insert(pos, item);
            assert(texts(out@) =~= before.insert(pos as int, item@));
            assert forall|a: int, b: int| 0 <= a < b < out.len() implies lex_less(
                #[trigger] texts(out@)[a],
                #[trigger] texts(out@)[b],
            ) by {
                let ia = if a < pos { a } else { a - 1 };
                let ib = if b < pos { b } else { b - 1 };
                if a == pos {
                    assert(texts(out@)[b] == before[ib]);
                } else if b == pos {
                    assert(texts(out@)[a] == before[ia]);
                } else {
                    assert(texts(out@)[a] == before[ia]);
                    assert(texts(out@)[b] == before[ib]);
                }
            }
        }
        proof {
            lemma_contains_next(all, i as int);
            if !found {
                lemma_contains_inserted(before, pos as int, item@);
            }
            assert(texts(out@)[pos as int] == item@);
            assert(all[i as int] == item@);
            assert forall|t: Seq<char>| texts(out@).contains(t) <==> all.take(i + 1).contains(
                t,
            ) by {
                assert(before.contains(t) <==> all.take(i as int).contains(t));
                if found {
                    assert(texts(out@) == before);
                    assert(before.contains(item@));
                } else {
                    assert(before.insert(pos as int, item@).contains(t) <==> (before.contains(t)
                        || t == item@));
                }
            }
        }
        i += 1;
    }
    assert(all.take(values.len() as int) =~= all);
    out
}

/// One sensor with the strings listed under it.
#[derive(Debug)]
pub struct SensorEntry {
    name: String,
    values: Vec<String>,
}

impl View for SensorEntry {
    type V = Entry;

    closed spec fn view(&self) -> Entry {
        Entry { name: self.name@, values: texts(self.values@) }
    }
}

/// A catalog from sensor names to ordered sets of strings. It stands in for
/// a map keyed by name: sensors are kept in the order of their names, and a
/// name occurs once.
#[derive(Debug)]
pub struct SensorLists {
    entries: Vec<SensorEntry>,
}

/// The measurement fields of every sensor.
pub type SensorsFields = SensorLists;

/// The serial numbers of every sensor.
pub type SensorsSerials = SensorLists;

impl View for SensorLists {
    type V = Seq<Entry>;

    closed spec fn view(&self) -> Seq<Entry> {
        entry_views(self.entries@)
    }
}

/// The views of a list of entries, element by element.
spec fn entry_views(entries: Seq<SensorEntry>) -> Seq<Entry> {
    Seq::new(entries.len(), |i: int| entries[i]@)
}

impl Clone for SensorLists {
    /// A catalog with the same sensors and strings.
    #[verifier::loop_isolation(false)]
    fn clone(&self) -> (r: Self)
        ensures
            r@ == self@,
    {
        proof {
            use_type_invariant(self);
        }
        let mut entries: Vec<SensorEntry> = Vec::new();
        let mut i: usize = 0;
        while i < self.entries.len()
            invariant
                i <= self.entries.len(),
                entries.len() == i,
                forall|j: int| 0 <= j < i ==> entries@[j]@ == self.entries@[j]@,
            decreases self.entries.len() - i,
        {
            let source = &self.entries[i];
            let mut values: Vec<String> = Vec::new();
            let mut k: usize = 0;
            while k < source.values.len()
                invariant
                    k <= source.values.len(),
                    values.len() == k,
                    forall|j: int| 0 <= j < k ==> values@[j]@ == source.values@[j]@,
                decreases source.values.len() - k,
            {
                values.push(source.values[k].clone());
                k += 1;
            }
            assert(texts(values@) =~= texts(source.values@));
            entries.push(SensorEntry { name: source.name.clone(), values });
            i += 1;
        }
        assert(entry_views(entries@) =~= self@);
        SensorLists { entries }
    }
}

impl SensorLists {
    /// Holds of every catalog at all times.
    #[verifier::type_invariant]
    pub open spec fn ordered(&self) -> bool {
        catalog_wf(self@)
    }

    /// A catalog without sensors.
    pub fn new() -> (r: Self)
        ensures
            r@ == Seq::<Entry>::empty(),
    {
        let entries: Vec<SensorEntry> = Vec::new();
        assert(entry_views(entries@) =~= Seq::<Entry>::empty());
        SensorLists { entries }
    }

    /// Number of sensors.
    pub fn len(&self) -> (r: usize)
        ensures
            r == self@.len(),
    {
        self.entries.len()
    }

    /// Name of the `i`-th sensor.
    pub fn name(&self, i: usize) -> (r: &str)
        requires
            i < self@.len(),
        ensures
            r@ == self@[i as int].name,
    {
        self.entries[i].name.as_str()
    }

    /// The strings listed under the `i`-th sensor.
    pub fn values(&self, i: usize) -> (r: &Vec<String>)
        requires
            i < self@.len(),
        ensures
            texts(r@) == self@[i as int].values,
    {
        &self.entries[i].values
    }

    /// Where `name` stands among the sensors, or where it belongs.
    #[verifier::loop_isolation(false)]
    fn locate(&self, name: &str) -> (r: (usize, bool))
        ensures
            r.0 <= self@.len(),
            forall|j: int| 0 <= j < r.0 ==> lex_less(#[trigger] names(self@)[j], name@),
            r.1 ==> r.0 < self@.len() && self@[r.0 as int].name == name@,
            !r.1 ==> forall|j: int|
                r.0 <= j < self@.len() ==> lex_less(name@, #[trigger] names(self@)[j]),
            r.1 == names(self@).contains(name@),
            r.1 ==> names(self@).index_of_first(name@) == Some(r.0 as int),
    {
        proof {
            use_type_invariant(self);
        }
        let ghost all = names(self@);
        let mut i: usize = 0;
        while i < self.entries.len()
            invariant
                i <= self.entries.len(),
                forall|j: int| 0 <= j < i ==> lex_less(#[trigger] all[j], name@),
            decreases self.entries.len() - i,
        {
            assert(all[i as int] == self.entries@[i as int].name@);
            match rank(self.entries[i].name.as_str(), name) {
                Rank::Before => {},
                Rank::Same => {
                    proof {
                        lemma_sorted_index(all, i as int);
                    }
                    return (i, true);
                },
                Rank::After => {
                    assert forall|j: int| i <= j < all.len() implies lex_less(
                        name@,
                        #[trigger] all[j],
                    ) by {
                        if j > i {
                            assert(lex_less(all[i as int], all[j]));
                            lemma_lex_transitive(name@, all[i as int], all[j]);
                        }
                    }
                    assert(!all.contains(name@)) by {
                        if all.contains(name@) {
                            let k = choose|k: int| 0 <= k < all.len() && all[k] == name@;
                            lemma_lex_irreflexive(name@);
                        }
                    }
                    return (i, false);
                },
            }
            i += 1;
        }
        assert(!all.contains(name@)) by {
            if all.contains(name@) {
                let k = choose|k: int| 0 <= k < all.len() && all[k] == name@;
                lemma_lex_irreflexive(name@);
            }
        }
        (i, false)
    }

    /// Place of the sensor `name` in the catalog, if it is known.
    pub fn position(&self, name: &str) -> (r: Option<usize>)
        ensures
            match r {
                Some(i) => names(self@).index_of_first(name@) == Some(i as int) && i < self@.len(),
                None => names(self@).index_of_first(name@) is None,
            },
    {
        let (pos, found) = self.locate(name);
        proof {
            names(self@).index_of_first_ensures(name@);
        }
        if found {
            Some(pos)
        } else {
            None
        }
    }

    /// The strings listed under `name`, if the catalog knows that sensor.
    pub fn get(&self, name: &str) -> (r: Option<&Vec<String>>)
        ensures
            match r {
                Some(values) => lookup(self@, name@) == Some(texts(values@)),
                None => lookup(self@, name@) is None,
            },
    {
        match self.position(name) {
            Some(i) => Some(&self.entries[i].values),
            None => None,
        }
    }

    /// Lists `values` under the sensor `name`, in order and each once, in
    /// place of what was listed under it before. All other sensors keep
    /// their strings.
    pub fn insert(&mut self, name: String, values: Vec<String>)
        ensures
            strictly_sorted(listed(final(self)@, name@)),
            lookup(final(self)@, name@) is Some,
            forall|t: Seq<char>|
                listed(final(self)@, name@).contains(t) <==> texts(values@).contains(t),
            forall|other: Seq<char>|
                other != name@ ==> lookup(final(self)@, other) == lookup(old(self)@, other),
            final(self)@.len() == old(self)@.len() + (if names(old(self)@).contains(name@) {
                0int
            } else {
                1int
            }),
    {
        proof {
            use_type_invariant(&*self);
        }
        let (pos, found) = self.locate(name.as_str());
        let ghost before = self@;
        let ghost key = name@;
        let set = sorted_set(values);
        let ghost listing = texts(set@);
        let entry = SensorEntry { name, values: set };
        let mut entries: Vec<SensorEntry> = Vec::new();
        core::mem::swap(&mut self.entries, &mut entries);
        if found {
            entries[pos] = entry;
        } else {
            entries.insert(pos, entry);
        }
        proof {
            let now = entry_views(entries@);
            if found {
                assert(now =~= before.update(pos as int, entry@));
                assert(names(now) =~= names(before));
            } else {
                assert(now =~= before.insert(pos as int, entry@));
                assert(names(now) =~= names(before).insert(pos as int, key));
                assert forall|a: int, b: int| 0 <= a < b < now.len() implies lex_less(
                    #[trigger] names(now)[a],
                    #[trigger] names(now)[b],
                ) by {
                    let ia = if a < pos { a } else { a - 1 };
                    let ib = if b < pos { b } else { b - 1 };
                    if a == pos {
                        assert(names(now)[b] == names(before)[ib]);
                    } else if b == pos {
                        assert(names(now)[a] == names(before)[ia]);
                    } else {
                        assert(names(now)[a] == names(before)[ia]);
                        assert(names(now)[b] == names(before)[ib]);
                    }
                }
            }
            assert(now[pos as int] == entry@);
            assert forall|i: int| 0 <= i < now.len() implies strictly_sorted(
                #[trigger] now[i].values,
            ) by {
                if i != pos {
                    let ib = if found || i < pos { i } else { i - 1 };
                    assert(now[i] == before[ib]);
                }
            }
            assert(catalog_wf(now));
            lemma_sorted_index(names(now), pos as int);
            assert(lookup(now, key) == Some(listing));
            assert forall|other: Seq<char>| other != key implies lookup(now, other) == lookup(
                before,
                other,
            ) by {
                lemma_lookup_elsewhere(before, now, pos as int, found, other);
            }
        }
        self.entries = entries;
    }
}

/// Replacing or inserting one sensor leaves the listing of every other name
/// as it was.
proof fn lemma_lookup_elsewhere(
    before: Seq<Entry>,
    now: Seq<Entry>,
    pos: int,
    replaced: bool,
    other: Seq<char>,
)
    requires
        catalog_wf(before),
        catalog_wf(now),
        0 <= pos < now.len(),
        now[pos].name != other,
        replaced ==> pos < before.len() && now == before.update(pos, now[pos]) && before[pos].name
            == now[pos].name,
        !replaced ==> pos <= before.len() && now == before.insert(pos, now[pos]),
    ensures
        lookup(now, other) == lookup(before, other),
{
    let nb = names(before);
    let nn = names(now);
    nb.index_of_first_ensures(other);
    nn.index_of_first_ensures(other);
    if nb.contains(other) {
        let k = nb.index_of_first(other)->0;
        let kn = if replaced || k < pos { k } else { k + 1 };
        assert(nn[kn] == other);
        lemma_sorted_index(nn, kn);
        assert(now[kn] == before[k]);
    } else if nn.contains(other) {
        let kn = nn.index_of_first(other)->0;
        let k = if replaced || kn < pos { kn } else { kn - 1 };
        assert(nb[k] == other);
    }
}

} // verus!
