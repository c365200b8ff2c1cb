//! Names in alphabetical order, and maps from names to values.

use crate::text::chars_of;
use vstd::prelude::*;

verus! {

/// The alphabetical order of texts: by the first character in which they differ, a text standing
/// before its own continuations.
pub open spec fn precedes(a: Seq<char>, b: Seq<char>) -> bool
    decreases b.len(),
{
    if b.len() == 0 {
        false
    } else if a.len() == 0 {
        true
    } else if a[0] == b[0] {
        precedes(a.drop_first(), b.drop_first())
    } else {
        a[0] < b[0]
    }
}

pub proof fn lemma_precedes_transitive(a: Seq<char>, b: Seq<char>, c: Seq<char>)
    requires
        precedes(a, b),
        precedes(b, c),
    ensures
        precedes(a, c),
    decreases c.len(),
{
    if a.len() > 0 && a[0] == b[0] && b[0] == c[0] {
        lemma_precedes_transitive(a.drop_first(), b.drop_first(), c.drop_first());
    }
}

pub proof fn lemma_precedes_irreflexive(a: Seq<char>)
    ensures
        !precedes(a, a),
    decreases a.len(),
{
    if a.len() > 0 {
        lemma_precedes_irreflexive(a.drop_first());
    }
}

pub proof fn lemma_precedes_total(a: Seq<char>, b: Seq<char>)
    ensures
        precedes(a, b) || precedes(b, a) || a == b,
    decreases a.len(),
{
    if a.len() > 0 && b.len() > 0 && a[0] == b[0] {
        lemma_precedes_total(a.drop_first(), b.drop_first());
        if a.drop_first() == b.drop_first() {
            assert(a == seq![a[0]] + a.drop_first());
            assert(b == seq![b[0]] + b.drop_first());
        }
    } else if a.len() == 0 && b.len() == 0 {
        assert(a == b);
    }
}

pub fn comes_before(a: &str, b: &str) -> (r: bool)
    ensures
        r == precedes(a@, b@),
{
    let x = chars_of(a);
    let y = chars_of(b);
    let mut i: usize = 0;
    assert(x@.skip(0) == x@ && y@.skip(0) == y@);
    while i < x.len() && i < y.len()
        invariant
            i <= x.len(),
            i <= y.len(),
            precedes(x@, y@) == precedes(x@.skip(i as int), y@.skip(i as int)),
            x@ == a@,
            y@ == b@,
        decreases x.len() - i,
    {
        let c: char = x[i];
        let d: char = y[i];
        if c != d {
            return c < d;
        }
        assert(x@.skip(i as int).drop_first() == x@.skip(i + 1));
        assert(y@.skip(i as int).drop_first() == y@.skip(i + 1));
        i = i + 1;
    }
    i < y.len()
}

/// Whether the names stand in strictly increasing order, so that none occurs twice.
pub open spec fn increasing(names: Seq<Seq<char>>) -> bool {
    forall|i: int, j: int|
        0 <= i < j < names.len() ==> precedes(#[trigger] names[i], #[trigger] names[j])
}

/// One entry of a `NameMap`.
#[derive(Debug)]
pub struct Entry<V> {
    pub name: String,
    pub value: V,
}

/// A map from names to values that keeps its entries in alphabetical order.
#[derive(Debug)]
pub struct NameMap<V> {
    entries: Vec<Entry<V>>,
}

pub open spec fn entry_names<V>(entries: Seq<Entry<V>>) -> Seq<Seq<char>> {
    entries.map_values(|e: Entry<V>| e.name@)
}

/// What a sequence of entries maps each name to.
pub open spec fn entry_map<V>(entries: Seq<Entry<V>>) -> Map<Seq<char>, V>
    decreases entries.len(),
{
    if entries.len() == 0 {
        Map::empty()
    } else {
        entry_map(entries.drop_last()).insert(entries.last().name@, entries.last().value)
    }
}

/// What a sequence of entries in alphabetical order maps, entry by entry.
pub proof fn lemma_entry_map<V>(entries: Seq<Entry<V>>)
    requires
        increasing(entry_names(entries)),
    ensures
        forall|i: int|
            0 <= i < entries.len() ==> #[trigger] entry_map(entries).dom().contains(
                entries[i].name@,
            ) && entry_map(entries)[entries[i].name@] == entries[i].value,
        forall|n: Seq<char>| #[trigger]
            entry_map(entries).dom().contains(n) ==> exists|i: int|
                0 <= i < entries.len() && #[trigger] entries[i].name@ == n,
    decreases entries.len(),
{
    if entries.len() > 0 {
        let front = entries.drop_last();
        let names = entry_names(entries);
        assert forall|i: int, j: int| 0 <= i < j < entry_names(front).len() implies precedes(
            #[trigger] entry_names(front)[i],
            #[trigger] entry_names(front)[j],
        ) by {
            assert(precedes(names[i], names[j]));
        }
        lemma_entry_map(front);
        let last = entries.last();
        assert forall|i: int| 0 <= i < entries.len() implies #[trigger] entry_map(
            entries,
        ).dom().contains(entries[i].name@) && entry_map(entries)[entries[i].name@]
            == entries[i].value by {
            if i < front.len() {
                assert(front[i] == entries[i]);
                assert(precedes(names[i], names[entries.len() - 1]));
                lemma_precedes_irreflexive(last.name@);
                assert(entry_map(front).dom().contains(front[i].name@));
            }
        }
        assert forall|n: Seq<char>| #[trigger] entry_map(entries).dom().contains(n) implies exists|
            i: int,
        |
            0 <= i < entries.len() && #[trigger] entries[i].name@ == n by {
            if n == last.name@ {
                assert(entries[entries.len() - 1].name@ == n);
            } else {
                assert(entry_map(front).dom().contains(n));
                let i = choose|i: int| 0 <= i < front.len() && #[trigger] front[i].name@ == n;
                assert(entries[i].name@ == n);
            }
        }
    }
}

/// An entry's name is none of those before it.
pub proof fn lemma_fresh_entry<V>(entries: Seq<Entry<V>>, i: int)
    requires
        increasing(entry_names(entries)),
        0 <= i < entries.len(),
    ensures
        !entry_map(entries.take(i)).dom().contains(entries[i].name@),
        entry_map(entries.take(i + 1)) == entry_map(entries.take(i)).insert(
            entries[i].name@,
            entries[i].value,
        ),
{
    let front = entries.take(i);
    let names = entry_names(entries);
    assert forall|a: int, b: int| 0 <= a < b < entry_names(front).len() implies precedes(
        #[trigger] entry_names(front)[a],
        #[trigger] entry_names(front)[b],
    ) by {
        assert(precedes(names[a], names[b]));
    }
    lemma_entry_map(front);
    if entry_map(front).dom().contains(entries[i].name@) {
        let k = choose|k: int| 0 <= k < front.len() && #[trigger] front[k].name@
            == entries[i].name@;
        assert(precedes(names[k], names[i]));
        lemma_precedes_irreflexive(names[i]);
    }
    assert(entries.take(i + 1).drop_last() == front);
    assert(entries.take(i + 1).last() == entries[i]);
}

impl<V> NameMap<V> {
    #[verifier::type_invariant]
    spec fn ordered(self) -> bool {
        increasing(entry_names(self.entries@))
    }

    pub closed spec fn listed(self) -> Seq<Entry<V>> {
        self.entries@
    }

    pub open spec fn view(self) -> Map<Seq<char>, V> {
        entry_map(self.listed())
    }

    pub fn new() -> (r: NameMap<V>)
        ensures
            r@ == Map::<Seq<char>, V>::empty(),
            r.listed() == Seq::<Entry<V>>::empty(),
    {
        let r = NameMap { entries: Vec::new() };
        r
    }

    pub fn len(&self) -> (n: usize)
        ensures
            n == self.listed().len(),
    {
        self.entries.len()
    }

    /// The entry at `i`, in alphabetical order of the names.
    pub fn entry(&self, i: usize) -> (e: &Entry<V>)
        requires
            i < self.listed().len(),
        ensures
            *e == self.listed()[i as int],
            increasing(entry_names(self.listed())),
    {
        proof {
            use_type_invariant(self);
        }
        &self.entries[i]
    }

    /// The index of the first entry that does not come before `name`.
    fn position(&self, name: &str) -> (at: usize)
        ensures
            at <= self.entries@.len(),
            forall|i: int| 0 <= i < at ==> precedes(#[trigger] self.entries@[i].name@, name@),
            forall|i: int|
                at <= i < self.entries@.len() ==> !precedes(#[trigger] self.entries@[i].name@, name@),
    {
        proof {
            use_type_invariant(self);
        }
        let mut at: usize = 0;
        while at < self.entries.len() && comes_before(self.entries[at].name.as_str(), name)
            invariant
                at <= self.entries@.len(),
                forall|i: int| 0 <= i < at ==> precedes(#[trigger] self.entries@[i].name@, name@),
            decreases self.entries@.len() - at,
        {
            at = at + 1;
        }
        proof {
            let names = entry_names(self.entries@);
            assert forall|i: int| at <= i < self.entries@.len() implies !precedes(
                #[trigger] self.entries@[i].name@,
                name@,
            ) by {
                if i > at && precedes(names[i], name@) {
                    assert(precedes(names[at as int], names[i]));
                    lemma_precedes_transitive(names[at as int], names[i], name@);
                }
            }
        }
        at
    }

    pub fn get(&self, name: &str) -> (r: Option<&V>)
        ensures
            match r {
                Some(v) => self@.dom().contains(name@) && *v == self@[name@],
                None => !self@.dom().contains(name@),
            },
    {
        proof {
            use_type_invariant(self);
            lemma_entry_map(self.entries@);
        }
        let at: usize = self.position(name);
        if at < self.entries.len() && !comes_before(name, self.entries[at].name.as_str()) {
            proof {
                lemma_precedes_total(self.entries@[at as int].name@, name@);
                assert(self@.dom().contains(self.entries@[at as int].name@));
            }
            Some(&self.entries[at].value)
        } else {
            proof {
                if self@.dom().contains(name@) {
                    let i = choose|i: int|
                        0 <= i < self.entries@.len() && #[trigger] self.entries@[i].name@ == name@;
                    lemma_precedes_irreflexive(name@);
                    let names = entry_names(self.entries@);
                    if i > at {
                        assert(precedes(names[at as int], names[i]));
                    }
                }
            }
            None
        }
    }

    /// The map that maps `name` to `value`, whatever it mapped it to before.
    pub fn with(self, name: &str, value: V) -> (r: NameMap<V>)
        ensures
            r@ == self@.insert(name@, value),
    {
        proof {
            use_type_invariant(&self);
            lemma_entry_map(self.entries@);
        }
        let at: usize = self.position(name);
        let name: String = name.to_owned();
        let mut entries = self.entries;
        let ghost before = entries@;
        if at < entries.len() && !comes_before(name.as_str(), entries[at].name.as_str()) {
            proof {
                lemma_precedes_total(before[at as int].name@, name@);
                let after = before.update(at as int, Entry { name, value });
                assert(entry_names(after) =~= entry_names(before));
                lemma_entry_map_update(before, at as int, name, value);
            }
            entries[at] = Entry { name, value };
        } else {
            proof {
                lemma_insert_increasing(before, at as int, name, value);
                lemma_entry_map_insert(before, at as int, name, value);
            }
            entries.insert(at, Entry { name, value });
        }
        NameMap { entries }
    }
}

/// The texts of a sequence of strings.
pub open spec fn texts(v: Seq<String>) -> Seq<Seq<char>> {
    v.map_values(|s: String| s@)
}

impl<V> NameMap<V> {
    /// The names that the map has entries for, in alphabetical order.
    pub fn names(&self) -> (r: Vec<String>)
        ensures
            increasing(texts(r@)),
            texts(r@) == entry_names(self.listed()),
            forall|n: Seq<char>| #[trigger] texts(r@).contains(n) <==> self@.dom().contains(n),
    {
        proof {
            use_type_invariant(self);
            lemma_entry_map(self.entries@);
        }
        let mut r: Vec<String> = Vec::new();
        let mut i: usize = 0;
        while i < self.entries.len()
            invariant
                i <= self.entries.len(),
                texts(r@) == entry_names(self.entries@).take(i as int),
            decreases self.entries.len() - i,
        {
            let ghost done = texts(r@);
            let name: String = self.entries[i].name.clone();
            r.push(name);
            proof {
                let names = entry_names(self.entries@);
                assert(texts(r@) =~= done.push(name@));
                assert(names[i as int] == name@);
                assert(names.take(i + 1) =~= names.take(i as int).push(name@));
            }
            i = i + 1;
        }
        proof {
            let names = entry_names(self.entries@);
            assert(texts(r@) =~= names);
            assert forall|n: Seq<char>| #[trigger] texts(r@).contains(n) implies self@.dom().contains(
                n,
            ) by {
                let k = choose|k: int| 0 <= k < names.len() && names[k] == n;
                assert(entry_map(self.entries@).dom().contains(self.entries@[k].name@));
            }
            assert forall|n: Seq<char>| self@.dom().contains(n) implies #[trigger] texts(
                r@,
            ).contains(n) by {
                let k = choose|k: int|
                    0 <= k < self.entries@.len() && #[trigger] self.entries@[k].name@ == n;
                assert(names[k] == n);
            }
        }
        r
    }
}

/// The values collected under `name`: none where the map has no such entry.
pub open spec fn collected<T>(m: Map<Seq<char>, Vec<T>>, name: Seq<char>) -> Seq<T> {
    if m.dom().contains(name) {
        m[name]@
    } else {
        Seq::empty()
    }
}

impl<T> NameMap<Vec<T>> {
    /// Appends `item` to the values collected under `name`.
    pub fn appended(self, name: &str, item: T) -> (r: NameMap<Vec<T>>)
        ensures
            r@.dom() == self@.dom().insert(name@),
            collected(r@, name@) == collected(self@, name@).push(item),
            forall|n: Seq<char>|
                n != name@ && self@.dom().contains(n) ==> #[trigger] r@[n] == self@[n],
    {
        proof {
            use_type_invariant(&self);
            lemma_entry_map(self.entries@);
        }
        let at: usize = self.position(name);
        let owned: String = name.to_owned();
        let mut entries = self.entries;
        let ghost before = entries@;
        if at < entries.len() && !comes_before(name, entries[at].name.as_str()) {
            proof {
                lemma_precedes_total(before[at as int].name@, name@);
                assert(entry_map(before).dom().contains(before[at as int].name@));
            }
            let mut entry = entries.remove(at);
            entry.value.push(item);
            proof {
                let after = before.update(at as int, entry);
                assert(entries@.insert(at as int, entry) =~= after);
                assert(entry_names(after) =~= entry_names(before));
                lemma_entry_map_update(before, at as int, entry.name, entry.value);
            }
            entries.insert(at, entry);
        } else {
            let mut items: Vec<T> = Vec::new();
            items.push(item);
            proof {
                lemma_insert_increasing(before, at as int, owned, items);
                lemma_entry_map_insert(before, at as int, owned, items);
                if entry_map(before).dom().contains(name@) {
                    let i = choose|i: int|
                        0 <= i < before.len() && #[trigger] before[i].name@ == name@;
                    lemma_precedes_irreflexive(name@);
                    assert(precedes(before[i].name@, name@) || precedes(name@, before[i].name@));
                }
                assert(items@ == Seq::<T>::empty().push(item));
            }
            entries.insert(at, Entry { name: owned, value: items });
        }
        NameMap { entries }
    }
}

proof fn lemma_entry_map_update<V>(entries: Seq<Entry<V>>, at: int, name: String, value: V)
    requires
        0 <= at < entries.len(),
        entries[at].name@ == name@,
        increasing(entry_names(entries)),
    ensures
        entry_map(entries.update(at, Entry { name, value })) == entry_map(entries).insert(
            name@,
            value,
        ),
    decreases entries.len(),
{
    let after = entries.update(at, Entry { name, value });
    let names = entry_names(entries);
    let last = entries.last();
    if at == entries.len() - 1 {
        assert(after.drop_last() == entries.drop_last());
        assert(entry_map(after) =~= entry_map(entries).insert(name@, value));
    } else {
        assert(after.drop_last() == entries.drop_last().update(at, Entry { name, value }));
        lemma_front_increasing(entries);
        lemma_entry_map_update(entries.drop_last(), at, name, value);
        assert(precedes(names[at], names[entries.len() - 1]));
        lemma_precedes_irreflexive(name@);
        assert(entry_map(after) =~= entry_map(entries).insert(name@, value));
    }
}

proof fn lemma_front_increasing<V>(entries: Seq<Entry<V>>)
    requires
        increasing(entry_names(entries)),
        entries.len() > 0,
    ensures
        increasing(entry_names(entries.drop_last())),
{
    let names = entry_names(entries);
    let front = entry_names(entries.drop_last());
    assert forall|i: int, j: int| 0 <= i < j < front.len() implies precedes(
        #[trigger] front[i],
        #[trigger] front[j],
    ) by {
        assert(precedes(names[i], names[j]));
    }
}

spec fn splits<V>(entries: Seq<Entry<V>>, at: int, name: Seq<char>) -> bool {
    &&& 0 <= at <= entries.len()
    &&& forall|i: int| 0 <= i < at ==> precedes(#[trigger] entries[i].name@, name)
    &&& forall|i: int| at <= i < entries.len() ==> !precedes(#[trigger] entries[i].name@, name)
    &&& at < entries.len() ==> precedes(name, entries[at].name@)
}

proof fn lemma_insert_increasing<V>(entries: Seq<Entry<V>>, at: int, name: String, value: V)
    requires
        increasing(entry_names(entries)),
        splits(entries, at, name@),
    ensures
        increasing(entry_names(entries.insert(at, Entry { name, value }))),
        forall|i: int| at <= i < entries.len() ==> precedes(name@, #[trigger] entries[i].name@),
{
    let names = entry_names(entries);
    let after = entry_names(entries.insert(at, Entry { name, value }));
    assert forall|i: int| at <= i < entries.len() implies precedes(
        name@,
        #[trigger] entries[i].name@,
    ) by {
        if i > at {
            assert(precedes(names[at], names[i]));
            lemma_precedes_transitive(name@, names[at], names[i]);
        }
    }
    assert forall|i: int, j: int| 0 <= i < j < after.len() implies precedes(
        #[trigger] after[i],
        #[trigger] after[j],
    ) by {
        if i < at {
            assert(after[i] == entries[i].name@);
            if j < at {
                assert(precedes(names[i], names[j]));
            } else if j > at {
                assert(after[j] == entries[j - 1].name@);
                assert(precedes(names[i], names[j - 1]));
            }
        } else if i == at {
            assert(after[j] == entries[j - 1].name@);
        } else {
            assert(after[i] == entries[i - 1].name@);
            assert(after[j] == entries[j - 1].name@);
            assert(precedes(names[i - 1], names[j - 1]));
        }
    }
}

proof fn lemma_entry_map_insert<V>(entries: Seq<Entry<V>>, at: int, name: String, value: V)
    requires
        increasing(entry_names(entries)),
        splits(entries, at, name@),
    ensures
        entry_map(entries.insert(at, Entry { name, value })) == entry_map(entries).insert(
            name@,
            value,
        ),
    decreases entries.len(),
{
    let after = entries.insert(at, Entry { name, value });
    if at == entries.len() {
        assert(after.drop_last() == entries);
    } else {
        lemma_insert_increasing(entries, at, name, value);
        let last = entries.last();
        let front = entries.drop_last();
        lemma_front_increasing(entries);
        assert(after.last() == last);
        assert(after.drop_last() == front.insert(at, Entry { name, value }));
        assert forall|i: int| 0 <= i < at implies precedes(#[trigger] front[i].name@, name@) by {
            assert(front[i] == entries[i]);
        }
        assert forall|i: int| at <= i < front.len() implies !precedes(
            #[trigger] front[i].name@,
            name@,
        ) by {
            assert(front[i] == entries[i]);
        }
        lemma_entry_map_insert(front, at, name, value);
        assert(precedes(name@, entries[entries.len() - 1].name@));
        lemma_precedes_irreflexive(name@);
        assert(entry_map(after) =~= entry_map(entries).insert(name@, value));
    }
}

} // verus!
