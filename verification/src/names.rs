//! A table of values, each under a name of its own.

use vstd::prelude::*;

use crate::text::texts;

verus! {

/// One row of a [`NameTable`].
struct Row<V> {
    name: String,
    value: V,
}

/// Values under distinct names, in the order in which the names were first inserted.
pub struct NameTable<V> {
    rows: Vec<Row<V>>,
}

/// The names of some rows, in the order of the rows.
spec fn names_of<V>(rows: Seq<Row<V>>) -> Seq<Seq<char>> {
    Seq::new(rows.len(), |i: int| rows[i].name@)
}

/// The rows as a map from name to value.
spec fn map_of<V>(rows: Seq<Row<V>>) -> Map<Seq<char>, V> {
    Map::new(
        |name: Seq<char>| names_of(rows).contains(name),
        |name: Seq<char>| rows[names_of(rows).index_of(name)].value,
    )
}

/// What inserting `name` makes of the order of names: a new name goes to the end, a name
/// that is there already keeps its place.
pub open spec fn order_with(order: Seq<Seq<char>>, name: Seq<char>) -> Seq<Seq<char>> {
    if order.contains(name) {
        order
    } else {
        order.push(name)
    }
}

/// What inserting pairs one after another makes of a map: a later pair replaces the value
/// of an earlier pair of the same name.
pub open spec fn map_with<V>(map: Map<Seq<char>, V>, pairs: Seq<(Seq<char>, V)>) -> Map<
    Seq<char>,
    V,
>
    decreases pairs.len(),
{
    if pairs.len() == 0 {
        map
    } else {
        map_with(map, pairs.drop_last()).insert(pairs.last().0, pairs.last().1)
    }
}

/// What inserting pairs one after another makes of the order of names.
pub open spec fn order_with_pairs<V>(
    order: Seq<Seq<char>>,
    pairs: Seq<(Seq<char>, V)>,
) -> Seq<Seq<char>>
    decreases pairs.len(),
{
    if pairs.len() == 0 {
        order
    } else {
        order_with(order_with_pairs(order, pairs.drop_last()), pairs.last().0)
    }
}

/// Pairs with the name of each taken as a text.
pub open spec fn pair_texts<V>(pairs: Seq<(String, V)>) -> Seq<(Seq<char>, V)> {
    Seq::new(pairs.len(), |i: int| (pairs[i].0@, pairs[i].1))
}

impl<V> View for NameTable<V> {
    type V = Map<Seq<char>, V>;

    closed spec fn view(&self) -> Map<Seq<char>, V> {
        map_of(self.rows@)
    }
}

/// Rows with distinct names list each name of their map once.
proof fn lemma_rows<V>(rows: Seq<Row<V>>)
    requires
        names_of(rows).no_duplicates(),
    ensures
        forall|i: int|
            0 <= i < rows.len() ==> {
                &&& map_of(rows).contains_key(#[trigger] rows[i].name@)
                &&& map_of(rows)[rows[i].name@] == rows[i].value
            },
{
    assert forall|i: int| 0 <= i < rows.len() implies {
        &&& map_of(rows).contains_key(#[trigger] rows[i].name@)
        &&& map_of(rows)[rows[i].name@] == rows[i].value
    } by {
        let names = names_of(rows);
        assert(names[i] == rows[i].name@);
        let first = names.index_of(names[i]);
        assert(0 <= first < names.len() && names[first] == names[i]);
    }
}

impl<V> NameTable<V> {
    /// No name stands in two rows.
    #[verifier::type_invariant]
    pub closed spec fn wf(self) -> bool {
        names_of(self.rows@).no_duplicates()
    }

    /// The names, in the order in which they were first inserted.
    pub closed spec fn order(&self) -> Seq<Seq<char>> {
        names_of(self.rows@)
    }

    /// The order holds each name of the table exactly once.
    pub proof fn lemma_order(&self)
        requires
            self.wf(),
        ensures
            self.order().no_duplicates(),
            forall|name: Seq<char>| self@.contains_key(name) <==> #[trigger] self.order().contains(name),
    {
    }

    /// An empty table.
    pub fn new() -> (table: Self)
        ensures
            table@ == Map::<Seq<char>, V>::empty(),
            table.order() == Seq::<Seq<char>>::empty(),
    {
        let table = NameTable { rows: Vec::new() };
        proof {
            assert(table.order() =~= Seq::<Seq<char>>::empty());
            assert(table@ =~= Map::<Seq<char>, V>::empty());
        }
        table
    }

    /// How many names the table holds.
    pub fn len(&self) -> (len: usize)
        ensures
            len == self.order().len(),
    {
        self.rows.len()
    }

    /// The row of `name`, if there is one.
    fn position(&self, name: &str) -> (position: Option<usize>)
        ensures
            position is None <==> !self@.contains_key(name@),
            position matches Some(i) ==> {
                &&& i < self.rows@.len()
                &&& self.rows@[i as int].name@ == name@
            },
    {
        let wanted: String = name.to_owned();
        let mut i: usize = 0;
        while i < self.rows.len()
            invariant
                i <= self.rows@.len(),
                wanted@ == name@,
                forall|j: int| 0 <= j < i ==> names_of(self.rows@)[j] != name@,
            decreases self.rows@.len() - i,
        {
            if self.rows[i].name == wanted {
                assert(names_of(self.rows@)[i as int] == name@);
                return Some(i);
            }
            i = i + 1;
        }
        None
    }

    /// The value under `name`.
    pub fn get(&self, name: &str) -> (value: Option<&V>)
        ensures
            value is Some <==> self@.contains_key(name@),
            value matches Some(v) ==> *v == self@[name@],
    {
        match self.position(name) {
            Some(i) => {
                proof {
                    use_type_invariant(self);
                    lemma_rows(self.rows@);
                }
                Some(&self.rows[i].value)
            },
            None => None,
        }
    }

    /// Puts `value` under `name`, in place of the value that stood there.
    pub fn insert(&mut self, name: String, value: V)
        ensures
            final(self)@ == old(self)@.insert(name@, value),
            final(self).order() == order_with(old(self).order(), name@),
            final(self).order() == if old(self)@.contains_key(name@) {
                old(self).order()
            } else {
                old(self).order().push(name@)
            },
    {
        let found = self.position(name.as_str());
        proof {
            use_type_invariant(&*self);
            lemma_rows(self.rows@);
        }
        let ghost before = self.rows@;
        let mut rows: Vec<Row<V>> = Vec::new();
        std::mem::swap(&mut rows, &mut self.rows);
        let row = Row { name, value };
        match found {
            Some(i) => {
                rows.set(i, row);
                assert(names_of(rows@) =~= names_of(before));
                assert(names_of(before)[i as int] == name@);
            },
            None => {
                rows.push(row);
                assert(names_of(rows@) =~= names_of(before).push(name@));
                assert(!names_of(before).contains(name@));
            },
        }
        proof {
            assert(names_of(rows@).no_duplicates());
            lemma_rows(rows@);
            let after = map_of(rows@);
            let wanted = map_of(before).insert(name@, value);
            assert forall|k: Seq<char>| after.contains_key(k) == wanted.contains_key(k) by {
                if names_of(before).contains(k) {
                    let j = names_of(before).index_of(k);
                    assert(names_of(rows@)[j] == k);
                }
                if k == name@ {
                    match found {
                        Some(i) => assert(names_of(rows@)[i as int] == k),
                        None => assert(names_of(rows@)[before.len() as int] == k),
                    }
                }
            }
            assert forall|k: Seq<char>| after.contains_key(k) implies after[k] == wanted[k] by {
                let j = names_of(rows@).index_of(k);
                assert(rows@[j].name@ == k);
                if k != name@ {
                    assert(before[j].name@ == k);
                }
            }
            assert(after =~= wanted);
        }
        self.rows = rows;
    }

    /// Takes `name` and its value out of the table.
    pub fn remove(&mut self, name: &str)
        ensures
            final(self)@ == old(self)@.remove(name@),
            final(self).order() == old(self).order().remove_value(name@),
    {
        match self.position(name) {
            Some(i) => {
                proof {
                    use_type_invariant(&*self);
                    lemma_rows(self.rows@);
                }
                let ghost before = self.rows@;
                let mut rows: Vec<Row<V>> = Vec::new();
                std::mem::swap(&mut rows, &mut self.rows);
                rows.remove(i);
                proof {
                    assert(names_of(rows@) =~= names_of(before).remove(i as int));
                    assert(names_of(before)[i as int] == name@);
                    names_of(before).index_of_first_ensures(name@);
                    assert(names_of(rows@).no_duplicates());
                    lemma_rows(rows@);
                    let after = map_of(rows@);
                    let wanted = map_of(before).remove(name@);
                    assert forall|k: Seq<char>| after.contains_key(k) == wanted.contains_key(k) by {
                        if names_of(rows@).contains(k) {
                            let j = names_of(rows@).index_of(k);
                            let source = if j < i { j } else { j + 1 };
                            assert(names_of(before)[source] == k);
                            assert(names_of(before)[i as int] == name@);
                        }
                        if names_of(before).contains(k) && k != name@ {
                            let j = names_of(before).index_of(k);
                            let target = if j < i { j } else { j - 1 };
                            assert(names_of(rows@)[target] == k);
                        }
                    }
                    assert forall|k: Seq<char>| after.contains_key(k) implies after[k]
                        == wanted[k] by {
                        let j = names_of(rows@).index_of(k);
                        assert(rows@[j].name@ == k);
                        let source = if j < i { j } else { j + 1 };
                        assert(before[source].name@ == k);
                    }
                    assert(after =~= wanted);
                }
                self.rows = rows;
            },
            None => {
                assert(self@ =~= self@.remove(name@));
                proof {
                    self.order().index_of_first_ensures(name@);
                }
            },
        }
    }

    /// The name at place `i` of the order.
    pub fn name_at(&self, i: usize) -> (name: &String)
        requires
            i < self.order().len(),
        ensures
            name@ == self.order()[i as int],
    {
        &self.rows[i].name
    }

    /// The value under the name at place `i` of the order.
    pub fn value_at(&self, i: usize) -> (value: &V)
        requires
            i < self.order().len(),
        ensures
            *value == self@[self.order()[i as int]],
            self@.contains_key(self.order()[i as int]),
    {
        proof {
            use_type_invariant(self);
            lemma_rows(self.rows@);
        }
        &self.rows[i].value
    }

    /// The names, in their order.
    pub fn names(&self) -> (names: Vec<String>)
        ensures
            texts(names@) == self.order(),
            names@.len() == self.order().len(),
            forall|i: int|
                0 <= i < names@.len() ==> (#[trigger] names@[i])@ == self.order()[i],
    {
        let mut names: Vec<String> = Vec::new();
        let mut i: usize = 0;
        while i < self.rows.len()
            invariant
                i <= self.rows@.len(),
                names@.len() == i,
                forall|j: int| 0 <= j < i ==> (#[trigger] names@[j])@ == self.rows@[j].name@,
            decreases self.rows@.len() - i,
        {
            names.push(self.rows[i].name.clone());
            i = i + 1;
        }
        assert(texts(names@) =~= self.order());
        names
    }
}

/// The table that holds `pairs`, inserted one after another.
pub fn table_of<V>(pairs: Vec<(String, V)>) -> (table: NameTable<V>)
    ensures
        table@ == map_with(Map::<Seq<char>, V>::empty(), pair_texts(pairs@)),
        table.order() == order_with_pairs(Seq::empty(), pair_texts(pairs@)),
{
    let mut table: NameTable<V> = NameTable::new();
    let ghost all = pair_texts(pairs@);
    assert(all.take(0) =~= Seq::empty());
    for pair in rest: pairs
        invariant
            all == pair_texts(pairs@),
            rest.seq() == pairs@,
            table@ == map_with(Map::<Seq<char>, V>::empty(), all.take(rest.index() as int)),
            table.order() == order_with_pairs(Seq::empty(), all.take(rest.index() as int)),
    {
        proof {
            let i = rest.index() as int;
            assert(all.take(i + 1).drop_last() =~= all.take(i));
            assert(all.take(i + 1).last() == (pair.0@, pair.1));
        }
        table.insert(pair.0, pair.1);
    }
    assert(all.take(all.len() as int) =~= all);
    table
}

/// Inserting a name keeps every name at its place and adds at most this one, at the end.
pub proof fn law_names_keep_their_rows(order: Seq<Seq<char>>, name: Seq<char>, other: Seq<char>)
    ensures
        order.is_prefix_of(order_with(order, name)),
        order_with(order, name).contains(name),
        order_with(order, name).contains(other) <==> order.contains(other) || other == name,
        order.contains(name) ==> order_with(order, name).len() == order.len(),
        !order.contains(name) ==> {
            &&& order_with(order, name).len() == order.len() + 1
            &&& order_with(order, name).last() == name
        },
        order.no_duplicates() ==> order_with(order, name).no_duplicates(),
{
    if !order.contains(name) {
        let after = order.push(name);
        assert(after[order.len() as int] == name);
        if order.contains(other) {
            assert(after[order.index_of(other)] == other);
        }
        if after.contains(other) && other != name {
            assert(order[after.index_of(other)] == other);
        }
    }
}

/// A table that pairs were inserted into holds each of their names, with the value that was
/// given last under it, and of every other name what it held before.
pub proof fn law_later_pairs_win<V>(
    map: Map<Seq<char>, V>,
    pairs: Seq<(String, V)>,
    i: int,
    name: Seq<char>,
)
    ensures
        ({
            let after = map_with(map, pair_texts(pairs));
            &&& 0 <= i < pairs.len() && pairs[i].0@ == name ==> after.contains_key(name)
            &&& 0 <= i < pairs.len() && pairs[i].0@ == name && (forall|j: int|
                i < j < pairs.len() ==> (#[trigger] pairs[j]).0@ != name) ==> after[name]
                == pairs[i].1
            &&& (forall|j: int| 0 <= j < pairs.len() ==> (#[trigger] pairs[j]).0@ != name) ==> {
                &&& after.contains_key(name) == map.contains_key(name)
                &&& map.contains_key(name) ==> after[name] == map[name]
            }
        }),
    decreases pairs.len(),
{
    if pairs.len() > 0 {
        let fewer = pairs.drop_last();
        let last = pairs.len() - 1;
        assert(pair_texts(pairs).drop_last() =~= pair_texts(fewer));
        assert(pair_texts(pairs).last() == (pairs[last].0@, pairs[last].1));
        law_later_pairs_win(map, fewer, i, name);
        if pairs[last].0@ != name {
            if 0 <= i < last && (forall|j: int|
                i < j < pairs.len() ==> (#[trigger] pairs[j]).0@ != name) {
                assert forall|j: int| i < j < fewer.len() implies (#[trigger] fewer[j]).0@
                    != name by {
                    assert(fewer[j] == pairs[j]);
                }
            }
            if forall|j: int| 0 <= j < pairs.len() ==> (#[trigger] pairs[j]).0@ != name {
                assert forall|j: int| 0 <= j < fewer.len() implies (#[trigger] fewer[j]).0@
                    != name by {
                    assert(fewer[j] == pairs[j]);
                }
            }
        } else {
            assert(pairs[last].0@ == name);
        }
    }
}

/// Pairs that are inserted put just their own names into the order, behind those that were
/// there, each at the place of its first pair.
pub proof fn law_pairs_keep_their_order<V>(
    order: Seq<Seq<char>>,
    pairs: Seq<(String, V)>,
    pair: (String, V),
    name: Seq<char>,
)
    ensures
        ({
            let before = order_with_pairs(order, pair_texts(pairs));
            let after = order_with_pairs(order, pair_texts(pairs.push(pair)));
            &&& order.is_prefix_of(before)
            &&& before.contains(pair.0@) ==> after == before
            &&& !before.contains(pair.0@) ==> after == before.push(pair.0@)
            &&& before.contains(name) <==> order.contains(name) || exists|i: int|
                0 <= i < pairs.len() && (#[trigger] pairs[i]).0@ == name
            &&& order.no_duplicates() ==> before.no_duplicates()
        }),
    decreases pairs.len(),
{
    let longer = pair_texts(pairs.push(pair));
    assert(longer.drop_last() =~= pair_texts(pairs));
    assert(longer.last() == (pair.0@, pair.1));
    if pairs.len() > 0 {
        let fewer = pairs.drop_last();
        let last = pairs.len() - 1;
        law_pairs_keep_their_order(order, fewer, pairs[last], name);
        assert(fewer.push(pairs[last]) =~= pairs);
        law_names_keep_their_rows(
            order_with_pairs(order, pair_texts(fewer)),
            pairs[last].0@,
            name,
        );
        if exists|i: int| 0 <= i < pairs.len() && (#[trigger] pairs[i]).0@ == name {
            let i = choose|i: int| 0 <= i < pairs.len() && (#[trigger] pairs[i]).0@ == name;
            if i < last {
                assert(fewer[i].0@ == name);
            }
        }
        if exists|i: int| 0 <= i < fewer.len() && (#[trigger] fewer[i]).0@ == name {
            let i = choose|i: int| 0 <= i < fewer.len() && (#[trigger] fewer[i]).0@ == name;
            assert(pairs[i].0@ == name);
        }
    }
}

} // verus!
