//! A map from names to values, kept as the list of its names in the order of
//! strings, each name once.

use crate::text::{
    compare_text, lemma_text_order_chains, lemma_text_order_equal, lemma_text_order_flips, str_eq,
    text_order, Order,
};
use vstd::prelude::*;

verus! {

/// The map that a list of insertions makes: `values[i]` is put under
/// `names[i]`, one after the other, so that of two values under one name the
/// later stays.
pub open spec fn map_of<W>(names: Seq<Seq<char>>, values: Seq<W>) -> Map<Seq<char>, W>
    decreases names.len(),
{
    if names.len() == 0 {
        Map::empty()
    } else {
        map_of(names.drop_last(), values.drop_last()).insert(names.last(), values.last())
    }
}

/// Each name comes before every later one in the order of strings: so no name
/// occurs twice.
pub open spec fn ascending(names: Seq<Seq<char>>) -> bool {
    forall|i: int, j: int|
        0 <= i < j < names.len() ==> text_order(#[trigger] names[i], #[trigger] names[j])
            == Order::Less
}

/// How many names at the start of `names` come before `name`: where `name`
/// stands, or would stand, in ascending names.
pub open spec fn rank(names: Seq<Seq<char>>, name: Seq<char>) -> int
    decreases names.len(),
{
    if names.len() > 0 && text_order(names[0], name) == Order::Less {
        1 + rank(names.drop_first(), name)
    } else {
        0
    }
}

/// The names after `name` is put among them: as before where it is one of
/// them, and else with `name` in its place.
pub open spec fn put_names(names: Seq<Seq<char>>, name: Seq<char>) -> Seq<Seq<char>> {
    let at = rank(names, name);
    if at < names.len() && names[at] == name {
        names
    } else {
        names.insert(at, name)
    }
}

/// The values after `value` is put under `name`: in the place of the value
/// that `name` had, or in a place of its own.
pub open spec fn put_values<W>(
    names: Seq<Seq<char>>,
    values: Seq<W>,
    name: Seq<char>,
    value: W,
) -> Seq<W> {
    let at = rank(names, name);
    if at < names.len() && names[at] == name {
        values.update(at, value)
    } else {
        values.insert(at, value)
    }
}

/// The value under the last occurrence of a name is the value of the map
/// under that name.
pub proof fn lemma_map_of_last<W>(names: Seq<Seq<char>>, values: Seq<W>, i: int)
    requires
        names.len() == values.len(),
        0 <= i < names.len(),
        forall|j: int| i < j < names.len() ==> names[j] != names[i],
    ensures
        map_of(names, values).contains_key(names[i]),
        map_of(names, values)[names[i]] == values[i],
    decreases names.len(),
{
    if i < names.len() - 1 {
        lemma_map_of_last(names.drop_last(), values.drop_last(), i);
    }
}

/// The names of the map are the names of the list.
pub proof fn lemma_map_of_names<W>(names: Seq<Seq<char>>, values: Seq<W>, name: Seq<char>)
    requires
        names.len() == values.len(),
    ensures
        map_of(names, values).contains_key(name) <==> names.contains(name),
    decreases names.len(),
{
    if names.len() > 0 {
        lemma_map_of_names(names.drop_last(), values.drop_last(), name);
        if names.drop_last().contains(name) {
            let j = choose|j: int| 0 <= j < names.drop_last().len() && names.drop_last()[j] == name;
            assert(names[j] == name);
        }
        if names.contains(name) {
            let j = choose|j: int| 0 <= j < names.len() && names[j] == name;
            if j < names.len() - 1 {
                assert(names.drop_last()[j] == name);
            }
        }
    }
}

/// Under each of its names, the map of ascending names holds the value at the
/// place of the name.
pub proof fn lemma_map_of_ascending<W>(names: Seq<Seq<char>>, values: Seq<W>, i: int)
    requires
        names.len() == values.len(),
        ascending(names),
        0 <= i < names.len(),
    ensures
        map_of(names, values).contains_key(names[i]),
        map_of(names, values)[names[i]] == values[i],
{
    assert forall|j: int| i < j < names.len() implies names[j] != names[i] by {
        lemma_text_order_equal(names[i], names[j]);
    }
    lemma_map_of_last(names, values, i);
}

/// The rank of a name lies within the list; the names before it come before
/// the name, and the name at it, if there is one, does not.
pub proof fn lemma_rank(names: Seq<Seq<char>>, name: Seq<char>)
    ensures
        0 <= rank(names, name) <= names.len(),
        forall|k: int|
            0 <= k < rank(names, name) ==> text_order(#[trigger] names[k], name) == Order::Less,
        rank(names, name) < names.len() ==> text_order(names[rank(names, name)], name)
            != Order::Less,
    decreases names.len(),
{
    if names.len() > 0 && text_order(names[0], name) == Order::Less {
        lemma_rank(names.drop_first(), name);
        assert forall|k: int| 0 <= k < rank(names, name) implies text_order(
            #[trigger] names[k],
            name,
        ) == Order::Less by {
            if k > 0 {
                assert(names.drop_first()[k - 1] == names[k]);
            }
        }
        let r = rank(names.drop_first(), name);
        if r < names.drop_first().len() {
            assert(names.drop_first()[r] == names[r + 1]);
        }
    }
}

/// The place up to which the names come before a name, and at which the name
/// does not, is the rank of the name.
pub proof fn lemma_rank_is(names: Seq<Seq<char>>, name: Seq<char>, at: int)
    requires
        0 <= at <= names.len(),
        forall|k: int| 0 <= k < at ==> text_order(#[trigger] names[k], name) == Order::Less,
        at < names.len() ==> text_order(names[at], name) != Order::Less,
    ensures
        rank(names, name) == at,
    decreases names.len(),
{
    if at > 0 {
        assert(text_order(names[0], name) == Order::Less);
        assert forall|k: int| 0 <= k < at - 1 implies text_order(
            #[trigger] names.drop_first()[k],
            name,
        ) == Order::Less by {
            assert(names.drop_first()[k] == names[k + 1]);
        }
        if at < names.len() {
            assert(names.drop_first()[at - 1] == names[at]);
        }
        lemma_rank_is(names.drop_first(), name, at - 1);
    }
}

/// Ascending names are ascending after a name is put among them.
pub proof fn lemma_put_ascending(names: Seq<Seq<char>>, name: Seq<char>)
    requires
        ascending(names),
    ensures
        ascending(put_names(names, name)),
{
    let at = rank(names, name);
    lemma_rank(names, name);
    if !(at < names.len() && names[at] == name) {
        let after = names.insert(at, name);
        assert forall|i: int, j: int| 0 <= i < j < after.len() implies text_order(
            #[trigger] after[i],
            #[trigger] after[j],
        ) == Order::Less by {
            if j == at {
                assert(after[i] == names[i]);
            } else if i == at {
                assert(after[j] == names[j - 1]);
                lemma_text_order_flips(names[at], name);
                lemma_text_order_equal(names[at], name);
                if j - 1 > at {
                    assert(text_order(names[at], names[j - 1]) == Order::Less);
                    lemma_text_order_chains(name, names[at], names[j - 1]);
                }
            } else {
                let a = if i < at {
                    i
                } else {
                    i - 1
                };
                let b = if j < at {
                    j
                } else {
                    j - 1
                };
                assert(after[i] == names[a]);
                assert(after[j] == names[b]);
            }
        }
    }
}

/// To put a value under a name among ascending names is to insert it into the
/// map.
pub proof fn lemma_put_map<W>(names: Seq<Seq<char>>, values: Seq<W>, name: Seq<char>, value: W)
    requires
        names.len() == values.len(),
        ascending(names),
    ensures
        map_of(put_names(names, name), put_values(names, values, name, value)) == map_of(
            names,
            values,
        ).insert(name, value),
{
    let at = rank(names, name);
    lemma_rank(names, name);
    lemma_put_ascending(names, name);
    let after_names = put_names(names, name);
    let after_values = put_values(names, values, name, value);
    let before = map_of(names, values);
    let after = map_of(after_names, after_values);
    let present = at < names.len() && names[at] == name;
    assert(after_names[at] == name);
    assert(after_values[at] == value);
    assert forall|key: Seq<char>| #[trigger]
        after.contains_key(key) <==> before.insert(name, value).contains_key(key) by {
        lemma_map_of_names(after_names, after_values, key);
        lemma_map_of_names(names, values, key);
        if names.contains(key) {
            let i = choose|i: int| 0 <= i < names.len() && names[i] == key;
            if present || i < at {
                assert(after_names[i] == key);
            } else {
                assert(after_names[i + 1] == key);
            }
        }
        if after_names.contains(key) && key != name {
            let i = choose|i: int| 0 <= i < after_names.len() && after_names[i] == key;
            if present || i < at {
                assert(names[i] == key);
            } else {
                assert(names[i - 1] == key);
            }
        }
    }
    assert forall|key: Seq<char>| #[trigger] after.contains_key(key) implies after[key]
        == before.insert(name, value)[key] by {
        lemma_map_of_names(after_names, after_values, key);
        let i = choose|i: int| 0 <= i < after_names.len() && after_names[i] == key;
        lemma_map_of_ascending(after_names, after_values, i);
        if key == name {
            lemma_map_of_ascending(after_names, after_values, at);
        } else if present || i < at {
            assert(names[i] == key);
            lemma_map_of_ascending(names, values, i);
        } else {
            assert(names[i - 1] == key);
            lemma_map_of_ascending(names, values, i - 1);
        }
    }
    assert(after =~= before.insert(name, value));
}

/// The names of the map that a list of insertions makes, in the order of
/// strings, each once.
pub open spec fn sorted_names(names: Seq<Seq<char>>) -> Seq<Seq<char>>
    decreases names.len(),
{
    if names.len() == 0 {
        Seq::empty()
    } else {
        put_names(sorted_names(names.drop_last()), names.last())
    }
}

/// The values of the map that a list of insertions makes, each at the place
/// of its name among the sorted names.
pub open spec fn sorted_values<W>(names: Seq<Seq<char>>, values: Seq<W>) -> Seq<W>
    decreases names.len(),
{
    if names.len() == 0 {
        Seq::empty()
    } else {
        put_values(
            sorted_names(names.drop_last()),
            sorted_values(names.drop_last(), values.drop_last()),
            names.last(),
            values.last(),
        )
    }
}

/// The sorted names of a list of insertions are ascending, there are as many
/// of them as sorted values, and under each the sorted values hold what the
/// map of the insertions holds.
pub proof fn lemma_sorted<W>(names: Seq<Seq<char>>, values: Seq<W>)
    requires
        names.len() == values.len(),
    ensures
        ascending(sorted_names(names)),
        sorted_names(names).len() == sorted_values(names, values).len(),
        map_of(sorted_names(names), sorted_values(names, values)) == map_of(names, values),
    decreases names.len(),
{
    if names.len() > 0 {
        lemma_sorted(names.drop_last(), values.drop_last());
        let before = sorted_names(names.drop_last());
        lemma_rank(before, names.last());
        lemma_put_ascending(before, names.last());
        lemma_put_map(
            before,
            sorted_values(names.drop_last(), values.drop_last()),
            names.last(),
            values.last(),
        );
    }
}

/// A map from names to values. Its names are kept in the order of strings,
/// and a name that is inserted again takes the new value.
#[derive(Debug, PartialEq)]
pub struct TextMap<V> {
    entries: Vec<(String, V)>,
}

impl<V> TextMap<V> {
    /// The names are in the order of strings, each once.
    #[verifier::type_invariant]
    spec fn ordered(self) -> bool {
        ascending(Seq::new(self.entries.len() as nat, |i: int| self.entries[i].0@))
    }
}

impl<V: View> TextMap<V> {
    /// The names, in the order of strings.
    pub closed spec fn names(self) -> Seq<Seq<char>> {
        Seq::new(self.entries.len() as nat, |i: int| self.entries[i].0@)
    }

    /// The values, each at the place of its name.
    pub closed spec fn values(self) -> Seq<V::V> {
        Seq::new(self.entries.len() as nat, |i: int| self.entries[i].1@)
    }
}

impl<V: View> View for TextMap<V> {
    type V = Map<Seq<char>, V::V>;

    open spec fn view(&self) -> Map<Seq<char>, V::V> {
        map_of(self.names(), self.values())
    }
}

impl<V: View> TextMap<V> {
    /// The map without any name.
    pub fn new() -> (r: Self)
        ensures
            r@ == Map::<Seq<char>, V::V>::empty(),
            r.names() == Seq::<Seq<char>>::empty(),
            r.values() == Seq::<V::V>::empty(),
    {
        TextMap { entries: Vec::new() }
    }

    /// The number of names.
    pub fn len(&self) -> (r: usize)
        ensures
            r == self.names().len(),
            r == self.values().len(),
            ascending(self.names()),
    {
        proof {
            use_type_invariant(self);
        }
        self.entries.len()
    }

    /// Whether the map holds no name.
    pub fn is_empty(&self) -> (r: bool)
        ensures
            r == (self.names().len() == 0),
            r == (self@ == Map::<Seq<char>, V::V>::empty()),
    {
        proof {
            if self.names().len() > 0 {
                lemma_map_of_last(self.names(), self.values(), self.names().len() - 1);
            }
        }
        self.entries.len() == 0
    }

    /// Where `name` stands, or would stand, among the names, and whether it is
    /// one of them.
    fn place(&self, name: &str) -> (r: (usize, bool))
        ensures
            r.0 == rank(self.names(), name@),
            r.0 <= self.names().len(),
            r.1 == (r.0 < self.names().len() && self.names()[r.0 as int] == name@),
    {
        let mut at: usize = 0;
        while at < self.entries.len()
            invariant
                at <= self.entries.len(),
                forall|k: int|
                    0 <= k < at ==> text_order(#[trigger] self.names()[k], name@) == Order::Less,
            decreases self.entries.len() - at,
        {
            let order = compare_text(self.entries[at].0.as_str(), name);
            if order != Order::Less {
                proof {
                    lemma_rank_is(self.names(), name@, at as int);
                    lemma_text_order_equal(self.names()[at as int], name@);
                }
                return (at, order == Order::Equal);
            }
            at += 1;
        }
        proof {
            lemma_rank_is(self.names(), name@, at as int);
        }
        (at, false)
    }

    /// This map with `value` put under `name`.
    pub fn with(self, name: String, value: V) -> (r: Self)
        ensures
            r@ == self@.insert(name@, value@),
            r.names() == put_names(self.names(), name@),
            r.values() == put_values(self.names(), self.values(), name@, value@),
    {
        proof {
            use_type_invariant(&self);
        }
        let (at, present) = self.place(name.as_str());
        let ghost names = self.names();
        let ghost values = self.values();
        let mut entries = self.entries;
        if present {
            entries.set(at, (name, value));
        } else {
            entries.insert(at, (name, value));
        }
        proof {
            lemma_put_ascending(names, name@);
            lemma_put_map(names, values, name@, value@);
            assert(Seq::new(entries.len() as nat, |i: int| entries[i].0@) =~= put_names(
                names,
                name@,
            ));
        }
        let r = TextMap { entries };
        proof {
            assert(r.names() =~= put_names(names, name@));
            assert(r.values() =~= put_values(names, values, name@, value@));
        }
        r
    }

    /// Puts `value` under `name`.
    pub fn insert(&mut self, name: String, value: V)
        ensures
            final(self)@ == old(self)@.insert(name@, value@),
            final(self).names() == put_names(old(self).names(), name@),
            final(self).values() == put_values(
                old(self).names(),
                old(self).values(),
                name@,
                value@,
            ),
    {
        let mut held = TextMap::new();
        core::mem::swap(self, &mut held);
        *self = held.with(name, value);
    }

    /// The name at place `i`.
    pub fn name_at(&self, i: usize) -> (r: &String)
        requires
            i < self.names().len(),
        ensures
            r@ == self.names()[i as int],
    {
        &self.entries[i].0
    }

    /// The value at place `i`.
    pub fn value_at(&self, i: usize) -> (r: &V)
        requires
            i < self.values().len(),
        ensures
            r@ == self.values()[i as int],
    {
        &self.entries[i].1
    }

    /// The value under `name`, if the map holds the name.
    pub fn get(&self, name: &str) -> (r: Option<&V>)
        ensures
            match r {
                Some(v) => self@.contains_key(name@) && self@[name@] == v@,
                None => !self@.contains_key(name@),
            },
    {
        let mut i: usize = self.entries.len();
        while i > 0
            invariant
                i <= self.entries.len(),
                forall|j: int| i <= j < self.entries.len() ==> self.names()[j] != name@,
            decreases i,
        {
            i -= 1;
            if str_eq(self.entries[i].0.as_str(), name) {
                proof {
                    lemma_map_of_last(self.names(), self.values(), i as int);
                }
                return Some(&self.entries[i].1);
            }
        }
        proof {
            lemma_map_of_names(self.names(), self.values(), name@);
        }
        None
    }

    /// Whether the map holds `name`.
    pub fn contains_key(&self, name: &str) -> (r: bool)
        ensures
            r == self@.contains_key(name@),
    {
        self.get(name).is_some()
    }
}

} // verus!
