//! Navigating a JSON document by the positions of its children.
use vstd::prelude::*;

verus! {

/// A JSON number: sign, mantissa and decimal exponent.
#[derive(Clone, Copy, Debug, PartialEq, Eq)]
pub struct JsonNumber {
    pub positive: bool,
    pub mantissa: u64,
    pub exponent: i16,
}

/// A JSON value whose objects keep their keys in insertion order.
#[derive(Debug, PartialEq)]
pub enum JsonValue {
    Null,
    String(String),
    Number(JsonNumber),
    Boolean(bool),
    Object(JsonObject),
    Array(Vec<JsonValue>),
}

/// A JSON object: its entries in insertion order, each key once.
#[derive(Debug, PartialEq)]
pub struct JsonObject {
    entries: Vec<(String, JsonValue)>,
}

/// The keys of an object's entries.
pub open spec fn entry_keys(entries: Seq<(String, JsonValue)>) -> Seq<Seq<char>> {
    entries.map_values(|e: (String, JsonValue)| e.0@)
}

impl JsonObject {
    /// The entries in insertion order.
    pub closed spec fn entries(&self) -> Seq<(String, JsonValue)> {
        self.entries@
    }

    /// No key occurs twice.
    pub closed spec fn well_formed(&self) -> bool {
        entry_keys(self.entries@).no_duplicates()
    }

    /// An empty object.
    pub fn new() -> (object: JsonObject)
        ensures
            object.entries() == Seq::<(String, JsonValue)>::empty(),
            object.well_formed(),
    {
        let object = JsonObject { entries: Vec::new() };
        proof {
            assert(entry_keys(object.entries@) =~= Seq::<Seq<char>>::empty());
        }
        object
    }

    /// Sets the value of `key`: in place when the key is there already,
    /// otherwise as a new last entry.
    pub fn insert(&mut self, key: &str, value: JsonValue)
        requires
            old(self).well_formed(),
        ensures
            final(self).well_formed(),
            ({
                let before = old(self).entries();
                let after = final(self).entries();
                if entry_keys(before).contains(key@) {
                    let i = entry_keys(before).index_of(key@);
                    &&& after.len() == before.len()
                    &&& after[i].0@ == key@
                    &&& after[i].1 == value
                    &&& forall|j: int| 0 <= j < before.len() && j != i ==> after[j] == before[j]
                } else {
                    &&& after.len() == before.len() + 1
                    &&& after.last().0@ == key@
                    &&& after.last().1 == value
                    &&& forall|j: int| 0 <= j < before.len() ==> after[j] == before[j]
                }
            }),
    {
        let ghost before = self.entries@;
        let n = self.entries.len();
        let mut i: usize = 0;
        while i < n
            invariant
                i <= n,
                n == self.entries@.len(),
                self.entries@ == before,
                before == old(self).entries@,
                entry_keys(before).no_duplicates(),
                forall|j: int| 0 <= j < i ==> entry_keys(before)[j] != key@,
            decreases n - i,
        {
            if crate::text::str_eq(self.entries[i].0.as_str(), key) {
                proof {
                    assert(entry_keys(before)[i as int] == key@);
                    assert(entry_keys(before).contains(key@));
                    assert(entry_keys(before).index_of(key@) == i) by {
                        let k = entry_keys(before).index_of(key@);
                        assert(entry_keys(before)[k] == key@);
                        assert(entry_keys(before)[i as int] == key@);
                    }
                }
                let new_key = String::from_str(key);
                let ghost entry = (new_key, value);
                self.entries.set(i, (new_key, value));
                proof {
                    assert(self.entries@ == before.update(i as int, entry));
                    assert(self.entries@[i as int] == entry);
                    assert(entry_keys(self.entries@) =~= entry_keys(before));
                }
                return;
            }
            i += 1;
        }
        proof {
            assert(!entry_keys(before).contains(key@));
        }
        self.entries.push((String::from_str(key), value));
        proof {
            assert(entry_keys(self.entries@) =~= entry_keys(before).push(key@));
        }
    }

    /// The number of entries.
    pub fn len(&self) -> (n: usize)
        ensures
            n == self.entries().len(),
    {
        self.entries.len()
    }

    /// The value of the entry at `index`.
    pub fn value_at(&self, index: usize) -> (value: &JsonValue)
        requires
            index < self.entries().len(),
        ensures
            *value == self.entries()[index as int].1,
    {
        &self.entries[index].1
    }
}

/// The child at position `select` of an object or array.
pub open spec fn spec_nth_subvalue(root: JsonValue, select: nat) -> Option<JsonValue> {
    match root {
        JsonValue::Object(object) => if select < object.entries().len() {
            Some(object.entries()[select as int].1)
        } else {
            None
        },
        JsonValue::Array(array) => if select < array@.len() {
            Some(array@[select as int])
        } else {
            None
        },
        _ => None,
    }
}

/// The children at the positions of `selection`, one after the other.
pub open spec fn spec_selected_subvalue(root: JsonValue, selection: Seq<usize>) -> Option<JsonValue>
    decreases selection.len(),
{
    if selection.len() == 0 {
        Some(root)
    } else {
        match spec_selected_subvalue(root, selection.drop_last()) {
            Some(current) => spec_nth_subvalue(current, selection.last() as nat),
            None => None,
        }
    }
}

/// The child at position `select` of an object (its entries in order) or
/// of an array; `None` for other values and positions out of range.
pub fn get_nth_subvalue(root: &JsonValue, select: usize) -> (child: Option<&JsonValue>)
    ensures
        child is Some <==> spec_nth_subvalue(*root, select as nat) is Some,
        child matches Some(c) ==> spec_nth_subvalue(*root, select as nat) == Some(*c),
{
    match root {
        JsonValue::Object(object) => {
            if select < object.len() {
                Some(object.value_at(select))
            } else {
                None
            }
        },
        JsonValue::Array(array) => {
            if select < array.len() {
                Some(&array[select])
            } else {
                None
            }
        },
        _ => None,
    }
}

/// Follows the positions of `selection` into a JSON value; `None` when one
/// of them does not exist.
pub fn get_selected_subvalue<'a>(root: &'a JsonValue, selection: &[usize]) -> (selected: Option<&'a JsonValue>)
    ensures
        selected is Some <==> spec_selected_subvalue(*root, selection@) is Some,
        selected matches Some(s) ==> spec_selected_subvalue(*root, selection@) == Some(*s),
{
    let mut current = root;
    let mut i: usize = 0;
    while i < selection.len()
        invariant
            i <= selection@.len(),
            spec_selected_subvalue(*root, selection@.take(i as int)) == Some(*current),
        decreases selection.len() - i,
    {
        proof {
            assert(selection@.take(i + 1).drop_last() =~= selection@.take(i as int));
        }
        match get_nth_subvalue(current, selection[i]) {
            Some(next) => {
                current = next;
            },
            None => {
                proof {
                    lemma_selection_stays_none(*root, selection@, i as int + 1);
                }
                return None;
            },
        }
        i += 1;
    }
    proof {
        assert(selection@.take(i as int) =~= selection@);
    }
    Some(current)
}

proof fn lemma_selection_stays_none(root: JsonValue, selection: Seq<usize>, n: int)
    requires
        0 <= n <= selection.len(),
        spec_selected_subvalue(root, selection.take(n)) is None,
    ensures
        spec_selected_subvalue(root, selection) is None,
    decreases selection.len() - n,
{
    if n == selection.len() {
        assert(selection.take(n) =~= selection);
    } else {
        assert(selection.take(n + 1).drop_last() =~= selection.take(n));
        lemma_selection_stays_none(root, selection, n + 1);
    }
}

/// Following `first` and then `second` gives what following both at once
/// gives.
pub proof fn lemma_selection_concat(root: JsonValue, first: Seq<usize>, second: Seq<usize>)
    ensures
        spec_selected_subvalue(root, first + second) == match spec_selected_subvalue(root, first) {
            Some(middle) => spec_selected_subvalue(middle, second),
            None => None,
        },
    decreases second.len(),
{
    if second.len() == 0 {
        assert(first + second =~= first);
    } else {
        assert((first + second).drop_last() =~= first + second.drop_last());
        assert((first + second).last() == second.last());
        lemma_selection_concat(root, first, second.drop_last());
    }
}

} // verus!
