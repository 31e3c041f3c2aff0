//! Tables from texts to texts, in the order in which keys came.

use vstd::prelude::*;
use vstd::string::*;

use crate::text::same_str;

verus! {

/// The position of a key, the number of entries if it is not there.
pub open spec fn key_index(entries: Seq<(Seq<char>, Seq<char>)>, key: Seq<char>) -> int
    decreases entries.len(),
{
    if entries.len() == 0 || entries[0].0 == key {
        0
    } else {
        1 + key_index(entries.skip(1), key)
    }
}

/// The value of a key.
pub open spec fn value_of(entries: Seq<(Seq<char>, Seq<char>)>, key: Seq<char>) -> Option<
    Seq<char>,
> {
    let i = key_index(entries, key);
    if i < entries.len() {
        Some(entries[i].1)
    } else {
        None
    }
}

/// The position of a value, the number of entries if it is not there.
pub open spec fn value_index(entries: Seq<(Seq<char>, Seq<char>)>, value: Seq<char>) -> int
    decreases entries.len(),
{
    if entries.len() == 0 || entries[0].1 == value {
        0
    } else {
        1 + value_index(entries.skip(1), value)
    }
}

/// The first key with a value.
pub open spec fn key_of(entries: Seq<(Seq<char>, Seq<char>)>, value: Seq<char>) -> Option<
    Seq<char>,
> {
    let i = value_index(entries, value);
    if i < entries.len() {
        Some(entries[i].0)
    } else {
        None
    }
}

/// The entries after a value was set.
pub open spec fn with_value(
    entries: Seq<(Seq<char>, Seq<char>)>,
    key: Seq<char>,
    value: Seq<char>,
) -> Seq<(Seq<char>, Seq<char>)> {
    let i = key_index(entries, key);
    if i < entries.len() {
        entries.update(i, (key, value))
    } else {
        entries.push((key, value))
    }
}

struct Pair {
    key: String,
    value: String,
}

impl Pair {
    spec fn model(self) -> (Seq<char>, Seq<char>) {
        (self.key@, self.value@)
    }
}

/// A table with one value per key.
pub struct TextMap {
    entries: Vec<Pair>,
}

impl TextMap {
    /// No key occurs twice.
    #[verifier::type_invariant]
    spec fn keys_differ(self) -> bool {
        forall|i: int, j: int|
            0 <= i < j < self.entries@.len() ==> (#[trigger] self.entries@[i]).key@ != (
            #[trigger] self.entries@[j]).key@
    }
}

impl View for TextMap {
    type V = Seq<(Seq<char>, Seq<char>)>;

    closed spec fn view(&self) -> Seq<(Seq<char>, Seq<char>)> {
        self.entries@.map_values(|p: Pair| p.model())
    }
}

impl TextMap {
    /// A table without entries.
    pub fn new() -> (r: Self)
        ensures
            r@ == Seq::<(Seq<char>, Seq<char>)>::empty(),
    {
        let r = TextMap { entries: Vec::new() };
        assert(r@ =~= Seq::<(Seq<char>, Seq<char>)>::empty());
        r
    }

    /// How many keys there are.
    pub fn len(&self) -> (r: usize)
        ensures
            r == self@.len(),
            unique_keys(self@),
    {
        proof {
            use_type_invariant(self);
        }
        self.entries.len()
    }

    /// The key at a position.
    pub fn key_at(&self, i: usize) -> (r: &str)
        requires
            i < self@.len(),
        ensures
            r@ == self@[i as int].0,
    {
        self.entries[i].key.as_str()
    }

    /// The value at a position.
    pub fn value_at(&self, i: usize) -> (r: &str)
        requires
            i < self@.len(),
        ensures
            r@ == self@[i as int].1,
    {
        self.entries[i].value.as_str()
    }

    fn find(&self, key: &str) -> (r: usize)
        ensures
            r == key_index(self@, key@),
            r <= self@.len(),
    {
        let ghost all = self@;
        let mut i: usize = 0;
        assert(all.skip(0) =~= all);
        while i < self.entries.len()
            invariant
                0 <= i <= self.entries@.len(),
                all == self@,
                key_index(all, key@) == i + key_index(all.skip(i as int), key@),
            decreases self.entries@.len() - i,
        {
            assert(all.skip(i as int)[0] == self.entries@[i as int].model());
            assert(all.skip(i as int).skip(1) =~= all.skip(i + 1));
            if same_str(self.entries[i].key.as_str(), key) {
                return i;
            }
            i += 1;
        }
        i
    }

    /// The value of a key.
    pub fn get(&self, key: &str) -> (r: Option<&String>)
        ensures
            match (r, value_of(self@, key@)) {
                (Some(s), Some(m)) => s@ == m,
                (None, None) => true,
                _ => false,
            },
    {
        let i: usize = self.find(key);
        if i < self.entries.len() {
            assert(self@[i as int] == self.entries@[i as int].model());
            Some(&self.entries[i].value)
        } else {
            None
        }
    }

    /// The first key with a value.
    pub fn key_with(&self, value: &str) -> (r: Option<&String>)
        ensures
            match (r, key_of(self@, value@)) {
                (Some(s), Some(m)) => s@ == m,
                (None, None) => true,
                _ => false,
            },
    {
        let ghost all = self@;
        let mut i: usize = 0;
        assert(all.skip(0) =~= all);
        while i < self.entries.len()
            invariant
                0 <= i <= self.entries@.len(),
                all == self@,
                value_index(all, value@) == i + value_index(all.skip(i as int), value@),
            decreases self.entries@.len() - i,
        {
            assert(all.skip(i as int)[0] == self.entries@[i as int].model());
            assert(all.skip(i as int).skip(1) =~= all.skip(i + 1));
            if same_str(self.entries[i].value.as_str(), value) {
                return Some(&self.entries[i].key);
            }
            i += 1;
        }
        None
    }

    /// Sets the value of a key.
    pub fn insert(&mut self, key: &str, value: &str)
        ensures
            final(self)@ == with_value(old(self)@, key@, value@),
    {
        let ghost before = self@;
        let i: usize = self.find(key);
        let mut table = TextMap::new();
        std::mem::swap(self, &mut table);
        proof {
            use_type_invariant(&table);
            key_index_finds(before, key@);
            assert(forall|j: int|
                0 <= j < before.len() ==> (#[trigger] table.entries@[j]).key@ == before[j].0);
        }
        let TextMap { mut entries } = table;
        let pair = Pair { key: key.to_owned(), value: value.to_owned() };
        if i < entries.len() {
            entries.set(i, pair);
        } else {
            entries.push(pair);
        }
        *self = TextMap { entries };
        assert(self@ =~= with_value(before, key@, value@));
    }
}

proof fn key_index_in_range(entries: Seq<(Seq<char>, Seq<char>)>, key: Seq<char>)
    ensures
        0 <= key_index(entries, key) <= entries.len(),
    decreases entries.len(),
{
    if entries.len() > 0 {
        key_index_in_range(entries.skip(1), key);
    }
}

/// A value that was set is read back, and other keys keep theirs.
pub proof fn set_values_are_read_back(
    entries: Seq<(Seq<char>, Seq<char>)>,
    key: Seq<char>,
    value: Seq<char>,
    other: Seq<char>,
)
    ensures
        value_of(with_value(entries, key, value), other) == (if other == key {
            Some(value)
        } else {
            value_of(entries, other)
        }),
    decreases entries.len(),
{
    let after = with_value(entries, key, value);
    key_index_in_range(entries, key);
    key_index_in_range(entries, other);
    key_index_in_range(after, other);
    if entries.len() == 0 {
        assert(after =~= seq![(key, value)]);
        assert(after.skip(1) =~= Seq::<(Seq<char>, Seq<char>)>::empty());
        assert(key_index(after.skip(1), other) == 0);
    } else if entries[0].0 == key {
        assert(after =~= entries.update(0, (key, value)));
        assert(after.skip(1) =~= entries.skip(1));
        key_index_in_range(entries.skip(1), other);
    } else {
        key_index_in_range(entries.skip(1), key);
        key_index_in_range(entries.skip(1), other);
        set_values_are_read_back(entries.skip(1), key, value, other);
        assert(after.skip(1) =~= with_value(entries.skip(1), key, value));
        assert(after[0] == entries[0]);
        if other != entries[0].0 {
            let i = key_index(after.skip(1), other);
            key_index_in_range(after.skip(1), other);
            assert(key_index(after, other) == 1 + i);
            assert(key_index(entries, other) == 1 + key_index(entries.skip(1), other));
            assert(i < after.skip(1).len() ==> after[1 + i] == after.skip(1)[i]);
        }
    }
}

/// Whether no key occurs twice.
pub open spec fn unique_keys(entries: Seq<(Seq<char>, Seq<char>)>) -> bool {
    forall|i: int, j: int|
        0 <= i < j < entries.len() ==> (#[trigger] entries[i]).0 != (#[trigger] entries[j]).0
}

/// The position of a key is that of an entry with the key, or there is none.
pub proof fn key_index_finds(entries: Seq<(Seq<char>, Seq<char>)>, key: Seq<char>)
    ensures
        0 <= key_index(entries, key) <= entries.len(),
        key_index(entries, key) < entries.len() ==> entries[key_index(entries, key)].0 == key,
        key_index(entries, key) == entries.len() ==> forall|j: int|
            0 <= j < entries.len() ==> (#[trigger] entries[j]).0 != key,
    decreases entries.len(),
{
    if entries.len() > 0 && entries[0].0 != key {
        let rest = entries.skip(1);
        key_index_finds(rest, key);
        if key_index(rest, key) == rest.len() {
            assert forall|j: int| 0 <= j < entries.len() implies (#[trigger] entries[j]).0
                != key by {
                if j > 0 {
                    assert(rest[j - 1] == entries[j]);
                }
            }
        }
    }
}

/// Setting a value never makes a key occur twice.
pub proof fn keys_stay_unique(
    entries: Seq<(Seq<char>, Seq<char>)>,
    key: Seq<char>,
    value: Seq<char>,
)
    requires
        unique_keys(entries),
    ensures
        unique_keys(with_value(entries, key, value)),
{
    key_index_finds(entries, key);
}

/// The position of a value is that of the first entry with it, or there is none.
pub proof fn value_index_finds(entries: Seq<(Seq<char>, Seq<char>)>, value: Seq<char>)
    ensures
        0 <= value_index(entries, value) <= entries.len(),
        value_index(entries, value) < entries.len() ==> entries[value_index(entries, value)].1
            == value,
        forall|j: int| 0 <= j < value_index(entries, value) ==> (#[trigger] entries[j]).1 != value,
    decreases entries.len(),
{
    if entries.len() > 0 && entries[0].1 != value {
        let rest = entries.skip(1);
        value_index_finds(rest, value);
        assert forall|j: int| 0 <= j < value_index(entries, value) implies (
        #[trigger] entries[j]).1 != value by {
            if j > 0 {
                assert(rest[j - 1] == entries[j]);
            }
        }
    }
}

} // verus!
