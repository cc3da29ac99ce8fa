//! Bencode values, their mathematical model, and dictionaries kept in key
//! order.

use vstd::prelude::*;
use crate::bencode::order::{bytes_lt, compare_bytes, lemma_lt_asymmetric, lemma_lt_transitive, KeyOrder};

verus! {

/// The model of a bencode value. A dictionary is the sequence of its
/// entries; in a canonical value that sequence is strictly increasing by key,
/// so it stands for a finite map.
pub enum Value {
    Bytes(Seq<u8>),
    Integer(int),
    List(Seq<Value>),
    Dict(Seq<(Seq<u8>, Value)>),
}

/// A bencode value.
#[derive(Debug, PartialEq, Eq)]
pub enum BencodeValue {
    Bytes(Vec<u8>),
    Integer(i128),
    List(Vec<BencodeValue>),
    Dict(Dict),
}

/// A dictionary keyed by byte strings. Its entries are held in strictly
/// increasing key order, so no key occurs twice.
#[derive(Debug, PartialEq, Eq)]
pub struct Dict {
    pub(crate) entries: Vec<(Vec<u8>, BencodeValue)>,
}

impl View for BencodeValue {
    type V = Value;

    open spec fn view(&self) -> Value
        decreases self,
    {
        match self {
            BencodeValue::Bytes(b) => Value::Bytes(b@),
            BencodeValue::Integer(i) => Value::Integer(*i as int),
            BencodeValue::List(l) => Value::List(list_view(l@)),
            BencodeValue::Dict(d) => Value::Dict(d@),
        }
    }
}

impl View for Dict {
    type V = Seq<(Seq<u8>, Value)>;

    open(crate) spec fn view(&self) -> Seq<(Seq<u8>, Value)>
        decreases self,
    {
        entries_view(self.entries@)
    }
}

/// The model of a sequence of stored values.
pub open spec fn list_view(items: Seq<BencodeValue>) -> Seq<Value>
    decreases items,
{
    Seq::new(
        items.len(),
        |i: int|
            if 0 <= i < items.len() {
                items[i]@
            } else {
                Value::Integer(0)
            },
    )
}

/// The model of a sequence of stored entries.
pub open spec fn entries_view(entries: Seq<(Vec<u8>, BencodeValue)>) -> Seq<(Seq<u8>, Value)>
    decreases entries,
{
    Seq::new(
        entries.len(),
        |i: int|
            if 0 <= i < entries.len() {
                (entries[i].0@, entries[i].1@)
            } else {
                (Seq::empty(), Value::Integer(0))
            },
    )
}

/// Successive keys are strictly increasing in byte order.
pub open spec fn keys_increasing(entries: Seq<(Seq<u8>, Value)>) -> bool {
    forall|i: int, j: int|
        0 <= i < j < entries.len() ==> bytes_lt(#[trigger] entries[i].0, #[trigger] entries[j].0)
}

/// Every dictionary inside the value, at any depth, has its keys strictly
/// increasing.
pub open spec fn canonical(v: Value) -> bool
    decreases v,
{
    match v {
        Value::Bytes(_) => true,
        Value::Integer(_) => true,
        Value::List(l) => forall|i: int| 0 <= i < l.len() ==> canonical(#[trigger] l[i]),
        Value::Dict(es) => keys_increasing(es) && forall|i: int|
            0 <= i < es.len() ==> canonical((#[trigger] es[i]).1),
    }
}

/// Every integer inside the value can be written and read back: its
/// magnitude is at most `i128::MAX`.
pub open spec fn representable(v: Value) -> bool
    decreases v,
{
    match v {
        Value::Bytes(_) => true,
        Value::Integer(i) => -(i128::MAX as int) <= i <= i128::MAX as int,
        Value::List(l) => forall|i: int| 0 <= i < l.len() ==> representable(#[trigger] l[i]),
        Value::Dict(es) => forall|i: int| 0 <= i < es.len() ==> representable((#[trigger] es[i]).1),
    }
}

/// The value stored under `key`, if any.
pub open spec fn dict_get(entries: Seq<(Seq<u8>, Value)>, key: Seq<u8>) -> Option<Value>
    decreases entries.len(),
{
    if entries.len() == 0 {
        None
    } else if entries[0].0 == key {
        Some(entries[0].1)
    } else {
        dict_get(entries.drop_first(), key)
    }
}

/// The entries with `value` stored under `key`: a new entry at its place in
/// key order, or the entry of that key replaced.
pub open spec fn dict_insert(entries: Seq<(Seq<u8>, Value)>, key: Seq<u8>, value: Value) -> Seq<
    (Seq<u8>, Value),
>
    decreases entries.len(),
{
    if entries.len() == 0 {
        seq![(key, value)]
    } else if entries[0].0 == key {
        seq![(key, value)] + entries.drop_first()
    } else if bytes_lt(key, entries[0].0) {
        seq![(key, value)] + entries
    } else {
        seq![entries[0]] + dict_insert(entries.drop_first(), key, value)
    }
}

/// The entries without the entry of `key`.
pub open spec fn dict_remove(entries: Seq<(Seq<u8>, Value)>, key: Seq<u8>) -> Seq<
    (Seq<u8>, Value),
>
    decreases entries.len(),
{
    if entries.len() == 0 {
        entries
    } else if entries[0].0 == key {
        entries.drop_first()
    } else {
        seq![entries[0]] + dict_remove(entries.drop_first(), key)
    }
}

/// The position of the entry of `key`, or the number of entries if there is
/// none.
pub open spec fn dict_position(entries: Seq<(Seq<u8>, Value)>, key: Seq<u8>) -> int
    decreases entries.len(),
{
    if entries.len() == 0 {
        0
    } else if entries[0].0 == key {
        0
    } else {
        1 + dict_position(entries.drop_first(), key)
    }
}

/// The position of a key is within the entries or just after them; no entry
/// before it has the key; and getting and removing go by that position.
pub proof fn lemma_dict_position(entries: Seq<(Seq<u8>, Value)>, key: Seq<u8>)
    ensures
        0 <= dict_position(entries, key) <= entries.len(),
        forall|i: int| 0 <= i < dict_position(entries, key) ==> (#[trigger] entries[i]).0 != key,
        dict_position(entries, key) < entries.len() ==> {
            &&& entries[dict_position(entries, key)].0 == key
            &&& dict_get(entries, key) == Some(entries[dict_position(entries, key)].1)
            &&& dict_remove(entries, key) == entries.remove(dict_position(entries, key))
        },
        dict_position(entries, key) == entries.len() ==> {
            &&& dict_get(entries, key) is None
            &&& dict_remove(entries, key) == entries
        },
    decreases entries.len(),
{
    if entries.len() > 0 && entries[0].0 != key {
        let rest = entries.drop_first();
        lemma_dict_position(rest, key);
        let p = dict_position(rest, key);
        assert forall|i: int| 0 <= i < p + 1 implies (#[trigger] entries[i]).0 != key by {
            if i > 0 {
                assert(entries[i] == rest[i - 1]);
            }
        }
        if p < rest.len() {
            assert(entries[p + 1] == rest[p]);
            assert(seq![entries[0]] + rest.remove(p) =~= entries.remove(p + 1));
        } else {
            assert(seq![entries[0]] + rest =~= entries);
        }
    } else if entries.len() > 0 {
        assert(entries.drop_first() =~= entries.remove(0));
    }
}

/// A position found by a scan from the front is the position of the key.
pub proof fn lemma_dict_position_found(entries: Seq<(Seq<u8>, Value)>, key: Seq<u8>, p: int)
    requires
        0 <= p <= entries.len(),
        forall|i: int| 0 <= i < p ==> (#[trigger] entries[i]).0 != key,
        p < entries.len() ==> entries[p].0 == key,
    ensures
        dict_position(entries, key) == p,
    decreases entries.len(),
{
    if entries.len() > 0 && p > 0 {
        assert(entries[0].0 != key);
        let rest = entries.drop_first();
        assert forall|i: int| 0 <= i < p - 1 implies (#[trigger] rest[i]).0 != key by {
            assert(rest[i] == entries[i + 1]);
        }
        lemma_dict_position_found(rest, key, p - 1);
    }
}

/// Inserting at the place a scan from the front stops at.
pub proof fn lemma_dict_insert_at(
    entries: Seq<(Seq<u8>, Value)>,
    key: Seq<u8>,
    value: Value,
    p: int,
)
    requires
        0 <= p <= entries.len(),
        forall|i: int| 0 <= i < p ==> bytes_lt((#[trigger] entries[i]).0, key),
        p < entries.len() ==> entries[p].0 == key || bytes_lt(key, entries[p].0),
    ensures
        p < entries.len() && entries[p].0 == key ==> dict_insert(entries, key, value)
            == entries.update(p, (key, value)),
        !(p < entries.len() && entries[p].0 == key) ==> dict_insert(entries, key, value)
            == entries.insert(p, (key, value)),
    decreases entries.len(),
{
    if entries.len() == 0 {
        assert(seq![(key, value)] =~= entries.insert(0, (key, value)));
    } else if p == 0 {
        if entries[0].0 == key {
            assert(seq![(key, value)] + entries.drop_first() =~= entries.update(0, (key, value)));
        } else {
            assert(seq![(key, value)] + entries =~= entries.insert(0, (key, value)));
        }
    } else {
        let rest = entries.drop_first();
        assert(bytes_lt(entries[0].0, key));
        lemma_lt_asymmetric(entries[0].0, key);
        assert forall|i: int| 0 <= i < p - 1 implies bytes_lt((#[trigger] rest[i]).0, key) by {
            assert(rest[i] == entries[i + 1]);
        }
        if p < entries.len() {
            assert(rest[p - 1] == entries[p]);
        }
        lemma_dict_insert_at(rest, key, value, p - 1);
        if p < entries.len() && entries[p].0 == key {
            assert(seq![entries[0]] + rest.update(p - 1, (key, value)) =~= entries.update(
                p,
                (key, value),
            ));
        } else {
            assert(seq![entries[0]] + rest.insert(p - 1, (key, value)) =~= entries.insert(
                p,
                (key, value),
            ));
        }
    }
}

/// Inserting into entries in key order leaves them in key order.
pub proof fn lemma_dict_insert_keeps_order(
    entries: Seq<(Seq<u8>, Value)>,
    key: Seq<u8>,
    value: Value,
)
    requires
        keys_increasing(entries),
    ensures
        keys_increasing(dict_insert(entries, key, value)),
    decreases entries.len(),
{
    let out = dict_insert(entries, key, value);
    if entries.len() == 0 {
    } else if entries[0].0 == key {
        assert forall|i: int, j: int| 0 <= i < j < out.len() implies bytes_lt(
            #[trigger] out[i].0,
            #[trigger] out[j].0,
        ) by {
            assert(out[j] == entries[j]);
            if i > 0 {
                assert(out[i] == entries[i]);
            } else {
                assert(bytes_lt(entries[0].0, entries[j].0));
            }
        }
    } else if bytes_lt(key, entries[0].0) {
        assert forall|i: int, j: int| 0 <= i < j < out.len() implies bytes_lt(
            #[trigger] out[i].0,
            #[trigger] out[j].0,
        ) by {
            assert(out[j] == entries[j - 1]);
            if i > 0 {
                assert(out[i] == entries[i - 1]);
            } else if j > 1 {
                assert(bytes_lt(entries[0].0, entries[j - 1].0));
                lemma_lt_transitive(key, entries[0].0, entries[j - 1].0);
            }
        }
    } else {
        let rest = entries.drop_first();
        assert forall|i: int, j: int| 0 <= i < j < rest.len() implies bytes_lt(
            #[trigger] rest[i].0,
            #[trigger] rest[j].0,
        ) by {
            assert(rest[i] == entries[i + 1]);
            assert(rest[j] == entries[j + 1]);
        }
        lemma_dict_insert_keeps_order(rest, key, value);
        let inner = dict_insert(rest, key, value);
        lemma_dict_insert_entries(rest, key, value);
        crate::bencode::order::lemma_lt_total(key, entries[0].0);
        assert forall|i: int, j: int| 0 <= i < j < out.len() implies bytes_lt(
            #[trigger] out[i].0,
            #[trigger] out[j].0,
        ) by {
            assert(out[j] == inner[j - 1]);
            if i > 0 {
                assert(out[i] == inner[i - 1]);
            } else {
                assert(out[0] == entries[0]);
                if inner[j - 1] != (key, value) {
                    let k = choose|k: int| 0 <= k < rest.len() && rest[k] == inner[j - 1];
                    assert(rest[k] == entries[k + 1]);
                    assert(bytes_lt(entries[0].0, entries[k + 1].0));
                }
            }
        }
    }
}

/// Every entry after an insertion is the inserted one or was there before.
pub proof fn lemma_dict_insert_entries(entries: Seq<(Seq<u8>, Value)>, key: Seq<u8>, value: Value)
    ensures
        forall|j: int|
            0 <= j < dict_insert(entries, key, value).len() ==> (#[trigger] dict_insert(
                entries,
                key,
                value,
            )[j]) == (key, value) || exists|k: int|
                0 <= k < entries.len() && entries[k] == dict_insert(entries, key, value)[j],
    decreases entries.len(),
{
    let out = dict_insert(entries, key, value);
    if entries.len() == 0 {
    } else if entries[0].0 == key {
        assert forall|j: int| 0 <= j < out.len() implies (#[trigger] out[j]) == (key, value)
            || exists|k: int| 0 <= k < entries.len() && entries[k] == out[j] by {
            if j > 0 {
                assert(out[j] == entries[j]);
            }
        }
    } else if bytes_lt(key, entries[0].0) {
        assert forall|j: int| 0 <= j < out.len() implies (#[trigger] out[j]) == (key, value)
            || exists|k: int| 0 <= k < entries.len() && entries[k] == out[j] by {
            if j > 0 {
                assert(out[j] == entries[j - 1]);
            }
        }
    } else {
        let rest = entries.drop_first();
        lemma_dict_insert_entries(rest, key, value);
        let inner = dict_insert(rest, key, value);
        assert forall|j: int| 0 <= j < out.len() implies (#[trigger] out[j]) == (key, value)
            || exists|k: int| 0 <= k < entries.len() && entries[k] == out[j] by {
            if j > 0 {
                assert(out[j] == inner[j - 1]);
                if inner[j - 1] != (key, value) {
                    let k = choose|k: int| 0 <= k < rest.len() && rest[k] == inner[j - 1];
                    assert(entries[k + 1] == rest[k]);
                }
            } else {
                assert(out[0] == entries[0]);
            }
        }
    }
}

/// A dictionary read after an insertion: the inserted value under the
/// inserted key, what was there before under every other key.
pub proof fn lemma_dict_get_after_insert(
    entries: Seq<(Seq<u8>, Value)>,
    key: Seq<u8>,
    value: Value,
    other: Seq<u8>,
)
    ensures
        dict_get(dict_insert(entries, key, value), other) == if other == key {
            Some(value)
        } else {
            dict_get(entries, other)
        },
    decreases entries.len(),
{
    let out = dict_insert(entries, key, value);
    if entries.len() == 0 {
        assert(out.drop_first() =~= entries);
    } else if entries[0].0 == key {
        assert(out.drop_first() =~= entries.drop_first());
    } else if bytes_lt(key, entries[0].0) {
        assert(out.drop_first() =~= entries);
    } else {
        lemma_dict_get_after_insert(entries.drop_first(), key, value, other);
        assert(out.drop_first() =~= dict_insert(entries.drop_first(), key, value));
    }
}


impl Dict {
    /// What holds of every dictionary: its entries are in key order.
    #[verifier::type_invariant]
    pub closed spec fn in_key_order(self) -> bool {
        keys_increasing(self@)
    }

    /// The dictionary of entries that are in key order.
    pub(crate) fn from_ordered(entries: Vec<(Vec<u8>, BencodeValue)>) -> (d: Dict)
        requires
            keys_increasing(entries_view(entries@)),
        ensures
            d@ == entries_view(entries@),
    {
        Dict { entries }
    }

    /// The empty dictionary.
    pub fn new() -> (d: Dict)
        ensures
            d@.len() == 0,
    {
        Dict { entries: Vec::new() }
    }

    /// The number of entries. The keys of any dictionary are strictly
    /// increasing.
    pub fn len(&self) -> (n: usize)
        ensures
            n == self@.len(),
            keys_increasing(self@),
    {
        proof {
            use_type_invariant(self);
        }
        self.entries.len()
    }

    /// Whether the dictionary has no entries.
    pub fn is_empty(&self) -> (b: bool)
        ensures
            b == (self@.len() == 0),
    {
        self.entries.len() == 0
    }

    /// The key of the entry at position `i` in key order.
    pub fn key_at(&self, i: usize) -> (key: &Vec<u8>)
        requires
            i < self@.len(),
        ensures
            key@ == self@[i as int].0,
    {
        &self.entries[i].0
    }

    /// The value of the entry at position `i` in key order.
    pub fn value_at(&self, i: usize) -> (value: &BencodeValue)
        requires
            i < self@.len(),
        ensures
            value@ == self@[i as int].1,
    {
        &self.entries[i].1
    }

    /// The position of the entry of `key`, or `len()` if there is none.
    fn position(&self, key: &[u8]) -> (p: usize)
        ensures
            p == dict_position(self@, key@),
            p <= self@.len(),
    {
        let mut i: usize = 0;
        while i < self.entries.len()
            invariant
                i <= self.entries@.len(),
                forall|j: int| 0 <= j < i ==> (#[trigger] self@[j]).0 != key@,
            decreases self.entries@.len() - i,
        {
            if compare_bytes(self.entries[i].0.as_slice(), key) == KeyOrder::Same {
                proof {
                    lemma_dict_position_found(self@, key@, i as int);
                }
                return i;
            }
            i += 1;
        }
        proof {
            lemma_dict_position_found(self@, key@, i as int);
        }
        i
    }

    /// The value stored under `key`.
    pub fn get(&self, key: &[u8]) -> (found: Option<&BencodeValue>)
        ensures
            match found {
                Some(value) => dict_get(self@, key@) == Some(value@),
                None => dict_get(self@, key@) is None,
            },
    {
        let p: usize = self.position(key);
        proof {
            lemma_dict_position(self@, key@);
        }
        if p < self.entries.len() {
            Some(&self.entries[p].1)
        } else {
            None
        }
    }

    /// Whether a value is stored under `key`.
    pub fn contains_key(&self, key: &[u8]) -> (b: bool)
        ensures
            b == dict_get(self@, key@).is_some(),
    {
        let p: usize = self.position(key);
        proof {
            lemma_dict_position(self@, key@);
        }
        p < self.entries.len()
    }

    /// Stores `value` under `key`, in place of what was stored there.
    pub fn insert(&mut self, key: Vec<u8>, value: BencodeValue)
        ensures
            final(self)@ == dict_insert(old(self)@, key@, value@),
    {
        proof {
            use_type_invariant(&*self);
        }
        let mut i: usize = 0;
        let mut found: bool = false;
        while i < self.entries.len()
            invariant_except_break
                self == old(self),
                i <= self.entries@.len(),
                !found,
                forall|j: int| 0 <= j < i ==> bytes_lt((#[trigger] self@[j]).0, key@),
            ensures
                i <= self.entries@.len(),
                self == old(self),
                forall|j: int| 0 <= j < i ==> bytes_lt((#[trigger] self@[j]).0, key@),
                i < self.entries@.len() ==> (self@[i as int].0 == key@ || bytes_lt(
                    key@,
                    self@[i as int].0,
                )),
                found == (i < self.entries@.len() && self@[i as int].0 == key@),
            decreases self.entries@.len() - i,
        {
            let order = compare_bytes(self.entries[i].0.as_slice(), key.as_slice());
            if order == KeyOrder::Same {
                found = true;
                break ;
            }
            if order == KeyOrder::After {
                proof {
                    lemma_lt_asymmetric(key@, self@[i as int].0);
                }
                break ;
            }
            i += 1;
        }
        proof {
            lemma_dict_insert_at(self@, key@, value@, i as int);
            lemma_dict_insert_keeps_order(self@, key@, value@);
        }
        let ghost before = self@;
        let ghost after = dict_insert(before, key@, value@);
        let mut entries: Vec<(Vec<u8>, BencodeValue)> = Vec::new();
        core::mem::swap(&mut self.entries, &mut entries);
        if found {
            entries.set(i, (key, value));
        } else {
            entries.insert(i, (key, value));
        }
        assert(after =~= entries_view(entries@));
        self.entries = entries;
    }

    /// Takes the entry of `key` out, and returns the value it held.
    pub fn remove(&mut self, key: &[u8]) -> (taken: Option<BencodeValue>)
        ensures
            final(self)@ == dict_remove(old(self)@, key@),
            match taken {
                Some(value) => dict_get(old(self)@, key@) == Some(value@),
                None => dict_get(old(self)@, key@) is None,
            },
    {
        proof {
            use_type_invariant(&*self);
            lemma_dict_position(self@, key@);
        }
        let p: usize = self.position(key);
        if p < self.entries.len() {
            let ghost before = self@;
            assert(keys_increasing(before.remove(p as int))) by {
                let r = before.remove(p as int);
                assert forall|a: int, b: int| 0 <= a < b < r.len() implies bytes_lt(
                    #[trigger] r[a].0,
                    #[trigger] r[b].0,
                ) by {
                    let a2 = if a < p { a } else { a + 1 };
                    let b2 = if b < p { b } else { b + 1 };
                    assert(r[a] == before[a2]);
                    assert(r[b] == before[b2]);
                }
            }
            let mut entries: Vec<(Vec<u8>, BencodeValue)> = Vec::new();
            core::mem::swap(&mut self.entries, &mut entries);
            let entry = entries.remove(p);
            assert(before.remove(p as int) =~= entries_view(entries@));
            self.entries = entries;
            Some(entry.1)
        } else {
            None
        }
    }
}

} // verus!
