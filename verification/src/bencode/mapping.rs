//! A dictionary as a finite map: what its entries in key order stand for.

use vstd::prelude::*;
use crate::bencode::order::{bytes_lt, lemma_lt_asymmetric};
use crate::bencode::value::{
    dict_get, dict_insert, dict_position, dict_remove, keys_increasing,
    lemma_dict_get_after_insert, lemma_dict_position, lemma_dict_position_found, Value,
};

verus! {

/// The map that entries stand for: each key with the value of its first
/// entry.
pub open spec fn entries_map(entries: Seq<(Seq<u8>, Value)>) -> Map<Seq<u8>, Value> {
    Map::new(|k: Seq<u8>| dict_get(entries, k) is Some, |k: Seq<u8>| dict_get(entries, k)->0)
}

/// What the map of entries holds under a key is what the entries hold.
pub proof fn lemma_entries_map(entries: Seq<(Seq<u8>, Value)>, key: Seq<u8>)
    ensures
        entries_map(entries).dom().contains(key) == dict_get(entries, key).is_some(),
        dict_get(entries, key) matches Some(value) ==> entries_map(entries)[key] == value,
{
}

/// Inserting into a dictionary is inserting into the map it stands for.
pub proof fn law_insert_is_map_insert(
    entries: Seq<(Seq<u8>, Value)>,
    key: Seq<u8>,
    value: Value,
)
    ensures
        entries_map(dict_insert(entries, key, value)) == entries_map(entries).insert(key, value),
{
    let out = entries_map(dict_insert(entries, key, value));
    let expected = entries_map(entries).insert(key, value);
    assert forall|k: Seq<u8>| #[trigger] out.dom().contains(k) == expected.dom().contains(k) by {
        lemma_dict_get_after_insert(entries, key, value, k);
        lemma_entries_map(entries, k);
        lemma_entries_map(dict_insert(entries, key, value), k);
    }
    assert forall|k: Seq<u8>| #[trigger] out.dom().contains(k) implies out[k] == expected[k] by {
        lemma_dict_get_after_insert(entries, key, value, k);
        lemma_entries_map(entries, k);
        lemma_entries_map(dict_insert(entries, key, value), k);
    }
    assert(out =~= expected);
}

/// In entries in key order, removing a key leaves what is stored under
/// every other key and nothing under that key.
pub proof fn lemma_dict_get_after_remove(
    entries: Seq<(Seq<u8>, Value)>,
    key: Seq<u8>,
    other: Seq<u8>,
)
    requires
        keys_increasing(entries),
    ensures
        dict_get(dict_remove(entries, key), other) == if other == key {
            None
        } else {
            dict_get(entries, other)
        },
{
    lemma_dict_position(entries, key);
    lemma_dict_position(entries, other);
    let p = dict_position(entries, key);
    let q = dict_position(entries, other);
    let out = dict_remove(entries, key);
    if p < entries.len() {
        if other == key {
            assert forall|i: int| 0 <= i < out.len() implies (#[trigger] out[i]).0 != key by {
                let i2 = if i < p {
                    i
                } else {
                    i + 1
                };
                assert(out[i] == entries[i2]);
                if i2 > p {
                    lemma_lt_asymmetric(entries[p].0, entries[i2].0);
                }
            }
            lemma_dict_position_found(out, key, out.len() as int);
            lemma_dict_position(out, key);
        } else if q < entries.len() {
            let q2 = if q < p {
                q
            } else {
                q - 1
            };
            assert forall|i: int| 0 <= i < q2 implies (#[trigger] out[i]).0 != other by {
                let i2 = if i < p {
                    i
                } else {
                    i + 1
                };
                assert(out[i] == entries[i2]);
            }
            assert(out[q2] == entries[q]);
            lemma_dict_position_found(out, other, q2);
            lemma_dict_position(out, other);
        } else {
            assert forall|i: int| 0 <= i < out.len() implies (#[trigger] out[i]).0 != other by {
                let i2 = if i < p {
                    i
                } else {
                    i + 1
                };
                assert(out[i] == entries[i2]);
            }
            lemma_dict_position_found(out, other, out.len() as int);
            lemma_dict_position(out, other);
        }
    }
}

/// Removing from a dictionary is removing from the map it stands for.
pub proof fn law_remove_is_map_remove(entries: Seq<(Seq<u8>, Value)>, key: Seq<u8>)
    requires
        keys_increasing(entries),
    ensures
        entries_map(dict_remove(entries, key)) == entries_map(entries).remove(key),
{
    let out = entries_map(dict_remove(entries, key));
    let expected = entries_map(entries).remove(key);
    assert forall|k: Seq<u8>| #[trigger] out.dom().contains(k) == expected.dom().contains(k) by {
        lemma_dict_get_after_remove(entries, key, k);
        lemma_entries_map(entries, k);
        lemma_entries_map(dict_remove(entries, key), k);
    }
    assert forall|k: Seq<u8>| #[trigger] out.dom().contains(k) implies out[k] == expected[k] by {
        lemma_dict_get_after_remove(entries, key, k);
        lemma_entries_map(entries, k);
        lemma_entries_map(dict_remove(entries, key), k);
    }
    assert(out =~= expected);
}

/// Entries in key order are determined by the map they stand for: two
/// dictionaries that hold the same values under the same keys have the
/// same entries in the same order.
pub proof fn law_entries_determined_by_map(a: Seq<(Seq<u8>, Value)>, b: Seq<(Seq<u8>, Value)>)
    requires
        keys_increasing(a),
        keys_increasing(b),
        entries_map(a) == entries_map(b),
    ensures
        a == b,
    decreases a.len(),
{
    assert forall|k: Seq<u8>| dict_get(a, k) == dict_get(b, k) by {
        lemma_entries_map(a, k);
        lemma_entries_map(b, k);
    }
    if a.len() == 0 {
        if b.len() > 0 {
            assert(dict_get(b, b[0].0) is Some);
            assert(dict_get(a, b[0].0) is None);
        }
        assert(a =~= b);
    } else if b.len() == 0 {
        assert(dict_get(a, a[0].0) is Some);
        assert(dict_get(b, a[0].0) is None);
    } else {
        lemma_dict_position(b, a[0].0);
        lemma_dict_position(a, b[0].0);
        let j = dict_position(b, a[0].0);
        let i = dict_position(a, b[0].0);
        assert(dict_get(a, a[0].0) == Some(a[0].1));
        assert(dict_get(b, b[0].0) == Some(b[0].1));
        assert(j < b.len());
        assert(i < a.len());
        if j > 0 {
            assert(bytes_lt(b[0].0, b[j].0));
            if i > 0 {
                assert(bytes_lt(a[0].0, a[i].0));
                lemma_lt_asymmetric(a[0].0, b[0].0);
            }
        }
        assert(a[0].0 == b[0].0);
        assert(a[0].1 == b[0].1);
        let ra = a.drop_first();
        let rb = b.drop_first();
        assert forall|x: int, y: int| 0 <= x < y < ra.len() implies bytes_lt(
            #[trigger] ra[x].0,
            #[trigger] ra[y].0,
        ) by {
            assert(ra[x] == a[x + 1]);
            assert(ra[y] == a[y + 1]);
        }
        assert forall|x: int, y: int| 0 <= x < y < rb.len() implies bytes_lt(
            #[trigger] rb[x].0,
            #[trigger] rb[y].0,
        ) by {
            assert(rb[x] == b[x + 1]);
            assert(rb[y] == b[y + 1]);
        }
        assert(ra =~= dict_remove(a, a[0].0));
        assert(rb =~= dict_remove(b, a[0].0));
        assert forall|k: Seq<u8>| dict_get(ra, k) == dict_get(rb, k) by {
            lemma_dict_get_after_remove(a, a[0].0, k);
            lemma_dict_get_after_remove(b, a[0].0, k);
        }
        assert forall|k: Seq<u8>| #[trigger]
            entries_map(ra).dom().contains(k) == entries_map(rb).dom().contains(k) by {
            lemma_entries_map(ra, k);
            lemma_entries_map(rb, k);
        }
        assert forall|k: Seq<u8>| #[trigger] entries_map(ra).dom().contains(k) implies entries_map(
            ra,
        )[k] == entries_map(rb)[k] by {
            lemma_entries_map(ra, k);
            lemma_entries_map(rb, k);
        }
        assert(entries_map(ra) =~= entries_map(rb));
        law_entries_determined_by_map(ra, rb);
        assert(a =~= seq![a[0]] + ra);
        assert(b =~= seq![b[0]] + rb);
        assert(a[0] == b[0]);
    }
}

} // verus!
