//! Copies of values.

use vstd::prelude::*;
use vstd::slice::slice_to_vec;
use crate::bencode::value::{entries_view, list_view, BencodeValue, Dict};

verus! {

/// A copy of a value, of all that it holds.
pub fn copy_value(value: &BencodeValue) -> (copy: BencodeValue)
    ensures
        copy@ == value@,
    decreases value,
{
    match value {
        BencodeValue::Bytes(b) => BencodeValue::Bytes(slice_to_vec(b.as_slice())),
        BencodeValue::Integer(i) => BencodeValue::Integer(*i),
        BencodeValue::List(l) => {
            let mut items: Vec<BencodeValue> = Vec::new();
            let mut i: usize = 0;
            while i < l.len()
                invariant
                    i <= l.len(),
                    items@.len() == i,
                    forall|j: int| 0 <= j < i ==> (#[trigger] items@[j])@ == l@[j]@,
                    forall|j: int| 0 <= j < l.len() ==> decreases_to!(value => #[trigger] l[j]),
                decreases l.len() - i,
            {
                items.push(copy_value(&l[i]));
                i += 1;
            }
            assert(list_view(items@) =~= list_view(l@));
            BencodeValue::List(items)
        },
        BencodeValue::Dict(d) => {
            let n: usize = d.len();
            let mut entries: Vec<(Vec<u8>, BencodeValue)> = Vec::new();
            let mut i: usize = 0;
            while i < n
                invariant
                    i <= n,
                    n == d.entries@.len(),
                    entries@.len() == i,
                    forall|j: int|
                        0 <= j < i ==> (#[trigger] entries@[j]).0@ == d.entries@[j].0@
                            && entries@[j].1@ == d.entries@[j].1@,
                    forall|j: int|
                        0 <= j < d.entries.len() ==> decreases_to!(value => (#[trigger] d.entries[j]).1),
                decreases n - i,
            {
                entries.push(
                    (slice_to_vec(d.entries[i].0.as_slice()), copy_value(&d.entries[i].1)),
                );
                i += 1;
            }
            assert(entries_view(entries@) =~= d@);
            BencodeValue::Dict(Dict::from_ordered(entries))
        },
    }
}

impl Clone for BencodeValue {
    fn clone(&self) -> (copy: BencodeValue)
        ensures
            copy@ == self@,
    {
        copy_value(self)
    }
}

impl Clone for Dict {
    fn clone(&self) -> (copy: Dict)
        ensures
            copy@ == self@,
    {
        let n: usize = self.len();
        let mut entries: Vec<(Vec<u8>, BencodeValue)> = Vec::new();
        let mut i: usize = 0;
        while i < n
            invariant
                i <= n,
                n == self.entries@.len(),
                entries@.len() == i,
                forall|j: int|
                    0 <= j < i ==> (#[trigger] entries@[j]).0@ == self.entries@[j].0@
                        && entries@[j].1@ == self.entries@[j].1@,
            decreases n - i,
        {
            entries.push(
                (slice_to_vec(self.entries[i].0.as_slice()), copy_value(&self.entries[i].1)),
            );
            i += 1;
        }
        assert(entries_view(entries@) =~= self@);
        Dict::from_ordered(entries)
    }
}

} // verus!
