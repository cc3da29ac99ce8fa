//! Writing a value as bytes.

use vstd::prelude::*;
use crate::bencode::decimal::push_decimal;
use crate::bencode::grammar::{
    encode_bytes, encode_entries, encode_integer, encode_items, encode_value, BYTE_COLON, BYTE_D,
    BYTE_E, BYTE_I, BYTE_L, BYTE_MINUS,
};
use crate::bencode::value::{canonical, list_view, BencodeValue, Value};
use crate::util::append_slice;

verus! {

/// Writing a list with one more item at its end appends that item.
pub proof fn lemma_encode_items_push(l: Seq<Value>, v: Value)
    ensures
        encode_items(l.push(v)) == encode_items(l) + encode_value(v),
    decreases l.len(),
{
    if l.len() == 0 {
        assert(l.push(v).drop_first() =~= Seq::<Value>::empty());
        assert(encode_items(l.push(v)) =~= encode_value(v) + encode_items(Seq::<Value>::empty()));
        assert(encode_items(l.push(v)) =~= encode_items(l) + encode_value(v));
    } else {
        assert(l.push(v).drop_first() =~= l.drop_first().push(v));
        lemma_encode_items_push(l.drop_first(), v);
        assert(encode_items(l.push(v)) =~= encode_items(l) + encode_value(v));
    }
}

/// Writing a dictionary with one more entry at its end appends that entry.
pub proof fn lemma_encode_entries_push(es: Seq<(Seq<u8>, Value)>, e: (Seq<u8>, Value))
    ensures
        encode_entries(es.push(e)) == encode_entries(es) + encode_bytes(e.0) + encode_value(e.1),
    decreases es.len(),
{
    if es.len() == 0 {
        assert(es.push(e).drop_first() =~= Seq::<(Seq<u8>, Value)>::empty());
        assert(encode_entries(es.push(e)) =~= encode_bytes(e.0) + encode_value(e.1)
            + encode_entries(Seq::<(Seq<u8>, Value)>::empty()));
        assert(encode_entries(es.push(e)) =~= encode_entries(es) + encode_bytes(e.0)
            + encode_value(e.1));
    } else {
        assert(es.push(e).drop_first() =~= es.drop_first().push(e));
        lemma_encode_entries_push(es.drop_first(), e);
        assert(encode_entries(es.push(e)) =~= encode_entries(es) + encode_bytes(e.0)
            + encode_value(e.1));
    }
}

/// Appends a byte string as written: length, colon, bytes.
pub fn push_encoded_bytes(out: &mut Vec<u8>, bytes: &[u8])
    ensures
        final(out)@ == old(out)@ + encode_bytes(bytes@),
{
    push_decimal(out, bytes.len() as u128);
    out.push(BYTE_COLON);
    append_slice(out, bytes);
    assert(out@ =~= old(out)@ + encode_bytes(bytes@));
}

/// Appends an integer as written.
pub fn push_encoded_integer(out: &mut Vec<u8>, i: i128)
    ensures
        final(out)@ == old(out)@ + encode_integer(i as int),
{
    out.push(BYTE_I);
    if i < 0 {
        out.push(BYTE_MINUS);
        let magnitude: u128 = ((-(i + 1)) as u128) + 1;
        push_decimal(out, magnitude);
    } else {
        push_decimal(out, i as u128);
    }
    out.push(BYTE_E);
    assert(out@ =~= old(out)@ + encode_integer(i as int));
}

/// Appends a value as written.
pub fn encode_into(value: &BencodeValue, out: &mut Vec<u8>)
    ensures
        final(out)@ == old(out)@ + encode_value(value@),
        canonical(value@),
    decreases value,
{
    match value {
        BencodeValue::Bytes(b) => {
            push_encoded_bytes(out, b.as_slice());
        },
        BencodeValue::Integer(i) => {
            push_encoded_integer(out, *i);
        },
        BencodeValue::List(l) => {
            out.push(BYTE_L);
            let ghost items = list_view(l@);
            let mut i: usize = 0;
            while i < l.len()
                invariant
                    i <= l.len(),
                    items == list_view(l@),
                    out@ == old(out)@ + seq![BYTE_L] + encode_items(items.take(i as int)),
                    forall|j: int| 0 <= j < i ==> canonical(#[trigger] items[j]),
                    forall|j: int| 0 <= j < l.len() ==> decreases_to!(value => #[trigger] l[j]),
                decreases l.len() - i,
            {
                let ghost before = out@;
                encode_into(&l[i], out);
                proof {
                    lemma_encode_items_push(items.take(i as int), items[i as int]);
                    assert(items.take(i + 1) =~= items.take(i as int).push(items[i as int]));
                    assert(out@ =~= old(out)@ + seq![BYTE_L] + encode_items(items.take(i + 1)));
                }
                i += 1;
            }
            assert(items.take(i as int) =~= items);
            out.push(BYTE_E);
            assert(out@ =~= old(out)@ + encode_value(value@));
        },
        BencodeValue::Dict(d) => {
            out.push(BYTE_D);
            let ghost entries = d@;
            let n: usize = d.len();
            let mut i: usize = 0;
            while i < n
                invariant
                    i <= n,
                    n == d.entries.len(),
                    entries == d@,
                    out@ == old(out)@ + seq![BYTE_D] + encode_entries(entries.take(i as int)),
                    forall|j: int| 0 <= j < i ==> canonical((#[trigger] entries[j]).1),
                    forall|j: int|
                        0 <= j < d.entries.len() ==> decreases_to!(value => (#[trigger] d.entries[j]).1),
                decreases n - i,
            {
                push_encoded_bytes(out, d.entries[i].0.as_slice());
                encode_into(&d.entries[i].1, out);
                proof {
                    lemma_encode_entries_push(entries.take(i as int), entries[i as int]);
                    assert(entries.take(i + 1) =~= entries.take(i as int).push(entries[i as int]));
                    assert(out@ =~= old(out)@ + seq![BYTE_D] + encode_entries(
                        entries.take(i + 1),
                    ));
                }
                i += 1;
            }
            assert(entries.take(i as int) =~= entries);
            out.push(BYTE_E);
            assert(out@ =~= old(out)@ + encode_value(value@));
        },
    }
}

impl BencodeValue {
    /// The value as written. Dictionaries are written in key order: every
    /// value is canonical.
    pub fn encode(&self) -> (out: Vec<u8>)
        ensures
            out@ == encode_value(self@),
            canonical(self@),
    {
        let mut out: Vec<u8> = Vec::new();
        encode_into(self, &mut out);
        assert(out@ =~= encode_value(self@));
        out
    }
}

} // verus!
