//! What the codec guarantees: whatever is written is read back unchanged,
//! and whatever is read is canonical.

use vstd::prelude::*;
use crate::bencode::decimal::{decimal, is_digit, lemma_decimal_read_back, lemma_decimal_shape};
use crate::bencode::grammar::{
    decode_value, encode_bytes, encode_entries, encode_integer, encode_items, encode_value,
    parse_bytes_at, parse_entries_at, parse_integer_at, parse_items_at, parse_value_at,
    DecodeError, BYTE_COLON, BYTE_D, BYTE_E, BYTE_I, BYTE_L, BYTE_MINUS,
};
use crate::bencode::order::bytes_lt;
use crate::bencode::value::{
    canonical, dict_insert, keys_increasing, lemma_dict_insert_at, lemma_dict_insert_entries,
    lemma_dict_insert_keeps_order, representable, Value,
};

verus! {

/// The bytes `e` stand in `s` from position `pos` on.
pub open spec fn holds_at(s: Seq<u8>, pos: int, e: Seq<u8>) -> bool {
    &&& 0 <= pos
    &&& pos + e.len() <= s.len()
    &&& forall|i: int| 0 <= i < e.len() ==> s[pos + i] == #[trigger] e[i]
}

/// Bytes that stand at a position stand there part by part.
pub proof fn lemma_holds_at_split(s: Seq<u8>, pos: int, x: Seq<u8>, y: Seq<u8>)
    requires
        holds_at(s, pos, x + y),
    ensures
        holds_at(s, pos, x),
        holds_at(s, pos + x.len(), y),
{
    let e = x + y;
    assert forall|i: int| 0 <= i < x.len() implies s[pos + i] == #[trigger] x[i] by {
        assert(e[i] == x[i]);
    }
    assert forall|i: int| 0 <= i < y.len() implies s[pos + x.len() + i] == #[trigger] y[i] by {
        assert(e[x.len() + i] == y[i]);
    }
}

/// Bytes that stand at a position are the bytes from that position on.
pub proof fn lemma_holds_at_subrange(s: Seq<u8>, pos: int, e: Seq<u8>)
    requires
        holds_at(s, pos, e),
    ensures
        s.subrange(pos, pos + e.len()) == e,
{
    assert(s.subrange(pos, pos + e.len()) =~= e);
}

/// A written value is never empty, and its first byte tells its kind; in
/// particular it is never the `e` that closes a list or a dictionary.
pub proof fn lemma_first_byte(v: Value)
    ensures
        encode_value(v).len() >= 2,
        v is Bytes <==> is_digit(encode_value(v)[0]),
        v is Integer <==> encode_value(v)[0] == BYTE_I,
        v is List <==> encode_value(v)[0] == BYTE_L,
        v is Dict <==> encode_value(v)[0] == BYTE_D,
        encode_value(v)[0] != BYTE_E,
{
    match v {
        Value::Bytes(b) => {
            lemma_decimal_shape(b.len());
            assert(encode_value(v)[0] == decimal(b.len())[0]);
        },
        Value::Integer(i) => {
            if i < 0 {
                lemma_decimal_shape((-i) as nat);
            } else {
                lemma_decimal_shape(i as nat);
            }
        },
        Value::List(l) => {},
        Value::Dict(es) => {},
    }
}

/// A written byte string is read back.
pub proof fn lemma_read_back_bytes(s: Seq<u8>, pos: int, b: Seq<u8>)
    requires
        holds_at(s, pos, encode_bytes(b)),
    ensures
        parse_bytes_at(s, pos) == Ok::<(Seq<u8>, int), DecodeError>(
            (b, pos + encode_bytes(b).len()),
        ),
{
    let d = decimal(b.len());
    lemma_decimal_shape(b.len());
    assert(encode_bytes(b) =~= d + (seq![BYTE_COLON] + b));
    lemma_holds_at_split(s, pos, d, seq![BYTE_COLON] + b);
    lemma_holds_at_split(s, pos + d.len(), seq![BYTE_COLON], b);
    lemma_holds_at_subrange(s, pos, d);
    assert(s[pos + d.len()] == seq![BYTE_COLON][0]);
    lemma_decimal_read_back(s, pos, b.len());
    lemma_holds_at_subrange(s, pos + d.len() + 1, b);
}

/// A written integer is read back.
pub proof fn lemma_read_back_integer(s: Seq<u8>, pos: int, i: int)
    requires
        holds_at(s, pos, encode_integer(i)),
        -(i128::MAX as int) <= i <= i128::MAX as int,
    ensures
        parse_integer_at(s, pos) == Ok::<(int, int), DecodeError>(
            (i, pos + encode_integer(i).len()),
        ),
{
    if i < 0 {
        let m = (-i) as nat;
        let d = decimal(m);
        lemma_decimal_shape(m);
        assert(encode_integer(i) =~= seq![BYTE_I, BYTE_MINUS] + (d + seq![BYTE_E]));
        lemma_holds_at_split(s, pos, seq![BYTE_I, BYTE_MINUS], d + seq![BYTE_E]);
        lemma_holds_at_split(s, pos + 2, d, seq![BYTE_E]);
        assert(s[pos + 1] == seq![BYTE_I, BYTE_MINUS][1]);
        lemma_holds_at_subrange(s, pos + 2, d);
        assert(s[pos + 2 + d.len()] == seq![BYTE_E][0]);
        lemma_decimal_read_back(s, pos + 2, m);
    } else {
        let m = i as nat;
        let d = decimal(m);
        lemma_decimal_shape(m);
        assert(encode_integer(i) =~= seq![BYTE_I] + (d + seq![BYTE_E]));
        lemma_holds_at_split(s, pos, seq![BYTE_I], d + seq![BYTE_E]);
        lemma_holds_at_split(s, pos + 1, d, seq![BYTE_E]);
        lemma_holds_at_subrange(s, pos + 1, d);
        assert(s[pos + 1 + d.len()] == seq![BYTE_E][0]);
        lemma_decimal_read_back(s, pos + 1, m);
    }
}

/// A written value is read back, whatever follows it.
pub proof fn lemma_read_back_value(s: Seq<u8>, pos: int, v: Value)
    requires
        canonical(v),
        representable(v),
        holds_at(s, pos, encode_value(v)),
    ensures
        parse_value_at(s, pos) == Ok::<(Value, int), DecodeError>(
            (v, pos + encode_value(v).len()),
        ),
    decreases v,
{
    lemma_first_byte(v);
    let e = encode_value(v);
    assert(s[pos] == e[0]);
    match v {
        Value::Bytes(b) => {
            lemma_read_back_bytes(s, pos, b);
        },
        Value::Integer(i) => {
            lemma_read_back_integer(s, pos, i);
        },
        Value::List(l) => {
            let body = encode_items(l) + seq![BYTE_E];
            assert(e =~= seq![BYTE_L] + body);
            lemma_holds_at_split(s, pos, seq![BYTE_L], body);
            lemma_read_back_items(s, pos + 1, Seq::empty(), l);
            assert(Seq::<Value>::empty() + l =~= l);
        },
        Value::Dict(es) => {
            let body = encode_entries(es) + seq![BYTE_E];
            assert(e =~= seq![BYTE_D] + body);
            lemma_holds_at_split(s, pos, seq![BYTE_D], body);
            assert(Seq::<(Seq<u8>, Value)>::empty() + es =~= es);
            lemma_read_back_entries(s, pos + 1, Seq::empty(), es);
        },
    }
}

/// Written items, closed by `e`, are read back after the items read so far.
pub proof fn lemma_read_back_items(s: Seq<u8>, pos: int, acc: Seq<Value>, l: Seq<Value>)
    requires
        forall|i: int| 0 <= i < l.len() ==> canonical(#[trigger] l[i]),
        forall|i: int| 0 <= i < l.len() ==> representable(#[trigger] l[i]),
        holds_at(s, pos, encode_items(l) + seq![BYTE_E]),
    ensures
        parse_items_at(s, pos, acc) == Ok::<(Seq<Value>, int), DecodeError>(
            (acc + l, pos + encode_items(l).len() + 1),
        ),
    decreases l,
{
    let e = encode_items(l) + seq![BYTE_E];
    if l.len() == 0 {
        assert(s[pos] == e[0]);
        assert(acc + l =~= acc);
    } else {
        let first = encode_value(l[0]);
        let rest = l.drop_first();
        let tail = encode_items(rest) + seq![BYTE_E];
        lemma_first_byte(l[0]);
        assert(e =~= first + tail);
        lemma_holds_at_split(s, pos, first, tail);
        assert(s[pos] == first[0]);
        lemma_read_back_value(s, pos, l[0]);
        assert forall|i: int| 0 <= i < rest.len() implies canonical(#[trigger] rest[i]) by {
            assert(rest[i] == l[i + 1]);
        }
        assert forall|i: int| 0 <= i < rest.len() implies representable(#[trigger] rest[i]) by {
            assert(rest[i] == l[i + 1]);
        }
        lemma_read_back_items(s, pos + first.len(), acc.push(l[0]), rest);
        assert(acc.push(l[0]) + rest =~= acc + l);
    }
}

/// Written entries in key order, closed by `e`, are read back after the
/// entries read so far, where those come before them in key order.
pub proof fn lemma_read_back_entries(
    s: Seq<u8>,
    pos: int,
    acc: Seq<(Seq<u8>, Value)>,
    es: Seq<(Seq<u8>, Value)>,
)
    requires
        keys_increasing(acc + es),
        forall|i: int| 0 <= i < es.len() ==> canonical((#[trigger] es[i]).1),
        forall|i: int| 0 <= i < es.len() ==> representable((#[trigger] es[i]).1),
        holds_at(s, pos, encode_entries(es) + seq![BYTE_E]),
    ensures
        parse_entries_at(s, pos, acc) == Ok::<(Seq<(Seq<u8>, Value)>, int), DecodeError>(
            (acc + es, pos + encode_entries(es).len() + 1),
        ),
    decreases es,
{
    let e = encode_entries(es) + seq![BYTE_E];
    if es.len() == 0 {
        assert(s[pos] == e[0]);
        assert(acc + es =~= acc);
    } else {
        let key = encode_bytes(es[0].0);
        let value = encode_value(es[0].1);
        let rest = es.drop_first();
        let tail = encode_entries(rest) + seq![BYTE_E];
        lemma_decimal_shape(es[0].0.len());
        lemma_first_byte(es[0].1);
        assert(e =~= key + (value + tail));
        lemma_holds_at_split(s, pos, key, value + tail);
        lemma_holds_at_split(s, pos + key.len(), value, tail);
        assert(s[pos] == key[0]);
        assert(key[0] == decimal(es[0].0.len())[0]);
        lemma_read_back_bytes(s, pos, es[0].0);
        lemma_read_back_value(s, pos + key.len(), es[0].1);
        let all = acc + es;
        assert forall|i: int| 0 <= i < acc.len() implies bytes_lt(
            (#[trigger] acc[i]).0,
            es[0].0,
        ) by {
            assert(all[i] == acc[i]);
            assert(all[acc.len() as int] == es[0]);
        }
        lemma_dict_insert_at(acc, es[0].0, es[0].1, acc.len() as int);
        let next = dict_insert(acc, es[0].0, es[0].1);
        assert(next =~= acc.push(es[0]));
        assert(next + rest =~= acc + es);
        assert forall|i: int| 0 <= i < rest.len() implies canonical((#[trigger] rest[i]).1) by {
            assert(rest[i] == es[i + 1]);
        }
        assert forall|i: int| 0 <= i < rest.len() implies representable(
            (#[trigger] rest[i]).1,
        ) by {
            assert(rest[i] == es[i + 1]);
        }
        lemma_read_back_entries(s, pos + key.len() + value.len(), next, rest);
    }
}

/// Whatever is read is canonical and representable.
pub proof fn lemma_parsed_value_well_formed(s: Seq<u8>, pos: int)
    ensures
        parse_value_at(s, pos) matches Ok((v, _)) ==> canonical(v) && representable(v),
    decreases s.len() - pos, 0nat,
{
    if 0 <= pos < s.len() {
        lemma_parsed_items_well_formed(s, pos + 1, Seq::empty());
        lemma_parsed_entries_well_formed(s, pos + 1, Seq::empty());
    }
}

/// Items that are read after canonical, representable items are canonical
/// and representable.
pub proof fn lemma_parsed_items_well_formed(s: Seq<u8>, pos: int, acc: Seq<Value>)
    requires
        forall|i: int| 0 <= i < acc.len() ==> canonical(#[trigger] acc[i]),
        forall|i: int| 0 <= i < acc.len() ==> representable(#[trigger] acc[i]),
    ensures
        parse_items_at(s, pos, acc) matches Ok((l, _)) ==> {
            &&& forall|i: int| 0 <= i < l.len() ==> canonical(#[trigger] l[i])
            &&& forall|i: int| 0 <= i < l.len() ==> representable(#[trigger] l[i])
        },
    decreases s.len() - pos, 1nat,
{
    if 0 <= pos < s.len() && s[pos] != BYTE_E {
        lemma_parsed_value_well_formed(s, pos);
        match parse_value_at(s, pos) {
            Ok((v, end)) => {
                if pos < end <= s.len() {
                    lemma_parsed_items_well_formed(s, end, acc.push(v));
                }
            },
            Err(_) => {},
        }
    }
}

/// Whether entries are in key order and hold canonical, representable
/// values: whether they are the entries of such a dictionary.
pub open spec fn well_formed(entries: Seq<(Seq<u8>, Value)>) -> bool {
    &&& keys_increasing(entries)
    &&& forall|i: int| 0 <= i < entries.len() ==> canonical((#[trigger] entries[i]).1)
    &&& forall|i: int| 0 <= i < entries.len() ==> representable((#[trigger] entries[i]).1)
}

/// Storing a canonical, representable value in well-formed entries leaves
/// them well formed.
pub proof fn lemma_insert_well_formed(entries: Seq<(Seq<u8>, Value)>, key: Seq<u8>, value: Value)
    requires
        well_formed(entries),
        canonical(value),
        representable(value),
    ensures
        well_formed(dict_insert(entries, key, value)),
{
    let next = dict_insert(entries, key, value);
    lemma_dict_insert_keeps_order(entries, key, value);
    lemma_dict_insert_entries(entries, key, value);
    assert forall|i: int| 0 <= i < next.len() implies canonical((#[trigger] next[i]).1)
        && representable(next[i].1) by {
        if next[i] != (key, value) {
            let k = choose|k: int| 0 <= k < entries.len() && entries[k] == next[i];
            assert(canonical(entries[k].1));
            assert(representable(entries[k].1));
        }
    }
}

/// Entries that are read after entries in key order with canonical,
/// representable values are in key order, with such values.
pub proof fn lemma_parsed_entries_well_formed(s: Seq<u8>, pos: int, acc: Seq<(Seq<u8>, Value)>)
    requires
        keys_increasing(acc),
        forall|i: int| 0 <= i < acc.len() ==> canonical((#[trigger] acc[i]).1),
        forall|i: int| 0 <= i < acc.len() ==> representable((#[trigger] acc[i]).1),
    ensures
        parse_entries_at(s, pos, acc) matches Ok((es, _)) ==> {
            &&& keys_increasing(es)
            &&& forall|i: int| 0 <= i < es.len() ==> canonical((#[trigger] es[i]).1)
            &&& forall|i: int| 0 <= i < es.len() ==> representable((#[trigger] es[i]).1)
        },
    decreases s.len() - pos, 1nat,
{
    if 0 <= pos < s.len() && s[pos] != BYTE_E {
        match parse_bytes_at(s, pos) {
            Ok((key, key_end)) => {
                if pos < key_end {
                    lemma_parsed_value_well_formed(s, key_end);
                    match parse_value_at(s, key_end) {
                        Ok((v, end)) => {
                            if key_end < end <= s.len() {
                                let next = dict_insert(acc, key, v);
                                lemma_insert_well_formed(acc, key, v);
                                lemma_parsed_entries_well_formed(s, end, next);
                            }
                        },
                        Err(_) => {},
                    }
                }
            },
            Err(_) => {},
        }
    }
}

/// Reading back what was written gives the value that was written: for every
/// canonical, representable value `v`, `decode(encode(v)) == v`.
pub proof fn law_decode_encode(v: Value)
    requires
        canonical(v),
        representable(v),
    ensures
        decode_value(encode_value(v)) == Ok::<Value, DecodeError>(v),
{
    let e = encode_value(v);
    assert(holds_at(e, 0, e));
    lemma_read_back_value(e, 0, v);
}

/// Every value that the decoder produces is canonical and representable,
/// and so is read back from its own written form.
pub proof fn law_decoded_values_round_trip(b: Seq<u8>, v: Value)
    requires
        decode_value(b) == Ok::<Value, DecodeError>(v),
    ensures
        canonical(v),
        representable(v),
        decode_value(encode_value(v)) == Ok::<Value, DecodeError>(v),
{
    lemma_parsed_value_well_formed(b, 0);
    law_decode_encode(v);
}

/// Writing what was read from a canonical byte string, one that is the
/// written form of some value, gives that byte string again:
/// `encode(decode(b)) == b`.
pub proof fn law_encode_decode(b: Seq<u8>, v: Value)
    requires
        canonical(v),
        representable(v),
        b == encode_value(v),
    ensures
        decode_value(b) matches Ok(w) && encode_value(w) == b,
{
    law_decode_encode(v);
}

/// The written form determines the value: two canonical, representable
/// values that are written alike are equal.
pub proof fn law_encode_injective(v: Value, w: Value)
    requires
        canonical(v),
        representable(v),
        canonical(w),
        representable(w),
        encode_value(v) == encode_value(w),
    ensures
        v == w,
{
    law_decode_encode(v);
    law_decode_encode(w);
}

/// In the written form of a canonical dictionary the keys come in strictly
/// increasing byte order: entry `i` is written before entry `j` whenever
/// `i < j`, and its key is the smaller one.
pub proof fn law_dict_keys_written_in_order(es: Seq<(Seq<u8>, Value)>, i: int, j: int)
    requires
        canonical(Value::Dict(es)),
        0 <= i < j < es.len(),
    ensures
        bytes_lt(es[i].0, es[j].0),
        encode_value(Value::Dict(es)) == seq![BYTE_D] + encode_entries(es) + seq![BYTE_E],
        encode_entries(es) == encode_entries(es.take(j)) + encode_bytes(es[j].0) + encode_value(
            es[j].1,
        ) + encode_entries(es.skip(j + 1)),
{
    lemma_encode_entries_split(es, j);
}

/// The written entries are those before position `j`, then entry `j`, then
/// those after it.
pub proof fn lemma_encode_entries_split(es: Seq<(Seq<u8>, Value)>, j: int)
    requires
        0 <= j < es.len(),
    ensures
        encode_entries(es) == encode_entries(es.take(j)) + encode_bytes(es[j].0) + encode_value(
            es[j].1,
        ) + encode_entries(es.skip(j + 1)),
    decreases j,
{
    if j == 0 {
        assert(es.take(0) =~= Seq::<(Seq<u8>, Value)>::empty());
        assert(es.skip(1) =~= es.drop_first());
        assert(encode_entries(es) =~= encode_entries(es.take(j)) + encode_bytes(es[j].0)
            + encode_value(es[j].1) + encode_entries(es.skip(j + 1)));
    } else {
        let rest = es.drop_first();
        lemma_encode_entries_split(rest, j - 1);
        assert(rest.take(j - 1) =~= es.take(j).drop_first());
        assert(rest.skip(j) =~= es.skip(j + 1));
        assert(rest[j - 1] == es[j]);
        assert(es.take(j)[0] == es[0]);
        assert(encode_entries(es) =~= encode_entries(es.take(j)) + encode_bytes(es[j].0)
            + encode_value(es[j].1) + encode_entries(es.skip(j + 1)));
    }
}

} // verus!
