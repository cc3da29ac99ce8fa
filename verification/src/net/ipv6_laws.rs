//! What is written of a version 6 address is read back.

use vstd::prelude::*;
use crate::bencode::decimal::{digits_end, is_digit, lemma_digits_end_bounds};
use crate::net::ipv4::{dot_at, ipv4_text, lemma_ipv4_read_back, parse_ipv4_at, parse_octet};
use crate::net::ipv6::{
    groups_of, groups_value, hex_numeral, hex_run_end, hex_run_value, ipv6_text, is_mapped, joined, longest_run, longest_run_start, mapped_prefix, parse_group, parse_groups, parse_ipv6, zero_groups, zero_run, GroupsRead, BYTE_COLON,
};
use crate::query::{hex_digit, hex_value};

verus! {

/// The numeral of a group has one to four hexadecimal digits, none of them
/// a dot or a colon, and stands for the group.
proof fn lemma_hex_numeral_of_group(g: u16)
    ensures
        1 <= hex_numeral(g as nat).len() <= 4,
        forall|i: int|
            0 <= i < hex_numeral(g as nat).len() ==> hex_value(
                #[trigger] hex_numeral(g as nat)[i],
            ) is Some,
        hex_run_value(hex_numeral(g as nat), 0, hex_numeral(g as nat).len() as int) == g,
{
    lemma_hex_numeral(g as nat);
    reveal_with_fuel(hex_numeral, 5);
}

/// A numeral holds hexadecimal digits only and stands for its number.
proof fn lemma_hex_numeral(n: nat)
    ensures
        hex_numeral(n).len() >= 1,
        forall|i: int| 0 <= i < hex_numeral(n).len() ==> hex_value(#[trigger] hex_numeral(n)[i]) is Some,
        hex_run_value(hex_numeral(n), 0, hex_numeral(n).len() as int) == n,
    decreases n,
{
    let d = hex_numeral(n);
    if n < 16 {
        assert(hex_value(hex_digit(n as u8)) == Some(n as u8));
        assert(hex_run_value(d, 0, 0) == 0);
    } else {
        let p = hex_numeral(n / 16);
        lemma_hex_numeral(n / 16);
        let last: u8 = (n % 16) as u8;
        assert(hex_value(hex_digit(last)) == Some(last));
        assert forall|i: int| 0 <= i < d.len() implies hex_value(#[trigger] d[i]) is Some by {
            if i < p.len() {
                assert(d[i] == p[i]);
            }
        }
        lemma_hex_run_value_depends_on_range(p, 0, p.len() as int, d, 0);
        assert(d[d.len() - 1] == hex_digit(last));
    }
}

/// The value of a run of hexadecimal digits depends only on the digits.
proof fn lemma_hex_run_value_depends_on_range(
    s: Seq<u8>,
    start: int,
    end: int,
    t: Seq<u8>,
    offset: int,
)
    requires
        0 <= start <= end <= s.len(),
        0 <= start + offset,
        end + offset <= t.len(),
        forall|i: int| start <= i < end ==> s[i] == t[i + offset],
    ensures
        hex_run_value(s, start, end) == hex_run_value(t, start + offset, end + offset),
    decreases end - start,
{
    if start < end {
        lemma_hex_run_value_depends_on_range(s, start, end - 1, t, offset);
    }
}

proof fn lemma_hex_run_end_unique(s: Seq<u8>, pos: int, end: int)
    requires
        0 <= pos <= end <= s.len(),
        forall|i: int| pos <= i < end ==> hex_value(#[trigger] s[i]) is Some,
        end < s.len() ==> hex_value(s[end]) is None,
    ensures
        hex_run_end(s, pos) == end,
    decreases end - pos,
{
    if pos < end {
        assert(hex_value(s[pos]) is Some);
        lemma_hex_run_end_unique(s, pos + 1, end);
    }
}

/// The bytes `t` stand in `s` from position `pos` on.
pub open spec fn stands_at(s: Seq<u8>, pos: int, t: Seq<u8>) -> bool {
    &&& 0 <= pos
    &&& pos + t.len() <= s.len()
    &&& forall|i: int| 0 <= i < t.len() ==> s[pos + i] == #[trigger] t[i]
}

proof fn lemma_stands_at_split(s: Seq<u8>, pos: int, x: Seq<u8>, y: Seq<u8>)
    requires
        stands_at(s, pos, x + y),
    ensures
        stands_at(s, pos, x),
        stands_at(s, pos + x.len(), y),
{
    let e = x + y;
    assert forall|i: int| 0 <= i < x.len() implies s[pos + i] == #[trigger] x[i] by {
        assert(e[i] == x[i]);
    }
    assert forall|i: int| 0 <= i < y.len() implies s[pos + x.len() + i] == #[trigger] y[i] by {
        assert(e[x.len() + i] == y[i]);
    }
}

/// Whether no hexadecimal digit and no dot stands at `pos`: the end of the
/// text, or a byte that is neither.
pub open spec fn group_ends_at(s: Seq<u8>, pos: int) -> bool {
    pos >= s.len() || (hex_value(s[pos]) is None && s[pos] != 46)
}

/// Where the numeral of a group stands at `pos` and neither a hexadecimal
/// digit nor a dot follows it, the group is read there, and no version 4
/// address.
proof fn lemma_group_read_back(s: Seq<u8>, pos: int, g: u16)
    requires
        stands_at(s, pos, hex_numeral(g as nat)),
        group_ends_at(s, pos + hex_numeral(g as nat).len()),
    ensures
        parse_group(s, pos) == Some((g, pos + hex_numeral(g as nat).len())),
        parse_ipv4_at(s, pos) is None,
{
    let d = hex_numeral(g as nat);
    let end = pos + d.len();
    lemma_hex_numeral_of_group(g);
    assert forall|i: int| pos <= i < end implies hex_value(#[trigger] s[i]) is Some by {
        assert(s[pos + (i - pos)] == d[i - pos]);
    }
    lemma_hex_run_end_unique(s, pos, end);
    assert forall|i: int| 0 <= i < d.len() implies d[i] == s[i + pos] by {
        assert(s[pos + i] == d[i]);
    }
    lemma_hex_run_value_depends_on_range(d, 0, d.len() as int, s, pos);
    // The first run of decimal digits ends within the numeral or right
    // after it, where no dot stands.
    lemma_digits_end_bounds(s, pos);
    let e1 = digits_end(s, pos);
    if e1 > end {
        assert(is_digit(s[end]));
        assert(hex_value(s[end]) is Some);
    }
    if e1 < s.len() {
        if e1 < end {
            assert(hex_value(s[e1]) is Some);
        }
        assert(s[e1] != 46);
    }
    assert(!dot_at(s, e1));
}

/// Groups as text, each after a colon.
pub open spec fn colon_joined(groups: Seq<u16>) -> Seq<u8>
    decreases groups.len(),
{
    if groups.len() == 0 {
        Seq::empty()
    } else {
        seq![BYTE_COLON] + hex_numeral(groups[0] as nat) + colon_joined(groups.drop_first())
    }
}

proof fn lemma_colon_joined_push(groups: Seq<u16>, g: u16)
    ensures
        colon_joined(groups.push(g)) == colon_joined(groups) + seq![BYTE_COLON] + hex_numeral(
            g as nat,
        ),
    decreases groups.len(),
{
    if groups.len() == 0 {
        let one = groups.push(g);
        assert(one.drop_first() =~= Seq::<u16>::empty());
        assert(one[0] == g);
        assert(colon_joined(one.drop_first()) =~= Seq::<u8>::empty());
        assert(colon_joined(groups) =~= Seq::<u8>::empty());
        assert(colon_joined(one) == seq![BYTE_COLON] + hex_numeral(g as nat) + colon_joined(
            one.drop_first(),
        ));
        assert(colon_joined(one) =~= colon_joined(groups) + seq![BYTE_COLON] + hex_numeral(
            g as nat,
        ));
    } else {
        assert(groups.push(g).drop_first() =~= groups.drop_first().push(g));
        lemma_colon_joined_push(groups.drop_first(), g);
        assert(colon_joined(groups.push(g)) =~= colon_joined(groups) + seq![BYTE_COLON]
            + hex_numeral(g as nat));
    }
}

/// Groups with colons between them are the first group and then each
/// further group after a colon.
proof fn lemma_joined_front(groups: Seq<u16>)
    requires
        groups.len() >= 1,
    ensures
        joined(groups) == hex_numeral(groups[0] as nat) + colon_joined(groups.drop_first()),
    decreases groups.len(),
{
    if groups.len() == 1 {
        assert(groups.drop_first() =~= Seq::<u16>::empty());
        assert(joined(groups) =~= hex_numeral(groups[0] as nat) + colon_joined(
            groups.drop_first(),
        ));
    } else {
        let front = groups.drop_last();
        lemma_joined_front(front);
        lemma_colon_joined_push(front.drop_first(), groups.last());
        assert(front.drop_first().push(groups.last()) =~= groups.drop_first());
        assert(front[0] == groups[0]);
        assert(joined(groups) =~= hex_numeral(groups[0] as nat) + colon_joined(
            groups.drop_first(),
        ));
    }
}

/// Whether reading groups stops at `q` before group `j`: no more groups
/// may come, or no colon stands there, or what follows is no group.
pub open spec fn stops(s: Seq<u8>, q: int, j: int, limit: int) -> bool {
    ||| j >= limit
    ||| (j > 0 && !(0 <= q < s.len() && s[q] == BYTE_COLON))
    ||| ({
        let start = if j > 0 {
            q + 1
        } else {
            q
        };
        (j >= limit - 1 || parse_ipv4_at(s, start) is None) && parse_group(s, start) is None
    })
}

proof fn lemma_stops(s: Seq<u8>, q: int, j: int, limit: int, acc: Seq<u16>)
    requires
        stops(s, q, j, limit),
    ensures
        parse_groups(s, q, j, limit, acc) == (GroupsRead { groups: acc, ipv4: false, end: q }),
{
}

/// Groups that stand in the text, each after a colon, are read, up to
/// where reading stops.
proof fn lemma_colon_joined_read_back(
    s: Seq<u8>,
    pos: int,
    i: int,
    limit: int,
    acc: Seq<u16>,
    groups: Seq<u16>,
)
    requires
        i >= 1,
        i + groups.len() <= limit,
        stands_at(s, pos, colon_joined(groups)),
        group_ends_at(s, pos + colon_joined(groups).len()),
        stops(s, pos + colon_joined(groups).len(), i + groups.len(), limit),
    ensures
        parse_groups(s, pos, i, limit, acc) == (GroupsRead {
            groups: acc + groups,
            ipv4: false,
            end: pos + colon_joined(groups).len(),
        }),
    decreases groups.len(),
{
    if groups.len() == 0 {
        lemma_stops(s, pos, i, limit, acc);
        assert(acc + groups =~= acc);
    } else {
        let first = hex_numeral(groups[0] as nat);
        let rest = groups.drop_first();
        let tail = colon_joined(rest);
        assert(colon_joined(groups) =~= seq![BYTE_COLON] + (first + tail));
        lemma_stands_at_split(s, pos, seq![BYTE_COLON], first + tail);
        lemma_stands_at_split(s, pos + 1, first, tail);
        assert(s[pos + 0] == seq![BYTE_COLON][0]);
        let end = pos + 1 + first.len();
        if rest.len() > 0 {
            assert(tail[0] == BYTE_COLON);
            assert(s[end + 0] == tail[0]);
        }
        lemma_group_read_back(s, pos + 1, groups[0]);
        lemma_colon_joined_read_back(s, end, i + 1, limit, acc.push(groups[0]), rest);
        assert(acc.push(groups[0]) + rest =~= acc + groups);
    }
}

/// Groups that stand in the text with colons between them are read from
/// the first group on, up to where reading stops.
proof fn lemma_joined_read_back(s: Seq<u8>, pos: int, limit: int, groups: Seq<u16>)
    requires
        groups.len() >= 1,
        groups.len() <= limit,
        stands_at(s, pos, joined(groups)),
        group_ends_at(s, pos + joined(groups).len()),
        stops(s, pos + joined(groups).len(), groups.len() as int, limit),
    ensures
        parse_groups(s, pos, 0, limit, Seq::empty()) == (GroupsRead {
            groups,
            ipv4: false,
            end: pos + joined(groups).len(),
        }),
{
    lemma_joined_front(groups);
    let first = hex_numeral(groups[0] as nat);
    let rest = groups.drop_first();
    let tail = colon_joined(rest);
    lemma_stands_at_split(s, pos, first, tail);
    let end = pos + first.len();
    if rest.len() > 0 {
        assert(tail[0] == BYTE_COLON);
        assert(s[end + 0] == tail[0]);
    }
    lemma_group_read_back(s, pos, groups[0]);
    lemma_colon_joined_read_back(s, end, 1, limit, seq![groups[0]], rest);
    assert(Seq::<u16>::empty().push(groups[0]) =~= seq![groups[0]]);
    assert(seq![groups[0]] + rest =~= groups);
}

/// The eight groups of an address stand for the address.
proof fn lemma_groups_value(a: u128)
    ensures
        groups_value(groups_of(a)) == a,
{
    let g = groups_of(a);
    let v: int = a as int;
    let x6: int = v / 0x1_0000;
    let x5: int = v / 0x1_0000_0000;
    let x4: int = v / 0x1_0000_0000_0000;
    let x3: int = v / 0x1_0000_0000_0000_0000;
    let x2: int = v / 0x1_0000_0000_0000_0000_0000;
    let x1: int = v / 0x1_0000_0000_0000_0000_0000_0000;
    let x0: int = v / 0x1_0000_0000_0000_0000_0000_0000_0000;
    assert(x6 / 65536 == x5 && x5 / 65536 == x4 && x4 / 65536 == x3 && x3 / 65536 == x2 && x2
        / 65536 == x1 && x1 / 65536 == x0);
    assert(x0 < 65536);
    assert(g.take(0) =~= Seq::<u16>::empty());
    assert(groups_value(g.take(0)) == 0);
    assert(g.take(1).drop_last() =~= g.take(0));
    assert(groups_value(g.take(1)) == x0);
    assert(g.take(2).drop_last() =~= g.take(1));
    assert(groups_value(g.take(2)) == x1);
    assert(g.take(3).drop_last() =~= g.take(2));
    assert(groups_value(g.take(3)) == x2);
    assert(g.take(4).drop_last() =~= g.take(3));
    assert(groups_value(g.take(4)) == x3);
    assert(g.take(5).drop_last() =~= g.take(4));
    assert(groups_value(g.take(5)) == x4);
    assert(g.take(6).drop_last() =~= g.take(5));
    assert(groups_value(g.take(6)) == x5);
    assert(g.take(7).drop_last() =~= g.take(6));
    assert(groups_value(g.take(7)) == x6);
    assert(g.take(8).drop_last() =~= g.take(7));
    assert(groups_value(g.take(8)) == v);
    assert(g.take(8) =~= g);
}

/// A run of zero groups stays within the groups, and holds zero groups
/// only.
proof fn lemma_zero_run(groups: Seq<u16>, i: int)
    requires
        0 <= i <= groups.len(),
    ensures
        i + zero_run(groups, i) <= groups.len(),
        forall|j: int| i <= j < i + zero_run(groups, i) ==> #[trigger] groups[j] == 0,
    decreases groups.len() - i,
{
    if i < groups.len() && groups[i] == 0 {
        lemma_zero_run(groups, i + 1);
    }
}

/// The first of the longest runs starts within the groups and is as long
/// as the longest run.
proof fn lemma_longest_run(groups: Seq<u16>, i: int)
    requires
        0 <= i <= groups.len(),
    ensures
        i <= longest_run_start(groups, i) <= groups.len(),
        longest_run(groups, i) > 0 ==> zero_run(groups, longest_run_start(groups, i))
            == longest_run(groups, i),
    decreases groups.len() - i,
{
    if i < groups.len() {
        lemma_longest_run(groups, i + 1);
    }
}

/// At a colon neither a group nor a version 4 address is read.
proof fn lemma_nothing_at_colon(s: Seq<u8>, pos: int)
    requires
        pos >= s.len() || s[pos] == BYTE_COLON,
    ensures
        parse_group(s, pos) is None,
        parse_ipv4_at(s, pos) is None,
{
}

/// Groups that stand at the start of a text, before a `::`, are read up
/// to the `::`.
proof fn lemma_head_read_back(s: Seq<u8>, before: Seq<u16>)
    requires
        before.len() <= 6,
        stands_at(s, 0, joined(before)),
        joined(before).len() + 1 < s.len(),
        s[joined(before).len() as int] == BYTE_COLON,
        s[joined(before).len() as int + 1] == BYTE_COLON,
    ensures
        parse_groups(s, 0, 0, 8, Seq::empty()) == (GroupsRead {
            groups: before,
            ipv4: false,
            end: joined(before).len() as int,
        }),
{
    let q = joined(before).len() as int;
    lemma_nothing_at_colon(s, q + 1);
    lemma_nothing_at_colon(s, q);
    if before.len() == 0 {
        assert(q == 0);
        lemma_stops(s, 0, 0, 8, Seq::empty());
        assert(before =~= Seq::<u16>::empty());
    } else {
        lemma_joined_read_back(s, 0, 8, before);
    }
}

/// Groups that stand at the end of a text are read up to the end.
proof fn lemma_tail_read_back(s: Seq<u8>, pos: int, limit: int, after: Seq<u16>)
    requires
        after.len() < limit,
        stands_at(s, pos, joined(after)),
        pos + joined(after).len() == s.len(),
    ensures
        parse_groups(s, pos, 0, limit, Seq::empty()) == (GroupsRead {
            groups: after,
            ipv4: false,
            end: s.len() as int,
        }),
{
    lemma_nothing_at_colon(s, s.len() as int);
    if after.len() == 0 {
        lemma_stops(s, pos, 0, limit, Seq::empty());
        assert(after =~= Seq::<u16>::empty());
    } else {
        lemma_joined_read_back(s, pos, limit, after);
    }
}

/// A text that gives the groups before and after a `::` stands for those
/// groups with zero groups between them.
proof fn lemma_abbreviated_read_back(s: Seq<u8>, before: Seq<u16>, after: Seq<u16>)
    requires
        before.len() + after.len() <= 6,
        s == joined(before) + seq![BYTE_COLON, BYTE_COLON] + joined(after),
    ensures
        parse_ipv6(s) == Some(
            groups_value(before + zero_groups(8 - before.len() - after.len()) + after) as u128,
        ),
        groups_value(before + zero_groups(8 - before.len() - after.len()) + after) <= u128::MAX,
{
    let jb = joined(before);
    let ja = joined(after);
    let q = jb.len() as int;
    assert(s[q] == BYTE_COLON);
    assert(s[q + 1] == BYTE_COLON);
    assert(s.len() == q + 2 + ja.len());
    assert(stands_at(s, 0, jb));
    assert(stands_at(s, q + 2, ja));
    lemma_head_read_back(s, before);
    lemma_tail_read_back(s, q + 2, 7 - before.len(), after);
    let all = before + zero_groups(8 - before.len() - after.len()) + after;
    lemma_groups_value_bound(all);
}

/// Eight groups stand for a number of 128 bits.
proof fn lemma_groups_value_bound(groups: Seq<u16>)
    requires
        groups.len() <= 8,
    ensures
        groups_value(groups) < crate::net::ipv6::pow65536(groups.len() as int),
        groups.len() == 8 ==> groups_value(groups) <= u128::MAX,
    decreases groups.len(),
{
    reveal_with_fuel(crate::net::ipv6::pow65536, 10);
    if groups.len() > 0 {
        lemma_groups_value_bound(groups.drop_last());
        let v = groups_value(groups.drop_last());
        let p = crate::net::ipv6::pow65536(groups.len() - 1);
        assert(v * 65536 + groups.last() < 65536 * p) by (nonlinear_arith)
            requires
                v < p,
                groups.last() < 65536,
        ;
    }
}

/// A text that gives all eight groups stands for those groups.
proof fn lemma_full_read_back(groups: Seq<u16>)
    requires
        groups.len() == 8,
    ensures
        parse_ipv6(joined(groups)) == Some(groups_value(groups) as u128),
{
    let s = joined(groups);
    assert(stands_at(s, 0, s));
    lemma_joined_read_back(s, 0, 8, groups);
}

/// A text that gives a version 4 address after `::ffff:` stands for five
/// zero groups, a group of ones, and the address.
proof fn lemma_mapped_read_back(low: u32)
    ensures
        parse_ipv6(mapped_prefix() + ipv4_text(low)) == Some(
            groups_value(
                seq![
                    0u16,
                    0u16,
                    0u16,
                    0u16,
                    0u16,
                    0xffffu16,
                    (low / 65536) as u16,
                    (low % 65536) as u16,
                ],
            ) as u128,
        ),
{
    let t = ipv4_text(low);
    let s = mapped_prefix() + t;
    assert(s[0] == 58 && s[1] == 58 && s[2] == 102 && s[3] == 102 && s[4] == 102 && s[5] == 102
        && s[6] == 58);
    crate::bencode::decimal::lemma_decimal_shape((low / 16777216) as nat);
    assert(s.len() == 7 + t.len());
    assert(joined(Seq::<u16>::empty()) =~= Seq::<u8>::empty());
    assert(stands_at(s, 0, joined(Seq::<u16>::empty())));
    lemma_head_read_back(s, Seq::empty());
    lemma_mapped_tail(s, low);
    let tail = seq![0xffffu16, (low / 65536) as u16, (low % 65536) as u16];
    let all = Seq::<u16>::empty() + zero_groups(5) + tail;
    assert(all =~= seq![
        0u16,
        0u16,
        0u16,
        0u16,
        0u16,
        0xffffu16,
        (low / 65536) as u16,
        (low % 65536) as u16,
    ]);
}

/// After `::`, a group of ones and a version 4 address are read as three
/// groups.
proof fn lemma_mapped_tail(s: Seq<u8>, low: u32)
    requires
        s == mapped_prefix() + ipv4_text(low),
    ensures
        parse_groups(s, 2, 0, 7, Seq::empty()) == (GroupsRead {
            groups: seq![0xffffu16, (low / 65536) as u16, (low % 65536) as u16],
            ipv4: true,
            end: s.len() as int,
        }),
{
    let t = ipv4_text(low);
    assert(s[2] == 102 && s[3] == 102 && s[4] == 102 && s[5] == 102 && s[6] == 58);
    assert(s.len() == 7 + t.len());
    let ones = hex_numeral(0xffff);
    assert(ones =~= seq![102u8, 102, 102, 102]) by {
        reveal_with_fuel(hex_numeral, 5);
    }
    assert(stands_at(s, 2, ones));
    lemma_group_read_back(s, 2, 0xffffu16);
    assert(s.subrange(7, 7 + t.len() as int) =~= t);
    lemma_ipv4_read_back(s, 7, low);
    let first = Seq::<u16>::empty().push(0xffffu16);
    assert(parse_groups(s, 6, 1, 7, first) == (GroupsRead {
        groups: first.push((low / 65536) as u16).push((low % 65536) as u16),
        ipv4: true,
        end: s.len() as int,
    }));
    assert(first.push((low / 65536) as u16).push((low % 65536) as u16) =~= seq![
        0xffffu16,
        (low / 65536) as u16,
        (low % 65536) as u16,
    ]);
}

/// A version 6 address that is written is read back.
pub proof fn law_ipv6_text_round_trip(a: u128)
    ensures
        parse_ipv6(ipv6_text(a)) == Some(a),
{
    let g = groups_of(a);
    lemma_groups_value(a);
    if is_mapped(g) {
        let low: u32 = (a % 0x1_0000_0000) as u32;
        lemma_mapped_read_back(low);
        let v: int = a as int;
        assert(g[6] == (low / 65536) as u16) by {
            assert((v % 0x1_0000_0000) / 65536 == (v / 65536) % 65536);
        }
        assert(g[7] == (low % 65536) as u16) by {
            assert((v % 0x1_0000_0000) % 65536 == v % 65536);
        }
        assert(g =~= seq![
            0u16,
            0u16,
            0u16,
            0u16,
            0u16,
            0xffffu16,
            (low / 65536) as u16,
            (low % 65536) as u16,
        ]);
    } else if longest_run(g, 0) > 1 {
        let st = longest_run_start(g, 0);
        let run = longest_run(g, 0) as int;
        lemma_longest_run(g, 0);
        lemma_zero_run(g, st);
        let before = g.take(st);
        let after = g.skip(st + run);
        lemma_abbreviated_read_back(ipv6_text(a), before, after);
        assert(before + zero_groups(8 - before.len() - after.len()) + after =~= g);
    } else {
        lemma_full_read_back(g);
    }
}

/// What is read as a version 4 address holds digits and dots only.
proof fn lemma_ipv4_bytes(s: Seq<u8>, pos: int)
    requires
        0 <= pos,
    ensures
        parse_ipv4_at(s, pos) matches Some((_, end)) ==> forall|i: int|
            pos <= i < end ==> is_digit(#[trigger] s[i]) || s[i] == 46,
{
    match parse_octet(s, pos) {
        Some((_, e1)) => {
            lemma_digits_end_bounds(s, pos);
            match parse_octet(s, e1 + 1) {
                Some((_, e2)) => {
                    lemma_digits_end_bounds(s, e1 + 1);
                    match parse_octet(s, e2 + 1) {
                        Some((_, e3)) => {
                            lemma_digits_end_bounds(s, e2 + 1);
                            match parse_octet(s, e3 + 1) {
                                Some((_, e4)) => {
                                    lemma_digits_end_bounds(s, e3 + 1);
                                },
                                None => {},
                            }
                        },
                        None => {},
                    }
                },
                None => {},
            }
        },
        None => {},
    }
}

/// The text of a version 6 address holds a colon.
proof fn lemma_ipv6_text_has_colon(a: u128)
    ensures
        exists|i: int| 0 <= i < ipv6_text(a).len() && ipv6_text(a)[i] == BYTE_COLON,
{
    let g = groups_of(a);
    let s = ipv6_text(a);
    if is_mapped(g) {
        assert(s[0] == BYTE_COLON);
    } else if longest_run(g, 0) > 1 {
        let q = joined(g.take(longest_run_start(g, 0))).len() as int;
        assert(s[q] == BYTE_COLON);
    } else {
        let q = joined(g.drop_last()).len() as int;
        assert(s[q] == BYTE_COLON);
    }
}

/// The text of a version 6 address is not read as a version 4 address.
pub proof fn lemma_ipv6_text_is_no_ipv4(a: u128)
    ensures
        crate::net::ipv4::parse_ipv4(ipv6_text(a)) is None,
{
    lemma_ipv6_text_has_colon(a);
    lemma_ipv4_bytes(ipv6_text(a), 0);
}

} // verus!
