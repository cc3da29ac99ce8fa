//! Version 6 addresses as text: eight groups of sixteen bits in
//! hexadecimal, where `::` may stand for a run of zero groups and the last
//! two groups may be written as a version 4 address.

use vstd::prelude::*;
use crate::net::ipv4::{ipv4_text, lemma_ipv4_text_ascii, parse_ipv4_at, push_ipv4, read_ipv4_at};
use crate::query::{hex_char, hex_digit, hex_digit_value, hex_value};
use crate::text::{all_ascii, lemma_all_ascii_concat};

verus! {

/// The byte `:`, which stands between the groups of an address.
pub const BYTE_COLON: u8 = 58;

/// The first position at or after `pos` that holds no hexadecimal digit.
pub open spec fn hex_run_end(s: Seq<u8>, pos: int) -> int
    decreases s.len() - pos,
{
    if 0 <= pos < s.len() && hex_value(s[pos]) is Some {
        hex_run_end(s, pos + 1)
    } else {
        pos
    }
}

/// The number written by the hexadecimal digits at positions `start..end`.
pub open spec fn hex_run_value(s: Seq<u8>, start: int, end: int) -> nat
    decreases end - start,
{
    if end <= start {
        0
    } else {
        match hex_value(s[end - 1]) {
            Some(d) => hex_run_value(s, start, end - 1) * 16 + d as nat,
            None => 0,
        }
    }
}

/// The minimal lower-case hexadecimal numeral of `n`.
pub open spec fn hex_numeral(n: nat) -> Seq<u8>
    decreases n,
{
    if n < 16 {
        seq![hex_digit(n as u8)]
    } else {
        hex_numeral(n / 16).push(hex_digit((n % 16) as u8))
    }
}

/// The `i`-th group of sixteen bits of a version 6 address, counted from
/// the most significant.
pub open spec fn ipv6_group(a: u128, i: int) -> u16 {
    if i == 0 {
        (a / 0x1_0000_0000_0000_0000_0000_0000_0000 % 65536) as u16
    } else if i == 1 {
        (a / 0x1_0000_0000_0000_0000_0000_0000 % 65536) as u16
    } else if i == 2 {
        (a / 0x1_0000_0000_0000_0000_0000 % 65536) as u16
    } else if i == 3 {
        (a / 0x1_0000_0000_0000_0000 % 65536) as u16
    } else if i == 4 {
        (a / 0x1_0000_0000_0000 % 65536) as u16
    } else if i == 5 {
        (a / 0x1_0000_0000 % 65536) as u16
    } else if i == 6 {
        (a / 0x1_0000 % 65536) as u16
    } else {
        (a % 65536) as u16
    }
}

/// The eight groups of a version 6 address.
pub open spec fn groups_of(a: u128) -> Seq<u16> {
    Seq::new(8, |i: int| ipv6_group(a, i))
}

/// The number that groups stand for, the first the most significant.
pub open spec fn groups_value(groups: Seq<u16>) -> nat
    decreases groups.len(),
{
    if groups.len() == 0 {
        0
    } else {
        groups_value(groups.drop_last()) * 65536 + groups.last() as nat
    }
}

/// The number of zero groups in a row from group `i` on.
pub open spec fn zero_run(groups: Seq<u16>, i: int) -> nat
    decreases groups.len() - i,
{
    if 0 <= i < groups.len() && groups[i] == 0 {
        1 + zero_run(groups, i + 1)
    } else {
        0
    }
}

/// The length of the longest run of zero groups that starts at group `i`
/// or later.
pub open spec fn longest_run(groups: Seq<u16>, i: int) -> nat
    decreases groups.len() - i,
{
    if i < 0 || i >= groups.len() {
        0
    } else if zero_run(groups, i) >= longest_run(groups, i + 1) {
        zero_run(groups, i)
    } else {
        longest_run(groups, i + 1)
    }
}

/// Where the first of the longest runs of zero groups starts, among those
/// that start at group `i` or later.
pub open spec fn longest_run_start(groups: Seq<u16>, i: int) -> int
    decreases groups.len() - i,
{
    if i < 0 || i >= groups.len() {
        i
    } else if zero_run(groups, i) >= longest_run(groups, i + 1) {
        i
    } else {
        longest_run_start(groups, i + 1)
    }
}

/// Groups as text: each as a hexadecimal numeral, with colons between
/// them.
pub open spec fn joined(groups: Seq<u16>) -> Seq<u8>
    decreases groups.len(),
{
    if groups.len() == 0 {
        Seq::empty()
    } else if groups.len() == 1 {
        hex_numeral(groups[0] as nat)
    } else {
        joined(groups.drop_last()) + seq![BYTE_COLON] + hex_numeral(groups.last() as nat)
    }
}

/// Whether the groups are those of a version 4 address mapped into
/// version 6: five zero groups and a group of ones before its thirty-two
/// bits.
pub open spec fn is_mapped(groups: Seq<u16>) -> bool {
    groups.len() == 8 && groups[0] == 0 && groups[1] == 0 && groups[2] == 0 && groups[3] == 0
        && groups[4] == 0 && groups[5] == 0xffff
}

/// The text `::ffff:` that stands before a mapped version 4 address.
pub open spec fn mapped_prefix() -> Seq<u8> {
    seq![58u8, 58, 102, 102, 102, 102, 58]
}

/// A version 6 address as text. A mapped version 4 address is written in
/// dotted decimal after `::ffff:`. Else the first of the longest runs of
/// two or more zero groups is written as `::`, and the groups before and
/// after it in hexadecimal with colons between them.
pub open spec fn ipv6_text(a: u128) -> Seq<u8> {
    let groups = groups_of(a);
    if is_mapped(groups) {
        mapped_prefix() + ipv4_text((a % 0x1_0000_0000) as u32)
    } else if longest_run(groups, 0) > 1 {
        joined(groups.take(longest_run_start(groups, 0))) + seq![BYTE_COLON, BYTE_COLON] + joined(
            groups.skip(longest_run_start(groups, 0) + longest_run(groups, 0)),
        )
    } else {
        joined(groups)
    }
}

/// The group that is written at `pos`, and the position after it: one to
/// four hexadecimal digits.
pub open spec fn parse_group(s: Seq<u8>, pos: int) -> Option<(u16, int)> {
    let end = hex_run_end(s, pos);
    if 0 <= pos && pos < end <= pos + 4 {
        Some((hex_run_value(s, pos, end) as u16, end))
    } else {
        None
    }
}

/// What a run of groups gave: the groups, whether the last two were
/// written as a version 4 address, and the position after them.
pub struct GroupsRead {
    pub groups: Seq<u16>,
    pub ipv4: bool,
    pub end: int,
}

/// Reads groups from `pos` on, up to `limit` in all, of which the `i`
/// groups `acc` are read. Before each group but the first a colon is read.
/// Where at least two groups are still to come, a version 4 address is
/// read as two groups, and ends the run. The run ends before whatever is
/// no group.
pub open spec fn parse_groups(s: Seq<u8>, pos: int, i: int, limit: int, acc: Seq<u16>) -> GroupsRead
    decreases limit - i,
{
    if i >= limit {
        GroupsRead { groups: acc, ipv4: false, end: pos }
    } else if i > 0 && !(0 <= pos < s.len() && s[pos] == BYTE_COLON) {
        GroupsRead { groups: acc, ipv4: false, end: pos }
    } else {
        let start = if i > 0 {
            pos + 1
        } else {
            pos
        };
        match (
            if i < limit - 1 {
                parse_ipv4_at(s, start)
            } else {
                None
            }
        ) {
            Some((a, end)) => GroupsRead {
                groups: acc.push((a / 65536) as u16).push((a % 65536) as u16),
                ipv4: true,
                end,
            },
            None => match parse_group(s, start) {
                Some((group, end)) => parse_groups(s, end, i + 1, limit, acc.push(group)),
                None => GroupsRead { groups: acc, ipv4: false, end: pos },
            },
        }
    }
}

/// `n` zero groups.
pub open spec fn zero_groups(n: int) -> Seq<u16> {
    Seq::new(
        if n > 0 {
            n as nat
        } else {
            0
        },
        |i: int| 0u16,
    )
}

/// The version 6 address that a text stands for. Either the text gives
/// all eight groups, or it gives the groups before and after a `::`, which
/// stands for the zero groups, at least one, that fill them up to eight.
/// A version 4 address may stand for the last two groups, but not before
/// the `::`. Nothing may follow.
pub open spec fn parse_ipv6(s: Seq<u8>) -> Option<u128> {
    let head = parse_groups(s, 0, 0, 8, Seq::empty());
    if head.groups.len() == 8 {
        if head.end == s.len() {
            Some(groups_value(head.groups) as u128)
        } else {
            None
        }
    } else if head.ipv4 || head.groups.len() > 8 {
        None
    } else if !(0 <= head.end && head.end + 1 < s.len() && s[head.end] == BYTE_COLON && s[head.end
        + 1] == BYTE_COLON) {
        None
    } else {
        let tail = parse_groups(s, head.end + 2, 0, 7 - head.groups.len(), Seq::empty());
        if tail.end == s.len() && head.groups.len() + tail.groups.len() <= 7 {
            Some(
                groups_value(
                    head.groups + zero_groups(8 - head.groups.len() - tail.groups.len())
                        + tail.groups,
                ) as u128,
            )
        } else {
            None
        }
    }
}

proof fn lemma_hex_run_end_bounds(s: Seq<u8>, pos: int)
    requires
        0 <= pos <= s.len(),
    ensures
        pos <= hex_run_end(s, pos) <= s.len(),
    decreases s.len() - pos,
{
    if pos < s.len() && hex_value(s[pos]) is Some {
        lemma_hex_run_end_bounds(s, pos + 1);
    }
}

proof fn lemma_hex_run_end_unique(s: Seq<u8>, pos: int, end: int)
    requires
        0 <= pos <= end <= s.len(),
        forall|i: int| pos <= i < end ==> hex_value(#[trigger] s[i]) is Some,
        end < s.len() ==> hex_value(s[end]) is None,
    ensures
        hex_run_end(s, pos) == end,
    decreases end - pos,
{
    if pos < end {
        assert(hex_value(s[pos]) is Some);
        lemma_hex_run_end_unique(s, pos + 1, end);
    }
}

/// A run of hexadecimal digits that reaches `to` ends at or after `to`.
proof fn lemma_hex_run_end_from(s: Seq<u8>, pos: int, to: int)
    requires
        0 <= pos <= to <= s.len(),
        forall|i: int| pos <= i < to ==> hex_value(#[trigger] s[i]) is Some,
    ensures
        hex_run_end(s, pos) >= to,
    decreases to - pos,
{
    if pos < to {
        assert(hex_value(s[pos]) is Some);
        lemma_hex_run_end_from(s, pos + 1, to);
    } else {
        lemma_hex_run_end_bounds(s, pos);
    }
}

proof fn lemma_hex_run_value_bound(s: Seq<u8>, start: int, end: int)
    requires
        0 <= start <= end <= s.len(),
        end - start <= 4,
    ensures
        hex_run_value(s, start, end) < 65536,
        end - start <= 3 ==> hex_run_value(s, start, end) < 4096,
        end - start <= 2 ==> hex_run_value(s, start, end) < 256,
        end - start <= 1 ==> hex_run_value(s, start, end) < 16,
    decreases end - start,
{
    if start < end {
        lemma_hex_run_value_bound(s, start, end - 1);
    }
}

/// Reads one group of a version 6 address at `pos`.
fn read_group(input: &[u8], pos: usize) -> (r: Option<(u16, usize)>)
    requires
        pos <= input.len(),
    ensures
        match parse_group(input@, pos as int) {
            Some((value, end)) => r == Some((value, end as usize)) && pos < end <= input.len(),
            None => r is None,
        },
{
    let mut end: usize = pos;
    let mut value: u16 = 0;
    while end < input.len() && end - pos < 4 && hex_digit_value(input[end]).is_some()
        invariant
            pos <= end <= input.len(),
            end - pos <= 4,
            forall|j: int| pos <= j < end ==> hex_value(#[trigger] input@[j]) is Some,
            value == hex_run_value(input@, pos as int, end as int),
        decreases input.len() - end,
    {
        let digit: u8 = match hex_digit_value(input[end]) {
            Some(d) => d,
            None => 0,
        };
        proof {
            lemma_hex_run_value_bound(input@, pos as int, end as int);
        }
        value = value * 16 + digit as u16;
        end += 1;
    }
    if end < input.len() && hex_digit_value(input[end]).is_some() {
        proof {
            lemma_hex_run_end_from(input@, pos as int, end + 1);
        }
        return None;
    }
    proof {
        lemma_hex_run_end_unique(input@, pos as int, end as int);
    }
    if end == pos {
        None
    } else {
        Some((value, end))
    }
}

/// Reads groups from `pos` on, up to `limit`.
fn read_groups(input: &[u8], pos: usize, limit: usize) -> (r: (Vec<u16>, bool, usize))
    requires
        pos <= input.len(),
        limit <= 8,
    ensures
        parse_groups(input@, pos as int, 0, limit as int, Seq::empty()) == (GroupsRead {
            groups: r.0@,
            ipv4: r.1,
            end: r.2 as int,
        }),
        r.0@.len() <= limit,
        pos <= r.2 <= input.len(),
{
    let mut groups: Vec<u16> = Vec::new();
    let mut p: usize = pos;
    let mut i: usize = 0;
    while i < limit
        invariant
            i <= limit <= 8,
            groups@.len() == i,
            pos <= p <= input.len(),
            parse_groups(input@, p as int, i as int, limit as int, groups@) == parse_groups(
                input@,
                pos as int,
                0,
                limit as int,
                Seq::empty(),
            ),
        decreases limit - i,
    {
        if i > 0 && !(p < input.len() && input[p] == BYTE_COLON) {
            return (groups, false, p);
        }
        let start: usize = if i > 0 {
            p + 1
        } else {
            p
        };
        if i + 1 < limit {
            match read_ipv4_at(input, start) {
                Some((a, end)) => {
                    groups.push((a / 65536) as u16);
                    groups.push((a % 65536) as u16);
                    return (groups, true, end);
                },
                None => {},
            }
        }
        match read_group(input, start) {
            Some((group, end)) => {
                groups.push(group);
                p = end;
            },
            None => {
                return (groups, false, p);
            },
        }
        i += 1;
    }
    (groups, false, p)
}

/// 65536 to the power `i`.
pub open spec fn pow65536(i: int) -> nat
    decreases i,
{
    if i <= 0 {
        1
    } else {
        65536 * pow65536(i - 1)
    }
}

proof fn lemma_pow65536(i: int)
    requires
        0 <= i < 8,
    ensures
        pow65536(i + 1) == 65536 * pow65536(i),
        pow65536(i + 1) <= 0x1_0000_0000_0000_0000_0000_0000_0000_0000,
        pow65536(i) >= 1,
{
    reveal_with_fuel(pow65536, 10);
}

/// The number that eight groups stand for.
fn value_of(groups: &[u16; 8]) -> (value: u128)
    ensures
        value == groups_value(groups@),
{
    let mut value: u128 = 0;
    let mut i: usize = 0;
    assert(groups@.take(0) =~= Seq::<u16>::empty());
    while i < 8
        invariant
            i <= 8,
            value == groups_value(groups@.take(i as int)),
            value < pow65536(i as int),
        decreases 8 - i,
    {
        proof {
            lemma_pow65536(i as int);
            assert(groups@.take(i + 1).drop_last() =~= groups@.take(i as int));
            assert(value * 65536 + groups[i as int] < 65536 * pow65536(i as int))
                by (nonlinear_arith)
                requires
                    value < pow65536(i as int),
                    groups[i as int] < 65536,
            ;
        }
        value = value * 65536 + groups[i] as u128;
        i += 1;
    }
    assert(groups@.take(8) =~= groups@);
    value
}

/// Reads a version 6 address.
pub fn read_ipv6(input: &[u8]) -> (r: Option<u128>)
    ensures
        r == parse_ipv6(input@),
{
    let (head, head_ipv4, head_end) = read_groups(input, 0, 8);
    let mut all: [u16; 8] = [0u16;8];
    if head.len() == 8 {
        if head_end != input.len() {
            return None;
        }
        let mut i: usize = 0;
        while i < 8
            invariant
                i <= 8,
                head@.len() == 8,
                forall|j: int| 0 <= j < i ==> all@[j] == head@[j],
            decreases 8 - i,
        {
            all[i] = head[i];
            i += 1;
        }
        assert(all@ =~= head@);
        return Some(value_of(&all));
    }
    if head_ipv4 {
        return None;
    }
    if !(input.len() >= 2 && head_end <= input.len() - 2 && input[head_end] == BYTE_COLON
        && input[head_end + 1] == BYTE_COLON) {
        return None;
    }
    let (tail, _, tail_end) = read_groups(input, head_end + 2, 7 - head.len());
    if tail_end != input.len() {
        return None;
    }
    let gap: usize = 8 - head.len() - tail.len();
    let ghost wanted = head@ + zero_groups(gap as int) + tail@;
    let mut i: usize = 0;
    while i < head.len()
        invariant
            i <= head@.len(),
            head@.len() + tail@.len() <= 7,
            forall|j: int| 0 <= j < i ==> all@[j] == head@[j],
            forall|j: int| i <= j < 8 ==> all@[j] == 0,
        decreases head@.len() - i,
    {
        all[i] = head[i];
        i += 1;
    }
    let mut k: usize = 0;
    while k < tail.len()
        invariant
            k <= tail@.len(),
            gap == 8 - head@.len() - tail@.len(),
            head@.len() + tail@.len() <= 7,
            forall|j: int| 0 <= j < head@.len() ==> all@[j] == head@[j],
            forall|j: int| head@.len() <= j < head@.len() + gap ==> all@[j] == 0,
            forall|j: int| 0 <= j < k ==> all@[head@.len() + gap + j] == tail@[j],
        decreases tail@.len() - k,
    {
        all[head.len() + gap + k] = tail[k];
        k += 1;
    }
    assert(all@ =~= wanted);
    Some(value_of(&all))
}

/// The `i`-th group of sixteen bits of a version 6 address.
pub fn group_of(a: u128, i: usize) -> (group: u16)
    requires
        i < 8,
    ensures
        group == ipv6_group(a, i as int),
{
    if i == 0 {
        (a / 0x1_0000_0000_0000_0000_0000_0000_0000 % 65536) as u16
    } else if i == 1 {
        (a / 0x1_0000_0000_0000_0000_0000_0000 % 65536) as u16
    } else if i == 2 {
        (a / 0x1_0000_0000_0000_0000_0000 % 65536) as u16
    } else if i == 3 {
        (a / 0x1_0000_0000_0000_0000 % 65536) as u16
    } else if i == 4 {
        (a / 0x1_0000_0000_0000 % 65536) as u16
    } else if i == 5 {
        (a / 0x1_0000_0000 % 65536) as u16
    } else if i == 6 {
        (a / 0x1_0000 % 65536) as u16
    } else {
        (a % 65536) as u16
    }
}

/// Appends the minimal lower-case hexadecimal numeral of `n`.
pub fn push_hex_numeral(out: &mut Vec<u8>, n: u16)
    ensures
        final(out)@ == old(out)@ + hex_numeral(n as nat),
    decreases n,
{
    if n < 16 {
        out.push(hex_char(n as u8));
        assert(out@ =~= old(out)@ + hex_numeral(n as nat));
    } else {
        push_hex_numeral(out, n / 16);
        out.push(hex_char((n % 16) as u8));
        assert(out@ =~= old(out)@ + hex_numeral(n as nat));
    }
}

/// Appends the groups from position `from` up to position `to` as text.
fn push_joined(out: &mut Vec<u8>, groups: &[u16; 8], from: usize, to: usize)
    requires
        from <= to <= 8,
    ensures
        final(out)@ == old(out)@ + joined(groups@.subrange(from as int, to as int)),
{
    let mut k: usize = from;
    let ghost part = groups@.subrange(from as int, to as int);
    assert(part.take(0) =~= Seq::<u16>::empty());
    assert(out@ =~= old(out)@ + joined(part.take(0)));
    while k < to
        invariant
            from <= k <= to <= 8,
            part == groups@.subrange(from as int, to as int),
            out@ == old(out)@ + joined(part.take(k - from)),
        decreases to - k,
    {
        proof {
            assert(part.take(k - from + 1).drop_last() =~= part.take(k - from));
            assert(part.take(k - from + 1).last() == groups@[k as int]);
        }
        if k > from {
            out.push(BYTE_COLON);
        }
        push_hex_numeral(out, groups[k]);
        assert(out@ =~= old(out)@ + joined(part.take(k - from + 1)));
        k += 1;
    }
    assert(part.take(to - from) =~= part);
}

/// Appends a version 6 address as text.
pub fn push_ipv6(out: &mut Vec<u8>, a: u128)
    ensures
        final(out)@ == old(out)@ + ipv6_text(a),
{
    let mut groups: [u16; 8] = [0u16;8];
    let mut i: usize = 0;
    while i < 8
        invariant
            i <= 8,
            forall|j: int| 0 <= j < i ==> groups@[j] == ipv6_group(a, j),
        decreases 8 - i,
    {
        groups[i] = group_of(a, i);
        i += 1;
    }
    assert(groups@ =~= groups_of(a));
    if groups[0] == 0 && groups[1] == 0 && groups[2] == 0 && groups[3] == 0 && groups[4] == 0
        && groups[5] == 0xffff {
        out.push(58u8);
        out.push(58u8);
        out.push(102u8);
        out.push(102u8);
        out.push(102u8);
        out.push(102u8);
        out.push(58u8);
        push_ipv4(out, (a % 0x1_0000_0000) as u32);
        assert(out@ =~= old(out)@ + ipv6_text(a));
        return ;
    }
    let mut run: usize = 0;
    let mut longest: usize = 0;
    let mut start: usize = 8;
    let mut j: usize = 8;
    while j > 0
        invariant
            j <= 8,
            groups@ == groups_of(a),
            run == zero_run(groups@, j as int),
            longest == longest_run(groups@, j as int),
            start == longest_run_start(groups@, j as int),
            run <= 8 - j,
            longest <= 8 - j,
            j <= start <= 8,
            start + longest <= 8,
        decreases j,
    {
        j -= 1;
        if groups[j] == 0 {
            run = run + 1;
        } else {
            run = 0;
        }
        if run >= longest {
            longest = run;
            start = j;
        }
    }
    if longest > 1 {
        push_joined(out, &groups, 0, start);
        out.push(BYTE_COLON);
        out.push(BYTE_COLON);
        push_joined(out, &groups, start + longest, 8);
        assert(groups@.subrange(0, start as int) =~= groups@.take(start as int));
        assert(groups@.subrange(start + longest, 8) =~= groups@.skip(start + longest));
        assert(out@ =~= old(out)@ + ipv6_text(a));
    } else {
        push_joined(out, &groups, 0, 8);
        assert(groups@.subrange(0, 8) =~= groups@);
    }
}

/// A hexadecimal numeral holds ASCII bytes only.
pub proof fn lemma_hex_numeral_ascii(n: nat)
    ensures
        all_ascii(hex_numeral(n)),
    decreases n,
{
    if n >= 16 {
        lemma_hex_numeral_ascii(n / 16);
    }
}

proof fn lemma_joined_ascii(groups: Seq<u16>)
    ensures
        all_ascii(joined(groups)),
    decreases groups.len(),
{
    if groups.len() == 1 {
        lemma_hex_numeral_ascii(groups[0] as nat);
    } else if groups.len() > 1 {
        lemma_joined_ascii(groups.drop_last());
        lemma_hex_numeral_ascii(groups.last() as nat);
        lemma_all_ascii_concat(joined(groups.drop_last()), seq![BYTE_COLON]);
        lemma_all_ascii_concat(
            joined(groups.drop_last()) + seq![BYTE_COLON],
            hex_numeral(groups.last() as nat),
        );
    }
}

/// The text of a version 6 address holds ASCII bytes only.
pub proof fn lemma_ipv6_text_ascii(a: u128)
    ensures
        all_ascii(ipv6_text(a)),
{
    let groups = groups_of(a);
    if is_mapped(groups) {
        lemma_ipv4_text_ascii((a % 0x1_0000_0000) as u32);
        lemma_all_ascii_concat(mapped_prefix(), ipv4_text((a % 0x1_0000_0000) as u32));
    } else if longest_run(groups, 0) > 1 {
        let before = groups.take(longest_run_start(groups, 0));
        let after = groups.skip(longest_run_start(groups, 0) + longest_run(groups, 0));
        lemma_joined_ascii(before);
        lemma_joined_ascii(after);
        lemma_all_ascii_concat(joined(before), seq![BYTE_COLON, BYTE_COLON]);
        lemma_all_ascii_concat(joined(before) + seq![BYTE_COLON, BYTE_COLON], joined(after));
    } else {
        lemma_joined_ascii(groups);
    }
}

} // verus!
