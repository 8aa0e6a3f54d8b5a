//! IP filtering: banning addresses and inclusive address ranges, with
//! an allow-list that always wins, and the textual form of addresses
//! used by the configuration file.
//!
//! An IPv4 literal is the dotted quad `a.b.c.d` with decimal octets and
//! no leading zeros; an IPv6 literal is eight colon-separated groups of
//! one to four lowercase hex digits. The IPv4 and IPv6 namespaces are
//! independent.

use vstd::prelude::*;

use vstd::string::StringExecFns;

use crate::addr::IpAddress;
use crate::json::dig;
use crate::json::hexdig;
use crate::strings::all_digits;
use crate::strings::bytes_of;
use crate::strings::first_token;
use crate::strings::rest_after_token;
use crate::strings::trim;
use crate::strings::all_hex_group;
use crate::strings::digits_val;
use crate::strings::find_byte;
use crate::strings::find_byte_exec;
use crate::strings::hex_val;
use crate::strings::hexv;
use crate::strings::lemma_find_byte_at;
use crate::strings::parse_hex_group;
use crate::strings::parse_uint;

verus! {

/// The decimal text of one octet, with no leading zeros.
pub open spec fn fmt_octet(n: int) -> Seq<u8>
    recommends
        0 <= n <= 255,
{
    if n >= 100 {
        seq![dig(n / 100), dig(n / 10), dig(n)]
    } else if n >= 10 {
        seq![dig(n / 10), dig(n)]
    } else {
        seq![dig(n)]
    }
}

/// The dotted-quad text of an IPv4 address.
pub open spec fn fmt_ipv4(a: u32) -> Seq<u8> {
    fmt_octet(((a >> 24) & 0xff) as int) + seq![46u8] + fmt_octet(((a >> 16) & 0xff) as int)
        + seq![46u8] + fmt_octet(((a >> 8) & 0xff) as int) + seq![46u8] + fmt_octet(
        (a & 0xff) as int,
    )
}

/// Reads one octet: decimal digits, value at most 255, no leading zero.
pub open spec fn parse_octet(s: Seq<u8>) -> Option<int> {
    if all_digits(s) && digits_val(s) <= 255 && (s.len() > 1 ==> s[0] != 48) {
        Some(digits_val(s))
    } else {
        None
    }
}

/// Reads a dotted-quad IPv4 literal and nothing else.
#[verifier::opaque]
pub open spec fn parse_ipv4(s: Seq<u8>) -> Option<u32> {
    let i1 = find_byte(s, 46);
    if i1 >= s.len() {
        None
    } else {
        let r1 = s.skip(i1 + 1);
        let i2 = find_byte(r1, 46);
        if i2 >= r1.len() {
            None
        } else {
            let r2 = r1.skip(i2 + 1);
            let i3 = find_byte(r2, 46);
            if i3 >= r2.len() {
                None
            } else {
                let r3 = r2.skip(i3 + 1);
                match (parse_octet(s.take(i1)), parse_octet(r1.take(i2)), parse_octet(r2.take(i3)),
                parse_octet(r3)) {
                    (Some(o1), Some(o2), Some(o3), Some(o4)) => Some(
                        (o1 * 0x1000000 + o2 * 0x10000 + o3 * 0x100 + o4) as u32,
                    ),
                    _ => None,
                }
            }
        }
    }
}

/// The bytes of an octet's text are digits, the first is not `0` unless
/// it stands alone, and the text reads back as the octet.
proof fn lemma_octet_round(n: int)
    requires
        0 <= n <= 255,
    ensures
        all_digits(fmt_octet(n)),
        parse_octet(fmt_octet(n)) == Some(n),
        1 <= fmt_octet(n).len() <= 3,
        forall|j: int| 0 <= j < fmt_octet(n).len() ==> 48 <= #[trigger] fmt_octet(n)[j] <= 57,
{
    let f = fmt_octet(n);
    assert(digits_val(Seq::<u8>::empty()) == 0);
    if n >= 100 {
        let two = seq![dig(n / 100), dig(n / 10)];
        let one = seq![dig(n / 100)];
        assert(f.drop_last() =~= two);
        assert(two.drop_last() =~= one);
        assert(one.drop_last() =~= Seq::<u8>::empty());
        assert(digits_val(one) == dig(n / 100) - 48);
        assert(digits_val(two) == digits_val(one) * 10 + (dig(n / 10) - 48));
        assert(digits_val(f) == digits_val(two) * 10 + (dig(n) - 48));
        assert(((n / 100) % 10) * 100 + ((n / 10) % 10) * 10 + n % 10 == n) by (nonlinear_arith)
            requires
                100 <= n <= 255,
        ;
        assert(f[0] == dig(n / 100));
        assert(n / 100 >= 1 && n / 100 <= 2);
        assert(dig(n / 100) != 48);
    } else if n >= 10 {
        let one = seq![dig(n / 10)];
        assert(f.drop_last() =~= one);
        assert(one.drop_last() =~= Seq::<u8>::empty());
        assert(digits_val(one) == dig(n / 10) - 48);
        assert(digits_val(f) == digits_val(one) * 10 + (dig(n) - 48));
        assert(((n / 10) % 10) * 10 + n % 10 == n) by (nonlinear_arith)
            requires
                10 <= n <= 99,
        ;
        assert(f[0] == dig(n / 10));
        assert(n / 10 >= 1 && n / 10 <= 9);
        assert(dig(n / 10) != 48);
    } else {
        assert(f.drop_last() =~= Seq::<u8>::empty());
        assert(digits_val(f) == dig(n) - 48);
    }
}

/// An octet's text followed by a dot and anything finds its dot first.
proof fn lemma_octet_then_dot(n: int, rest: Seq<u8>)
    requires
        0 <= n <= 255,
    ensures
        find_byte(fmt_octet(n) + seq![46u8] + rest, 46) == fmt_octet(n).len(),
        (fmt_octet(n) + seq![46u8] + rest).skip(fmt_octet(n).len() as int + 1) =~= rest,
        (fmt_octet(n) + seq![46u8] + rest).take(fmt_octet(n).len() as int) =~= fmt_octet(n),
{
    let f = fmt_octet(n);
    let s = f + seq![46u8] + rest;
    lemma_octet_round(n);
    assert(s[f.len() as int] == 46);
    assert forall|j: int| 0 <= j < f.len() implies #[trigger] s[j] != 46 by {
        assert(s[j] == f[j]);
    }
    lemma_find_byte_at(s, 46, f.len() as int);
}

/// The four masked octets of an address reassemble into it.
proof fn lemma_octets_reassemble(a: u32)
    ensures
        ((a >> 24) & 0xff) * 0x1000000 + ((a >> 16) & 0xff) * 0x10000 + ((a >> 8) & 0xff) * 0x100
            + (a & 0xff) == a,
        (a >> 24) & 0xff <= 0xff,
        (a >> 16) & 0xff <= 0xff,
        (a >> 8) & 0xff <= 0xff,
        a & 0xff <= 0xff,
{
    assert(((a >> 24) & 0xff) * 0x1000000 + ((a >> 16) & 0xff) * 0x10000 + ((a >> 8) & 0xff)
        * 0x100 + (a & 0xff) == a && (a >> 24) & 0xff <= 0xff && (a >> 16) & 0xff <= 0xff && (a
        >> 8) & 0xff <= 0xff && a & 0xff <= 0xff) by (bit_vector);
}

/// The dotted-quad text of an IPv4 address reads back as that address.
#[verifier::rlimit(100)]
pub proof fn lemma_ipv4_round(a: u32)
    ensures
        parse_ipv4(fmt_ipv4(a)) == Some(a),
{
    reveal(parse_ipv4);
    lemma_octets_reassemble(a);
    let o1 = ((a >> 24) & 0xff) as int;
    let o2 = ((a >> 16) & 0xff) as int;
    let o3 = ((a >> 8) & 0xff) as int;
    let o4 = (a & 0xff) as int;
    let s = fmt_ipv4(a);
    let t1 = fmt_octet(o2) + seq![46u8] + (fmt_octet(o3) + seq![46u8] + fmt_octet(o4));
    let t2 = fmt_octet(o3) + seq![46u8] + fmt_octet(o4);
    assert(s =~= fmt_octet(o1) + seq![46u8] + t1);
    lemma_octet_then_dot(o1, t1);
    lemma_octet_then_dot(o2, t2);
    lemma_octet_then_dot(o3, fmt_octet(o4));
    lemma_octet_round(o1);
    lemma_octet_round(o2);
    lemma_octet_round(o3);
    lemma_octet_round(o4);
    assert(s.skip(fmt_octet(o1).len() as int + 1) =~= t1);
    assert(t1.skip(fmt_octet(o2).len() as int + 1) =~= t2);
    assert(t2.skip(fmt_octet(o3).len() as int + 1) =~= fmt_octet(o4));
    assert(find_byte(fmt_octet(o4), 46) == fmt_octet(o4).len()) by {
        crate::strings::lemma_find_byte_absent(fmt_octet(o4), 46);
    }
}

/// Reads a dotted-quad IPv4 literal from `s` and nothing else.
pub fn parse_ipv4_exec(s: &[u8]) -> (r: Option<u32>)
    ensures
        r == parse_ipv4(s@),
{
    proof {
        reveal(parse_ipv4);
    }
    let n = s.len();
    let i1 = find_byte_exec(s, 46);
    if i1 >= n {
        return None;
    }
    let r1 = vstd::slice::slice_subrange(s, i1 + 1, n);
    proof {
        assert(r1@ =~= s@.skip(i1 as int + 1));
    }
    let i2 = find_byte_exec(r1, 46);
    if i2 >= r1.len() {
        return None;
    }
    let r2 = vstd::slice::slice_subrange(r1, i2 + 1, r1.len());
    proof {
        assert(r2@ =~= r1@.skip(i2 as int + 1));
    }
    let i3 = find_byte_exec(r2, 46);
    if i3 >= r2.len() {
        return None;
    }
    let r3 = vstd::slice::slice_subrange(r2, i3 + 1, r2.len());
    proof {
        assert(r3@ =~= r2@.skip(i3 as int + 1));
    }
    let p1 = vstd::slice::slice_subrange(s, 0, i1);
    let p2 = vstd::slice::slice_subrange(r1, 0, i2);
    let p3 = vstd::slice::slice_subrange(r2, 0, i3);
    proof {
        assert(p1@ =~= s@.take(i1 as int));
        assert(p2@ =~= r1@.take(i2 as int));
        assert(p3@ =~= r2@.take(i3 as int));
    }
    let o1 = match parse_octet_exec(p1) {
        Some(v) => v,
        None => {
            return None;
        },
    };
    let o2 = match parse_octet_exec(p2) {
        Some(v) => v,
        None => {
            return None;
        },
    };
    let o3 = match parse_octet_exec(p3) {
        Some(v) => v,
        None => {
            return None;
        },
    };
    let o4 = match parse_octet_exec(r3) {
        Some(v) => v,
        None => {
            return None;
        },
    };
    Some(
        (o1 as u32) * 0x1000000 + (o2 as u32) * 0x10000 + (o3 as u32) * 0x100 + (o4 as u32),
    )
}

/// Reads one octet of a dotted quad.
fn parse_octet_exec(s: &[u8]) -> (r: Option<u8>)
    ensures
        match r {
            Some(v) => parse_octet(s@) == Some(v as int),
            None => parse_octet(s@) is None,
        },
{
    if s.len() > 1 && *vstd::slice::slice_index_get(s, 0) == 48 {
        return None;
    }
    match parse_uint(s, 255) {
        Some(v) => Some(v as u8),
        None => None,
    }
}


/// The lowercase hex digit byte for the low hex digit of `m`.
pub open spec fn hexdig16(m: int) -> u8 {
    hexdig((m % 16) as u8)
}

/// The lowercase hex text of one sixteen-bit group, with no leading
/// zeros.
pub open spec fn fmt_group(n: u16) -> Seq<u8> {
    if n >= 0x1000 {
        seq![
            hexdig16(n as int / 0x1000),
            hexdig16(n as int / 0x100),
            hexdig16(n as int / 0x10),
            hexdig16(n as int),
        ]
    } else if n >= 0x100 {
        seq![hexdig16(n as int / 0x100), hexdig16(n as int / 0x10), hexdig16(n as int)]
    } else if n >= 0x10 {
        seq![hexdig16(n as int / 0x10), hexdig16(n as int)]
    } else {
        seq![hexdig16(n as int)]
    }
}

/// Reads one group: one to four hex digit bytes.
pub open spec fn parse_group(s: Seq<u8>) -> Option<u16> {
    if all_hex_group(s) {
        Some(hex_val(s) as u16)
    } else {
        None
    }
}

/// The eight sixteen-bit groups of an IPv6 address, highest first.
pub open spec fn groups_of(a: u128) -> Seq<u16> {
    seq![
        ((a >> 112) & 0xffff) as u16,
        ((a >> 96) & 0xffff) as u16,
        ((a >> 80) & 0xffff) as u16,
        ((a >> 64) & 0xffff) as u16,
        ((a >> 48) & 0xffff) as u16,
        ((a >> 32) & 0xffff) as u16,
        ((a >> 16) & 0xffff) as u16,
        (a & 0xffff) as u16,
    ]
}

/// The address the eight groups spell.
pub open spec fn ipv6_of_groups(gs: Seq<u16>) -> u128
    recommends
        gs.len() == 8,
{
    (gs[0] * 0x10000000000000000000000000000 + gs[1] * 0x1000000000000000000000000 + gs[2]
        * 0x100000000000000000000 + gs[3] * 0x10000000000000000 + gs[4] * 0x1000000000000 + gs[5]
        * 0x100000000 + gs[6] * 0x10000 + gs[7]) as u128
}

/// The colon-separated text of a run of groups.
pub open spec fn fmt_groups(gs: Seq<u16>) -> Seq<u8>
    decreases gs.len(),
{
    if gs.len() == 0 {
        Seq::<u8>::empty()
    } else if gs.len() == 1 {
        fmt_group(gs[0])
    } else {
        fmt_group(gs[0]) + seq![58u8] + fmt_groups(gs.drop_first())
    }
}

/// The full-form text of an IPv6 address: its eight groups, highest
/// first, separated by colons.
pub open spec fn fmt_ipv6(a: u128) -> Seq<u8> {
    fmt_groups(groups_of(a))
}

/// Reads exactly `k` colon-separated groups spanning all of `s`.
#[verifier::opaque]
pub open spec fn parse_groups(s: Seq<u8>, k: int) -> Option<Seq<u16>>
    decreases k,
{
    if k <= 0 {
        None
    } else if k == 1 {
        match parse_group(s) {
            Some(g) => Some(seq![g]),
            None => None,
        }
    } else {
        let i = find_byte(s, 58);
        if i >= s.len() {
            None
        } else {
            match (parse_group(s.take(i)), parse_groups(s.skip(i + 1), k - 1)) {
                (Some(g), Some(gs)) => Some(seq![g] + gs),
                _ => None,
            }
        }
    }
}

/// Reads a full-form IPv6 literal and nothing else.
pub open spec fn parse_ipv6(s: Seq<u8>) -> Option<u128> {
    match parse_groups(s, 8) {
        Some(gs) => Some(ipv6_of_groups(gs)),
        None => None,
    }
}

/// The bytes of a group's text are hex digits and the text reads back
/// as the group.
proof fn lemma_group_round(n: u16)
    ensures
        all_hex_group(fmt_group(n)),
        parse_group(fmt_group(n)) == Some(n),
        1 <= fmt_group(n).len() <= 4,
        forall|j: int|
            0 <= j < fmt_group(n).len() ==> (48 <= #[trigger] fmt_group(n)[j] <= 57 || 97
                <= fmt_group(n)[j] <= 102),
{
    let f = fmt_group(n);
    let m = n as int;
    assert(hex_val(Seq::<u8>::empty()) == 0);
    if n >= 0x1000 {
        let three = seq![hexdig16(m / 0x1000), hexdig16(m / 0x100), hexdig16(m / 0x10)];
        let two = seq![hexdig16(m / 0x1000), hexdig16(m / 0x100)];
        let one = seq![hexdig16(m / 0x1000)];
        assert(f.drop_last() =~= three);
        assert(three.drop_last() =~= two);
        assert(two.drop_last() =~= one);
        assert(one.drop_last() =~= Seq::<u8>::empty());
        assert(hex_val(one) == hexv(hexdig16(m / 0x1000)));
        assert(hex_val(two) == hex_val(one) * 16 + hexv(hexdig16(m / 0x100)));
        assert(hex_val(three) == hex_val(two) * 16 + hexv(hexdig16(m / 0x10)));
        assert(hex_val(f) == hex_val(three) * 16 + hexv(hexdig16(m)));
        assert(((m / 0x1000) % 16) * 0x1000 + ((m / 0x100) % 16) * 0x100 + ((m / 0x10) % 16) * 0x10
            + m % 16 == m) by (nonlinear_arith)
            requires
                0x1000 <= m < 0x10000,
        ;
    } else if n >= 0x100 {
        let two = seq![hexdig16(m / 0x100), hexdig16(m / 0x10)];
        let one = seq![hexdig16(m / 0x100)];
        assert(f.drop_last() =~= two);
        assert(two.drop_last() =~= one);
        assert(one.drop_last() =~= Seq::<u8>::empty());
        assert(hex_val(one) == hexv(hexdig16(m / 0x100)));
        assert(hex_val(two) == hex_val(one) * 16 + hexv(hexdig16(m / 0x10)));
        assert(hex_val(f) == hex_val(two) * 16 + hexv(hexdig16(m)));
        assert(((m / 0x100) % 16) * 0x100 + ((m / 0x10) % 16) * 0x10 + m % 16 == m)
            by (nonlinear_arith)
            requires
                0x100 <= m < 0x1000,
        ;
    } else if n >= 0x10 {
        let one = seq![hexdig16(m / 0x10)];
        assert(f.drop_last() =~= one);
        assert(one.drop_last() =~= Seq::<u8>::empty());
        assert(hex_val(one) == hexv(hexdig16(m / 0x10)));
        assert(hex_val(f) == hex_val(one) * 16 + hexv(hexdig16(m)));
        assert(((m / 0x10) % 16) * 0x10 + m % 16 == m) by (nonlinear_arith)
            requires
                0x10 <= m < 0x100,
        ;
    } else {
        assert(f.drop_last() =~= Seq::<u8>::empty());
        assert(hex_val(f) == hexv(hexdig16(m)));
    }
}

/// The text of a run of groups reads back as those groups.
#[verifier::rlimit(100)]
proof fn lemma_fmt_groups_parse(gs: Seq<u16>)
    requires
        gs.len() >= 1,
    ensures
        parse_groups(fmt_groups(gs), gs.len() as int) == Some(gs),
    decreases gs.len(),
{
    reveal(parse_groups);
    if gs.len() == 1 {
        lemma_group_round(gs[0]);
        assert(seq![gs[0]] =~= gs);
    } else {
        let rest = gs.drop_first();
        let f = fmt_group(gs[0]);
        let s = fmt_groups(gs);
        lemma_fmt_groups_parse(rest);
        lemma_group_round(gs[0]);
        assert(s == f + seq![58u8] + fmt_groups(rest));
        assert(s[f.len() as int] == 58);
        assert forall|j: int| 0 <= j < f.len() implies #[trigger] s[j] != 58 by {
            assert(s[j] == f[j]);
        }
        lemma_find_byte_at(s, 58, f.len() as int);
        assert(s.take(f.len() as int) =~= f);
        assert(s.skip(f.len() as int + 1) =~= fmt_groups(rest));
        assert(seq![gs[0]] + rest =~= gs);
    }
}

/// The masked groups of an address are in range and reassemble into it.
proof fn lemma_groups_reassemble(a: u128)
    ensures
        ((a >> 112) & 0xffff) * 0x10000000000000000000000000000 + ((a >> 96) & 0xffff)
            * 0x1000000000000000000000000 + ((a >> 80) & 0xffff) * 0x100000000000000000000 + ((a
            >> 64) & 0xffff) * 0x10000000000000000 + ((a >> 48) & 0xffff) * 0x1000000000000 + ((a
            >> 32) & 0xffff) * 0x100000000 + ((a >> 16) & 0xffff) * 0x10000 + (a & 0xffff) == a,
        (a >> 112) & 0xffff <= 0xffff,
        (a >> 96) & 0xffff <= 0xffff,
        (a >> 80) & 0xffff <= 0xffff,
        (a >> 64) & 0xffff <= 0xffff,
        (a >> 48) & 0xffff <= 0xffff,
        (a >> 32) & 0xffff <= 0xffff,
        (a >> 16) & 0xffff <= 0xffff,
        a & 0xffff <= 0xffff,
{
    assert(((a >> 112) & 0xffff) * 0x10000000000000000000000000000 + ((a >> 96) & 0xffff)
        * 0x1000000000000000000000000 + ((a >> 80) & 0xffff) * 0x100000000000000000000 + ((a >> 64)
        & 0xffff) * 0x10000000000000000 + ((a >> 48) & 0xffff) * 0x1000000000000 + ((a >> 32)
        & 0xffff) * 0x100000000 + ((a >> 16) & 0xffff) * 0x10000 + (a & 0xffff) == a && (a >> 112)
        & 0xffff <= 0xffff && (a >> 96) & 0xffff <= 0xffff && (a >> 80) & 0xffff <= 0xffff && (a
        >> 64) & 0xffff <= 0xffff && (a >> 48) & 0xffff <= 0xffff && (a >> 32) & 0xffff <= 0xffff
        && (a >> 16) & 0xffff <= 0xffff && a & 0xffff <= 0xffff) by (bit_vector);
}

/// The full-form text of an IPv6 address reads back as that address.
#[verifier::rlimit(100)]
pub proof fn lemma_ipv6_round(a: u128)
    ensures
        parse_ipv6(fmt_ipv6(a)) == Some(a),
{
    lemma_groups_reassemble(a);
    lemma_fmt_groups_parse(groups_of(a));
    assert(ipv6_of_groups(groups_of(a)) == a);
}

/// Reads exactly `k` colon-separated hex groups spanning all of `s`.
#[verifier::rlimit(100)]
fn parse_groups_exec(s: &[u8], k: usize) -> (r: Option<Vec<u16>>)
    requires
        1 <= k,
    ensures
        match r {
            Some(v) => parse_groups(s@, k as int) == Some(v@),
            None => parse_groups(s@, k as int) is None,
        },
    decreases k,
{
    proof {
        reveal(parse_groups);
    }
    if k == 1 {
        match parse_hex_group(s) {
            Some(g) => {
                let mut v: Vec<u16> = Vec::new();
                v.push(g);
                proof {
                    assert(v@ =~= seq![g]);
                }
                Some(v)
            },
            None => None,
        }
    } else {
        let i = find_byte_exec(s, 58);
        if i >= s.len() {
            return None;
        }
        let head = vstd::slice::slice_subrange(s, 0, i);
        let tail = vstd::slice::slice_subrange(s, i + 1, s.len());
        proof {
            assert(head@ =~= s@.take(i as int));
            assert(tail@ =~= s@.skip(i as int + 1));
        }
        let g = match parse_hex_group(head) {
            Some(g) => g,
            None => {
                return None;
            },
        };
        match parse_groups_exec(tail, k - 1) {
            Some(mut v) => {
                v.insert(0, g);
                proof {
                    assert(v@ =~= seq![g] + v@.drop_first());
                }
                Some(v)
            },
            None => None,
        }
    }
}

/// Reads a full-form IPv6 literal from `s` and nothing else.
pub fn parse_ipv6_exec(s: &[u8]) -> (r: Option<u128>)
    ensures
        r == parse_ipv6(s@),
{
    match parse_groups_exec(s, 8) {
        Some(v) => {
            proof {
                lemma_parse_groups_len(s@, 8);
            }
            let g0 = v[0];
            let g1 = v[1];
            let g2 = v[2];
            let g3 = v[3];
            let g4 = v[4];
            let g5 = v[5];
            let g6 = v[6];
            let g7 = v[7];
            Some(
                (g0 as u128) * 0x10000000000000000000000000000 + (g1 as u128)
                    * 0x1000000000000000000000000 + (g2 as u128) * 0x100000000000000000000 + (
                g3 as u128) * 0x10000000000000000 + (g4 as u128) * 0x1000000000000 + (g5 as u128)
                    * 0x100000000 + (g6 as u128) * 0x10000 + (g7 as u128),
            )
        },
        None => None,
    }
}

/// A successful read of `k` groups yields exactly `k` of them.
proof fn lemma_parse_groups_len(s: Seq<u8>, k: int)
    requires
        parse_groups(s, k) is Some,
    ensures
        parse_groups(s, k)->0.len() == k,
    decreases k,
{
    reveal(parse_groups);
    if k > 1 {
        let i = find_byte(s, 58);
        lemma_parse_groups_len(s.skip(i + 1), k - 1);
    }
}


/// The textual form of an IP address of either family.
pub open spec fn fmt_ip(addr: IpAddress) -> Seq<u8> {
    match addr {
        IpAddress::V4(a) => fmt_ipv4(a),
        IpAddress::V6(a) => fmt_ipv6(a),
    }
}

/// Reads an IP literal of either family: a dotted quad, else a
/// full-form IPv6 literal.
pub open spec fn parse_ip(s: Seq<u8>) -> Option<IpAddress> {
    match parse_ipv4(s) {
        Some(a) => Some(IpAddress::V4(a)),
        None => match parse_ipv6(s) {
            Some(a) => Some(IpAddress::V6(a)),
            None => None,
        },
    }
}

/// No byte of a run of groups is a dot.
proof fn lemma_fmt_groups_no_dot(gs: Seq<u16>)
    ensures
        forall|j: int| 0 <= j < fmt_groups(gs).len() ==> #[trigger] fmt_groups(gs)[j] != 46,
    decreases gs.len(),
{
    if gs.len() == 0 {
    } else if gs.len() == 1 {
        lemma_group_round(gs[0]);
    } else {
        lemma_group_round(gs[0]);
        lemma_fmt_groups_no_dot(gs.drop_first());
        let f = fmt_group(gs[0]);
        let rest = fmt_groups(gs.drop_first());
        assert forall|j: int| 0 <= j < fmt_groups(gs).len() implies #[trigger] fmt_groups(gs)[j]
            != 46 by {
            if j < f.len() {
                assert(fmt_groups(gs)[j] == f[j]);
            } else if j == f.len() {
                assert(fmt_groups(gs)[j] == 58);
            } else {
                assert(fmt_groups(gs)[j] == rest[j - f.len() - 1]);
            }
        }
    }
}

/// The text of an IP address of either family reads back as that
/// address.
pub proof fn lemma_ip_round(addr: IpAddress)
    ensures
        parse_ip(fmt_ip(addr)) == Some(addr),
{
    reveal(parse_ipv4);
    match addr {
        IpAddress::V4(a) => {
            lemma_ipv4_round(a);
        },
        IpAddress::V6(a) => {
            lemma_ipv6_round(a);
            lemma_fmt_groups_no_dot(groups_of(a));
            crate::strings::lemma_find_byte_absent(fmt_ipv6(a), 46);
        },
    }
}

/// Reads an IP literal of either family from `s` and nothing else.
pub fn parse_ip_exec(s: &[u8]) -> (r: Option<IpAddress>)
    ensures
        r == parse_ip(s@),
{
    match parse_ipv4_exec(s) {
        Some(a) => Some(IpAddress::V4(a)),
        None => match parse_ipv6_exec(s) {
            Some(a) => Some(IpAddress::V6(a)),
            None => None,
        },
    }
}

/// The mathematical value of an [`IpFilteringConfig`]: the six
/// collections, membership deciding everything.
#[verifier::ext_equal]
pub struct IpFilterView {
    pub v4_allowed: Seq<u32>,
    pub v4_banned: Seq<u32>,
    pub v4_banned_ranges: Seq<(u32, u32)>,
    pub v6_allowed: Seq<u128>,
    pub v6_banned: Seq<u128>,
    pub v6_banned_ranges: Seq<(u128, u128)>,
}

/// The admission decision: an explicit allow always wins; otherwise an
/// address is refused when it is banned singly or lies in a banned
/// inclusive range; otherwise it is allowed. The two address families
/// never see each other's entries.
pub open spec fn ip_allowed_spec(v: IpFilterView, addr: IpAddress) -> bool {
    match addr {
        IpAddress::V4(a) => v.v4_allowed.contains(a) || (!v.v4_banned.contains(a) && !exists|i: int|
            0 <= i < v.v4_banned_ranges.len() && (#[trigger] v.v4_banned_ranges[i]).0 <= a
                <= v.v4_banned_ranges[i].1),
        IpAddress::V6(a) => v.v6_allowed.contains(a) || (!v.v6_banned.contains(a) && !exists|i: int|
            0 <= i < v.v6_banned_ranges.len() && (#[trigger] v.v6_banned_ranges[i]).0 <= a
                <= v.v6_banned_ranges[i].1),
    }
}

/// IP filtering configuration: banning addresses, banning inclusive
/// address ranges, and excluding specific addresses from any ban.
pub struct IpFilteringConfig {
    v4_allowed: Vec<u32>,
    v4_banned: Vec<u32>,
    v4_banned_ranges: Vec<(u32, u32)>,
    v6_allowed: Vec<u128>,
    v6_banned: Vec<u128>,
    v6_banned_ranges: Vec<(u128, u128)>,
}

impl View for IpFilteringConfig {
    type V = IpFilterView;

    closed spec fn view(&self) -> IpFilterView {
        IpFilterView {
            v4_allowed: self.v4_allowed@,
            v4_banned: self.v4_banned@,
            v4_banned_ranges: self.v4_banned_ranges@,
            v6_allowed: self.v6_allowed@,
            v6_banned: self.v6_banned@,
            v6_banned_ranges: self.v6_banned_ranges@,
        }
    }
}

impl IpFilteringConfig {
    /// Every banned range is normalized: its low end at most its high
    /// end.
    pub open spec fn wf(self) -> bool {
        &&& forall|i: int|
            0 <= i < self@.v4_banned_ranges.len() ==> (#[trigger] self@.v4_banned_ranges[i]).0
                <= self@.v4_banned_ranges[i].1
        &&& forall|i: int|
            0 <= i < self@.v6_banned_ranges.len() ==> (#[trigger] self@.v6_banned_ranges[i]).0
                <= self@.v6_banned_ranges[i].1
    }

    /// Creates an empty configuration: everything allowed.
    pub fn new() -> (r: Self)
        ensures
            r@.v4_allowed =~= Seq::<u32>::empty(),
            r@.v4_banned =~= Seq::<u32>::empty(),
            r@.v4_banned_ranges =~= Seq::<(u32, u32)>::empty(),
            r@.v6_allowed =~= Seq::<u128>::empty(),
            r@.v6_banned =~= Seq::<u128>::empty(),
            r@.v6_banned_ranges =~= Seq::<(u128, u128)>::empty(),
            r.wf(),
    {
        IpFilteringConfig {
            v4_allowed: Vec::new(),
            v4_banned: Vec::new(),
            v4_banned_ranges: Vec::new(),
            v6_allowed: Vec::new(),
            v6_banned: Vec::new(),
            v6_banned_ranges: Vec::new(),
        }
    }

    /// Merges another instance in: every collection takes the other's
    /// entries as well.
    pub fn append(&mut self, other: &Self)
        requires
            old(self).wf(),
            other.wf(),
        ensures
            final(self).wf(),
            final(self)@.v4_allowed =~= old(self)@.v4_allowed + other@.v4_allowed,
            final(self)@.v4_banned =~= old(self)@.v4_banned + other@.v4_banned,
            final(self)@.v4_banned_ranges =~= old(self)@.v4_banned_ranges
                + other@.v4_banned_ranges,
            final(self)@.v6_allowed =~= old(self)@.v6_allowed + other@.v6_allowed,
            final(self)@.v6_banned =~= old(self)@.v6_banned + other@.v6_banned,
            final(self)@.v6_banned_ranges =~= old(self)@.v6_banned_ranges
                + other@.v6_banned_ranges,
    {
        append_all(&mut self.v4_allowed, &other.v4_allowed);
        append_all(&mut self.v4_banned, &other.v4_banned);
        append_all(&mut self.v4_banned_ranges, &other.v4_banned_ranges);
        append_all(&mut self.v6_allowed, &other.v6_allowed);
        append_all(&mut self.v6_banned, &other.v6_banned);
        append_all(&mut self.v6_banned_ranges, &other.v6_banned_ranges);
        proof {
            assert forall|i: int|
                0 <= i < self@.v4_banned_ranges.len() implies (
            #[trigger] self@.v4_banned_ranges[i]).0 <= self@.v4_banned_ranges[i].1 by {
                if i < old(self)@.v4_banned_ranges.len() {
                    assert(self@.v4_banned_ranges[i] == old(self)@.v4_banned_ranges[i]);
                } else {
                    assert(self@.v4_banned_ranges[i] == other@.v4_banned_ranges[i - old(
                        self,
                    )@.v4_banned_ranges.len()]);
                }
            }
            assert forall|i: int|
                0 <= i < self@.v6_banned_ranges.len() implies (
            #[trigger] self@.v6_banned_ranges[i]).0 <= self@.v6_banned_ranges[i].1 by {
                if i < old(self)@.v6_banned_ranges.len() {
                    assert(self@.v6_banned_ranges[i] == old(self)@.v6_banned_ranges[i]);
                } else {
                    assert(self@.v6_banned_ranges[i] == other@.v6_banned_ranges[i - old(
                        self,
                    )@.v6_banned_ranges.len()]);
                }
            }
        }
    }

    /// Allows an address outright, with precedence over every ban.
    /// Returns whether the address was not allowed before.
    pub fn allow(&mut self, addr: IpAddress) -> (r: bool)
        requires
            old(self).wf(),
        ensures
            final(self).wf(),
            match addr {
                IpAddress::V4(a) => final(self)@ =~= IpFilterView {
                    v4_allowed: old(self)@.v4_allowed.push(a),
                    ..old(self)@
                } && r == !old(self)@.v4_allowed.contains(a),
                IpAddress::V6(a) => final(self)@ =~= IpFilterView {
                    v6_allowed: old(self)@.v6_allowed.push(a),
                    ..old(self)@
                } && r == !old(self)@.v6_allowed.contains(a),
            },
    {
        let r = match addr {
            IpAddress::V4(a) => {
                let fresh = !contains_u32(&self.v4_allowed, a);
                self.v4_allowed.push(a);
                fresh
            },
            IpAddress::V6(a) => {
                let fresh = !contains_u128(&self.v6_allowed, a);
                self.v6_allowed.push(a);
                fresh
            },
        };
        proof {
            lemma_wf_from_ranges(old(self)@, self@);
        }
        r
    }

    /// Bans a single address, unless it is explicitly allowed. Returns
    /// whether the address was not banned before.
    pub fn ban(&mut self, addr: IpAddress) -> (r: bool)
        requires
            old(self).wf(),
        ensures
            final(self).wf(),
            match addr {
                IpAddress::V4(a) => final(self)@ =~= IpFilterView {
                    v4_banned: old(self)@.v4_banned.push(a),
                    ..old(self)@
                } && r == !old(self)@.v4_banned.contains(a),
                IpAddress::V6(a) => final(self)@ =~= IpFilterView {
                    v6_banned: old(self)@.v6_banned.push(a),
                    ..old(self)@
                } && r == !old(self)@.v6_banned.contains(a),
            },
    {
        let r = match addr {
            IpAddress::V4(a) => {
                let fresh = !contains_u32(&self.v4_banned, a);
                self.v4_banned.push(a);
                fresh
            },
            IpAddress::V6(a) => {
                let fresh = !contains_u128(&self.v6_banned, a);
                self.v6_banned.push(a);
                fresh
            },
        };
        proof {
            lemma_wf_from_ranges(old(self)@, self@);
        }
        r
    }

    /// Bans an inclusive address range. The endpoints must share an
    /// address family; a range given with its ends swapped is
    /// normalized, so the stored range is `[min, max]`.
    pub fn ban_range(&mut self, from: IpAddress, to: IpAddress) -> (r: Result<bool, String>)
        requires
            old(self).wf(),
        ensures
            final(self).wf(),
            match (from, to) {
                (IpAddress::V4(f), IpAddress::V4(t)) => r is Ok && final(self)@ =~= IpFilterView {
                    v4_banned_ranges: old(self)@.v4_banned_ranges.push(
                        (if f <= t { f } else { t }, if f <= t { t } else { f }),
                    ),
                    ..old(self)@
                },
                (IpAddress::V6(f), IpAddress::V6(t)) => r is Ok && final(self)@ =~= IpFilterView {
                    v6_banned_ranges: old(self)@.v6_banned_ranges.push(
                        (if f <= t { f } else { t }, if f <= t { t } else { f }),
                    ),
                    ..old(self)@
                },
                _ => r is Err && final(self)@ == old(self)@,
            },
    {
        match (from, to) {
            (IpAddress::V4(f), IpAddress::V4(t)) => {
                let lower = if f <= t { f } else { t };
                let upper = if f <= t { t } else { f };
                let fresh = !contains_range_u32(&self.v4_banned_ranges, lower, upper);
                self.v4_banned_ranges.push((lower, upper));
                proof {
                    assert forall|i: int|
                        0 <= i < self@.v4_banned_ranges.len() implies (
                    #[trigger] self@.v4_banned_ranges[i]).0 <= self@.v4_banned_ranges[i].1 by {
                        if i < old(self)@.v4_banned_ranges.len() {
                            assert(self@.v4_banned_ranges[i] == old(self)@.v4_banned_ranges[i]);
                        }
                    }
                    assert forall|i: int|
                        0 <= i < self@.v6_banned_ranges.len() implies (
                    #[trigger] self@.v6_banned_ranges[i]).0 <= self@.v6_banned_ranges[i].1 by {
                        assert(self@.v6_banned_ranges[i] == old(self)@.v6_banned_ranges[i]);
                    }
                }
                Ok(fresh)
            },
            (IpAddress::V6(f), IpAddress::V6(t)) => {
                let lower = if f <= t { f } else { t };
                let upper = if f <= t { t } else { f };
                let fresh = !contains_range_u128(&self.v6_banned_ranges, lower, upper);
                self.v6_banned_ranges.push((lower, upper));
                proof {
                    assert forall|i: int|
                        0 <= i < self@.v6_banned_ranges.len() implies (
                    #[trigger] self@.v6_banned_ranges[i]).0 <= self@.v6_banned_ranges[i].1 by {
                        if i < old(self)@.v6_banned_ranges.len() {
                            assert(self@.v6_banned_ranges[i] == old(self)@.v6_banned_ranges[i]);
                        }
                    }
                    assert forall|i: int|
                        0 <= i < self@.v4_banned_ranges.len() implies (
                    #[trigger] self@.v4_banned_ranges[i]).0 <= self@.v4_banned_ranges[i].1 by {
                        assert(self@.v4_banned_ranges[i] == old(self)@.v4_banned_ranges[i]);
                    }
                }
                Ok(fresh)
            },
            _ => Err(String::from_str("Bounds of IP address range must be the same version")),
        }
    }

    /// The admission decision for one address: `true` when it is not
    /// banned (or is explicitly allowed), `false` when it is banned.
    pub fn is_allowed(&self, addr: &IpAddress) -> (r: bool)
        ensures
            r == ip_allowed_spec(self@, *addr),
    {
        match addr {
            IpAddress::V4(a) => {
                if contains_u32(&self.v4_allowed, *a) {
                    return true;
                }
                if contains_u32(&self.v4_banned, *a) {
                    return false;
                }
                let hit = in_range_u32(&self.v4_banned_ranges, *a);
                proof {
                    let rs = self@.v4_banned_ranges;
                    if hit {
                        let i = choose|i: int|
                            0 <= i < rs.len() && (#[trigger] rs[i]).0 <= *a <= rs[i].1;
                        assert((rs[i]).0 <= *a <= rs[i].1);
                    } else {
                        if exists|i: int| 0 <= i < rs.len() && (#[trigger] rs[i]).0 <= *a
                            <= rs[i].1 {
                            let i = choose|i: int|
                                0 <= i < rs.len() && (#[trigger] rs[i]).0 <= *a <= rs[i].1;
                            assert((self.v4_banned_ranges@[i]).0 <= *a
                                <= self.v4_banned_ranges@[i].1);
                        }
                    }
                }
                !hit
            },
            IpAddress::V6(a) => {
                if contains_u128(&self.v6_allowed, *a) {
                    return true;
                }
                if contains_u128(&self.v6_banned, *a) {
                    return false;
                }
                let hit = in_range_u128(&self.v6_banned_ranges, *a);
                proof {
                    let rs = self@.v6_banned_ranges;
                    if hit {
                        let i = choose|i: int|
                            0 <= i < rs.len() && (#[trigger] rs[i]).0 <= *a <= rs[i].1;
                        assert((rs[i]).0 <= *a <= rs[i].1);
                    } else {
                        if exists|i: int| 0 <= i < rs.len() && (#[trigger] rs[i]).0 <= *a
                            <= rs[i].1 {
                            let i = choose|i: int|
                                0 <= i < rs.len() && (#[trigger] rs[i]).0 <= *a <= rs[i].1;
                            assert((self.v6_banned_ranges@[i]).0 <= *a
                                <= self.v6_banned_ranges@[i].1);
                        }
                    }
                }
                !hit
            },
        }
    }
}

/// Membership of a value in a vector of 32-bit addresses.
fn contains_u32(v: &Vec<u32>, x: u32) -> (r: bool)
    ensures
        r == v@.contains(x),
{
    let mut i: usize = 0;
    while i < v.len()
        invariant
            0 <= i <= v@.len(),
            forall|j: int| 0 <= j < i ==> v@[j] != x,
        decreases v@.len() - i,
    {
        if v[i] == x {
            return true;
        }
        i += 1;
    }
    false
}

/// Membership of a value in a vector of 128-bit addresses.
fn contains_u128(v: &Vec<u128>, x: u128) -> (r: bool)
    ensures
        r == v@.contains(x),
{
    let mut i: usize = 0;
    while i < v.len()
        invariant
            0 <= i <= v@.len(),
            forall|j: int| 0 <= j < i ==> v@[j] != x,
        decreases v@.len() - i,
    {
        if v[i] == x {
            return true;
        }
        i += 1;
    }
    false
}

/// Membership of an exact pair in a vector of 32-bit ranges.
fn contains_range_u32(v: &Vec<(u32, u32)>, lo: u32, hi: u32) -> (r: bool)
    ensures
        r == v@.contains((lo, hi)),
{
    let mut i: usize = 0;
    while i < v.len()
        invariant
            0 <= i <= v@.len(),
            forall|j: int| 0 <= j < i ==> v@[j] != (lo, hi),
        decreases v@.len() - i,
    {
        if v[i].0 == lo && v[i].1 == hi {
            return true;
        }
        i += 1;
    }
    false
}

/// Membership of an exact pair in a vector of 128-bit ranges.
fn contains_range_u128(v: &Vec<(u128, u128)>, lo: u128, hi: u128) -> (r: bool)
    ensures
        r == v@.contains((lo, hi)),
{
    let mut i: usize = 0;
    while i < v.len()
        invariant
            0 <= i <= v@.len(),
            forall|j: int| 0 <= j < i ==> v@[j] != (lo, hi),
        decreases v@.len() - i,
    {
        if v[i].0 == lo && v[i].1 == hi {
            return true;
        }
        i += 1;
    }
    false
}

/// Whether some inclusive 32-bit range holds `x`.
fn in_range_u32(v: &Vec<(u32, u32)>, x: u32) -> (r: bool)
    ensures
        r == exists|i: int| 0 <= i < v@.len() && (#[trigger] v@[i]).0 <= x <= v@[i].1,
{
    let mut i: usize = 0;
    while i < v.len()
        invariant
            0 <= i <= v@.len(),
            forall|j: int| 0 <= j < i ==> !((#[trigger] v@[j]).0 <= x <= v@[j].1),
        decreases v@.len() - i,
    {
        if v[i].0 <= x && x <= v[i].1 {
            return true;
        }
        i += 1;
    }
    false
}

/// Whether some inclusive 128-bit range holds `x`.
fn in_range_u128(v: &Vec<(u128, u128)>, x: u128) -> (r: bool)
    ensures
        r == exists|i: int| 0 <= i < v@.len() && (#[trigger] v@[i]).0 <= x <= v@[i].1,
{
    let mut i: usize = 0;
    while i < v.len()
        invariant
            0 <= i <= v@.len(),
            forall|j: int| 0 <= j < i ==> !((#[trigger] v@[j]).0 <= x <= v@[j].1),
        decreases v@.len() - i,
    {
        if v[i].0 <= x && x <= v[i].1 {
            return true;
        }
        i += 1;
    }
    false
}



/// Range normalization depends only on the range collections.
proof fn lemma_wf_from_ranges(a: IpFilterView, b: IpFilterView)
    requires
        a.v4_banned_ranges == b.v4_banned_ranges,
        a.v6_banned_ranges == b.v6_banned_ranges,
        forall|i: int|
            0 <= i < a.v4_banned_ranges.len() ==> (#[trigger] a.v4_banned_ranges[i]).0
                <= a.v4_banned_ranges[i].1,
        forall|i: int|
            0 <= i < a.v6_banned_ranges.len() ==> (#[trigger] a.v6_banned_ranges[i]).0
                <= a.v6_banned_ranges[i].1,
    ensures
        forall|i: int|
            0 <= i < b.v4_banned_ranges.len() ==> (#[trigger] b.v4_banned_ranges[i]).0
                <= b.v4_banned_ranges[i].1,
        forall|i: int|
            0 <= i < b.v6_banned_ranges.len() ==> (#[trigger] b.v6_banned_ranges[i]).0
                <= b.v6_banned_ranges[i].1,
{
}

/// Appends every element of `src` to `dst`.
fn append_all<T: Copy>(dst: &mut Vec<T>, src: &Vec<T>)
    ensures
        final(dst)@ == old(dst)@ + src@,
{
    let mut i: usize = 0;
    proof {
        assert(old(dst)@ + src@.take(0) =~= old(dst)@);
    }
    while i < src.len()
        invariant
            0 <= i <= src@.len(),
            dst@ == old(dst)@ + src@.take(i as int),
        decreases src@.len() - i,
    {
        let x = src[i];
        dst.push(x);
        proof {
            assert(old(dst)@ + src@.take(i as int + 1) =~= (old(dst)@ + src@.take(i as int)).push(
                src@[i as int],
            ));
        }
        i += 1;
    }
    proof {
        assert(src@.take(src@.len() as int) =~= src@);
        assert(dst@ =~= old(dst)@ + src@);
    }
}


/// What one `ip` sub-command line does to a configuration: the new
/// value on success, `None` on a syntax error. The line is `allow
/// <addr>`, `ban <addr>` or `ban-range <from> <to>`.
#[verifier::opaque]
pub open spec fn ip_line_effect(v: IpFilterView, line: Seq<u8>) -> Option<IpFilterView> {
    let t = trim(line);
    let cmd = first_token(t);
    let arg = rest_after_token(t);
    if cmd == bytes_of("allow") {
        match parse_ip(arg) {
            Some(IpAddress::V4(a)) => Some(IpFilterView { v4_allowed: v.v4_allowed.push(a), ..v }),
            Some(IpAddress::V6(a)) => Some(IpFilterView { v6_allowed: v.v6_allowed.push(a), ..v }),
            None => None,
        }
    } else if cmd == bytes_of("ban") {
        match parse_ip(arg) {
            Some(IpAddress::V4(a)) => Some(IpFilterView { v4_banned: v.v4_banned.push(a), ..v }),
            Some(IpAddress::V6(a)) => Some(IpFilterView { v6_banned: v.v6_banned.push(a), ..v }),
            None => None,
        }
    } else if cmd == bytes_of("ban-range") {
        let from_tok = first_token(arg);
        let to_tok = rest_after_token(arg);
        match (parse_ip(from_tok), parse_ip(to_tok)) {
            (Some(IpAddress::V4(f)), Some(IpAddress::V4(t2))) => Some(
                IpFilterView {
                    v4_banned_ranges: v.v4_banned_ranges.push(
                        (if f <= t2 { f } else { t2 }, if f <= t2 { t2 } else { f }),
                    ),
                    ..v
                },
            ),
            (Some(IpAddress::V6(f)), Some(IpAddress::V6(t2))) => Some(
                IpFilterView {
                    v6_banned_ranges: v.v6_banned_ranges.push(
                        (if f <= t2 { f } else { t2 }, if f <= t2 { t2 } else { f }),
                    ),
                    ..v
                },
            ),
            _ => None,
        }
    } else {
        None
    }
}

impl IpFilteringConfig {
    /// Processes one `ip` sub-command line of a configuration file:
    /// `allow <addr>`, `ban <addr>` or `ban-range <from> <to>`. On a
    /// syntax error the configuration is unchanged and the description
    /// says what was wrong.
    pub fn process_line(&mut self, line: &[u8]) -> (r: Result<(), String>)
        requires
            old(self).wf(),
        ensures
            final(self).wf(),
            match r {
                Ok(()) => ip_line_effect(old(self)@, line@) == Some(final(self)@),
                Err(_) => ip_line_effect(old(self)@, line@) is None && final(self)@ == old(
                    self,
                )@,
            },
    {
        proof {
            reveal(ip_line_effect);
        }
        let t = crate::strings::trim_bytes(line);
        let (cmd, arg) = crate::strings::split_first_token(t.as_slice());
        if crate::strings::is_keyword(cmd.as_slice(), "allow") {
            match parse_ip_exec(arg.as_slice()) {
                Some(addr) => {
                    self.allow(addr);
                    Ok(())
                },
                None => Err(String::from_str("An IP address was expected after `ip allow`")),
            }
        } else if crate::strings::is_keyword(cmd.as_slice(), "ban") {
            match parse_ip_exec(arg.as_slice()) {
                Some(addr) => {
                    self.ban(addr);
                    Ok(())
                },
                None => Err(String::from_str("An IP address was expected after `ip ban`")),
            }
        } else if crate::strings::is_keyword(cmd.as_slice(), "ban-range") {
            let (from_tok, to_tok) = crate::strings::split_first_token(arg.as_slice());
            let from = parse_ip_exec(from_tok.as_slice());
            let to = parse_ip_exec(to_tok.as_slice());
            match (from, to) {
                (Some(IpAddress::V4(f)), Some(IpAddress::V4(t2))) => {
                    let res = self.ban_range(IpAddress::V4(f), IpAddress::V4(t2));
                    proof {
                        assert(res is Ok);
                    }
                    Ok(())
                },
                (Some(IpAddress::V6(f)), Some(IpAddress::V6(t2))) => {
                    let res = self.ban_range(IpAddress::V6(f), IpAddress::V6(t2));
                    proof {
                        assert(res is Ok);
                    }
                    Ok(())
                },
                _ => Err(
                    String::from_str(
                        "Two IP addresses of one family were expected after `ip ban-range`",
                    ),
                ),
            }
        } else {
            Err(String::from_str("Unknown `ip` sub-command"))
        }
    }
}


/// A byte an address literal may hold: a decimal or lowercase-hex
/// digit, or one of `.`, `:`, `[`, `]`. None of them is whitespace.
pub open spec fn addr_byte(b: u8) -> bool {
    (48 <= b <= 57) || (97 <= b <= 102) || b == 46 || b == 58 || b == 91 || b == 93
}

/// Byte classes are closed under concatenation.
pub proof fn lemma_byte_class_concat(a: Seq<u8>, b: Seq<u8>, p: spec_fn(u8) -> bool)
    requires
        forall|j: int| 0 <= j < a.len() ==> p(#[trigger] a[j]),
        forall|j: int| 0 <= j < b.len() ==> p(#[trigger] b[j]),
    ensures
        forall|j: int| 0 <= j < (a + b).len() ==> p(#[trigger] (a + b)[j]),
{
    assert forall|j: int| 0 <= j < (a + b).len() implies p(#[trigger] (a + b)[j]) by {
        if j < a.len() {
            assert((a + b)[j] == a[j]);
        } else {
            assert((a + b)[j] == b[j - a.len()]);
        }
    }
}

/// Every byte of a dotted quad is a digit or a dot, and it is nonempty.
pub proof fn lemma_fmt_ipv4_bytes(a: u32)
    ensures
        forall|j: int|
            0 <= j < fmt_ipv4(a).len() ==> (48 <= #[trigger] fmt_ipv4(a)[j] <= 57 || fmt_ipv4(
                a,
            )[j] == 46),
        fmt_ipv4(a).len() > 0,
{
    lemma_octets_reassemble(a);
    let p = |b: u8| 48 <= b <= 57 || b == 46;
    let o1 = ((a >> 24) & 0xff) as int;
    let o2 = ((a >> 16) & 0xff) as int;
    let o3 = ((a >> 8) & 0xff) as int;
    let o4 = (a & 0xff) as int;
    lemma_octet_round(o1);
    lemma_octet_round(o2);
    lemma_octet_round(o3);
    lemma_octet_round(o4);
    let dot = seq![46u8];
    assert(p(dot[0]));
    lemma_byte_class_concat(fmt_octet(o1), dot, p);
    lemma_byte_class_concat(fmt_octet(o1) + dot, fmt_octet(o2), p);
    lemma_byte_class_concat(fmt_octet(o1) + dot + fmt_octet(o2), dot, p);
    lemma_byte_class_concat(fmt_octet(o1) + dot + fmt_octet(o2) + dot, fmt_octet(o3), p);
    lemma_byte_class_concat(fmt_octet(o1) + dot + fmt_octet(o2) + dot + fmt_octet(o3), dot, p);
    lemma_byte_class_concat(
        fmt_octet(o1) + dot + fmt_octet(o2) + dot + fmt_octet(o3) + dot,
        fmt_octet(o4),
        p,
    );
}

/// Every byte of a run of groups is a hex digit or a colon.
pub proof fn lemma_fmt_groups_bytes(gs: Seq<u16>)
    ensures
        forall|j: int|
            0 <= j < fmt_groups(gs).len() ==> (48 <= #[trigger] fmt_groups(gs)[j] <= 57 || 97
                <= fmt_groups(gs)[j] <= 102 || fmt_groups(gs)[j] == 58),
    decreases gs.len(),
{
    let p = |b: u8| 48 <= b <= 57 || 97 <= b <= 102 || b == 58;
    if gs.len() == 0 {
    } else if gs.len() == 1 {
        lemma_group_round(gs[0]);
    } else {
        lemma_group_round(gs[0]);
        lemma_fmt_groups_bytes(gs.drop_first());
        let colon = seq![58u8];
        assert(p(colon[0]));
        lemma_byte_class_concat(fmt_group(gs[0]), colon, p);
        lemma_byte_class_concat(fmt_group(gs[0]) + colon, fmt_groups(gs.drop_first()), p);
        assert(fmt_groups(gs) == fmt_group(gs[0]) + colon + fmt_groups(gs.drop_first()));
    }
}

/// Every byte of an address literal of either family is an address
/// byte, and the literal is nonempty.
pub proof fn lemma_fmt_ip_bytes(addr: IpAddress)
    ensures
        forall|j: int| 0 <= j < fmt_ip(addr).len() ==> addr_byte(#[trigger] fmt_ip(addr)[j]),
        fmt_ip(addr).len() > 0,
{
    match addr {
        IpAddress::V4(a) => {
            lemma_fmt_ipv4_bytes(a);
        },
        IpAddress::V6(a) => {
            lemma_fmt_groups_bytes(groups_of(a));
            lemma_group_round(groups_of(a)[0]);
            assert(fmt_ipv6(a) == fmt_group(groups_of(a)[0]) + seq![58u8] + fmt_groups(
                groups_of(a).drop_first(),
            ));
        },
    }
}


/// Appends the decimal text of one octet.
fn append_octet(out: &mut Vec<u8>, n: u8)
    ensures
        final(out)@ == old(out)@ + fmt_octet(n as int),
{
    if n >= 100 {
        out.push(48 + n / 100);
        out.push(48 + (n / 10) % 10);
        out.push(48 + n % 10);
    } else if n >= 10 {
        out.push(48 + n / 10);
        out.push(48 + n % 10);
    } else {
        out.push(48 + n);
    }
    proof {
        assert(out@ =~= old(out)@ + fmt_octet(n as int));
    }
}

/// Writes the dotted-quad text of an IPv4 address.
pub fn append_ipv4(out: &mut Vec<u8>, a: u32)
    ensures
        final(out)@ == old(out)@ + fmt_ipv4(a),
{
    proof {
        lemma_octets_reassemble(a);
    }
    append_octet(out, ((a >> 24) & 0xff) as u8);
    out.push(46);
    append_octet(out, ((a >> 16) & 0xff) as u8);
    out.push(46);
    append_octet(out, ((a >> 8) & 0xff) as u8);
    out.push(46);
    append_octet(out, (a & 0xff) as u8);
    proof {
        assert(out@ =~= old(out)@ + fmt_ipv4(a));
    }
}

/// Appends the lowercase hex text of one group.
fn append_group(out: &mut Vec<u8>, n: u16)
    ensures
        final(out)@ == old(out)@ + fmt_group(n),
{
    if n >= 0x1000 {
        out.push(hex_of(n / 0x1000));
        out.push(hex_of(n / 0x100));
        out.push(hex_of(n / 0x10));
        out.push(hex_of(n));
    } else if n >= 0x100 {
        out.push(hex_of(n / 0x100));
        out.push(hex_of(n / 0x10));
        out.push(hex_of(n));
    } else if n >= 0x10 {
        out.push(hex_of(n / 0x10));
        out.push(hex_of(n));
    } else {
        out.push(hex_of(n));
    }
    proof {
        assert(out@ =~= old(out)@ + fmt_group(n));
    }
}

/// The lowercase hex digit byte for the low digit of `x`.
fn hex_of(x: u16) -> (r: u8)
    ensures
        r == hexdig16(x as int),
{
    let d = (x % 16) as u8;
    if d < 10 {
        48 + d
    } else {
        87 + d
    }
}

/// The full-form IPv6 text, written out group by group.
#[verifier::rlimit(100)]
proof fn lemma_fmt_ipv6_unrolled(a: u128)
    ensures
        fmt_ipv6(a) == (fmt_group(((a >> 112) & 0xffff) as u16) + seq![58u8]) + ((fmt_group(
            ((a >> 96) & 0xffff) as u16,
        ) + seq![58u8]) + ((fmt_group(((a >> 80) & 0xffff) as u16) + seq![58u8]) + ((fmt_group(
            ((a >> 64) & 0xffff) as u16,
        ) + seq![58u8]) + ((fmt_group(((a >> 48) & 0xffff) as u16) + seq![58u8]) + ((fmt_group(
            ((a >> 32) & 0xffff) as u16,
        ) + seq![58u8]) + ((fmt_group(((a >> 16) & 0xffff) as u16) + seq![58u8]) + fmt_group(
            (a & 0xffff) as u16,
        ))))))),
{
    let gs = groups_of(a);
    let g0 = ((a >> 112) & 0xffff) as u16;
    let g1 = ((a >> 96) & 0xffff) as u16;
    let g2 = ((a >> 80) & 0xffff) as u16;
    let g3 = ((a >> 64) & 0xffff) as u16;
    let g4 = ((a >> 48) & 0xffff) as u16;
    let g5 = ((a >> 32) & 0xffff) as u16;
    let g6 = ((a >> 16) & 0xffff) as u16;
    let g7 = (a & 0xffff) as u16;
    let t7 = seq![g7];
    let t6 = seq![g6, g7];
    let t5 = seq![g5, g6, g7];
    let t4 = seq![g4, g5, g6, g7];
    let t3 = seq![g3, g4, g5, g6, g7];
    let t2 = seq![g2, g3, g4, g5, g6, g7];
    let t1 = seq![g1, g2, g3, g4, g5, g6, g7];
    assert(gs.drop_first() =~= t1);
    assert(t1.drop_first() =~= t2);
    assert(t2.drop_first() =~= t3);
    assert(t3.drop_first() =~= t4);
    assert(t4.drop_first() =~= t5);
    assert(t5.drop_first() =~= t6);
    assert(t6.drop_first() =~= t7);
    assert(fmt_groups(t7) == fmt_group(g7));
    assert(fmt_groups(t6) == (fmt_group(g6) + seq![58u8]) + fmt_groups(t7));
    assert(fmt_groups(t5) == (fmt_group(g5) + seq![58u8]) + fmt_groups(t6));
    assert(fmt_groups(t4) == (fmt_group(g4) + seq![58u8]) + fmt_groups(t5));
    assert(fmt_groups(t3) == (fmt_group(g3) + seq![58u8]) + fmt_groups(t4));
    assert(fmt_groups(t2) == (fmt_group(g2) + seq![58u8]) + fmt_groups(t3));
    assert(fmt_groups(t1) == (fmt_group(g1) + seq![58u8]) + fmt_groups(t2));
    assert(fmt_groups(gs) == (fmt_group(g0) + seq![58u8]) + fmt_groups(t1));
}

/// Writes the full-form text of an IPv6 address.
#[verifier::spinoff_prover]
#[verifier::rlimit(100)]
pub fn append_ipv6(out: &mut Vec<u8>, a: u128)
    ensures
        final(out)@ == old(out)@ + fmt_ipv6(a),
{
    proof {
        lemma_fmt_ipv6_unrolled(a);
    }
    let g0 = ((a >> 112) & 0xffff) as u16;
    let g1 = ((a >> 96) & 0xffff) as u16;
    let g2 = ((a >> 80) & 0xffff) as u16;
    let g3 = ((a >> 64) & 0xffff) as u16;
    let g4 = ((a >> 48) & 0xffff) as u16;
    let g5 = ((a >> 32) & 0xffff) as u16;
    let g6 = ((a >> 16) & 0xffff) as u16;
    let g7 = (a & 0xffff) as u16;
    append_group(out, g0);
    out.push(58);
    append_group(out, g1);
    out.push(58);
    append_group(out, g2);
    out.push(58);
    append_group(out, g3);
    out.push(58);
    append_group(out, g4);
    out.push(58);
    append_group(out, g5);
    out.push(58);
    append_group(out, g6);
    out.push(58);
    append_group(out, g7);
    proof {
        assert(out@ =~= old(out)@ + fmt_ipv6(a));
    }
}

/// Writes the text of an IP address of either family.
pub fn append_ip(out: &mut Vec<u8>, addr: &IpAddress)
    ensures
        final(out)@ == old(out)@ + fmt_ip(*addr),
{
    match addr {
        IpAddress::V4(a) => append_ipv4(out, *a),
        IpAddress::V6(a) => append_ipv6(out, *a),
    }
}


impl IpFilteringConfig {
    /// The explicitly allowed IPv4 addresses.
    pub fn v4_allowed_list(&self) -> (r: &Vec<u32>)
        ensures
            r@ == self@.v4_allowed,
    {
        &self.v4_allowed
    }

    /// The banned IPv4 addresses.
    pub fn v4_banned_list(&self) -> (r: &Vec<u32>)
        ensures
            r@ == self@.v4_banned,
    {
        &self.v4_banned
    }

    /// The banned IPv4 ranges, normalized.
    pub fn v4_banned_range_list(&self) -> (r: &Vec<(u32, u32)>)
        ensures
            r@ == self@.v4_banned_ranges,
    {
        &self.v4_banned_ranges
    }

    /// The explicitly allowed IPv6 addresses.
    pub fn v6_allowed_list(&self) -> (r: &Vec<u128>)
        ensures
            r@ == self@.v6_allowed,
    {
        &self.v6_allowed
    }

    /// The banned IPv6 addresses.
    pub fn v6_banned_list(&self) -> (r: &Vec<u128>)
        ensures
            r@ == self@.v6_banned,
    {
        &self.v6_banned
    }

    /// The banned IPv6 ranges, normalized.
    pub fn v6_banned_range_list(&self) -> (r: &Vec<(u128, u128)>)
        ensures
            r@ == self@.v6_banned_ranges,
    {
        &self.v6_banned_ranges
    }
}

} // verus!
