//! IP address literals: dotted-quad IPv4 and colon-hex IPv6 (with one `::`
//! and an optional dotted-quad tail), parsed into their numeric parts.

use vstd::prelude::*;
use crate::text::{
    all_digits, dec, push_char, push_u64, digits_value, find_from, find_sub, lemma_find_from, seqs_of, slice_chars,
    split_chars, split_on, take_chars,
};

verus! {

/// A hexadecimal digit.
pub open spec fn is_hex(c: char) -> bool {
    ('0' <= c && c <= '9') || ('a' <= c && c <= 'f') || ('A' <= c && c <= 'F')
}

/// The value of a hexadecimal digit.
pub open spec fn hex_val(c: char) -> int {
    if '0' <= c && c <= '9' {
        c as int - 48
    } else if 'a' <= c && c <= 'f' {
        c as int - 87
    } else {
        c as int - 55
    }
}

/// The value of a run of hexadecimal digits.
pub open spec fn hex_value(s: Seq<char>) -> int
    decreases s.len(),
{
    if s.len() == 0 {
        0
    } else {
        hex_value(s.drop_last()) * 16 + hex_val(s.last())
    }
}

/// One IPv4 part: one to three decimal digits, no leading zero (except `0`
/// itself), at most 255.
pub open spec fn dec_octet(s: Seq<char>) -> bool {
    1 <= s.len() <= 3 && all_digits(s) && (s.len() == 1 || s[0] != '0') && digits_value(s) <= 255
}

/// One IPv6 group: one to four hexadecimal digits.
pub open spec fn hex_group(s: Seq<char>) -> bool {
    1 <= s.len() <= 4 && forall|i: int| 0 <= i < s.len() ==> is_hex(#[trigger] s[i])
}

/// The four octets of a dotted-quad IPv4 literal.
pub open spec fn ipv4_parts(s: Seq<char>) -> Option<Seq<int>> {
    let ps = split_on(s, '.');
    if ps.len() == 4 && dec_octet(ps[0]) && dec_octet(ps[1]) && dec_octet(ps[2]) && dec_octet(
        ps[3],
    ) {
        Some(
            seq![
                digits_value(ps[0]),
                digits_value(ps[1]),
                digits_value(ps[2]),
                digits_value(ps[3]),
            ],
        )
    } else {
        None
    }
}

/// All of `ps` are IPv6 groups.
pub open spec fn all_hex_groups(ps: Seq<Seq<char>>) -> bool {
    forall|i: int| 0 <= i < ps.len() ==> hex_group(#[trigger] ps[i])
}

/// The values of a list of IPv6 groups.
pub open spec fn group_values(ps: Seq<Seq<char>>) -> Seq<int> {
    ps.map_values(|g: Seq<char>| hex_value(g))
}

/// The 16-bit values of a `:`-separated run of groups; when `tail_v4`, the
/// last piece may be a dotted-quad literal, standing for two groups. An
/// empty run has no groups.
pub open spec fn group_run(s: Seq<char>, tail_v4: bool) -> Option<Seq<int>> {
    if s.len() == 0 {
        Some(Seq::<int>::empty())
    } else {
        let ps = split_on(s, ':');
        let last = ps.last();
        if tail_v4 && last.contains('.') {
            match ipv4_parts(last) {
                Some(o) => if all_hex_groups(ps.drop_last()) {
                    Some(
                        group_values(ps.drop_last()) + seq![o[0] * 256 + o[1], o[2] * 256 + o[3]],
                    )
                } else {
                    None
                },
                None => None,
            }
        } else if all_hex_groups(ps) {
            Some(group_values(ps))
        } else {
            None
        }
    }
}

/// `::`.
pub open spec fn double_colon() -> Seq<char> {
    seq![':', ':']
}

/// The eight groups of an IPv6 literal: either eight groups, or groups on
/// both sides of a single `::` that stands for at least one zero group. A
/// dotted-quad may close the literal.
pub open spec fn ipv6_parts(s: Seq<char>) -> Option<Seq<int>> {
    let k = find_from(s, double_colon(), 0);
    if k < 0 {
        match group_run(s, true) {
            Some(g) => if s.len() > 0 && g.len() == 8 {
                Some(g)
            } else {
                None
            },
            None => None,
        }
    } else {
        let left = s.take(k);
        let right = s.skip(k + 2);
        if find_from(right, double_colon(), 0) >= 0 {
            None
        } else {
            match (group_run(left, false), group_run(right, true)) {
                (Some(a), Some(b)) => if a.len() + b.len() <= 7 {
                    Some(a + Seq::new((8 - a.len() - b.len()) as nat, |i: int| 0int) + b)
                } else {
                    None
                },
                _ => None,
            }
        }
    }
}

/// The numeric parts of an IP literal: `(false, four octets)` for IPv4,
/// `(true, eight groups)` for IPv6.
pub open spec fn ip_literal(s: Seq<char>) -> Option<(bool, Seq<int>)> {
    match ipv4_parts(s) {
        Some(o) => Some((false, o)),
        None => match ipv6_parts(s) {
            Some(g) => Some((true, g)),
            None => None,
        },
    }
}

/// A parsed IP literal.
pub struct IpAddrValue {
    /// IPv6 (eight groups) rather than IPv4 (four octets).
    pub v6: bool,
    /// The octets or groups.
    pub parts: Vec<u32>,
}

/// The integer view of a parts vector.
pub open spec fn parts_view(v: Seq<u32>) -> Seq<int> {
    v.map_values(|x: u32| x as int)
}

fn dec_octet_exec(s: &[char]) -> (r: Option<u32>)
    ensures
        match r {
            Some(v) => dec_octet(s@) && v as int == digits_value(s@),
            None => !dec_octet(s@),
        },
{
    if s.len() < 1 || s.len() > 3 {
        return None;
    }
    if s.len() > 1 && s[0] == '0' {
        return None;
    }
    let mut v: u32 = 0;
    let mut i: usize = 0;
    while i < s.len()
        invariant
            i <= s@.len() <= 3,
            all_digits(s@.take(i as int)),
            v as int == digits_value(s@.take(i as int)),
            v < 1000,
        decreases s.len() - i,
    {
        let c = s[i];
        if !('0' <= c && c <= '9') {
            assert(!all_digits(s@));
            return None;
        }
        assert(s@.take(i as int + 1).drop_last() =~= s@.take(i as int));
        proof {
            if i >= 1 {
                assert(v < 100) by {
                    lemma_digits_small(s@.take(i as int));
                }
            }
        }
        v = v * 10 + (c as u32 - 48);
        i = i + 1;
    }
    assert(s@.take(s@.len() as int) =~= s@);
    if v > 255 {
        return None;
    }
    Some(v)
}

proof fn lemma_digits_small(s: Seq<char>)
    requires
        all_digits(s),
        s.len() <= 2,
    ensures
        0 <= digits_value(s) < 100,
    decreases s.len(),
{
    if s.len() > 0 {
        let d = s.drop_last();
        assert(all_digits(d)) by {
            assert forall|i: int| 0 <= i < d.len() implies crate::text::is_digit(#[trigger] d[i]) by {
                assert(d[i] == s[i]);
            }
        }
        lemma_digits_small(d);
        assert(crate::text::is_digit(s[s.len() - 1]));
        if d.len() == 1 {
            assert(crate::text::is_digit(d[0]));
            assert(d.drop_last().len() == 0);
            assert(d.drop_last() =~= Seq::<char>::empty());
            assert(digits_value(d.drop_last()) == 0);
            assert(digits_value(d) == d.last() as int - 48);
        }
    }
}

fn ipv4_exec(s: &[char]) -> (r: Option<Vec<u32>>)
    ensures
        match r {
            Some(v) => ipv4_parts(s@) == Some(parts_view(v@)),
            None => ipv4_parts(s@) is None,
        },
{
    let ps = split_chars(s, '.');
    if ps.len() != 4 {
        return None;
    }
    let a = dec_octet_exec(ps[0].as_slice());
    let b = dec_octet_exec(ps[1].as_slice());
    let c = dec_octet_exec(ps[2].as_slice());
    let d = dec_octet_exec(ps[3].as_slice());
    match (a, b, c, d) {
        (Some(a), Some(b), Some(c), Some(d)) => {
            let v = vec![a, b, c, d];
            assert(parts_view(v@) =~= seq![
                digits_value(ps@[0]@),
                digits_value(ps@[1]@),
                digits_value(ps@[2]@),
                digits_value(ps@[3]@),
            ]);
            Some(v)
        },
        _ => None,
    }
}

fn hex_group_exec(s: &[char]) -> (r: Option<u32>)
    ensures
        match r {
            Some(v) => hex_group(s@) && v as int == hex_value(s@),
            None => !hex_group(s@),
        },
{
    if s.len() < 1 || s.len() > 4 {
        return None;
    }
    let mut v: u32 = 0;
    let mut i: usize = 0;
    while i < s.len()
        invariant
            i <= s@.len() <= 4,
            forall|j: int| 0 <= j < i ==> is_hex(#[trigger] s@[j]),
            v as int == hex_value(s@.take(i as int)),
            0 <= hex_value(s@.take(i as int)) < pow16(i as nat),
        decreases s.len() - i,
    {
        let c = s[i];
        let d: u32 = if '0' <= c && c <= '9' {
            c as u32 - 48
        } else if 'a' <= c && c <= 'f' {
            c as u32 - 87
        } else if 'A' <= c && c <= 'F' {
            c as u32 - 55
        } else {
            return None;
        };
        assert(s@.take(i as int + 1).drop_last() =~= s@.take(i as int));
        assert(pow16(i as nat + 1) == pow16(i as nat) * 16);
        assert(pow16(i as nat) <= 4096) by {
            lemma_pow16_small(i as nat);
        }
        v = v * 16 + d;
        i = i + 1;
    }
    assert(s@.take(s@.len() as int) =~= s@);
    Some(v)
}

/// `16^n`.
pub open spec fn pow16(n: nat) -> int
    decreases n,
{
    if n == 0 {
        1
    } else {
        pow16((n - 1) as nat) * 16
    }
}

proof fn lemma_pow16_small(n: nat)
    requires
        n <= 3,
    ensures
        pow16(n) <= 4096,
{
    assert(pow16(0) == 1);
    assert(pow16(1) == 16);
    assert(pow16(2) == 256);
    assert(pow16(3) == 4096);
}

fn contains_dot(s: &[char]) -> (r: bool)
    ensures
        r == s@.contains('.'),
{
    crate::text::contains_char(s, '.')
}

fn group_run_exec(s: &[char], tail_v4: bool) -> (r: Option<Vec<u32>>)
    ensures
        match r {
            Some(v) => group_run(s@, tail_v4) == Some(parts_view(v@)),
            None => group_run(s@, tail_v4) is None,
        },
{
    if s.len() == 0 {
        let v: Vec<u32> = Vec::new();
        assert(parts_view(v@) =~= Seq::<int>::empty());
        return Some(v);
    }
    let ps = split_chars(s, ':');
    let n = ps.len();
    let last_is_v4 = tail_v4 && contains_dot(ps[n - 1].as_slice());
    let groups_end: usize = if last_is_v4 {
        n - 1
    } else {
        n
    };
    let mut out: Vec<u32> = Vec::new();
    let mut i: usize = 0;
    assert(seqs_of(ps@).last() == ps@[n - 1]@);
    while i < groups_end
        invariant
            i <= groups_end <= ps@.len(),
            ps@.len() == n,
            n >= 1,
            groups_end as int == (if last_is_v4 {
                n - 1
            } else {
                n as int
            }),
            last_is_v4 == (tail_v4 && seqs_of(ps@).last().contains('.')),
            s@.len() > 0,
            seqs_of(ps@) == split_on(s@, ':'),
            forall|j: int| 0 <= j < i ==> hex_group(#[trigger] seqs_of(ps@)[j]),
            parts_view(out@) == group_values(seqs_of(ps@).take(i as int)),
        decreases groups_end - i,
    {
        match hex_group_exec(ps[i].as_slice()) {
            Some(g) => {
                let ghost prev = parts_view(out@);
                out.push(g);
                assert(parts_view(out@) =~= prev.push(g as int));
                assert(seqs_of(ps@).take(i as int + 1) =~= seqs_of(ps@).take(i as int).push(
                    seqs_of(ps@)[i as int],
                ));
                assert(parts_view(out@) =~= group_values(seqs_of(ps@).take(i as int + 1)));
            },
            None => {
                assert(!hex_group(seqs_of(ps@)[i as int]));
                proof {
                    if last_is_v4 {
                        assert(seqs_of(ps@).drop_last()[i as int] == seqs_of(ps@)[i as int]);
                        assert(!all_hex_groups(seqs_of(ps@).drop_last()));
                    } else {
                        assert(!all_hex_groups(seqs_of(ps@)));
                    }
                }
                return None;
            },
        }
        i = i + 1;
    }
    if last_is_v4 {
        let ghost front = seqs_of(ps@).drop_last();
        assert(seqs_of(ps@).take(i as int) =~= front);
        assert(all_hex_groups(front));
        match ipv4_exec(ps[n - 1].as_slice()) {
            Some(o) => {
                assert(parts_view(o@).len() == 4);
                assert(o@.len() == 4);
                assert(dec_octet(split_on(ps@[n - 1]@, '.')[0]));
                assert(parts_view(o@)[0] <= 255 && parts_view(o@)[1] <= 255 && parts_view(o@)[2]
                    <= 255 && parts_view(o@)[3] <= 255);
                assert(o@[0] <= 255 && o@[1] <= 255 && o@[2] <= 255 && o@[3] <= 255);
                let hi = o[0] * 256 + o[1];
                let lo = o[2] * 256 + o[3];
                out.push(hi);
                out.push(lo);
                assert(parts_view(out@) =~= group_values(front) + seq![
                    o@[0] * 256 + o@[1],
                    o@[2] * 256 + o@[3],
                ]);
                Some(out)
            },
            None => None,
        }
    } else {
        assert(seqs_of(ps@).take(i as int) =~= seqs_of(ps@));
        Some(out)
    }
}

fn ipv6_exec(s: &[char]) -> (r: Option<Vec<u32>>)
    ensures
        match r {
            Some(v) => ipv6_parts(s@) == Some(parts_view(v@)),
            None => ipv6_parts(s@) is None,
        },
{
    let dc = [':', ':'];
    assert(dc@ =~= double_colon());
    proof {
        lemma_find_from(s@, dc@, 0);
    }
    match find_sub(s, &dc) {
        None => {
            match group_run_exec(s, true) {
                Some(g) => if s.len() > 0 && g.len() == 8 {
                    Some(g)
                } else {
                    None
                },
                None => None,
            }
        },
        Some(k) => {
            assert(k + 2 <= s.len());
            let left = take_chars(s, k);
            let right = slice_chars(s, k + 2, s.len());
            assert(right@ =~= s@.skip(k + 2));
            if find_sub(right.as_slice(), &dc).is_some() {
                return None;
            }
            let a = match group_run_exec(left.as_slice(), false) {
                Some(a) => a,
                None => return None,
            };
            let b = match group_run_exec(right.as_slice(), true) {
                Some(b) => b,
                None => return None,
            };
            if a.len() > 7 || b.len() > 7 || a.len() + b.len() > 7 {
                return None;
            }
            let zeros = 8 - a.len() - b.len();
            let mut out: Vec<u32> = a;
            let ghost av = parts_view(out@);
            let mut z: usize = 0;
            while z < zeros
                invariant
                    z <= zeros,
                    parts_view(out@) == av + Seq::new(z as nat, |i: int| 0int),
                decreases zeros - z,
            {
                let ghost prev = parts_view(out@);
                out.push(0);
                assert(parts_view(out@) =~= prev.push(0int));
                assert(parts_view(out@) =~= av + Seq::new(z as nat + 1, |i: int| 0int));
                z = z + 1;
            }
            let mut j: usize = 0;
            let ghost mid = parts_view(out@);
            while j < b.len()
                invariant
                    j <= b@.len(),
                    parts_view(out@) == mid + parts_view(b@).take(j as int),
                decreases b.len() - j,
            {
                let ghost prev = parts_view(out@);
                out.push(b[j]);
                assert(parts_view(out@) =~= prev.push(b@[j as int] as int));
                assert(parts_view(out@) =~= mid + parts_view(b@).take(j as int + 1));
                j = j + 1;
            }
            assert(parts_view(b@).take(b@.len() as int) =~= parts_view(b@));
            Some(out)
        },
    }
}

/// Parses an IP literal (see [`ip_literal`]).
pub fn parse_ip_literal(s: &[char]) -> (r: Option<IpAddrValue>)
    ensures
        match r {
            Some(ip) => ip_literal(s@) == Some((ip.v6, parts_view(ip.parts@))),
            None => ip_literal(s@) is None,
        },
{
    match ipv4_exec(s) {
        Some(o) => Some(IpAddrValue { v6: false, parts: o }),
        None => match ipv6_exec(s) {
            Some(g) => Some(IpAddrValue { v6: true, parts: g }),
            None => None,
        },
    }
}

/// An address of this machine or of no machine: loopback (127/8, `::1`),
/// unspecified (`0.0.0.0`, `::`) or link-local (169.254/16, fe80::/10).
pub open spec fn local_only(v6: bool, p: Seq<int>) -> bool {
    if !v6 {
        p[0] == 127 || (p[0] == 0 && p[1] == 0 && p[2] == 0 && p[3] == 0) || (p[0] == 169 && p[1]
            == 254)
    } else {
        (p[0] == 0 && p[1] == 0 && p[2] == 0 && p[3] == 0 && p[4] == 0 && p[5] == 0 && p[6] == 0
            && (p[7] == 1 || p[7] == 0)) || (0xfe80 <= p[0] && p[0] <= 0xfebf)
    }
}

proof fn lemma_ip_literal_len(s: Seq<char>)
    ensures
        match ip_literal(s) {
            Some((v6, p)) => (v6 ==> p.len() == 8) && (!v6 ==> p.len() == 4),
            None => true,
        },
{
    match ipv6_parts(s) {
        Some(g) => {
            let k = find_from(s, double_colon(), 0);
            if k >= 0 {
                match (group_run(s.take(k), false), group_run(s.skip(k + 2), true)) {
                    (Some(a), Some(b)) => {
                        assert((a + Seq::new((8 - a.len() - b.len()) as nat, |i: int| 0int)
                            + b).len() == 8);
                    },
                    _ => {},
                }
            }
        },
        None => {},
    }
}

/// Whether a parsed address is loopback, unspecified or link-local.
pub fn is_local_only(ip: &IpAddrValue, s: &[char]) -> (r: bool)
    requires
        ip_literal(s@) == Some((ip.v6, parts_view(ip.parts@))),
    ensures
        r == local_only(ip.v6, parts_view(ip.parts@)),
{
    proof {
        lemma_ip_literal_len(s@);
    }
    let p = &ip.parts;
    if !ip.v6 {
        p[0] == 127 || (p[0] == 0 && p[1] == 0 && p[2] == 0 && p[3] == 0) || (p[0] == 169 && p[1]
            == 254)
    } else {
        (p[0] == 0 && p[1] == 0 && p[2] == 0 && p[3] == 0 && p[4] == 0 && p[5] == 0 && p[6] == 0
            && (p[7] == 1 || p[7] == 0)) || (0xfe80 <= p[0] && p[0] <= 0xfebf)
    }
}


// ---------------------------------------------------------------------------
// The machine's LAN addresses
// ---------------------------------------------------------------------------

/// An IPv4 address worth showing as this machine's LAN address: not
/// loopback (`127.0.0.0/8`), link-local (`169.254.0.0/16`) or unspecified.
pub open spec fn shown_lan(a: u32) -> bool {
    a / 16777216 != 127 && a / 65536 != 0xA9FE && a != 0
}

/// The group an address is listed in: `10.*` first, then `172.*`, then
/// `192.*`, then the rest.
pub open spec fn lan_class(a: u32) -> int {
    let f = a / 16777216;
    if f == 10 {
        0
    } else if f == 172 {
        1
    } else if f == 192 {
        2
    } else {
        3
    }
}

/// The listing order of addresses: by group, then by address.
pub open spec fn lan_rank(a: u32) -> int {
    lan_class(a) * 4294967296 + a
}

fn lan_rank_exec(a: u32) -> (r: u64)
    ensures
        r == lan_rank(a),
{
    let f = a / 16777216;
    let c: u64 = if f == 10 {
        0
    } else if f == 172 {
        1
    } else if f == 192 {
        2
    } else {
        3
    };
    c * 4294967296 + (a as u64)
}

/// Orders the machine's IPv4 addresses for display: each address worth
/// showing (see [`shown_lan`]) once, by group and then by address (see
/// [`lan_rank`]).
pub fn lan_ipv4_order(addrs: &Vec<u32>) -> (r: Vec<u32>)
    ensures
        forall|x: u32| r@.contains(x) <==> (addrs@.contains(x) && shown_lan(x)),
        forall|i: int, j: int| 0 <= i < j < r@.len() ==> lan_rank(#[trigger] r@[i]) < lan_rank(#[trigger] r@[j]),
        forall|i: int, j: int| 0 <= i < j < r@.len() ==> #[trigger] r@[i] != #[trigger] r@[j],
{
    let mut out: Vec<u32> = Vec::new();
    let mut k: usize = 0;
    while k < addrs.len()
        invariant
            k <= addrs@.len(),
            forall|x: u32| #[trigger] out@.contains(x) ==> addrs@.take(k as int).contains(x) && shown_lan(x),
            forall|x: u32| #[trigger] addrs@.take(k as int).contains(x) && shown_lan(x) ==> out@.contains(x),
            forall|i: int, j: int| 0 <= i < j < out@.len() ==> lan_rank(#[trigger] out@[i]) < lan_rank(#[trigger] out@[j]),
        decreases addrs.len() - k,
    {
        let a = addrs[k];
        let ghost prev = addrs@.take(k as int);
        let ghost out0 = out@;
        let shown = a / 16777216 != 127 && a / 65536 != 0xA9FE && a != 0;
        assert(shown == shown_lan(a));
        if shown {
            let ra = lan_rank_exec(a);
            let mut p: usize = out.len();
            while p > 0 && lan_rank_exec(out[p - 1]) > ra
                invariant
                    p <= out@.len(),
                    ra == lan_rank(a),
                    forall|q: int| p <= q < out@.len() ==> lan_rank(#[trigger] out@[q]) > lan_rank(a),
                decreases p,
            {
                p = p - 1;
            }
            if p > 0 && out[p - 1] == a {
                assert(out@[p - 1] == a);
                assert(out@ == out0);
                assert(out@.contains(a));
                assert forall|x: u32| #[trigger] out@.contains(x) <==> (out0.contains(x) || (x == a && shown_lan(a))) by {
                    if x == a {
                        assert(out0.contains(a));
                    }
                }
            } else {
                let ghost before = out@;
                assert(before == out0);
                proof {
                    if p > 0 {
                        assert(lan_rank(before[p - 1]) <= lan_rank(a));
                        assert(before[p - 1] != a);
                        assert(lan_rank(before[p - 1]) != lan_rank(a));
                    }
                }
                out.insert(p, a);
                assert(out@ =~= before.insert(p as int, a));
                assert forall|i: int, j: int| 0 <= i < j < out@.len() implies lan_rank(#[trigger] out@[i]) < lan_rank(#[trigger] out@[j]) by {
                    if j < p {
                        assert(out@[i] == before[i] && out@[j] == before[j]);
                    } else if j == p {
                        assert(out@[i] == before[i]);
                        if i < p - 1 {
                            assert(lan_rank(before[i]) < lan_rank(before[p - 1]));
                        }
                    } else if i < p {
                        assert(out@[i] == before[i] && out@[j] == before[j - 1]);
                        if i < p - 1 {
                            assert(lan_rank(before[i]) < lan_rank(before[p - 1]));
                        }
                    } else if i == p {
                        assert(out@[i] == a && out@[j] == before[j - 1]);
                    } else {
                        assert(out@[i] == before[i - 1] && out@[j] == before[j - 1]);
                    }
                }
                assert forall|x: u32| out@.contains(x) <==> (before.contains(x) || x == a) by {
                    if out@.contains(x) {
                        let w = choose|w: int| 0 <= w < out@.len() && out@[w] == x;
                        if w < p {
                            assert(before[w] == x);
                        } else if w > p {
                            assert(before[w - 1] == x);
                        }
                    }
                    if before.contains(x) {
                        let w = choose|w: int| 0 <= w < before.len() && before[w] == x;
                        if w < p {
                            assert(out@[w] == x);
                        } else {
                            assert(out@[w + 1] == x);
                        }
                    }
                    if x == a {
                        assert(out@[p as int] == a);
                    }
                }
                assert forall|x: u32| #[trigger] out@.contains(x) <==> (out0.contains(x) || (x == a && shown_lan(a))) by {
                    assert(out@.contains(x) <==> (before.contains(x) || x == a));
                }
            }
        } else {
            assert forall|x: u32| #[trigger] out@.contains(x) <==> (out0.contains(x) || (x == a && shown_lan(a))) by {
                assert(!shown_lan(a));
            }
        }
        assert(forall|x: u32| #[trigger] out@.contains(x) <==> (out0.contains(x) || (x == a && shown_lan(a))));
        k = k + 1;
        assert(addrs@.take(k as int) =~= prev.push(a));
        assert forall|x: u32| addrs@.take(k as int).contains(x) <==> (prev.contains(x) || x == a) by {
            let t = addrs@.take(k as int);
            if t.contains(x) {
                let w = choose|w: int| 0 <= w < t.len() && t[w] == x;
                if w < k - 1 {
                    assert(prev[w] == x);
                }
            }
            if prev.contains(x) {
                let w = choose|w: int| 0 <= w < prev.len() && prev[w] == x;
                assert(t[w] == x);
            }
            if x == a {
                assert(t[k - 1] == a);
            }
        }
        assert forall|x: u32|
            #![trigger out@.contains(x)]
            #![trigger addrs@.take(k as int).contains(x)]
            out@.contains(x) <==> (addrs@.take(k as int).contains(x) && shown_lan(x)) by {
            assert(out@.contains(x) <==> (out0.contains(x) || (x == a && shown_lan(a))));
            assert(out0.contains(x) <==> (prev.contains(x) && shown_lan(x)));
            assert(addrs@.take(k as int).contains(x) <==> (prev.contains(x) || x == a));
        }
    }
    assert(addrs@.take(addrs@.len() as int) =~= addrs@);
    assert forall|i: int, j: int| 0 <= i < j < out@.len() implies #[trigger] out@[i] != #[trigger] out@[j] by {
        assert(lan_rank(out@[i]) < lan_rank(out@[j]));
    }
    out
}

/// The dotted-quad text of an IPv4 address.
pub open spec fn dotted(a: u32) -> Seq<char> {
    dec((a / 16777216) as nat) + seq!['.'] + dec(((a / 65536) % 256) as nat) + seq!['.'] + dec(
        ((a / 256) % 256) as nat,
    ) + seq!['.'] + dec((a % 256) as nat)
}

/// The dotted-quad text of an IPv4 address (see [`dotted`]).
pub fn dotted_ipv4(a: u32) -> (r: String)
    ensures
        r@ == dotted(a),
{
    let mut r = String::new();
    push_u64(&mut r, (a / 16777216) as u64);
    push_char(&mut r, '.');
    push_u64(&mut r, ((a / 65536) % 256) as u64);
    push_char(&mut r, '.');
    push_u64(&mut r, ((a / 256) % 256) as u64);
    push_char(&mut r, '.');
    push_u64(&mut r, (a % 256) as u64);
    r
}

/// The texts of addresses, in order (see [`dotted`]).
pub fn dotted_list(addrs: &Vec<u32>) -> (r: Vec<String>)
    ensures
        r@.len() == addrs@.len(),
        forall|i: int| 0 <= i < r@.len() ==> #[trigger] r@[i]@ == dotted(addrs@[i]),
{
    let mut r: Vec<String> = Vec::new();
    let mut i: usize = 0;
    while i < addrs.len()
        invariant
            i <= addrs@.len(),
            r@.len() == i,
            forall|k: int| 0 <= k < i ==> #[trigger] r@[k]@ == dotted(addrs@[k]),
        decreases addrs.len() - i,
    {
        r.push(dotted_ipv4(addrs[i]));
        i = i + 1;
    }
    r
}

} // verus!
