//! Port numbers and IP address literals, read the way the standard library's
//! `u16`, `Ipv4Addr` and `Ipv6Addr` parsers read them.
use vstd::prelude::*;

use crate::text::{find, find_chars, find_from, split, split_chars, sub_chars, views};

verus! {

pub open spec fn is_ascii_digit(c: char) -> bool {
    0x30 <= (c as u32) <= 0x39
}

pub open spec fn digit_value(c: char) -> nat {
    ((c as u32) - 0x30) as nat
}

pub open spec fn is_hex_digit(c: char) -> bool {
    ||| is_ascii_digit(c)
    ||| 0x61 <= (c as u32) <= 0x66
    ||| 0x41 <= (c as u32) <= 0x46
}

pub open spec fn hex_digit_value(c: char) -> nat {
    if is_ascii_digit(c) {
        digit_value(c)
    } else if 0x61 <= (c as u32) <= 0x66 {
        ((c as u32) - 0x61 + 10) as nat
    } else {
        ((c as u32) - 0x41 + 10) as nat
    }
}

pub open spec fn all_digits(s: Seq<char>) -> bool {
    forall|i: int| 0 <= i < s.len() ==> is_ascii_digit(#[trigger] s[i])
}

pub open spec fn all_hex_digits(s: Seq<char>) -> bool {
    forall|i: int| 0 <= i < s.len() ==> is_hex_digit(#[trigger] s[i])
}

/// The number that a string of decimal digits denotes.
pub open spec fn decimal_value(s: Seq<char>) -> nat
    decreases s.len(),
{
    if s.len() == 0 {
        0
    } else {
        decimal_value(s.drop_last()) * 10 + digit_value(s.last())
    }
}

/// The number that a string of hexadecimal digits denotes.
pub open spec fn hex_value(s: Seq<char>) -> nat
    decreases s.len(),
{
    if s.len() == 0 {
        0
    } else {
        hex_value(s.drop_last()) * 16 + hex_digit_value(s.last())
    }
}

/// The digits of a `u16` as `str::parse` reads it: one leading `+` is allowed.
pub open spec fn port_digits(s: Seq<char>) -> Seq<char> {
    if s.len() > 0 && s[0] == '+' {
        s.drop_first()
    } else {
        s
    }
}

/// `s` parses as a `u16` port number.
pub open spec fn is_port(s: Seq<char>) -> bool {
    let d = port_digits(s);
    d.len() > 0 && all_digits(d) && decimal_value(d) <= 65535
}

/// One dotted-decimal part of an IPv4 address: one to three digits, no leading zero.
pub open spec fn is_octet(p: Seq<char>) -> bool {
    &&& 1 <= p.len() <= 3
    &&& all_digits(p)
    &&& p.len() > 1 ==> p[0] != '0'
    &&& decimal_value(p) <= 255
}

/// The four octets of a dotted-decimal IPv4 address, or `None` where `s` is not one.
pub open spec fn parse_ipv4(s: Seq<char>) -> Option<Seq<int>> {
    let parts = split(s, '.');
    if parts.len() == 4 && forall|i: int| 0 <= i < 4 ==> is_octet(#[trigger] parts[i]) {
        Some(Seq::new(4, |i: int| decimal_value(parts[i]) as int))
    } else {
        None
    }
}

/// One group of an IPv6 address: one to four hexadecimal digits.
pub open spec fn is_hex_group(p: Seq<char>) -> bool {
    1 <= p.len() <= 4 && all_hex_digits(p)
}

pub open spec fn all_hex_groups(parts: Seq<Seq<char>>) -> bool {
    forall|i: int| 0 <= i < parts.len() ==> is_hex_group(#[trigger] parts[i])
}

pub open spec fn group_values(parts: Seq<Seq<char>>) -> Seq<int> {
    Seq::new(parts.len(), |i: int| hex_value(parts[i]) as int)
}

/// The two 16-bit groups that an embedded IPv4 address stands for.
pub open spec fn ipv4_as_groups(o: Seq<int>) -> Seq<int> {
    seq![o[0] * 256 + o[1], o[2] * 256 + o[3]]
}

/// The groups of `:`-separated pieces: all hexadecimal groups, except that the
/// last piece may be an embedded IPv4 address.
pub open spec fn trailing_groups(parts: Seq<Seq<char>>) -> Option<Seq<int>> {
    if all_hex_groups(parts) {
        Some(group_values(parts))
    } else if parts.len() >= 1 && all_hex_groups(parts.drop_last()) && parse_ipv4(
        parts.last(),
    ) is Some {
        Some(group_values(parts.drop_last()) + ipv4_as_groups(parse_ipv4(parts.last())->0))
    } else {
        None
    }
}

pub open spec fn double_colon() -> Seq<char> {
    seq![':', ':']
}

/// The eight 16-bit groups of an IPv6 address in text form, or `None` where `s`
/// is not one. Without `::` there are exactly eight groups (the last two may be
/// written as an IPv4 address); one `::` stands for at least one group of zeros.
pub open spec fn parse_ipv6(s: Seq<char>) -> Option<Seq<int>> {
    match find(s, double_colon()) {
        None => match trailing_groups(split(s, ':')) {
            Some(g) => if g.len() == 8 {
                Some(g)
            } else {
                None
            },
            None => None,
        },
        Some(d) => {
            let head = s.take(d);
            let tail = s.skip(d + 2);
            let head_ok = head.len() == 0 || all_hex_groups(split(head, ':'));
            let tail_ok = tail.len() == 0 || trailing_groups(split(tail, ':')) is Some;
            if head_ok && tail_ok {
                let h = if head.len() == 0 {
                    Seq::empty()
                } else {
                    group_values(split(head, ':'))
                };
                let t = if tail.len() == 0 {
                    Seq::empty()
                } else {
                    trailing_groups(split(tail, ':'))->0
                };
                if h.len() + t.len() <= 7 {
                    Some(h + Seq::new((8 - h.len() - t.len()) as nat, |i: int| 0int) + t)
                } else {
                    None
                }
            } else {
                None
            }
        },
    }
}

/// The IPv6 loopback address `::1`.
pub open spec fn ipv6_loopback() -> Seq<int> {
    seq![0, 0, 0, 0, 0, 0, 0, 1]
}

pub open spec fn ints(v: Seq<u32>) -> Seq<int> {
    Seq::new(v.len(), |i: int| v[i] as int)
}

proof fn lemma_hex_value_bound(s: Seq<char>)
    requires
        all_hex_digits(s),
    ensures
        s.len() <= 1 ==> hex_value(s) <= 15,
        s.len() <= 2 ==> hex_value(s) <= 255,
        s.len() <= 3 ==> hex_value(s) <= 4095,
        s.len() <= 4 ==> hex_value(s) <= 65535,
    decreases s.len(),
{
    if s.len() > 0 {
        lemma_hex_value_bound(s.drop_last());
    }
}

/// `min(value of the digits, cap)`: the value where it stays below `cap`.
fn capped_value(p: &[char], radix: u32, cap: u32) -> (r: u32)
    requires
        radix == 10 ==> all_digits(p@),
        radix == 16 ==> all_hex_digits(p@),
        radix == 10 || radix == 16,
        cap <= 0x10000,
    ensures
        radix == 10 ==> r as nat == if decimal_value(p@) < cap {
            decimal_value(p@)
        } else {
            cap as nat
        },
        radix == 16 ==> r as nat == if hex_value(p@) < cap {
            hex_value(p@)
        } else {
            cap as nat
        },
{
    let mut v: u32 = 0;
    let mut k: usize = 0;
    assert(p@.take(0) =~= Seq::<char>::empty());
    while k < p.len()
        invariant
            radix == 10 ==> all_digits(p@),
            radix == 16 ==> all_hex_digits(p@),
            radix == 10 || radix == 16,
            cap <= 0x10000,
            k <= p@.len(),
            radix == 10 ==> v as nat == if decimal_value(p@.take(k as int)) < cap {
                decimal_value(p@.take(k as int))
            } else {
                cap as nat
            },
            radix == 16 ==> v as nat == if hex_value(p@.take(k as int)) < cap {
                hex_value(p@.take(k as int))
            } else {
                cap as nat
            },
        decreases p.len() - k,
    {
        let c = p[k] as u32;
        let d: u32 = if 0x30 <= c && c <= 0x39 {
            c - 0x30
        } else if 0x61 <= c && c <= 0x66 {
            c - 0x61 + 10
        } else {
            c - 0x41 + 10
        };
        assert(p@.take(k + 1).drop_last() =~= p@.take(k as int));
        let next = v * radix + d;
        v = if next < cap {
            next
        } else {
            cap
        };
        k = k + 1;
    }
    assert(p@.take(p@.len() as int) =~= p@);
    v
}

fn is_digits(p: &[char], radix: u32) -> (r: bool)
    requires
        radix == 10 || radix == 16,
    ensures
        radix == 10 ==> r == all_digits(p@),
        radix == 16 ==> r == all_hex_digits(p@),
{
    let mut k: usize = 0;
    while k < p.len()
        invariant
            radix == 10 || radix == 16,
            k <= p@.len(),
            radix == 10 ==> forall|m: int| 0 <= m < k ==> is_ascii_digit(#[trigger] p@[m]),
            radix == 16 ==> forall|m: int| 0 <= m < k ==> is_hex_digit(#[trigger] p@[m]),
        decreases p.len() - k,
    {
        let c = p[k] as u32;
        let ok = (0x30 <= c && c <= 0x39) || (radix == 16 && ((0x61 <= c && c <= 0x66) || (0x41
            <= c && c <= 0x46)));
        if !ok {
            return false;
        }
        k = k + 1;
    }
    true
}

/// Whether `s` parses as a `u16` port number.
pub fn parse_port(s: &[char]) -> (r: bool)
    ensures
        r == is_port(s@),
{
    let digits = if s.len() > 0 && s[0] == '+' {
        sub_chars(s, 1, s.len())
    } else {
        sub_chars(s, 0, s.len())
    };
    assert(s@.subrange(0, s@.len() as int) =~= s@);
    assert(s@.len() > 0 ==> s@.subrange(1, s@.len() as int) =~= s@.drop_first());
    if digits.len() == 0 || !is_digits(&digits, 10) {
        return false;
    }
    capped_value(&digits, 10, 65536) <= 65535
}

/// The value of one IPv4 octet, or `None` where `p` is not one.
fn parse_octet(p: &[char]) -> (r: Option<u32>)
    ensures
        r is Some <==> is_octet(p@),
        r matches Some(v) ==> v as nat == decimal_value(p@),
{
    if p.len() < 1 || p.len() > 3 || !is_digits(p, 10) {
        return None;
    }
    if p.len() > 1 && p[0] == '0' {
        return None;
    }
    let v = capped_value(p, 10, 256);
    if v <= 255 {
        Some(v)
    } else {
        None
    }
}

/// The four octets of a dotted-decimal IPv4 address.
pub fn parse_ipv4_chars(s: &[char]) -> (r: Option<Vec<u32>>)
    ensures
        r is Some <==> parse_ipv4(s@) is Some,
        r matches Some(v) ==> parse_ipv4(s@) == Some(ints(v@)),
{
    let parts = split_chars(s, '.');
    if parts.len() != 4 {
        return None;
    }
    let mut octets: Vec<u32> = Vec::new();
    let mut i: usize = 0;
    while i < 4
        invariant
            views(parts@) == split(s@, '.'),
            parts@.len() == 4,
            i <= 4,
            octets@.len() == i,
            forall|k: int| 0 <= k < i ==> is_octet(#[trigger] parts@[k]@),
            forall|k: int|
                0 <= k < i ==> #[trigger] octets@[k] as nat == decimal_value(parts@[k]@),
        decreases 4 - i,
    {
        match parse_octet(parts[i].as_slice()) {
            Some(v) => {
                octets.push(v);
            },
            None => {
                assert(!is_octet(split(s@, '.')[i as int]));
                return None;
            },
        }
        i = i + 1;
    }
    assert(forall|k: int| 0 <= k < 4 ==> #[trigger] split(s@, '.')[k] == parts@[k]@);
    assert(ints(octets@) =~= Seq::new(4, |k: int| decimal_value(split(s@, '.')[k]) as int));
    Some(octets)
}

/// The values of `parts[from..to]`, where every one of them is a hexadecimal group.
fn hex_groups(parts: &Vec<Vec<char>>, from: usize, to: usize) -> (r: Option<Vec<u32>>)
    requires
        from <= to <= parts@.len(),
    ensures
        r is Some <==> all_hex_groups(views(parts@).subrange(from as int, to as int)),
        r matches Some(v) ==> ints(v@) == group_values(
            views(parts@).subrange(from as int, to as int),
        ),
{
    let ghost ps = views(parts@).subrange(from as int, to as int);
    let mut out: Vec<u32> = Vec::new();
    let mut i: usize = from;
    while i < to
        invariant
            from <= i <= to <= parts@.len(),
            ps == views(parts@).subrange(from as int, to as int),
            out@.len() == i - from,
            forall|k: int| 0 <= k < i - from ==> is_hex_group(#[trigger] ps[k]),
            forall|k: int| 0 <= k < i - from ==> #[trigger] out@[k] as nat == hex_value(ps[k]),
        decreases to - i,
    {
        let p = parts[i].as_slice();
        assert(p@ == ps[i - from]);
        if p.len() < 1 || p.len() > 4 || !is_digits(p, 16) {
            return None;
        }
        proof {
            lemma_hex_value_bound(p@);
        }
        let v = capped_value(p, 16, 0x10000);
        out.push(v);
        i = i + 1;
    }
    assert(ints(out@) =~= group_values(ps));
    Some(out)
}

/// `trailing_groups` of all of `parts`.
fn trailing_hex_groups(parts: &Vec<Vec<char>>) -> (r: Option<Vec<u32>>)
    ensures
        r is Some <==> trailing_groups(views(parts@)) is Some,
        r matches Some(v) ==> trailing_groups(views(parts@)) == Some(ints(v@)),
{
    let ghost ps = views(parts@);
    assert(ps.subrange(0, ps.len() as int) =~= ps);
    if let Some(v) = hex_groups(parts, 0, parts.len()) {
        return Some(v);
    }
    if parts.len() == 0 {
        return None;
    }
    let n = parts.len();
    assert(ps.subrange(0, n - 1) =~= ps.drop_last());
    let head = hex_groups(parts, 0, n - 1);
    let v4 = parse_ipv4_chars(parts[n - 1].as_slice());
    match (head, v4) {
        (Some(mut h), Some(o)) => {
            let ghost h0 = h@;
            assert(o@.len() == 4) by {
                assert(ints(o@).len() == 4);
            }
            let g1 = o[0] * 256 + o[1];
            let g2 = o[2] * 256 + o[3];
            h.push(g1);
            h.push(g2);
            assert(ints(h@) =~= ints(h0) + ipv4_as_groups(ints(o@)));
            Some(h)
        },
        _ => None,
    }
}

/// The eight groups of an IPv6 address in text form.
pub fn parse_ipv6_chars(s: &[char]) -> (r: Option<Vec<u32>>)
    ensures
        r is Some <==> parse_ipv6(s@) is Some,
        r matches Some(v) ==> parse_ipv6(s@) == Some(ints(v@)),
{
    let dc = [':', ':'];
    assert(dc@ =~= double_colon());
    match find_chars(s, &dc) {
        None => {
            let parts = split_chars(s, ':');
            match trailing_hex_groups(&parts) {
                Some(g) => {
                    if g.len() == 8 {
                        Some(g)
                    } else {
                        None
                    }
                },
                None => None,
            }
        },
        Some(d) => {
            assert(d + 2 <= s@.len()) by {
                reveal_with_fuel(find_from, 1);
                lemma_find_bounds(s@, double_colon(), 0);
            }
            let head = sub_chars(s, 0, d);
            let n = s.len();
            assert(d + 2 <= n);
            let tail = sub_chars(s, d + 2, n);
            assert(head@ =~= s@.take(d as int));
            assert(tail@ =~= s@.skip(d + 2));
            let hs = split_chars(&head, ':');
            let ts = split_chars(&tail, ':');
            let h = if head.len() == 0 {
                let e: Vec<u32> = Vec::new();
                assert(ints(e@) =~= Seq::<int>::empty());
                Some(e)
            } else {
                assert(views(hs@).subrange(0, hs@.len() as int) =~= views(hs@));
                hex_groups(&hs, 0, hs.len())
            };
            let t = if tail.len() == 0 {
                let e: Vec<u32> = Vec::new();
                assert(ints(e@) =~= Seq::<int>::empty());
                Some(e)
            } else {
                trailing_hex_groups(&ts)
            };
            match (h, t) {
                (Some(mut h), Some(t)) => {
                    if h.len() > 7 || t.len() > 7 - h.len() {
                        return None;
                    }
                    let ghost hv = ints(h@);
                    let zeros = 8 - h.len() - t.len();
                    let mut k: usize = 0;
                    while k < zeros
                        invariant
                            k <= zeros,
                            ints(h@) == hv + Seq::new(k as nat, |i: int| 0int),
                        decreases zeros - k,
                    {
                        let ghost prev = h@;
                        h.push(0);
                        assert(ints(h@) =~= ints(prev).push(0));
                        k = k + 1;
                        assert(ints(h@) =~= hv + Seq::new(k as nat, |i: int| 0int));
                    }
                    let ghost hz = ints(h@);
                    let mut j: usize = 0;
                    while j < t.len()
                        invariant
                            j <= t@.len(),
                            ints(h@) == hz + ints(t@).take(j as int),
                        decreases t.len() - j,
                    {
                        let ghost prev = h@;
                        h.push(t[j]);
                        assert(ints(h@) =~= ints(prev).push(t@[j as int] as int));
                        j = j + 1;
                        assert(ints(h@) =~= hz + ints(t@).take(j as int));
                    }
                    assert(ints(t@).take(t@.len() as int) =~= ints(t@));
                    Some(h)
                },
                _ => None,
            }
        },
    }
}

pub proof fn lemma_find_bounds(s: Seq<char>, pat: Seq<char>, start: int)
    requires
        0 <= start,
    ensures
        find_from(s, pat, start) matches Some(i) ==> start <= i && i + pat.len() <= s.len()
            && s.subrange(i, i + pat.len()) == pat,
    decreases s.len() + 1 - start,
{
    if start + pat.len() <= s.len() && s.subrange(start, start + pat.len()) != pat {
        lemma_find_bounds(s, pat, start + 1);
    }
}

} // verus!
