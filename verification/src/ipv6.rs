//! IPv6 addresses in text: the colon-hexadecimal form, with `::` and an
//! optional trailing dotted IPv4 part, read as `Ipv6Addr::from_str` reads it
//! and written as its `Display` writes it.
use vstd::prelude::*;
use crate::text::{split_char, split_chars, views, find, find_chars};
use crate::targets::{ipv4_value, parse_ipv4};

verus! {

pub open spec fn hex_digit(c: char) -> Option<int> {
    let u = c as u32;
    if 0x30 <= u <= 0x39 {
        Some(u - 0x30)
    } else if 0x61 <= u <= 0x66 {
        Some(u - 0x61 + 10)
    } else if 0x41 <= u <= 0x46 {
        Some(u - 0x41 + 10)
    } else {
        None
    }
}

pub open spec fn hex_value(p: Seq<char>) -> int
    decreases p.len(),
{
    if p.len() == 0 {
        0
    } else {
        hex_value(p.drop_last()) * 16 + hex_digit(p.last())->0
    }
}

/// One group: one to four hexadecimal digits.
pub open spec fn hex_group(p: Seq<char>) -> Option<u16> {
    if 1 <= p.len() <= 4 && forall|i: int| 0 <= i < p.len() ==> #[trigger] hex_digit(p[i]) is Some {
        Some(hex_value(p) as u16)
    } else {
        None
    }
}

/// Every piece is a group.
pub open spec fn hex_groups(pieces: Seq<Seq<char>>) -> Option<Seq<u16>>
    decreases pieces.len(),
{
    if pieces.len() == 0 {
        Some(Seq::empty())
    } else {
        match (hex_groups(pieces.drop_last()), hex_group(pieces.last())) {
            (Some(g), Some(h)) => Some(g.push(h)),
            _ => None,
        }
    }
}

/// Groups, of which the last piece may instead be a dotted IPv4 address,
/// which stands for two groups.
pub open spec fn tail_units(pieces: Seq<Seq<char>>) -> Option<Seq<u16>> {
    if pieces.len() > 0 && ipv4_value(pieces.last()) is Some {
        let v = ipv4_value(pieces.last())->0;
        match hex_groups(pieces.drop_last()) {
            Some(g) => Some(g.push((v / 0x10000) as u16).push((v % 0x10000) as u16)),
            None => None,
        }
    } else {
        hex_groups(pieces)
    }
}

pub open spec fn zeros(n: nat) -> Seq<u16> {
    Seq::new(n, |i: int| 0u16)
}

/// The eight 16-bit groups of an IPv6 address in text: either eight groups
/// (the last two may be a dotted IPv4 address), or a head and a tail around
/// the first `::`, with at most seven groups between them, the `::` standing
/// for the zero groups that are missing.
pub open spec fn ipv6_groups(s: Seq<char>) -> Option<Seq<u16>> {
    match find(s, seq![':', ':']) {
        Some(i) => {
            let head = s.take(i);
            let tail = s.skip(i + 2);
            let h = if head.len() == 0 {
                Some(Seq::<u16>::empty())
            } else {
                hex_groups(split_char(head, ':'))
            };
            let t = if tail.len() == 0 {
                Some(Seq::<u16>::empty())
            } else {
                tail_units(split_char(tail, ':'))
            };
            match (h, t) {
                (Some(h), Some(t)) => if h.len() + t.len() <= 7 {
                    Some(h + zeros((8 - h.len() - t.len()) as nat) + t)
                } else {
                    None
                },
                _ => None,
            }
        },
        None => match tail_units(split_char(s, ':')) {
            Some(g) => if g.len() == 8 {
                Some(g)
            } else {
                None
            },
            None => None,
        },
    }
}

fn hex_digit_of(c: char) -> (res: Option<u16>)
    ensures
        res matches Some(v) ==> hex_digit(c) == Some(v as int) && v < 16,
        res is None ==> hex_digit(c) is None,
{
    let u = c as u32;
    if 0x30 <= u && u <= 0x39 {
        Some((u - 0x30) as u16)
    } else if 0x61 <= u && u <= 0x66 {
        Some((u - 0x61 + 10) as u16)
    } else if 0x41 <= u && u <= 0x46 {
        Some((u - 0x41 + 10) as u16)
    } else {
        None
    }
}

fn parse_hex_group(p: &[char]) -> (res: Option<u16>)
    ensures
        res == hex_group(p@),
{
    if p.len() < 1 || p.len() > 4 {
        return None;
    }
    let mut acc: u64 = 0;
    let mut i: usize = 0;
    while i < p.len()
        invariant
            p.len() <= 4,
            i <= p.len(),
            acc == hex_value(p@.take(i as int)),
            acc < 0x10000,
            i <= 3 ==> acc < 0x1000,
            i <= 2 ==> acc < 0x100,
            i <= 1 ==> acc < 0x10,
            i == 0 ==> acc == 0,
            forall|k: int| 0 <= k < i ==> #[trigger] hex_digit(p@[k]) is Some,
        decreases p.len() - i,
    {
        match hex_digit_of(p[i]) {
            Some(d) => {
                assert(p@.take(i + 1).drop_last() =~= p@.take(i as int));
                acc = acc * 16 + d as u64;
            },
            None => {
                return None;
            },
        }
        i = i + 1;
    }
    assert(p@.take(p.len() as int) =~= p@);
    Some(acc as u16)
}

fn parse_hex_groups(pieces: &Vec<Vec<char>>, upto: usize) -> (res: Option<Vec<u16>>)
    requires
        upto <= pieces.len(),
    ensures
        res matches Some(g) ==> hex_groups(views(pieces@.take(upto as int))) == Some(g@),
        res is None ==> hex_groups(views(pieces@.take(upto as int))) is None,
{
    let mut out: Vec<u16> = Vec::new();
    let mut i: usize = 0;
    assert(views(pieces@.take(0)) =~= Seq::<Seq<char>>::empty());
    while i < upto
        invariant
            upto <= pieces.len(),
            i <= upto,
            hex_groups(views(pieces@.take(i as int))) == Some(out@),
        decreases upto - i,
    {
        let g = parse_hex_group(pieces[i].as_slice());
        assert(views(pieces@.take(i + 1)).drop_last() =~= views(pieces@.take(i as int)));
        assert(views(pieces@.take(i + 1)).last() == pieces@[i as int]@);
        match g {
            Some(v) => {
                out.push(v);
            },
            None => {
                proof {
                    lemma_hex_groups_prefix_none(views(pieces@.take(upto as int)), i + 1);
                    assert(views(pieces@.take(upto as int)).take(i + 1) =~= views(pieces@.take(i + 1)));
                }
                return None;
            },
        }
        i = i + 1;
    }
    Some(out)
}

proof fn lemma_hex_groups_prefix_none(ps: Seq<Seq<char>>, k: int)
    requires
        0 <= k <= ps.len(),
        hex_groups(ps.take(k)) is None,
    ensures
        hex_groups(ps) is None,
    decreases ps.len(),
{
    if k == ps.len() {
        assert(ps.take(k) =~= ps);
    } else {
        assert(ps.drop_last().take(k) =~= ps.take(k));
        lemma_hex_groups_prefix_none(ps.drop_last(), k);
    }
}

fn parse_tail_units(pieces: &Vec<Vec<char>>) -> (res: Option<Vec<u16>>)
    ensures
        res matches Some(g) ==> tail_units(views(pieces@)) == Some(g@),
        res is None ==> tail_units(views(pieces@)) is None,
{
    let n = pieces.len();
    assert(pieces@.take(n as int) =~= pieces@);
    if n > 0 {
        assert(views(pieces@).last() == pieces@[n - 1]@);
        assert(views(pieces@).drop_last() =~= views(pieces@.take(n - 1)));
        match parse_ipv4(pieces[n - 1].as_slice()) {
            Some(v) => {
                match parse_hex_groups(pieces, n - 1) {
                    Some(mut g) => {
                        g.push((v / 0x10000) as u16);
                        g.push((v % 0x10000) as u16);
                        return Some(g);
                    },
                    None => {
                        return None;
                    },
                }
            },
            None => {},
        }
    }
    parse_hex_groups(pieces, n)
}

/// The 128-bit value whose 16-bit groups, most significant first, are `g`.
pub open spec fn groups_value(g: Seq<u16>) -> int
    decreases g.len(),
{
    if g.len() == 0 {
        0
    } else {
        groups_value(g.drop_last()) * 0x10000 + g.last()
    }
}

/// `Ipv6Addr::from_str`, as a 128-bit value.
pub open spec fn ipv6_value(s: Seq<char>) -> Option<u128> {
    match ipv6_groups(s) {
        Some(g) => Some(groups_value(g) as u128),
        None => None,
    }
}

proof fn lemma_groups_value_bound(g: Seq<u16>)
    ensures
        0 <= groups_value(g) < vstd::arithmetic::power2::pow2((16 * g.len()) as nat),
    decreases g.len(),
{
    if g.len() == 0 {
        vstd::arithmetic::power2::lemma2_to64();
    } else {
        let d = g.drop_last();
        lemma_groups_value_bound(d);
        let e = (16 * d.len()) as nat;
        vstd::arithmetic::power2::lemma_pow2_adds(e, 16);
        vstd::arithmetic::power2::lemma2_to64();
        let p = vstd::arithmetic::power2::pow2(e);
        assert((16 * g.len()) as nat == e + 16);
        assert(vstd::arithmetic::power2::pow2(e + 16) == p * 0x10000);
        assert(groups_value(g) == groups_value(d) * 0x10000 + g.last());
        assert(groups_value(g) < p * 0x10000) by (nonlinear_arith)
            requires
                groups_value(g) == groups_value(d) * 0x10000 + g.last(),
                groups_value(d) < p,
                0 <= g.last() < 0x10000,
        ;
        assert(groups_value(g) >= 0) by (nonlinear_arith)
            requires
                groups_value(g) == groups_value(d) * 0x10000 + g.last(),
                groups_value(d) >= 0,
                0 <= g.last(),
        ;
    }
}

fn value_of_groups(g: &Vec<u16>) -> (res: u128)
    requires
        g.len() == 8,
    ensures
        res == groups_value(g@),
{
    let mut acc: u128 = 0;
    let mut i: usize = 0;
    while i < 8
        invariant
            g.len() == 8,
            i <= 8,
            acc == groups_value(g@.take(i as int)),
        decreases 8 - i,
    {
        proof {
            lemma_groups_value_bound(g@.take(i + 1));
            if 16 * (i + 1) < 128 {
                vstd::arithmetic::power2::lemma_pow2_strictly_increases((16 * (i + 1)) as nat, 128);
            }
            vstd::arithmetic::power2::lemma2_to64_rest();
            vstd::arithmetic::power2::lemma_pow2_adds(64, 64);
            assert(g@.take(i + 1).drop_last() =~= g@.take(i as int));
        }
        acc = acc * 0x10000 + g[i] as u128;
        i = i + 1;
    }
    assert(g@.take(8) =~= g@);
    acc
}

/// Reads an IPv6 address.
pub fn parse_ipv6(s: &[char]) -> (res: Option<u128>)
    ensures
        res == ipv6_value(s@),
{
    let dc = vec![':', ':'];
    assert(dc@ =~= seq![':', ':']);
    assert(dc@.len() == 2);
    let groups: Vec<u16> = match find_chars(s, dc.as_slice()) {
        Some(i) => {
            assert(i + dc@.len() <= s@.len());
            let n = s.len();
            let head = crate::text::slice_of(s, 0, i);
            let tail = crate::text::slice_of(s, i + 2, n);
            assert(head@ =~= s@.take(i as int));
            assert(tail@ =~= s@.skip(i + 2));
            let h: Vec<u16> = if head.len() == 0 {
                Vec::new()
            } else {
                let hp = split_chars(head.as_slice(), ':');
                assert(hp@.take(hp.len() as int) =~= hp@);
                match parse_hex_groups(&hp, hp.len()) {
                    Some(g) => g,
                    None => {
                        return None;
                    },
                }
            };
            let t: Vec<u16> = if tail.len() == 0 {
                Vec::new()
            } else {
                let tp = split_chars(tail.as_slice(), ':');
                match parse_tail_units(&tp) {
                    Some(g) => g,
                    None => {
                        return None;
                    },
                }
            };
            if h.len() > 7 || t.len() > 7 - h.len() {
                return None;
            }
            let mut all = h;
            let fill = 8 - all.len() - t.len();
            let ghost before = all@;
            let mut k: usize = 0;
            while k < fill
                invariant
                    k <= fill,
                    all@ == before + zeros(k as nat),
                decreases fill - k,
            {
                all.push(0);
                assert(zeros((k + 1) as nat) =~= zeros(k as nat).push(0u16));
                k = k + 1;
            }
            let mut j: usize = 0;
            let ghost mid = all@;
            while j < t.len()
                invariant
                    j <= t.len(),
                    all@ == mid + t@.take(j as int),
                decreases t.len() - j,
            {
                all.push(t[j]);
                assert(t@.take(j + 1) =~= t@.take(j as int).push(t@[j as int]));
                j = j + 1;
            }
            assert(t@.take(t.len() as int) =~= t@);
            assert(all@ =~= h@ + zeros((8 - h@.len() - t@.len()) as nat) + t@);
            all
        },
        None => {
            let ps = split_chars(s, ':');
            match parse_tail_units(&ps) {
                Some(g) => {
                    if g.len() != 8 {
                        return None;
                    }
                    g
                },
                None => {
                    return None;
                },
            }
        },
    };
    Some(value_of_groups(&groups))
}


/// The eight 16-bit groups of `v`, most significant first (`n` of them from the low end).
pub open spec fn segments_of(v: nat, n: nat) -> Seq<int>
    decreases n,
{
    if n == 0 {
        Seq::empty()
    } else {
        segments_of(v / 0x10000, (n - 1) as nat).push((v % 0x10000) as int)
    }
}

pub open spec fn hex_char(n: nat) -> char {
    if n < 10 {
        (0x30 + n) as char
    } else {
        (0x61 + n - 10) as char
    }
}

/// Lower-case hexadecimal text of `n`, without leading zeros (`{:x}`).
pub open spec fn hex_text(n: nat) -> Seq<char>
    decreases n,
{
    if n < 16 {
        seq![hex_char(n)]
    } else {
        hex_text(n / 16).push(hex_char(n % 16))
    }
}

/// The groups in hexadecimal, separated by `:`.
pub open spec fn join_hex(g: Seq<int>) -> Seq<char>
    decreases g.len(),
{
    if g.len() == 0 {
        Seq::empty()
    } else if g.len() == 1 {
        hex_text(g[0] as nat)
    } else {
        join_hex(g.drop_last()) + seq![':'] + hex_text(g.last() as nat)
    }
}

/// The first longest run of zero groups, as (start, length), scanning from
/// index `i` with the current run and the best run so far.
pub open spec fn zero_run_from(g: Seq<int>, i: int, cur: (int, int), best: (int, int)) -> (int, int)
    decreases g.len() - i,
{
    if i < 0 || i >= g.len() {
        best
    } else if g[i] == 0 {
        let c = (if cur.1 == 0 { i } else { cur.0 }, cur.1 + 1);
        zero_run_from(g, i + 1, c, if c.1 > best.1 { c } else { best })
    } else {
        zero_run_from(g, i + 1, (0, 0), best)
    }
}

pub open spec fn longest_zero_run(g: Seq<int>) -> (int, int) {
    zero_run_from(g, 0, (0, 0), (0, 0))
}

/// `Display` of an IPv6 address: an IPv4-mapped address as `::ffff:` and the
/// dotted IPv4 address; otherwise the groups in lower-case hexadecimal, the
/// first longest run of two or more zero groups written as `::`.
pub open spec fn ipv6_text(v: u128) -> Seq<char> {
    let g = segments_of(v as nat, 8);
    if g[0] == 0 && g[1] == 0 && g[2] == 0 && g[3] == 0 && g[4] == 0 && g[5] == 0xffff {
        seq![':', ':', 'f', 'f', 'f', 'f', ':'] + crate::targets::ipv4_text(
            (g[6] * 0x10000 + g[7]) as u32,
        )
    } else {
        let (start, len) = longest_zero_run(g);
        if len > 1 {
            join_hex(g.take(start)) + seq![':', ':'] + join_hex(g.skip(start + len))
        } else {
            join_hex(g)
        }
    }
}

fn push_segments(out: &mut Vec<u16>, v: u128, n: u32)
    ensures
        final(out)@.len() == old(out)@.len() + n,
        forall|k: int| 0 <= k < old(out)@.len() ==> final(out)@[k] == old(out)@[k],
        forall|k: int|
            0 <= k < n ==> final(out)@[old(out)@.len() + k] as int == segments_of(v as nat, n as nat)[k],
    decreases n,
{
    if n > 0 {
        push_segments(out, v / 0x10000, n - 1);
        out.push((v % 0x10000) as u16);
        assert forall|k: int| 0 <= k < n implies out@[old(out)@.len() + k] as int == segments_of(
            v as nat,
            n as nat,
        )[k] by {
            assert(segments_of(v as nat, n as nat) == segments_of((v / 0x10000) as nat, (n - 1) as nat).push(
                (v % 0x10000) as int,
            ));
            lemma_segments_len((v / 0x10000) as nat, (n - 1) as nat);
            if k < n - 1 {
                assert(out@[old(out)@.len() + k] == out@.drop_last()[old(out)@.len() + k]);
            }
        }
    }
}

proof fn lemma_segments_len(v: nat, n: nat)
    ensures
        segments_of(v, n).len() == n,
        forall|k: int| 0 <= k < n ==> 0 <= #[trigger] segments_of(v, n)[k] < 0x10000,
    decreases n,
{
    if n > 0 {
        lemma_segments_len(v / 0x10000, (n - 1) as nat);
    }
}

fn push_hex_char(out: &mut Vec<char>, d: u16)
    requires
        d < 16,
    ensures
        final(out)@ == old(out)@.push(hex_char(d as nat)),
{
    let c: char = match d {
        0 => '0',
        1 => '1',
        2 => '2',
        3 => '3',
        4 => '4',
        5 => '5',
        6 => '6',
        7 => '7',
        8 => '8',
        9 => '9',
        10 => 'a',
        11 => 'b',
        12 => 'c',
        13 => 'd',
        14 => 'e',
        _ => 'f',
    };
    assert(c == hex_char(d as nat));
    out.push(c);
}

fn push_hex(out: &mut Vec<char>, n: u16)
    ensures
        final(out)@ == old(out)@ + hex_text(n as nat),
    decreases n,
{
    if n >= 16 {
        push_hex(out, n / 16);
    }
    push_hex_char(out, n % 16);
    assert(old(out)@ + hex_text(n as nat) =~= old(out)@ + (if n >= 16 {
        hex_text((n / 16) as nat)
    } else {
        Seq::<char>::empty()
    }).push(hex_char((n % 16) as nat)));
}

/// Appends the groups `g[from..to]` in hexadecimal, separated by `:`.
fn push_join_hex(out: &mut Vec<char>, g: &Vec<u16>, from: usize, to: usize)
    requires
        from <= to <= g.len(),
    ensures
        final(out)@ == old(out)@ + join_hex(g@.subrange(from as int, to as int).map_values(|x: u16| x as int)),
{
    let mut i = from;
    while i < to
        invariant
            from <= i <= to <= g.len(),
            out@ == old(out)@ + join_hex(g@.subrange(from as int, i as int).map_values(|x: u16| x as int)),
        decreases to - i,
    {
        let ghost before = out@;
        if i > from {
            out.push(':');
        }
        push_hex(out, g[i]);
        let ghost prev = g@.subrange(from as int, i as int).map_values(|x: u16| x as int);
        let ghost next = g@.subrange(from as int, i + 1).map_values(|x: u16| x as int);
        assert(next.drop_last() =~= prev);
        assert(next.last() == g@[i as int] as int);
        if i == from {
            assert(next =~= seq![g@[i as int] as int]);
        }
        assert(out@ =~= old(out)@ + join_hex(next));
        i = i + 1;
    }
}

/// Appends the text of an IPv6 address, as `Display` writes it.
pub fn push_ipv6_text(out: &mut Vec<char>, v: u128)
    ensures
        final(out)@ == old(out)@ + ipv6_text(v),
{
    let mut g: Vec<u16> = Vec::new();
    push_segments(&mut g, v, 8);
    let ghost sg = segments_of(v as nat, 8);
    proof {
        lemma_segments_len(v as nat, 8);
    }
    assert(g@.map_values(|x: u16| x as int) =~= sg);
    if g[0] == 0 && g[1] == 0 && g[2] == 0 && g[3] == 0 && g[4] == 0 && g[5] == 0xffff {
        out.push(':');
        out.push(':');
        out.push('f');
        out.push('f');
        out.push('f');
        out.push('f');
        out.push(':');
        crate::targets::push_ipv4_text(out, (g[6] as u32) * 0x10000 + g[7] as u32);
        assert(out@ =~= old(out)@ + ipv6_text(v));
        return ;
    }
    let mut cur: (usize, usize) = (0, 0);
    let mut best: (usize, usize) = (0, 0);
    let mut i: usize = 0;
    while i < 8
        invariant
            g.len() == 8,
            g@.map_values(|x: u16| x as int) == sg,
            i <= 8,
            cur.0 <= i,
            cur.1 <= i,
            best.0 + best.1 <= 8,
            cur.0 + cur.1 <= i,
            zero_run_from(sg, 0, (0, 0), (0, 0)) == zero_run_from(
                sg,
                i as int,
                (cur.0 as int, cur.1 as int),
                (best.0 as int, best.1 as int),
            ),
        decreases 8 - i,
    {
        assert(sg[i as int] == g@[i as int] as int);
        if g[i] == 0 {
            let c = (if cur.1 == 0 { i } else { cur.0 }, cur.1 + 1);
            cur = c;
            if c.1 > best.1 {
                best = c;
            }
        } else {
            cur = (0, 0);
        }
        i = i + 1;
    }
    let (start, len) = best;
    if len > 1 {
        push_join_hex(out, &g, 0, start);
        out.push(':');
        out.push(':');
        push_join_hex(out, &g, start + len, 8);
        assert(g@.subrange(0, start as int).map_values(|x: u16| x as int) =~= sg.take(start as int));
        assert(g@.subrange((start + len) as int, 8).map_values(|x: u16| x as int) =~= sg.skip(
            (start + len) as int,
        ));
    } else {
        push_join_hex(out, &g, 0, 8);
        assert(g@.subrange(0, 8).map_values(|x: u16| x as int) =~= sg);
    }
    assert(out@ =~= old(out)@ + ipv6_text(v));
}

} // verus!
