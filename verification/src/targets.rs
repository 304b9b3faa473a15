//! Scan targets: a single address, a CIDR block or a range of IPv4 addresses.
use vstd::prelude::*;
use crate::text::{IntErrorKind, scan_digits, digit_char, lemma_split_join, lemma_split_no_sep, lemma_absent_char, lemma_trim_noop, parse_unsigned, parse_unsigned_chars, is_digit,
    split_char, split_chars, views, find, find_chars, contains, trim, trim_chars, chars_of,
    slice_of, dec_text, push_decimal, string_of};
use crate::ipv6::{ipv6_value, parse_ipv6, ipv6_text, push_ipv6_text};

verus! {

/// An IP address: IPv4 as its 32-bit value, IPv6 as its 128-bit value.
#[derive(Debug, Clone, Copy, PartialEq, Eq, Structural)]
pub enum IpAddr {
    V4(u32),
    V6(u128),
}

/// Why a target string was refused.
#[derive(Debug, Clone, Copy, PartialEq, Eq, Structural)]
pub enum TargetError {
    /// Not an IPv4 address in dotted decimal form (CIDR base, range bound).
    BadIpv4,
    /// Neither an IPv4 nor an IPv6 address.
    BadIp,
    /// The prefix length after `/` is not a `u32`.
    BadPrefix(IntErrorKind),
    /// The prefix length is larger than 32.
    PrefixTooLong(u32),
    /// The first address of a range is after the last.
    ReversedRange(u32, u32),
    /// A CIDR block without the `/` before its prefix length.
    NotCidr,
    /// A range without the `-` between its bounds.
    NotRange,
}

/// One dotted-decimal octet as `Ipv4Addr::from_str` reads it: one to three
/// ASCII digits, no leading zero, at most 255.
pub open spec fn octet_value(p: Seq<char>) -> Option<int> {
    if 1 <= p.len() <= 3 && !(p.len() > 1 && p[0] == '0') && scan_digits(p, 0, 255) is Ok {
        Some(scan_digits(p, 0, 255)->Ok_0)
    } else {
        None
    }
}

/// The value of a dotted-decimal IPv4 address (`Ipv4Addr::from_str`).
pub open spec fn ipv4_value(s: Seq<char>) -> Option<u32> {
    let parts = split_char(s, '.');
    if parts.len() == 4 && octet_value(parts[0]) is Some && octet_value(parts[1]) is Some
        && octet_value(parts[2]) is Some && octet_value(parts[3]) is Some {
        Some(
            (octet_value(parts[0])->0 * 0x1000000 + octet_value(parts[1])->0 * 0x10000
                + octet_value(parts[2])->0 * 0x100 + octet_value(parts[3])->0) as u32,
        )
    } else {
        None
    }
}

/// `IpAddr::from_str`: an IPv4 address, or else an IPv6 address.
pub open spec fn ip_value(s: Seq<char>) -> Option<IpAddr> {
    match ipv4_value(s) {
        Some(v) => Some(IpAddr::V4(v)),
        None => match ipv6_value(s) {
            Some(w) => Some(IpAddr::V6(w)),
            None => None,
        },
    }
}

pub open spec fn two_pow(n: nat) -> nat
    decreases n,
{
    if n == 0 {
        1
    } else {
        2 * two_pow((n - 1) as nat)
    }
}

/// The text before the first `c`, and the text after it.
pub open spec fn split_once(s: Seq<char>, c: char) -> Option<(Seq<char>, Seq<char>)> {
    match find(s, seq![c]) {
        Some(i) => Some((s.take(i), s.skip(i + 1))),
        None => None,
    }
}

/// The addresses that `n` consecutive values starting at `first` stand for.
pub open spec fn v4_run(first: int, n: nat) -> Seq<IpAddr> {
    Seq::new(n, |k: int| IpAddr::V4((first + k) as u32))
}

/// The hosts of the block `base/prefix`: for a /32 the address itself, for a
/// /31 both addresses, otherwise every address strictly between the network
/// and the broadcast address.
pub open spec fn cidr_hosts(base: u32, prefix: nat) -> Seq<IpAddr> {
    let block = two_pow((32 - prefix) as nat);
    let network = base as int - (base as int) % (block as int);
    if prefix == 32 {
        seq![IpAddr::V4(base)]
    } else if prefix == 31 {
        v4_run(network, 2)
    } else {
        v4_run(network + 1, (block - 2) as nat)
    }
}

/// A CIDR block `a.b.c.d/p` as `parse_cidr` reads it: no `/` is an error,
/// as are a base that is no IPv4 address and a prefix that is no `u32` or
/// larger than 32.
pub open spec fn parse_cidr_spec(s: Seq<char>) -> Result<Seq<IpAddr>, TargetError> {
    match split_once(s, '/') {
        None => Err(TargetError::NotCidr),
        Some((ip, pre)) => match ipv4_value(ip) {
            None => Err(TargetError::BadIpv4),
            Some(base) => match parse_unsigned(pre, 0xFFFF_FFFF) {
                Err(k) => Err(TargetError::BadPrefix(k)),
                Ok(p) => if p > 32 {
                    Err(TargetError::PrefixTooLong(p as u32))
                } else {
                    Ok(cidr_hosts(base, p as nat))
                },
            },
        },
    }
}

/// A range `a-b` of IPv4 addresses as `parse_range` reads it: no `-` is an
/// error, as are bounds that are no IPv4 addresses once trimmed and a first
/// address after the last.
pub open spec fn parse_range_spec(s: Seq<char>) -> Result<Seq<IpAddr>, TargetError> {
    match split_once(s, '-') {
        None => Err(TargetError::NotRange),
        Some((a, b)) => match ipv4_value(trim(a)) {
            None => Err(TargetError::BadIpv4),
            Some(start) => match ipv4_value(trim(b)) {
                None => Err(TargetError::BadIpv4),
                Some(end) => if start > end {
                    Err(TargetError::ReversedRange(start, end))
                } else {
                    Ok(v4_run(start as int, (end - start + 1) as nat))
                },
            },
        },
    }
}

/// What `parse_targets` gives for a text.
pub open spec fn parse_targets_spec(s: Seq<char>) -> Result<Seq<IpAddr>, TargetError> {
    if contains(s, seq!['/']) {
        parse_cidr_spec(s)
    } else if contains(s, seq!['-']) {
        parse_range_spec(s)
    } else {
        match ip_value(trim(s)) {
            Some(a) => Ok(seq![a]),
            None => Err(TargetError::BadIp),
        }
    }
}

fn octet_of(p: &[char]) -> (res: Option<u32>)
    ensures
        res matches Some(v) ==> octet_value(p@) == Some(v as int) && v <= 255,
        res is None ==> octet_value(p@) is None,
{
    if p.len() < 1 || p.len() > 3 || (p.len() > 1 && p[0] == '0') {
        return None;
    }
    let r = parse_unsigned_chars(p, 255);
    proof {
        crate::text::lemma_parse_bounded(p@, 255);
    }
    assert(p[0] != '+' && p[0] != '-' ==> parse_unsigned(p@, 255) == scan_digits(p@, 0, 255));
    if p[0] == '+' || p[0] == '-' {
        assert(!is_digit(p@[0]));
        return None;
    }
    match r {
        Ok(v) => Some(v),
        Err(_) => None,
    }
}

/// Parses a dotted-decimal IPv4 address.
pub fn parse_ipv4(s: &[char]) -> (res: Option<u32>)
    ensures
        res == ipv4_value(s@),
{
    let parts = split_chars(s, '.');
    if parts.len() != 4 {
        return None;
    }
    assert(views(parts@)[0] == parts@[0]@);
    assert(views(parts@)[1] == parts@[1]@);
    assert(views(parts@)[2] == parts@[2]@);
    assert(views(parts@)[3] == parts@[3]@);
    let a = octet_of(parts[0].as_slice());
    let b = octet_of(parts[1].as_slice());
    let c = octet_of(parts[2].as_slice());
    let d = octet_of(parts[3].as_slice());
    match (a, b, c, d) {
        (Some(a), Some(b), Some(c), Some(d)) => {
            Some(a * 0x1000000 + b * 0x10000 + c * 0x100 + d)
        },
        _ => None,
    }
}

/// Parses an IPv4 address, or else an IPv6 address.
pub fn parse_ip(s: &[char]) -> (res: Option<IpAddr>)
    ensures
        res == ip_value(s@),
{
    match parse_ipv4(s) {
        Some(v) => Some(IpAddr::V4(v)),
        None => match parse_ipv6(s) {
            Some(w) => Some(IpAddr::V6(w)),
            None => None,
        },
    }
}

fn split_once_chars(s: &[char], c: char) -> (res: Option<(Vec<char>, Vec<char>)>)
    ensures
        res matches Some(p) ==> split_once(s@, c) == Some((p.0@, p.1@)),
        res is None ==> split_once(s@, c) is None,
{
    let pat = vec![c];
    assert(pat@ =~= seq![c]);
    assert(pat@.len() == 1);
    match find_chars(s, pat.as_slice()) {
        Some(i) => {
            assert(i + pat@.len() <= s@.len());
            let n = s.len();
            let a = slice_of(s, 0, i);
            let b = slice_of(s, i + 1, n);
            assert(a@ =~= s@.take(i as int));
            assert(b@ =~= s@.skip(i + 1));
            Some((a, b))
        },
        None => None,
    }
}

/// Appends the addresses `first`, `first + 1`, ... (`n` of them).
fn push_run(out: &mut Vec<IpAddr>, first: u64, n: u64)
    requires
        first + n <= 0x1_0000_0000,
    ensures
        final(out)@ == old(out)@ + v4_run(first as int, n as nat),
{
    let mut k: u64 = 0;
    while k < n
        invariant
            first + n <= 0x1_0000_0000,
            k <= n,
            out@ == old(out)@ + v4_run(first as int, k as nat),
        decreases n - k,
    {
        out.push(IpAddr::V4((first + k) as u32));
        assert(v4_run(first as int, (k + 1) as nat) =~= v4_run(first as int, k as nat).push(
            IpAddr::V4((first + k) as u32),
        ));
        k = k + 1;
    }
}

proof fn lemma_two_pow_mul(a: nat, b: nat)
    ensures
        two_pow(a) * two_pow(b) == two_pow(a + b),
    decreases a,
{
    if a == 0 {
        assert(two_pow(0) == 1);
        assert(a + b == b);
    } else {
        let am1 = (a - 1) as nat;
        lemma_two_pow_mul(am1, b);
        assert(two_pow(am1 + b) == two_pow(am1) * two_pow(b));
        assert(two_pow(a + b) == 2 * two_pow(am1 + b));
        assert(two_pow(a) == 2 * two_pow(am1));
        assert(two_pow(a) * two_pow(b) == 2 * (two_pow(am1) * two_pow(b))) by (nonlinear_arith)
            requires
                two_pow(a) == 2 * two_pow(am1),
        ;
    }
}

proof fn lemma_two_pow_positive(a: nat)
    ensures
        two_pow(a) >= 1,
    decreases a,
{
    if a > 0 {
        lemma_two_pow_positive((a - 1) as nat);
    }
}

proof fn lemma_two_pow_split(n: nat)
    requires
        n <= 32,
    ensures
        1 <= two_pow(n) <= 0x1_0000_0000,
        two_pow(n) * two_pow((32 - n) as nat) == 0x1_0000_0000,
{
    reveal_with_fuel(two_pow, 33);
    assert(two_pow(32) == 0x1_0000_0000);
    lemma_two_pow_mul(n, (32 - n) as nat);
    lemma_two_pow_positive(n);
    lemma_two_pow_positive((32 - n) as nat);
    assert(two_pow(n) <= two_pow(n) * two_pow((32 - n) as nat)) by (nonlinear_arith)
        requires
            two_pow((32 - n) as nat) >= 1,
            two_pow(n) >= 1,
    ;
}

proof fn lemma_block_fits(x: int, b: int, q: int)
    requires
        b > 0,
        q > 0,
        0 <= x < b * q,
    ensures
        0 <= x % b < b,
        x - x % b >= 0,
        x - x % b + b <= b * q,
        (x - x % b) % b == 0,
{
    vstd::arithmetic::div_mod::lemma_fundamental_div_mod(x, b);
    vstd::arithmetic::div_mod::lemma_mod_bound(x, b);
    let d = x / b;
    assert(x == b * d + x % b);
    assert(d < q) by (nonlinear_arith)
        requires
            x == b * d + x % b,
            0 <= x % b,
            x < b * q,
            b > 0,
    ;
    assert(d >= 0) by (nonlinear_arith)
        requires
            x == b * d + x % b,
            x % b < b,
            x >= 0,
            b > 0,
    ;
    assert(b * d + b <= b * q) by (nonlinear_arith)
        requires
            d < q,
            b > 0,
    ;
    vstd::arithmetic::div_mod::lemma_mod_multiples_basic(d, b);
    assert(x - x % b == d * b) by (nonlinear_arith)
        requires
            x == b * d + x % b,
    ;
}

fn two_pow_exec(n: u32) -> (res: u64)
    requires
        n <= 32,
    ensures
        res == two_pow(n as nat),
{
    let mut b: u64 = 1;
    let mut k: u32 = 0;
    while k < n
        invariant
            k <= n <= 32,
            b == two_pow(k as nat),
        decreases n - k,
    {
        proof {
            lemma_two_pow_split((k + 1) as nat);
        }
        b = b * 2;
        k = k + 1;
    }
    b
}

/// Expands a CIDR block such as `192.168.1.0/24` into its host addresses.
pub fn parse_cidr(s: &[char]) -> (res: Result<Vec<IpAddr>, TargetError>)
    ensures
        res matches Ok(v) ==> parse_cidr_spec(s@) == Ok::<Seq<IpAddr>, TargetError>(v@),
        res matches Err(e) ==> parse_cidr_spec(s@) == Err::<Seq<IpAddr>, TargetError>(e),
{
    let (ip, pre) = match split_once_chars(s, '/') {
        Some(p) => p,
        None => {
            return Err(TargetError::NotCidr);
        },
    };
    let base = match parse_ipv4(ip.as_slice()) {
        Some(b) => b,
        None => {
            return Err(TargetError::BadIpv4);
        },
    };
    let prefix = match parse_unsigned_chars(pre.as_slice(), 0xFFFF_FFFF) {
        Ok(p) => p,
        Err(k) => {
            return Err(TargetError::BadPrefix(k));
        },
    };
    if prefix > 32 {
        return Err(TargetError::PrefixTooLong(prefix));
    }
    let mut out: Vec<IpAddr> = Vec::new();
    if prefix == 32 {
        out.push(IpAddr::V4(base));
        assert(out@ =~= seq![IpAddr::V4(base)]);
        return Ok(out);
    }
    let block = two_pow_exec(32 - prefix);
    proof {
        lemma_two_pow_split((32 - prefix) as nat);
        assert(two_pow(prefix as nat) * two_pow((32 - prefix) as nat) == 0x1_0000_0000) by {
            lemma_two_pow_mul(prefix as nat, (32 - prefix) as nat);
            lemma_two_pow_split(prefix as nat);
        }
        lemma_two_pow_positive(prefix as nat);
        lemma_block_fits(base as int, block as int, two_pow(prefix as nat) as int);
    }
    let network: u64 = base as u64 - (base as u64) % block;
    if prefix == 31 {
        push_run(&mut out, network, 2);
    } else {
        proof {
            lemma_two_pow_split((32 - prefix) as nat);
            reveal_with_fuel(two_pow, 3);
            lemma_two_pow_mul(2, (30 - prefix) as nat);
            lemma_two_pow_positive((30 - prefix) as nat);
        }
        push_run(&mut out, network + 1, block - 2);
    }
    assert(out@ =~= cidr_hosts(base, prefix as nat));
    Ok(out)
}

/// Expands a range such as `192.168.1.1-192.168.1.10` into every address in it.
pub fn parse_range(s: &[char]) -> (res: Result<Vec<IpAddr>, TargetError>)
    ensures
        res matches Ok(v) ==> parse_range_spec(s@) == Ok::<Seq<IpAddr>, TargetError>(v@),
        res matches Err(e) ==> parse_range_spec(s@) == Err::<Seq<IpAddr>, TargetError>(e),
{
    let (a, b) = match split_once_chars(s, '-') {
        Some(p) => p,
        None => {
            return Err(TargetError::NotRange);
        },
    };
    let start = match parse_ipv4(trim_chars(a.as_slice()).as_slice()) {
        Some(v) => v,
        None => {
            return Err(TargetError::BadIpv4);
        },
    };
    let end = match parse_ipv4(trim_chars(b.as_slice()).as_slice()) {
        Some(v) => v,
        None => {
            return Err(TargetError::BadIpv4);
        },
    };
    if start > end {
        return Err(TargetError::ReversedRange(start, end));
    }
    let mut out: Vec<IpAddr> = Vec::new();
    push_run(&mut out, start as u64, (end - start) as u64 + 1);
    assert(out@ =~= v4_run(start as int, (end - start + 1) as nat));
    Ok(out)
}

/// Turns a target (an IP address, a CIDR block or an IPv4 range) into the
/// list of addresses to scan.
pub fn parse_targets(input: &str) -> (res: Result<Vec<IpAddr>, TargetError>)
    ensures
        res matches Ok(v) ==> parse_targets_spec(input@) == Ok::<Seq<IpAddr>, TargetError>(v@),
        res matches Err(e) ==> parse_targets_spec(input@) == Err::<Seq<IpAddr>, TargetError>(e),
{
    let s = chars_of(input);
    let slash = vec!['/'];
    let dash = vec!['-'];
    assert(slash@ =~= seq!['/']);
    assert(dash@ =~= seq!['-']);
    if find_chars(s.as_slice(), slash.as_slice()).is_some() {
        parse_cidr(s.as_slice())
    } else if find_chars(s.as_slice(), dash.as_slice()).is_some() {
        parse_range(s.as_slice())
    } else {
        match parse_ip(trim_chars(s.as_slice()).as_slice()) {
            Some(a) => {
                let mut out: Vec<IpAddr> = Vec::new();
                out.push(a);
                assert(out@ =~= seq![a]);
                Ok(out)
            },
            None => Err(TargetError::BadIp),
        }
    }
}


/// Dotted-decimal text of an IPv4 address.
pub open spec fn ipv4_text(v: u32) -> Seq<char> {
    dec_text((v / 0x1000000) as nat) + seq!['.'] + dec_text((v / 0x10000 % 0x100) as nat) + seq!['.']
        + dec_text((v / 0x100 % 0x100) as nat) + seq!['.'] + dec_text((v % 0x100) as nat)
}

/// Text of an address, as `Display` of `std::net::IpAddr` writes it.
pub open spec fn ip_text(a: IpAddr) -> Seq<char> {
    match a {
        IpAddr::V4(v) => ipv4_text(v),
        IpAddr::V6(w) => ipv6_text(w),
    }
}

/// Appends the dotted-decimal text of an IPv4 address.
pub fn push_ipv4_text(out: &mut Vec<char>, v: u32)
    ensures
        final(out)@ == old(out)@ + ipv4_text(v),
{
    push_decimal(out, (v / 0x1000000) as u64);
    out.push('.');
    push_decimal(out, (v / 0x10000 % 0x100) as u64);
    out.push('.');
    push_decimal(out, (v / 0x100 % 0x100) as u64);
    out.push('.');
    push_decimal(out, (v % 0x100) as u64);
    assert(out@ =~= old(out)@ + ipv4_text(v));
}

impl IpAddr {
    /// The address in text: dotted decimal for IPv4, RFC 5952 form for IPv6.
    pub fn to_string(&self) -> (res: String)
        ensures
            res@ == ip_text(*self),
    {
        let mut out: Vec<char> = Vec::new();
        match self {
            IpAddr::V4(v) => push_ipv4_text(&mut out, *v),
            IpAddr::V6(w) => push_ipv6_text(&mut out, *w),
        }
        assert(out@ =~= ip_text(*self));
        string_of(out.as_slice())
    }
}

proof fn lemma_octet_text(n: nat)
    requires
        n <= 255,
    ensures
        octet_value(dec_text(n)) == Some(n as int),
        1 <= dec_text(n).len() <= 3,
        forall|q: int| 0 <= q < dec_text(n).len() ==> is_digit(#[trigger] dec_text(n)[q]),
{
    let t = dec_text(n);
    if n < 10 {
        assert(t =~= seq![digit_char(n)]);
        assert(t.drop_first() =~= Seq::<char>::empty());
        assert(scan_digits(t.drop_first(), n as int, 255) == Ok::<int, IntErrorKind>(n as int));
    } else if n < 100 {
        let a = n / 10;
        let b = n % 10;
        assert(dec_text(a) =~= seq![digit_char(a)]);
        assert(t =~= seq![digit_char(a), digit_char(b)]);
        assert(t.drop_first() =~= seq![digit_char(b)]);
        assert(t.drop_first().drop_first() =~= Seq::<char>::empty());
        assert(scan_digits(t.drop_first().drop_first(), (a * 10 + b) as int, 255) == Ok::<int, IntErrorKind>(n as int));
        assert(scan_digits(t.drop_first(), a as int, 255) == Ok::<int, IntErrorKind>(n as int));
    } else {
        let a = n / 100;
        let b = n / 10 % 10;
        let c = n % 10;
        assert(n / 10 / 10 == a);
        assert(dec_text(n / 10 / 10) =~= seq![digit_char(a)]);
        assert(dec_text(n / 10) =~= seq![digit_char(a), digit_char(b)]);
        assert(t =~= seq![digit_char(a), digit_char(b), digit_char(c)]);
        assert(t.drop_first() =~= seq![digit_char(b), digit_char(c)]);
        assert(t.drop_first().drop_first() =~= seq![digit_char(c)]);
        assert(t.drop_first().drop_first().drop_first() =~= Seq::<char>::empty());
        assert((a * 10 + b) * 10 + c == n);
        assert(a * 10 + b <= 25);
        assert(scan_digits(t.drop_first().drop_first().drop_first(), n as int, 255) == Ok::<int, IntErrorKind>(n as int));
        assert(scan_digits(t.drop_first().drop_first(), (a * 10 + b) as int, 255) == Ok::<int, IntErrorKind>(n as int));
        assert(scan_digits(t.drop_first(), a as int, 255) == Ok::<int, IntErrorKind>(n as int));
    }
}

/// The dotted-decimal text of an IPv4 address reads back as that address.
pub proof fn lemma_ipv4_text_roundtrip(v: u32)
    ensures
        ipv4_value(ipv4_text(v)) == Some(v),
{
    let a = (v / 0x1000000) as nat;
    let b = (v / 0x10000 % 0x100) as nat;
    let c = (v / 0x100 % 0x100) as nat;
    let d = (v % 0x100) as nat;
    lemma_octet_text(a);
    lemma_octet_text(b);
    lemma_octet_text(c);
    lemma_octet_text(d);
    let (ta, tb, tc, td) = (dec_text(a), dec_text(b), dec_text(c), dec_text(d));
    assert forall|q: int| 0 <= q < ta.len() implies ta[q] != '.' by { assert(is_digit(ta[q])); }
    assert forall|q: int| 0 <= q < tb.len() implies tb[q] != '.' by { assert(is_digit(tb[q])); }
    assert forall|q: int| 0 <= q < tc.len() implies tc[q] != '.' by { assert(is_digit(tc[q])); }
    assert forall|q: int| 0 <= q < td.len() implies td[q] != '.' by { assert(is_digit(td[q])); }
    lemma_split_no_sep(ta, '.');
    lemma_split_no_sep(tb, '.');
    lemma_split_no_sep(tc, '.');
    lemma_split_no_sep(td, '.');
    lemma_split_join(ta, tb, '.');
    lemma_split_join(ta + seq!['.'] + tb, tc, '.');
    lemma_split_join(ta + seq!['.'] + tb + seq!['.'] + tc, td, '.');
    let parts = split_char(ipv4_text(v), '.');
    assert(parts =~= seq![ta, tb, tc, td]);
    assert(a * 0x1000000 + b * 0x10000 + c * 0x100 + d == v) by (nonlinear_arith)
        requires
            a == v / 0x1000000,
            b == v / 0x10000 % 0x100,
            c == v / 0x100 % 0x100,
            d == v % 0x100,
            v < 0x1_0000_0000,
    ;
}

/// The dotted-decimal text of an IPv4 address, given as a target, names
/// that one address.
pub proof fn lemma_ipv4_target_roundtrip(v: u32)
    ensures
        parse_targets_spec(ipv4_text(v)) == Ok::<Seq<IpAddr>, TargetError>(seq![IpAddr::V4(v)]),
{
    let a = (v / 0x1000000) as nat;
    let b = (v / 0x10000 % 0x100) as nat;
    let c = (v / 0x100 % 0x100) as nat;
    let d = (v % 0x100) as nat;
    lemma_octet_text(a);
    lemma_octet_text(b);
    lemma_octet_text(c);
    lemma_octet_text(d);
    lemma_ipv4_text_roundtrip(v);
    let t = ipv4_text(v);
    let (ta, tb, tc, td) = (dec_text(a), dec_text(b), dec_text(c), dec_text(d));
    assert forall|q: int| 0 <= q < t.len() implies is_digit(#[trigger] t[q]) || t[q] == '.' by {
        let la = ta.len() as int;
        let lb = tb.len() as int;
        let lc = tc.len() as int;
        if q < la {
            assert(t[q] == ta[q]);
        } else if q == la {
        } else if q < la + 1 + lb {
            assert(t[q] == tb[q - la - 1]);
        } else if q == la + 1 + lb {
        } else if q < la + lb + lc + 2 {
            assert(t[q] == tc[q - la - lb - 2]);
        } else if q == la + lb + lc + 2 {
        } else {
            assert(t[q] == td[q - la - lb - lc - 3]);
        }
    }
    assert forall|q: int| 0 <= q < t.len() implies t[q] != '/' by {
        assert(is_digit(t[q]) || t[q] == '.');
    }
    assert forall|q: int| 0 <= q < t.len() implies t[q] != '-' by {
        assert(is_digit(t[q]) || t[q] == '.');
    }
    lemma_absent_char(t, '/');
    lemma_absent_char(t, '-');
    assert(t[0] == ta[0]);
    assert(is_digit(t[0]));
    assert(t.last() == td[td.len() - 1]);
    assert(is_digit(t.last()));
    lemma_trim_noop(t);
}

/// In `a`, then `c`, then `b`, where `a` holds no `c`, the first `c` is the
/// one after `a`.
pub(crate) proof fn lemma_find_after(a: Seq<char>, b: Seq<char>, c: char)
    requires
        forall|q: int| 0 <= q < a.len() ==> a[q] != c,
    ensures
        find(a + seq![c] + b, seq![c]) == Some(a.len() as int),
        split_once(a + seq![c] + b, c) == Some((a, b)),
{
    let s = a + seq![c] + b;
    let i = a.len() as int;
    assert(s.subrange(i, i + 1) =~= seq![c]);
    assert forall|j: int| 0 <= j < i implies !crate::text::matches_at(s, seq![c], j) by {
        if crate::text::matches_at(s, seq![c], j) {
            assert(s.subrange(j, j + 1)[0] == s[j]);
            assert(s[j] == a[j]);
        }
    }
    assert(crate::text::is_first_match(s, seq![c], i));
    let k = choose|k: int| crate::text::is_first_match(s, seq![c], k);
    crate::text::lemma_first_match_unique(s, seq![c], i, k);
    assert(s.take(i) =~= a);
    assert(s.skip(i + 1) =~= b);
}

/// A range `a-b` whose bounds read as the IPv4 addresses `start <= end`
/// names every address from `start` to `end` in order: `end - start + 1`
/// addresses, the k-th being `start + k`, the last being `end`.
pub proof fn lemma_range_targets(a: Seq<char>, b: Seq<char>, start: u32, end: u32)
    requires
        forall|q: int| 0 <= q < a.len() ==> a[q] != '-' && a[q] != '/',
        forall|q: int| 0 <= q < b.len() ==> b[q] != '/',
        ipv4_value(trim(a)) == Some(start),
        ipv4_value(trim(b)) == Some(end),
        start <= end,
    ensures
        ({
            let r = parse_targets_spec(a + seq!['-'] + b);
            &&& r is Ok
            &&& r->Ok_0.len() == end - start + 1
            &&& forall|k: int| 0 <= k <= end - start ==> #[trigger] r->Ok_0[k] == IpAddr::V4((start + k) as u32)
            &&& r->Ok_0.last() == IpAddr::V4(end)
        }),
{
    let s = a + seq!['-'] + b;
    lemma_find_after(a, b, '-');
    assert forall|q: int| 0 <= q < s.len() implies s[q] != '/' by {
        if q < a.len() {
            assert(s[q] == a[q]);
        } else if q > a.len() {
            assert(s[q] == b[q - a.len() - 1]);
        }
    }
    lemma_absent_char(s, '/');
    let v = parse_targets_spec(s)->Ok_0;
    assert(v == v4_run(start as int, (end - start + 1) as nat));
    assert(v[end - start] == IpAddr::V4((start + (end - start)) as u32));
}

/// `a` is the IPv4 address at offset `pos` in the aligned block of `block`
/// addresses that holds `base`.
pub open spec fn in_block_at(a: IpAddr, base: u32, block: int, pos: int) -> bool {
    match a {
        IpAddr::V4(x) => (x as int) / block == (base as int) / block && (x as int) % block == pos,
        IpAddr::V6(_) => false,
    }
}

/// A CIDR block `a/d` whose base reads as the IPv4 address `base` and whose
/// prefix length reads as `p <= 32` names: for /32 the base itself;
/// otherwise addresses of the aligned block of `2^(32-p)` addresses that
/// holds `base`, in increasing order: for /31 both of them, for shorter
/// prefixes all but the first and the last (network and broadcast).
pub proof fn lemma_cidr_targets(a: Seq<char>, d: Seq<char>, base: u32, p: nat)
    requires
        forall|q: int| 0 <= q < a.len() ==> a[q] != '/',
        ipv4_value(a) == Some(base),
        parse_unsigned(d, 0xFFFF_FFFF) == Ok::<int, IntErrorKind>(p as int),
        p <= 32,
    ensures
        ({
            let r = parse_targets_spec(a + seq!['/'] + d);
            let v = r->Ok_0;
            let block = two_pow((32 - p) as nat) as int;
            &&& r is Ok
            &&& p == 32 ==> v == seq![IpAddr::V4(base)]
            &&& p == 31 ==> v.len() == 2
            &&& p <= 30 ==> v.len() == block - 2
            &&& p < 32 ==> forall|k: int| 0 <= k < v.len() ==> in_block_at(#[trigger] v[k], base, block, (if p == 31 { k } else { k + 1 }))
        }),
{
    let s = a + seq!['/'] + d;
    lemma_find_after(a, d, '/');
    let r = parse_targets_spec(s);
    assert(r == Ok::<Seq<IpAddr>, TargetError>(cidr_hosts(base, p)));
    if p < 32 {
        let block = two_pow((32 - p) as nat) as int;
        lemma_two_pow_split(p);
        lemma_two_pow_split((32 - p) as nat);
        lemma_two_pow_mul(p, (32 - p) as nat);
        lemma_two_pow_positive(p);
        let q = two_pow(p) as int;
        assert(block * q == 0x1_0000_0000) by (nonlinear_arith)
            requires
                two_pow(p) * two_pow((32 - p) as nat) == 0x1_0000_0000,
                block == two_pow((32 - p) as nat),
                q == two_pow(p),
        ;
        lemma_block_fits(base as int, block, q);
        if p <= 30 {
            reveal_with_fuel(two_pow, 3);
            lemma_two_pow_mul(2, (30 - p) as nat);
            lemma_two_pow_positive((30 - p) as nat);
            assert(block >= 4);
        } else {
            reveal_with_fuel(two_pow, 2);
            assert(block == 2);
        }
        vstd::arithmetic::div_mod::lemma_fundamental_div_mod(base as int, block);
        let network = base as int - (base as int) % block;
        assert(network == block * ((base as int) / block));
        let off: int = if p == 31 { 0 } else { 1 };
        let v = r->Ok_0;
        assert forall|k: int| 0 <= k < v.len() implies in_block_at(#[trigger] v[k], base, block, (if p == 31 { k } else { k + 1 })) by {
            let y = network + off + k;
            assert(0 <= off + k < block);
            assert(y < 0x1_0000_0000);
            assert(v[k] == IpAddr::V4(y as u32));
            assert((y as u32) as int == y);
            let qb = (base as int) / block;
            assert(y == qb * block + (off + k)) by (nonlinear_arith)
                requires
                    network == block * qb,
                    y == network + off + k,
            ;
            vstd::arithmetic::div_mod::lemma_fundamental_div_mod_converse(
                y,
                block,
                (base as int) / block,
                off + k,
            );
        }
    }
}

} // verus!
