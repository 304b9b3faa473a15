//! Character-level text handling: whitespace, trimming, splitting,
//! searching and decimal numbers, all over `Seq<char>` models.
use vstd::prelude::*;

verus! {

pub assume_specification[ String::push ](s: &mut String, ch: char)
    ensures
        final(s)@ == old(s)@.push(ch),
;

/// The Unicode `White_Space` characters, which `char::is_whitespace` accepts.
pub open spec fn is_ws(c: char) -> bool {
    let u = c as u32;
    ||| 0x09 <= u <= 0x0D
    ||| u == 0x20
    ||| u == 0x85
    ||| u == 0xA0
    ||| u == 0x1680
    ||| 0x2000 <= u <= 0x200A
    ||| u == 0x2028
    ||| u == 0x2029
    ||| u == 0x202F
    ||| u == 0x205F
    ||| u == 0x3000
}

pub fn is_whitespace(c: char) -> (res: bool)
    ensures
        res == is_ws(c),
{
    let u = c as u32;
    (0x09 <= u && u <= 0x0D) || u == 0x20 || u == 0x85 || u == 0xA0 || u == 0x1680 || (0x2000
        <= u && u <= 0x200A) || u == 0x2028 || u == 0x2029 || u == 0x202F || u == 0x205F || u
        == 0x3000
}

/// The text without its leading whitespace.
pub open spec fn trim_start(s: Seq<char>) -> Seq<char>
    decreases s.len(),
{
    if s.len() > 0 && is_ws(s[0]) {
        trim_start(s.drop_first())
    } else {
        s
    }
}

/// The text without its trailing whitespace.
pub open spec fn trim_end(s: Seq<char>) -> Seq<char>
    decreases s.len(),
{
    if s.len() > 0 && is_ws(s.last()) {
        trim_end(s.drop_last())
    } else {
        s
    }
}

/// The text without leading and trailing whitespace (`str::trim`).
pub open spec fn trim(s: Seq<char>) -> Seq<char> {
    trim_end(trim_start(s))
}

pub fn chars_of(s: &str) -> (res: Vec<char>)
    ensures
        res@ == s@,
{
    let mut res: Vec<char> = Vec::new();
    for c in it: s.chars()
        invariant
            res@ == it.seq().take(it.index() as int),
    {
        res.push(c);
    }
    res
}

pub fn string_of(v: &[char]) -> (res: String)
    ensures
        res@ == v@,
{
    let mut res = String::new();
    let mut i: usize = 0;
    while i < v.len()
        invariant
            i <= v.len(),
            res@ == v@.take(i as int),
        decreases v.len() - i,
    {
        res.push(v[i]);
        assert(v@.take(i + 1) == v@.take(i as int).push(v@[i as int]));
        i = i + 1;
    }
    assert(v@.take(v.len() as int) == v@);
    res
}

/// A copy of `s[from..to]`.
pub fn slice_of(s: &[char], from: usize, to: usize) -> (res: Vec<char>)
    requires
        from <= to <= s@.len(),
    ensures
        res@ == s@.subrange(from as int, to as int),
{
    let mut res: Vec<char> = Vec::new();
    let mut i = from;
    while i < to
        invariant
            from <= i <= to <= s@.len(),
            res@ == s@.subrange(from as int, i as int),
        decreases to - i,
    {
        res.push(s[i]);
        assert(s@.subrange(from as int, i + 1) == s@.subrange(from as int, i as int).push(
            s@[i as int],
        ));
        i = i + 1;
    }
    res
}

/// Appends `b` to `a`.
pub fn append_chars(a: &mut Vec<char>, b: &[char])
    ensures
        final(a)@ == old(a)@ + b@,
{
    let mut i: usize = 0;
    while i < b.len()
        invariant
            i <= b.len(),
            a@ == old(a)@ + b@.take(i as int),
        decreases b.len() - i,
    {
        a.push(b[i]);
        assert(b@.take(i + 1) == b@.take(i as int).push(b@[i as int]));
        i = i + 1;
    }
    assert(b@.take(b.len() as int) == b@);
}

pub fn chars_eq(a: &[char], b: &[char]) -> (res: bool)
    ensures
        res == (a@ == b@),
{
    if a.len() != b.len() {
        return false;
    }
    let mut i: usize = 0;
    while i < a.len()
        invariant
            a.len() == b.len(),
            i <= a.len(),
            forall|k: int| 0 <= k < i ==> a@[k] == b@[k],
        decreases a.len() - i,
    {
        if a[i] != b[i] {
            return false;
        }
        i = i + 1;
    }
    assert(a@ =~= b@);
    true
}

proof fn lemma_trim_start_step(s: Seq<char>, i: int)
    requires
        0 <= i < s.len(),
        is_ws(s[i]),
    ensures
        trim_start(s.subrange(i, s.len() as int)) == trim_start(s.subrange(i + 1, s.len() as int)),
{
    assert(s.subrange(i, s.len() as int).drop_first() =~= s.subrange(i + 1, s.len() as int));
}

proof fn lemma_trim_end_step(s: Seq<char>, j: int)
    requires
        0 < j <= s.len(),
        is_ws(s[j - 1]),
    ensures
        trim_end(s.subrange(0, j)) == trim_end(s.subrange(0, j - 1)),
{
    assert(s.subrange(0, j).drop_last() =~= s.subrange(0, j - 1));
}

/// Index of the first non-whitespace character, and one past the last one,
/// so that `trim(s) == s[start..end]`.
pub fn trim_bounds(s: &[char]) -> (res: (usize, usize))
    ensures
        res.0 <= res.1 <= s@.len(),
        trim_start(s@) == s@.subrange(res.0 as int, s@.len() as int),
        trim(s@) == s@.subrange(res.0 as int, res.1 as int),
{
    let n = s.len();
    let mut i: usize = 0;
    assert(s@.subrange(0, n as int) =~= s@);
    while i < n && is_whitespace(s[i])
        invariant
            i <= n == s@.len(),
            trim_start(s@) == trim_start(s@.subrange(i as int, n as int)),
        decreases n - i,
    {
        proof {
            lemma_trim_start_step(s@, i as int);
        }
        i = i + 1;
    }
    let ghost t = s@.subrange(i as int, n as int);
    assert(trim_start(t) == t);
    let mut j: usize = n;
    assert(t.subrange(0, (j - i) as int) =~= t);
    while j > i && is_whitespace(s[j - 1])
        invariant
            i <= j <= n == s@.len(),
            t == s@.subrange(i as int, n as int),
            trim_end(t) == trim_end(t.subrange(0, (j - i) as int)),
        decreases j,
    {
        proof {
            lemma_trim_end_step(t, (j - i) as int);
        }
        j = j - 1;
    }
    assert(t.subrange(0, (j - i) as int) =~= s@.subrange(i as int, j as int));
    (i, j)
}

pub fn trim_chars(s: &[char]) -> (res: Vec<char>)
    ensures
        res@ == trim(s@),
{
    let (a, b) = trim_bounds(s);
    slice_of(s, a, b)
}


/// The pieces of `s` between occurrences of `sep` (`str::split` with a char).
pub open spec fn split_char(s: Seq<char>, sep: char) -> Seq<Seq<char>>
    decreases s.len(),
{
    if s.len() == 0 {
        seq![Seq::<char>::empty()]
    } else {
        let prev = split_char(s.drop_last(), sep);
        if s.last() == sep {
            prev.push(Seq::<char>::empty())
        } else {
            prev.update(prev.len() - 1, prev.last().push(s.last()))
        }
    }
}

pub proof fn lemma_split_nonempty(s: Seq<char>, sep: char)
    ensures
        split_char(s, sep).len() >= 1,
    decreases s.len(),
{
    if s.len() > 0 {
        lemma_split_nonempty(s.drop_last(), sep);
    }
}

/// A text without the separator is a single piece.
pub proof fn lemma_split_no_sep(t: Seq<char>, sep: char)
    requires
        forall|q: int| 0 <= q < t.len() ==> t[q] != sep,
    ensures
        split_char(t, sep) == seq![t],
    decreases t.len(),
{
    if t.len() > 0 {
        lemma_split_no_sep(t.drop_last(), sep);
        assert(t.drop_last().push(t.last()) =~= t);
        assert(split_char(t, sep) =~= seq![t]);
    } else {
        assert(t =~= Seq::<char>::empty());
    }
}

/// Splitting `s`, a separator, then `t` gives the pieces of `s`, then those
/// of `t`.
pub proof fn lemma_split_join(s: Seq<char>, t: Seq<char>, sep: char)
    ensures
        split_char(s + seq![sep] + t, sep) == split_char(s, sep) + split_char(t, sep),
    decreases t.len(),
{
    let u = s + seq![sep] + t;
    if t.len() == 0 {
        assert(u.drop_last() =~= s);
        assert(split_char(t, sep) =~= seq![Seq::<char>::empty()]);
        assert(split_char(u, sep) =~= split_char(s, sep) + split_char(t, sep));
    } else {
        lemma_split_join(s, t.drop_last(), sep);
        lemma_split_nonempty(t.drop_last(), sep);
        assert(u.drop_last() =~= s + seq![sep] + t.drop_last());
        assert(u.last() == t.last());
        assert(split_char(u, sep) =~= split_char(s, sep) + split_char(t, sep));
    }
}

pub open spec fn views(v: Seq<Vec<char>>) -> Seq<Seq<char>> {
    v.map_values(|x: Vec<char>| x@)
}

pub fn split_chars(s: &[char], sep: char) -> (res: Vec<Vec<char>>)
    ensures
        views(res@) == split_char(s@, sep),
{
    let mut done: Vec<Vec<char>> = Vec::new();
    let mut cur: Vec<char> = Vec::new();
    let mut i: usize = 0;
    assert(s@.take(0) =~= Seq::<char>::empty());
    assert(views(done@).push(cur@) =~= split_char(s@.take(0), sep));
    while i < s.len()
        invariant
            i <= s.len(),
            views(done@).push(cur@) == split_char(s@.take(i as int), sep),
        decreases s.len() - i,
    {
        assert(s@.take(i + 1).drop_last() =~= s@.take(i as int));
        assert(s@.take(i + 1).last() == s@[i as int]);
        proof {
            lemma_split_nonempty(s@.take(i as int), sep);
        }
        if s[i] == sep {
            let finished = cur;
            done.push(finished);
            cur = Vec::new();
            assert(views(done@).push(cur@) =~= split_char(s@.take(i + 1), sep));
        } else {
            cur.push(s[i]);
            assert(views(done@).push(cur@) =~= split_char(s@.take(i + 1), sep));
        }
        i = i + 1;
    }
    assert(s@.take(s.len() as int) =~= s@);
    done.push(cur);
    assert(views(done@) =~= split_char(s@, sep));
    done
}

/// `pat` occurs in `s` at index `i`.
pub open spec fn matches_at(s: Seq<char>, pat: Seq<char>, i: int) -> bool {
    0 <= i && i + pat.len() <= s.len() && s.subrange(i, i + pat.len()) == pat
}

pub open spec fn is_first_match(s: Seq<char>, pat: Seq<char>, i: int) -> bool {
    matches_at(s, pat, i) && forall|j: int| 0 <= j < i ==> !matches_at(s, pat, j)
}

/// Index of the first occurrence of `pat` in `s` (`str::find`).
pub open spec fn find(s: Seq<char>, pat: Seq<char>) -> Option<int> {
    if exists|i: int| is_first_match(s, pat, i) {
        Some(choose|i: int| is_first_match(s, pat, i))
    } else {
        None
    }
}

/// `str::contains`.
pub open spec fn contains(s: Seq<char>, pat: Seq<char>) -> bool {
    find(s, pat) is Some
}

/// A text in which a character does not occur does not contain it.
pub proof fn lemma_absent_char(s: Seq<char>, c: char)
    requires
        forall|q: int| 0 <= q < s.len() ==> s[q] != c,
    ensures
        !contains(s, seq![c]),
{
    if exists|i: int| is_first_match(s, seq![c], i) {
        let i = choose|i: int| is_first_match(s, seq![c], i);
        assert(s.subrange(i, i + 1)[0] == s[i]);
    }
}

/// A text that starts and ends with a non-whitespace character is its own
/// trim.
pub proof fn lemma_trim_noop(s: Seq<char>)
    requires
        s.len() > 0,
        !is_ws(s[0]),
        !is_ws(s.last()),
    ensures
        trim(s) == s,
{
}

pub proof fn lemma_first_match_unique(s: Seq<char>, pat: Seq<char>, i: int, k: int)
    requires
        is_first_match(s, pat, i),
        is_first_match(s, pat, k),
    ensures
        i == k,
{
    if i < k {
        assert(!matches_at(s, pat, i));
    } else if k < i {
        assert(!matches_at(s, pat, k));
    }
}

pub fn match_at(s: &[char], pat: &[char], i: usize) -> (res: bool)
    ensures
        res == matches_at(s@, pat@, i as int),
{
    if i > s.len() || pat.len() > s.len() - i {
        return false;
    }
    let mut k: usize = 0;
    while k < pat.len()
        invariant
            i + pat.len() <= s.len(),
            k <= pat.len(),
            forall|j: int| 0 <= j < k ==> s@[i + j] == pat@[j],
        decreases pat.len() - k,
    {
        if s[i + k] != pat[k] {
            assert(s@.subrange(i as int, i + pat.len())[k as int] != pat@[k as int]);
            return false;
        }
        k = k + 1;
    }
    assert(s@.subrange(i as int, i + pat.len()) =~= pat@);
    true
}

pub fn find_chars(s: &[char], pat: &[char]) -> (res: Option<usize>)
    ensures
        res matches Some(i) ==> find(s@, pat@) == Some(i as int) && i + pat@.len() <= s@.len(),
        res is None ==> find(s@, pat@) is None,
{
    let mut i: usize = 0;
    loop
        invariant
            i <= s.len(),
            forall|j: int| 0 <= j < i ==> !matches_at(s@, pat@, j),
        ensures
            forall|j: int| 0 <= j <= s.len() ==> !matches_at(s@, pat@, j),
        decreases s.len() - i,
    {
        if match_at(s, pat, i) {
            assert(is_first_match(s@, pat@, i as int));
            proof {
                let k = choose|k: int| is_first_match(s@, pat@, k);
                lemma_first_match_unique(s@, pat@, i as int, k);
            }
            return Some(i);
        }
        if i == s.len() {
            break;
        }
        i = i + 1;
    }
    assert forall|j: int| !is_first_match(s@, pat@, j) by {
        if 0 <= j <= s.len() {
        } else {
            assert(!matches_at(s@, pat@, j));
        }
    }
    None
}

pub open spec fn is_digit(c: char) -> bool {
    0x30 <= c as u32 <= 0x39
}

pub open spec fn digit_value(c: char) -> int {
    c as u32 - 0x30
}

/// Why text is not an unsigned decimal number (`core::num::IntErrorKind`).
#[derive(Debug, Clone, Copy, PartialEq, Eq, Structural)]
pub enum IntErrorKind {
    Empty,
    InvalidDigit,
    PosOverflow,
}

/// Reads the digits left to right as `from_str` does: a non-digit is
/// `InvalidDigit`, going past `max` is `PosOverflow`, whichever comes first.
pub open spec fn scan_digits(d: Seq<char>, acc: int, max: int) -> Result<int, IntErrorKind>
    decreases d.len(),
{
    if d.len() == 0 {
        Ok(acc)
    } else if !is_digit(d[0]) {
        Err(IntErrorKind::InvalidDigit)
    } else if acc * 10 + digit_value(d[0]) > max {
        Err(IntErrorKind::PosOverflow)
    } else {
        scan_digits(d.drop_first(), acc * 10 + digit_value(d[0]), max)
    }
}

/// `from_str` of an unsigned integer type whose largest value is `max`:
/// an optional `+`, then one or more ASCII digits.
pub open spec fn parse_unsigned(s: Seq<char>, max: int) -> Result<int, IntErrorKind> {
    if s.len() == 0 {
        Err(IntErrorKind::Empty)
    } else if s.len() == 1 && (s[0] == '+' || s[0] == '-') {
        Err(IntErrorKind::InvalidDigit)
    } else if s[0] == '+' {
        scan_digits(s.drop_first(), 0, max)
    } else {
        scan_digits(s, 0, max)
    }
}

pub proof fn lemma_scan_bounded(d: Seq<char>, acc: int, max: int)
    requires
        0 <= acc <= max,
    ensures
        scan_digits(d, acc, max) matches Ok(v) ==> 0 <= v <= max,
    decreases d.len(),
{
    if d.len() > 0 && is_digit(d[0]) && acc * 10 + digit_value(d[0]) <= max {
        lemma_scan_bounded(d.drop_first(), acc * 10 + digit_value(d[0]), max);
    }
}

pub proof fn lemma_parse_bounded(s: Seq<char>, max: int)
    requires
        0 <= max,
    ensures
        parse_unsigned(s, max) matches Ok(v) ==> 0 <= v <= max,
{
    if s.len() > 0 {
        lemma_scan_bounded(s.drop_first(), 0, max);
        lemma_scan_bounded(s, 0, max);
    }
}

/// Parses `s` as an unsigned decimal number no larger than `max`.
pub fn parse_unsigned_chars(s: &[char], max: u32) -> (res: Result<u32, IntErrorKind>)
    ensures
        res matches Ok(v) ==> parse_unsigned(s@, max as int) == Ok::<int, IntErrorKind>(v as int),
        res matches Err(e) ==> parse_unsigned(s@, max as int) == Err::<int, IntErrorKind>(e),
{
    if s.len() == 0 {
        return Err(IntErrorKind::Empty);
    }
    if s.len() == 1 && (s[0] == '+' || s[0] == '-') {
        return Err(IntErrorKind::InvalidDigit);
    }
    let start: usize = if s[0] == '+' { 1 } else { 0 };
    let ghost d = s@.subrange(start as int, s@.len() as int);
    assert(start == 1 ==> d =~= s@.drop_first());
    assert(start == 0 ==> d =~= s@);
    assert(parse_unsigned(s@, max as int) == scan_digits(d, 0, max as int));
    let mut acc: u64 = 0;
    let mut i: usize = start;
    while i < s.len()
        invariant
            start <= i <= s.len(),
            d == s@.subrange(start as int, s@.len() as int),
            parse_unsigned(s@, max as int) == scan_digits(d, 0, max as int),
            acc <= max,
            scan_digits(d, 0, max as int) == scan_digits(
                s@.subrange(i as int, s@.len() as int),
                acc as int,
                max as int,
            ),
        decreases s.len() - i,
    {
        let c = s[i];
        let u = c as u32;
        let ghost rest = s@.subrange(i as int, s@.len() as int);
        assert(rest[0] == c);
        assert(rest.drop_first() =~= s@.subrange(i + 1, s@.len() as int));
        if u < 0x30 || u > 0x39 {
            assert(!is_digit(rest[0]));
            assert(scan_digits(rest, acc as int, max as int) == Err::<int, IntErrorKind>(IntErrorKind::InvalidDigit));
            return Err(IntErrorKind::InvalidDigit);
        }
        let v = acc * 10 + (u - 0x30) as u64;
        assert(v == acc * 10 + digit_value(rest[0]));
        if v > max as u64 {
            return Err(IntErrorKind::PosOverflow);
        }
        acc = v;
        i = i + 1;
    }
    assert(s@.subrange(i as int, s@.len() as int) =~= Seq::<char>::empty());
    Ok(acc as u32)
}

pub open spec fn digit_char(n: nat) -> char {
    (0x30 + n) as char
}

/// Decimal text of `n`, without leading zeros.
pub open spec fn dec_text(n: nat) -> Seq<char>
    decreases n,
{
    if n < 10 {
        seq![digit_char(n)]
    } else {
        dec_text(n / 10).push(digit_char(n % 10))
    }
}

pub fn push_digit(out: &mut Vec<char>, d: u64)
    requires
        d < 10,
    ensures
        final(out)@ == old(out)@.push(digit_char(d as nat)),
{
    let c: char = match d {
        0 => '0',
        1 => '1',
        2 => '2',
        3 => '3',
        4 => '4',
        5 => '5',
        6 => '6',
        7 => '7',
        8 => '8',
        _ => '9',
    };
    assert(c == digit_char(d as nat));
    out.push(c);
}

/// Appends the decimal text of `n`.
pub fn push_decimal(out: &mut Vec<char>, n: u64)
    ensures
        final(out)@ == old(out)@ + dec_text(n as nat),
    decreases n,
{
    if n >= 10 {
        push_decimal(out, n / 10);
    }
    push_digit(out, n % 10);
    assert(old(out)@ + dec_text(n as nat) =~= old(out)@ + (if n >= 10 { dec_text((n / 10) as nat) } else { Seq::<char>::empty() }).push(digit_char((n % 10) as nat)));
}


/// `str::starts_with`.
pub open spec fn starts_with(s: Seq<char>, pat: Seq<char>) -> bool {
    pat.len() <= s.len() && s.take(pat.len() as int) == pat
}

/// The leading run of non-whitespace characters.
pub open spec fn word_prefix(t: Seq<char>) -> Seq<char>
    decreases t.len(),
{
    if t.len() == 0 || is_ws(t[0]) {
        Seq::empty()
    } else {
        seq![t[0]] + word_prefix(t.drop_first())
    }
}

/// The trailing run of non-whitespace characters.
pub open spec fn word_suffix(t: Seq<char>) -> Seq<char>
    decreases t.len(),
{
    if t.len() == 0 || is_ws(t.last()) {
        Seq::empty()
    } else {
        word_suffix(t.drop_last()).push(t.last())
    }
}

/// `str::split_whitespace().next()`.
pub open spec fn first_word(s: Seq<char>) -> Option<Seq<char>> {
    if trim_start(s).len() == 0 {
        None
    } else {
        Some(word_prefix(trim_start(s)))
    }
}

/// `str::split_whitespace().last()`.
pub open spec fn last_word(s: Seq<char>) -> Option<Seq<char>> {
    if trim_end(s).len() == 0 {
        None
    } else {
        Some(word_suffix(trim_end(s)))
    }
}

/// `str::split(pat).nth(1)`: the text between the first and the second
/// occurrence of `pat`, or after the first when there is no second.
pub open spec fn second_piece(s: Seq<char>, pat: Seq<char>) -> Option<Seq<char>> {
    match find(s, pat) {
        Some(i) => {
            let r = s.skip(i + pat.len());
            match find(r, pat) {
                Some(j) => Some(r.take(j)),
                None => Some(r),
            }
        },
        None => None,
    }
}

/// `str::split(pat).next()`: the text before the first occurrence of `pat`.
pub open spec fn first_piece(s: Seq<char>, pat: Seq<char>) -> Seq<char> {
    match find(s, pat) {
        Some(i) => s.take(i),
        None => s,
    }
}

/// `str::trim_end_matches` with a set of characters.
pub open spec fn strip_end_set(s: Seq<char>, set: Seq<char>) -> Seq<char>
    decreases s.len(),
{
    if s.len() > 0 && set.contains(s.last()) {
        strip_end_set(s.drop_last(), set)
    } else {
        s
    }
}

/// `str::trim_start_matches` with a non-empty string: removes the prefix
/// `pat` as often as it is there.
pub open spec fn strip_prefix_all(s: Seq<char>, pat: Seq<char>) -> Seq<char>
    decreases s.len(),
{
    if pat.len() > 0 && starts_with(s, pat) {
        strip_prefix_all(s.skip(pat.len() as int), pat)
    } else {
        s
    }
}

pub open spec fn all_digits(s: Seq<char>) -> bool {
    forall|i: int| 0 <= i < s.len() ==> #[trigger] is_digit(s[i])
}

pub fn starts_with_chars(s: &[char], pat: &[char]) -> (res: bool)
    ensures
        res == starts_with(s@, pat@),
{
    let r = match_at(s, pat, 0);
    assert(pat@.len() <= s@.len() ==> s@.subrange(0, pat@.len() as int) == s@.take(pat@.len() as int));
    r
}

fn word_prefix_len(t: &[char]) -> (res: usize)
    ensures
        res <= t@.len(),
        word_prefix(t@) == t@.take(res as int),
{
    let mut j: usize = 0;
    assert(t@.skip(0) =~= t@);
    assert(t@.take(0) + word_prefix(t@.skip(0)) =~= word_prefix(t@));
    while j < t.len() && !is_whitespace(t[j])
        invariant
            j <= t@.len(),
            word_prefix(t@) == t@.take(j as int) + word_prefix(t@.skip(j as int)),
        decreases t.len() - j,
    {
        assert(t@.skip(j as int).drop_first() =~= t@.skip(j + 1));
        assert(t@.take(j + 1) =~= t@.take(j as int) + seq![t@[j as int]]);
        j = j + 1;
    }
    assert(word_prefix(t@.skip(j as int)) =~= Seq::<char>::empty());
    assert(t@.take(j as int) + Seq::<char>::empty() =~= t@.take(j as int));
    j
}

fn word_suffix_start(t: &[char]) -> (res: usize)
    ensures
        res <= t@.len(),
        word_suffix(t@) == t@.skip(res as int),
{
    let mut j: usize = t.len();
    assert(t@.take(t@.len() as int) =~= t@);
    assert(word_suffix(t@.take(j as int)) + t@.skip(j as int) =~= word_suffix(t@));
    while j > 0 && !is_whitespace(t[j - 1])
        invariant
            j <= t@.len(),
            word_suffix(t@) == word_suffix(t@.take(j as int)) + t@.skip(j as int),
        decreases j,
    {
        assert(t@.take(j as int).drop_last() =~= t@.take(j - 1));
        assert(t@.skip(j - 1) =~= seq![t@[j - 1]] + t@.skip(j as int));
        j = j - 1;
    }
    assert(word_suffix(t@.take(j as int)) =~= Seq::<char>::empty());
    j
}

pub fn first_word_chars(s: &[char]) -> (res: Option<Vec<char>>)
    ensures
        res matches Some(w) ==> first_word(s@) == Some(w@),
        res is None ==> first_word(s@) is None,
{
    let (a, _b) = trim_bounds(s);
    let t = slice_of(s, a, s.len());
    if t.len() == 0 {
        return None;
    }
    let k = word_prefix_len(t.as_slice());
    Some(slice_of(t.as_slice(), 0, k))
}

pub fn last_word_chars(s: &[char]) -> (res: Option<Vec<char>>)
    ensures
        res matches Some(w) ==> last_word(s@) == Some(w@),
        res is None ==> last_word(s@) is None,
{
    let n = s.len();
    let mut j: usize = n;
    assert(s@.take(n as int) =~= s@);
    while j > 0 && is_whitespace(s[j - 1])
        invariant
            j <= s@.len(),
            trim_end(s@) == trim_end(s@.take(j as int)),
        decreases j,
    {
        assert(s@.take(j as int).drop_last() =~= s@.take(j - 1));
        j = j - 1;
    }
    let t = slice_of(s, 0, j);
    assert(t@ =~= s@.take(j as int));
    assert(trim_end(t@) == t@);
    if t.len() == 0 {
        return None;
    }
    let k = word_suffix_start(t.as_slice());
    let tl = t.len();
    Some(slice_of(t.as_slice(), k, tl))
}

pub fn second_piece_chars(s: &[char], pat: &[char]) -> (res: Option<Vec<char>>)
    ensures
        res matches Some(w) ==> second_piece(s@, pat@) == Some(w@),
        res is None ==> second_piece(s@, pat@) is None,
{
    match find_chars(s, pat) {
        Some(i) => {
            let n = s.len();
            let r = slice_of(s, i + pat.len(), n);
            assert(r@ =~= s@.skip(i + pat@.len()));
            match find_chars(r.as_slice(), pat) {
                Some(j) => {
                    let w = slice_of(r.as_slice(), 0, j);
                    assert(w@ =~= r@.take(j as int));
                    Some(w)
                },
                None => Some(r),
            }
        },
        None => None,
    }
}

pub fn first_piece_chars(s: &[char], pat: &[char]) -> (res: Vec<char>)
    ensures
        res@ == first_piece(s@, pat@),
{
    match find_chars(s, pat) {
        Some(i) => {
            let w = slice_of(s, 0, i);
            assert(w@ =~= s@.take(i as int));
            w
        },
        None => slice_of(s, 0, s.len()),
    }
}

fn contains_char(set: &[char], c: char) -> (res: bool)
    ensures
        res == set@.contains(c),
{
    let mut i: usize = 0;
    while i < set.len()
        invariant
            i <= set@.len(),
            forall|k: int| 0 <= k < i ==> set@[k] != c,
        decreases set.len() - i,
    {
        if set[i] == c {
            assert(set@[i as int] == c);
            return true;
        }
        i = i + 1;
    }
    false
}

pub fn strip_end_set_chars(s: &[char], set: &[char]) -> (res: Vec<char>)
    ensures
        res@ == strip_end_set(s@, set@),
{
    let mut j: usize = s.len();
    assert(s@.take(j as int) =~= s@);
    while j > 0 && contains_char(set, s[j - 1])
        invariant
            j <= s@.len(),
            strip_end_set(s@, set@) == strip_end_set(s@.take(j as int), set@),
        decreases j,
    {
        assert(s@.take(j as int).drop_last() =~= s@.take(j - 1));
        j = j - 1;
    }
    slice_of(s, 0, j)
}

pub fn strip_prefix_all_chars(s: &[char], pat: &[char]) -> (res: Vec<char>)
    ensures
        res@ == strip_prefix_all(s@, pat@),
{
    let n = s.len();
    let mut i: usize = 0;
    assert(s@.skip(0) =~= s@);
    if pat.len() == 0 {
        return slice_of(s, 0, n);
    }
    loop
        invariant
            pat@.len() > 0,
            n == s@.len(),
            i <= n,
            strip_prefix_all(s@, pat@) == strip_prefix_all(s@.skip(i as int), pat@),
        ensures
            i <= n,
            strip_prefix_all(s@, pat@) == s@.skip(i as int),
        decreases n - i,
    {
        let m = match_at(s, pat, i);
        assert(m == starts_with(s@.skip(i as int), pat@)) by {
            if i + pat@.len() <= n {
                assert(s@.subrange(i as int, i + pat@.len()) =~= s@.skip(i as int).take(pat@.len() as int));
            }
        }
        if !m {
            break;
        }
        assert(s@.skip(i as int).skip(pat@.len() as int) =~= s@.skip(i + pat@.len()));
        i = i + pat.len();
    }
    let r = slice_of(s, i, n);
    assert(r@ =~= s@.skip(i as int));
    r
}

pub fn all_digits_chars(s: &[char]) -> (res: bool)
    ensures
        res == all_digits(s@),
{
    let mut i: usize = 0;
    while i < s.len()
        invariant
            i <= s@.len(),
            forall|k: int| 0 <= k < i ==> #[trigger] is_digit(s@[k]),
        decreases s.len() - i,
    {
        let u = s[i] as u32;
        if u < 0x30 || u > 0x39 {
            assert(!is_digit(s@[i as int]));
            return false;
        }
        i = i + 1;
    }
    true
}

} // verus!
