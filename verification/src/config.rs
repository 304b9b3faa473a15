//! Command-line configuration of the CVE scanner.
use vstd::prelude::*;
use crate::text::{chars_of, string_of, append_chars, is_digit};
use crate::services::{text, copy_string, string_views};

verus! {

/// The configuration of a CVE scan.
#[derive(Debug, Clone)]
pub struct Config {
    /// JSON file with the services.
    pub input_file: String,
    /// JSON file for the report.
    pub output_file: Option<String>,
    /// Directory of the local CVE cache.
    pub cache_dir: String,
    /// Whether to query the NVD API rather than use local data only.
    pub use_nvd: bool,
    /// Lowest severity to keep (LOW, MEDIUM, HIGH, CRITICAL).
    pub min_severity: Option<String>,
    /// Lowest CVSS score to keep, as given: text that reads as an `f32`.
    pub min_cvss_score: Option<String>,
}

pub struct ConfigView {
    pub input_file: Seq<char>,
    pub output_file: Option<Seq<char>>,
    pub cache_dir: Seq<char>,
    pub use_nvd: bool,
    pub min_severity: Option<Seq<char>>,
    pub min_cvss_score: Option<Seq<char>>,
}

pub open spec fn opt_text(o: Option<String>) -> Option<Seq<char>> {
    match o {
        Some(s) => Some(s@),
        None => None,
    }
}

impl View for Config {
    type V = ConfigView;

    open spec fn view(&self) -> ConfigView {
        ConfigView {
            input_file: self.input_file@,
            output_file: opt_text(self.output_file),
            cache_dir: self.cache_dir@,
            use_nvd: self.use_nvd,
            min_severity: opt_text(self.min_severity),
            min_cvss_score: opt_text(self.min_cvss_score),
        }
    }
}

/// The code of a character, ASCII capitals taken as small letters.
pub open spec fn lower(c: char) -> u32 {
    if 0x41 <= c as u32 <= 0x5A {
        (c as u32 + 0x20) as u32
    } else {
        c as u32
    }
}

/// The codes of the text, ASCII capitals taken as small letters.
pub open spec fn lowered(s: Seq<char>) -> Seq<u32> {
    s.map_values(|c: char| lower(c))
}

pub open spec fn codes(s: Seq<char>) -> Seq<u32> {
    s.map_values(|c: char| c as u32)
}

pub open spec fn digits_from(s: Seq<char>, i: int, j: int) -> bool {
    forall|k: int| i <= k < j ==> #[trigger] is_digit(s[k])
}

/// `e` (or `E`), an optional sign, one or more digits.
pub open spec fn exponent_syntax(s: Seq<char>) -> bool {
    &&& s.len() >= 2
    &&& lower(s[0]) == 0x65
    &&& {
        let d = if s[1] == '+' || s[1] == '-' { 2int } else { 1int };
        d < s.len() && digits_from(s, d, s.len() as int)
    }
}

pub open spec fn digit_or_dot(c: char) -> bool {
    is_digit(c) || c == '.'
}

/// Digits with at most one `.` among them, and at least one digit.
pub open spec fn mantissa_syntax(t: Seq<char>) -> bool {
    &&& forall|k: int| 0 <= k < t.len() ==> #[trigger] digit_or_dot(t[k])
    &&& forall|i: int, j: int| 0 <= i < j < t.len() ==> !(#[trigger] t[i] == '.' && #[trigger] t[j] == '.')
    &&& exists|k: int| 0 <= k < t.len() && #[trigger] is_digit(t[k])
}

/// A mantissa, then an optional exponent.
pub open spec fn number_syntax(s: Seq<char>) -> bool {
    exists|e: int|
        0 <= e <= s.len() && #[trigger] mantissa_syntax(s.take(e)) && (e == s.len()
            || exponent_syntax(s.skip(e)))
}

/// The text reads as an `f32` (`f32::from_str`): an optional sign, then
/// `inf`, `infinity`, `nan` (in any case) or a decimal number.
pub open spec fn float_syntax(s: Seq<char>) -> bool {
    let body = if s.len() > 0 && (s[0] == '+' || s[0] == '-') { s.skip(1) } else { s };
    ||| lowered(body) == codes("inf"@)
    ||| lowered(body) == codes("infinity"@)
    ||| lowered(body) == codes("nan"@)
    ||| number_syntax(body)
}

fn lower_code(c: char) -> (res: u32)
    ensures
        res == lower(c),
{
    let u = c as u32;
    if 0x41 <= u && u <= 0x5A {
        u + 0x20
    } else {
        u
    }
}

/// Whether the text, ASCII capitals taken as small letters, is `lit`.
pub(crate) fn same_ignoring_case(s: &[char], lit: &str) -> (res: bool)
    ensures
        res == (lowered(s@) == codes(lit@)),
{
    let l = chars_of(lit);
    if s.len() != l.len() {
        assert(lowered(s@).len() != codes(lit@).len());
        return false;
    }
    let mut i: usize = 0;
    while i < s.len()
        invariant
            s@.len() == l@.len(),
            l@ == lit@,
            i <= s@.len(),
            forall|k: int| 0 <= k < i ==> lower(s@[k]) == l@[k] as u32,
        decreases s.len() - i,
    {
        if lower_code(s[i]) != l[i] as u32 {
            assert(lowered(s@)[i as int] != codes(lit@)[i as int]);
            return false;
        }
        i = i + 1;
    }
    assert(lowered(s@) =~= codes(lit@));
    true
}

fn is_digit_char(c: char) -> (res: bool)
    ensures
        res == is_digit(c),
{
    let u = c as u32;
    0x30 <= u && u <= 0x39
}

fn digits_between(s: &[char], i: usize, j: usize) -> (res: bool)
    requires
        i <= j <= s@.len(),
    ensures
        res == digits_from(s@, i as int, j as int),
{
    let mut k = i;
    while k < j
        invariant
            i <= k <= j <= s@.len(),
            digits_from(s@, i as int, k as int),
        decreases j - k,
    {
        if !is_digit_char(s[k]) {
            return false;
        }
        k = k + 1;
    }
    true
}

fn exponent_ok(s: &[char]) -> (res: bool)
    ensures
        res == exponent_syntax(s@),
{
    if s.len() < 2 || lower_code(s[0]) != 0x65 {
        return false;
    }
    let d: usize = if s[1] == '+' || s[1] == '-' { 2 } else { 1 };
    d < s.len() && digits_between(s, d, s.len())
}

/// Whether `s[..e]`, all digits and dots, holds at most one dot and a digit.
fn mantissa_ok(s: &[char], e: usize) -> (res: bool)
    requires
        e <= s@.len(),
        forall|k: int| 0 <= k < e ==> #[trigger] digit_or_dot(s@[k]),
    ensures
        res == mantissa_syntax(s@.take(e as int)),
{
    let ghost t = s@.take(e as int);
    let mut dot: Option<usize> = None;
    let mut digit: Option<usize> = None;
    let mut k: usize = 0;
    while k < e
        invariant
            k <= e <= s@.len(),
            t == s@.take(e as int),
            forall|q: int| 0 <= q < e ==> #[trigger] digit_or_dot(s@[q]),
            match dot {
                None => forall|q: int| 0 <= q < k ==> s@[q] != '.',
                Some(p) => p < k && s@[p as int] == '.' && forall|q: int|
                    0 <= q < k && q != p ==> s@[q] != '.',
            },
            match digit {
                None => forall|q: int| 0 <= q < k ==> !is_digit(#[trigger] s@[q]),
                Some(p) => p < k && is_digit(s@[p as int]),
            },
        decreases e - k,
    {
        assert(digit_or_dot(s@[k as int]));
        if s[k] == '.' {
            assert(!is_digit(s@[k as int]));
            if dot.is_some() {
                let p = dot.unwrap();
                assert(t[p as int] == '.' && t[k as int] == '.');
                return false;
            }
            dot = Some(k);
        } else if digit.is_none() {
            digit = Some(k);
        }
        k = k + 1;
    }
    match digit {
        None => {
            assert forall|q: int| 0 <= q < t.len() implies !is_digit(#[trigger] t[q]) by {
                assert(t[q] == s@[q]);
            }
            false
        },
        Some(p) => {
            assert(is_digit(t[p as int]));
            assert forall|i: int, j: int| 0 <= i < j < t.len() implies !(#[trigger] t[i] == '.'
                && #[trigger] t[j] == '.') by {
                assert(t[i] == s@[i] && t[j] == s@[j]);
            }
            assert forall|q: int| 0 <= q < t.len() implies #[trigger] digit_or_dot(t[q]) by {
                assert(t[q] == s@[q]);
            }
            true
        },
    }
}

fn number_ok(s: &[char]) -> (res: bool)
    ensures
        res == number_syntax(s@),
{
    let n = s.len();
    let mut e: usize = 0;
    while e < n && (is_digit_char(s[e]) || s[e] == '.')
        invariant
            e <= n == s@.len(),
            forall|k: int| 0 <= k < e ==> #[trigger] digit_or_dot(s@[k]),
        decreases n - e,
    {
        e = e + 1;
    }
    let mant = mantissa_ok(s, e);
    let tail = crate::text::slice_of(s, e, n);
    assert(tail@ =~= s@.skip(e as int));
    let exp = e == n || exponent_ok(tail.as_slice());
    if mant && exp {
        return true;
    }
    proof {
        assert forall|f: int|
            0 <= f <= s@.len() && #[trigger] mantissa_syntax(s@.take(f)) implies !(f == s@.len()
                || exponent_syntax(s@.skip(f))) by {
            if f < e {
                assert(digit_or_dot(s@[f]));
                assert(s@.skip(f)[0] == s@[f]);
            } else if f > e {
                assert(s@.take(f)[e as int] == s@[e as int]);
                assert(digit_or_dot(s@.take(f)[e as int]));
            }
        }
    }
    false
}

/// Whether the text reads as an `f32`.
pub fn float_ok(s: &str) -> (res: bool)
    ensures
        res == float_syntax(s@),
{
    let c = chars_of(s);
    let body = if c.len() > 0 && (c[0] == '+' || c[0] == '-') {
        crate::text::slice_of(c.as_slice(), 1, c.len())
    } else {
        c.clone()
    };
    assert(body@ == (if s@.len() > 0 && (s@[0] == '+' || s@[0] == '-') { s@.skip(1) } else { s@ }));
    same_ignoring_case(body.as_slice(), "inf") || same_ignoring_case(body.as_slice(), "infinity")
        || same_ignoring_case(body.as_slice(), "nan") || number_ok(body.as_slice())
}

/// The message for a command line without an input file.
pub open spec fn usage_text() -> Seq<char> {
    "Usage: cve_scanner <input_file> [--output <file>] [--cache <dir>] [--nvd] [--min-severity LEVEL] [--min-cvss SCORE]"@
}

/// The configuration before any option is read.
pub open spec fn initial_view(input: Seq<char>) -> ConfigView {
    ConfigView {
        input_file: input,
        output_file: None,
        cache_dir: "./cache"@,
        use_nvd: false,
        min_severity: None,
        min_cvss_score: None,
    }
}

/// Reads the options from `args[i]` on, each changing `c`; the first one
/// that is unknown or lacks its value ends the reading with an error.
pub open spec fn read_options(args: Seq<Seq<char>>, i: int, c: ConfigView) -> Result<
    ConfigView,
    Seq<char>,
>
    decreases args.len() - i,
{
    if i < 0 || i >= args.len() {
        Ok(c)
    } else {
        let a = args[i];
        let has_value = i + 1 < args.len();
        if a == "--output"@ {
            if has_value {
                read_options(args, i + 2, ConfigView { output_file: Some(args[i + 1]), ..c })
            } else {
                Err("--output requires a file path"@)
            }
        } else if a == "--cache"@ {
            if has_value {
                read_options(args, i + 2, ConfigView { cache_dir: args[i + 1], ..c })
            } else {
                Err("--cache requires a directory path"@)
            }
        } else if a == "--nvd"@ {
            read_options(args, i + 1, ConfigView { use_nvd: true, ..c })
        } else if a == "--min-severity"@ {
            if has_value {
                read_options(args, i + 2, ConfigView { min_severity: Some(args[i + 1]), ..c })
            } else {
                Err("--min-severity requires a level"@)
            }
        } else if a == "--min-cvss"@ {
            if !has_value {
                Err("--min-cvss requires a number"@)
            } else if !float_syntax(args[i + 1]) {
                Err("Invalid CVSS score"@)
            } else {
                read_options(args, i + 2, ConfigView { min_cvss_score: Some(args[i + 1]), ..c })
            }
        } else {
            Err("Unknown argument: "@ + a)
        }
    }
}

/// The configuration that a command line gives, or the message it is
/// refused with (`args[0]` is the program's name).
pub open spec fn config_of(args: Seq<Seq<char>>) -> Result<ConfigView, Seq<char>> {
    if args.len() < 2 {
        Err(usage_text())
    } else {
        read_options(args, 2, initial_view(args[1]))
    }
}

fn same_text(a: &String, lit: &str) -> (res: bool)
    ensures
        res == (a@ == lit@),
{
    let l = text(lit);
    *a == l
}

impl Config {
    /// Reads the command line; `args[0]` is the program's name.
    pub fn from_args(args: Vec<String>) -> (res: Result<Config, String>)
        ensures
            match res {
                Ok(c) => config_of(string_views(args@)) == Ok::<ConfigView, Seq<char>>(c@),
                Err(m) => config_of(string_views(args@)) == Err::<ConfigView, Seq<char>>(m@),
            },
    {
        let ghost views = string_views(args@);
        if args.len() < 2 {
            let m = text("Usage: cve_scanner <input_file> [--output <file>] [--cache <dir>] [--nvd] [--min-severity LEVEL] [--min-cvss SCORE]");
            return Err(m);
        }
        let mut c = Config {
            input_file: copy_string(&args[1]),
            output_file: None,
            cache_dir: text("./cache"),
            use_nvd: false,
            min_severity: None,
            min_cvss_score: None,
        };
        let mut i: usize = 2;
        assert(c@ == initial_view(views[1]));
        while i < args.len()
            invariant
                views == string_views(args@),
                2 <= i <= args@.len() + 1,
                config_of(views) == read_options(views, i as int, c@),
            decreases args.len() - i,
        {
            let ghost before = c@;
            let a = &args[i];
            assert(a@ == views[i as int]);
            let has_value = i + 1 < args.len();
            if same_text(a, "--output") {
                if !has_value {
                    return Err(text("--output requires a file path"));
                }
                c.output_file = Some(copy_string(&args[i + 1]));
                assert(c@ == ConfigView { output_file: Some(views[i + 1]), ..before });
                i = i + 2;
            } else if same_text(a, "--cache") {
                if !has_value {
                    return Err(text("--cache requires a directory path"));
                }
                c.cache_dir = copy_string(&args[i + 1]);
                assert(c@ == ConfigView { cache_dir: views[i + 1], ..before });
                i = i + 2;
            } else if same_text(a, "--nvd") {
                c.use_nvd = true;
                assert(c@ == ConfigView { use_nvd: true, ..before });
                i = i + 1;
            } else if same_text(a, "--min-severity") {
                if !has_value {
                    return Err(text("--min-severity requires a level"));
                }
                c.min_severity = Some(copy_string(&args[i + 1]));
                assert(c@ == ConfigView { min_severity: Some(views[i + 1]), ..before });
                i = i + 2;
            } else if same_text(a, "--min-cvss") {
                if !has_value {
                    return Err(text("--min-cvss requires a number"));
                }
                if !float_ok(args[i + 1].as_str()) {
                    return Err(text("Invalid CVSS score"));
                }
                c.min_cvss_score = Some(copy_string(&args[i + 1]));
                assert(c@ == ConfigView { min_cvss_score: Some(views[i + 1]), ..before });
                i = i + 2;
            } else {
                let mut m: Vec<char> = chars_of("Unknown argument: ");
                let tail = chars_of(a.as_str());
                append_chars(&mut m, tail.as_slice());
                return Err(string_of(m.as_slice()));
            }
        }
        Ok(c)
    }
}

/// The outcome of a reading with `use_nvd` set.
pub open spec fn with_nvd(r: Result<ConfigView, Seq<char>>) -> Result<ConfigView, Seq<char>> {
    match r {
        Ok(c) => Ok(ConfigView { use_nvd: true, ..c }),
        Err(e) => Err(e),
    }
}

proof fn lemma_nvd_set_early(args: Seq<Seq<char>>, i: int, c: ConfigView)
    ensures
        read_options(args, i, ConfigView { use_nvd: true, ..c }) == with_nvd(read_options(args, i, c)),
    decreases args.len() - i,
{
    if 0 <= i < args.len() {
        let a = args[i];
        if a == "--output"@ {
            if i + 1 < args.len() {
                lemma_nvd_set_early(args, i + 2, ConfigView { output_file: Some(args[i + 1]), ..c });
            }
        } else if a == "--cache"@ {
            if i + 1 < args.len() {
                lemma_nvd_set_early(args, i + 2, ConfigView { cache_dir: args[i + 1], ..c });
            }
        } else if a == "--nvd"@ {
            lemma_nvd_set_early(args, i + 1, ConfigView { use_nvd: true, ..c });
        } else if a == "--min-severity"@ {
            if i + 1 < args.len() {
                lemma_nvd_set_early(args, i + 2, ConfigView { min_severity: Some(args[i + 1]), ..c });
            }
        } else if a == "--min-cvss"@ {
            if i + 1 < args.len() {
                lemma_nvd_set_early(args, i + 2, ConfigView { min_cvss_score: Some(args[i + 1]), ..c });
            }
        }
    }
}

proof fn lemma_read_shifted(args: Seq<Seq<char>>, longer: Seq<Seq<char>>, n: int, i: int, c: ConfigView)
    requires
        2 <= i,
        0 <= n,
        longer.len() == args.len() + n,
        forall|k: int| 2 <= k < args.len() ==> longer[k + n] == args[k],
    ensures
        read_options(longer, i + n, c) == read_options(args, i, c),
    decreases args.len() - i,
{
    if i < args.len() {
        assert(longer[i + n] == args[i]);
        if i + 1 < args.len() {
            assert(longer[i + 1 + n] == args[i + 1]);
        }
        let a = args[i];
        if a == "--output"@ {
            if i + 1 < args.len() {
                lemma_read_shifted(args, longer, n, i + 2, ConfigView { output_file: Some(args[i + 1]), ..c });
            }
        } else if a == "--cache"@ {
            if i + 1 < args.len() {
                lemma_read_shifted(args, longer, n, i + 2, ConfigView { cache_dir: args[i + 1], ..c });
            }
        } else if a == "--nvd"@ {
            lemma_read_shifted(args, longer, n, i + 1, ConfigView { use_nvd: true, ..c });
        } else if a == "--min-severity"@ {
            if i + 1 < args.len() {
                lemma_read_shifted(args, longer, n, i + 2, ConfigView { min_severity: Some(args[i + 1]), ..c });
            }
        } else if a == "--min-cvss"@ {
            if i + 1 < args.len() {
                lemma_read_shifted(args, longer, n, i + 2, ConfigView { min_cvss_score: Some(args[i + 1]), ..c });
            }
        }
    }
}

/// `--nvd` takes no value: given right after the input file, it sets
/// `use_nvd`, the argument after it is read as the next option, and the
/// rest of the configuration, or the error, is what the same command line
/// without it gives.
pub proof fn lemma_nvd_takes_no_value(args: Seq<Seq<char>>)
    requires
        args.len() >= 2,
    ensures
        config_of(args.take(2) + seq!["--nvd"@] + args.skip(2)) == with_nvd(config_of(args)),
{
    reveal_strlit("--nvd");
    reveal_strlit("--output");
    reveal_strlit("--cache");
    let longer = args.take(2) + seq!["--nvd"@] + args.skip(2);
    assert(longer[1] == args[1]);
    assert(longer[2] == "--nvd"@);
    assert("--nvd"@ != "--output"@) by {
        assert("--nvd"@.len() != "--output"@.len());
    }
    assert("--nvd"@ != "--cache"@) by {
        assert("--nvd"@.len() != "--cache"@.len());
    }
    let init = initial_view(args[1]);
    assert(read_options(longer, 2, init) == read_options(longer, 3, ConfigView { use_nvd: true, ..init }));
    assert forall|k: int| 2 <= k < args.len() implies longer[k + 1] == args[k] by {
        assert(longer[k + 1] == args.skip(2)[k - 2]);
    }
    lemma_read_shifted(args, longer, 1, 2, ConfigView { use_nvd: true, ..init });
    lemma_nvd_set_early(args, 2, init);
}

/// The outcome of a reading with `output_file` set to `x`.
pub open spec fn with_output(r: Result<ConfigView, Seq<char>>, x: Option<Seq<char>>) -> Result<ConfigView, Seq<char>> {
    match r {
        Ok(c) => Ok(ConfigView { output_file: x, ..c }),
        Err(e) => Err(e),
    }
}

proof fn lemma_output_kept(args: Seq<Seq<char>>, i: int, c: ConfigView, x: Option<Seq<char>>)
    requires
        forall|k: int| i <= k < args.len() ==> args[k] != "--output"@,
    ensures
        read_options(args, i, ConfigView { output_file: x, ..c }) == with_output(read_options(args, i, c), x),
    decreases args.len() - i,
{
    if 0 <= i < args.len() {
        let a = args[i];
        if a == "--output"@ {
            assert(args[i] != "--output"@);
        } else if a == "--cache"@ {
            if i + 1 < args.len() {
                lemma_output_kept(args, i + 2, ConfigView { cache_dir: args[i + 1], ..c }, x);
            }
        } else if a == "--nvd"@ {
            lemma_output_kept(args, i + 1, ConfigView { use_nvd: true, ..c }, x);
        } else if a == "--min-severity"@ {
            if i + 1 < args.len() {
                lemma_output_kept(args, i + 2, ConfigView { min_severity: Some(args[i + 1]), ..c }, x);
            }
        } else if a == "--min-cvss"@ {
            if i + 1 < args.len() {
                lemma_output_kept(args, i + 2, ConfigView { min_cvss_score: Some(args[i + 1]), ..c }, x);
            }
        }
    }
}

/// `--output f` right after the input file takes exactly one value: it
/// sets the report file to `f` and reading goes on with the argument after `f`, so
/// that, when the rest of the command line gives no other `--output`, the
/// configuration, or the error, is what the command line without the two
/// arguments gives, with `output_file` set to `f`.
pub proof fn lemma_output_takes_one_value(args: Seq<Seq<char>>, f: Seq<char>)
    requires
        args.len() >= 2,
        forall|k: int| 2 <= k < args.len() ==> args[k] != "--output"@,
    ensures
        config_of(args.take(2) + seq!["--output"@, f] + args.skip(2)) == with_output(config_of(args), Some(f)),
{
    reveal_strlit("--output");
    let longer = args.take(2) + seq!["--output"@, f] + args.skip(2);
    assert(longer[1] == args[1]);
    assert(longer[2] == "--output"@);
    assert(longer[3] == f);
    let init = initial_view(args[1]);
    assert forall|k: int| 2 <= k < args.len() implies longer[k + 2] == args[k] by {
        assert(longer[k + 2] == args.skip(2)[k - 2]);
    }
    assert(read_options(longer, 2, init) == read_options(longer, 4, ConfigView { output_file: Some(f), ..init }));
    lemma_read_shifted(args, longer, 2, 2, ConfigView { output_file: Some(f), ..init });
    lemma_output_kept(args, 2, init, Some(f));
}

/// The outcome of a reading with `cache_dir` set to `x`.
pub open spec fn with_cache(r: Result<ConfigView, Seq<char>>, x: Seq<char>) -> Result<ConfigView, Seq<char>> {
    match r {
        Ok(c) => Ok(ConfigView { cache_dir: x, ..c }),
        Err(e) => Err(e),
    }
}

proof fn lemma_cache_kept(args: Seq<Seq<char>>, i: int, c: ConfigView, x: Seq<char>)
    requires
        forall|k: int| i <= k < args.len() ==> args[k] != "--cache"@,
    ensures
        read_options(args, i, ConfigView { cache_dir: x, ..c }) == with_cache(read_options(args, i, c), x),
    decreases args.len() - i,
{
    if 0 <= i < args.len() {
        let a = args[i];
        if a == "--output"@ {
            if i + 1 < args.len() {
                lemma_cache_kept(args, i + 2, ConfigView { output_file: Some(args[i + 1]), ..c }, x);
            }
        } else if a == "--cache"@ {
            assert(args[i] != "--cache"@);
        } else if a == "--nvd"@ {
            lemma_cache_kept(args, i + 1, ConfigView { use_nvd: true, ..c }, x);
        } else if a == "--min-severity"@ {
            if i + 1 < args.len() {
                lemma_cache_kept(args, i + 2, ConfigView { min_severity: Some(args[i + 1]), ..c }, x);
            }
        } else if a == "--min-cvss"@ {
            if i + 1 < args.len() {
                lemma_cache_kept(args, i + 2, ConfigView { min_cvss_score: Some(args[i + 1]), ..c }, x);
            }
        }
    }
}

/// `--cache f` right after the input file takes exactly one value: it
/// sets the cache directory to `f` and reading goes on with the argument after `f`, so
/// that, when the rest of the command line gives no other `--cache`, the
/// configuration, or the error, is what the command line without the two
/// arguments gives, with `cache_dir` set to `f`.
pub proof fn lemma_cache_takes_one_value(args: Seq<Seq<char>>, f: Seq<char>)
    requires
        args.len() >= 2,
        forall|k: int| 2 <= k < args.len() ==> args[k] != "--cache"@,
    ensures
        config_of(args.take(2) + seq!["--cache"@, f] + args.skip(2)) == with_cache(config_of(args), f),
{
    reveal_strlit("--cache");
    reveal_strlit("--output");
    assert("--cache"@ != "--output"@) by {
        assert("--cache"@.len() != "--output"@.len());
    }
    let longer = args.take(2) + seq!["--cache"@, f] + args.skip(2);
    assert(longer[1] == args[1]);
    assert(longer[2] == "--cache"@);
    assert(longer[3] == f);
    let init = initial_view(args[1]);
    assert forall|k: int| 2 <= k < args.len() implies longer[k + 2] == args[k] by {
        assert(longer[k + 2] == args.skip(2)[k - 2]);
    }
    assert(read_options(longer, 2, init) == read_options(longer, 4, ConfigView { cache_dir: f, ..init }));
    lemma_read_shifted(args, longer, 2, 2, ConfigView { cache_dir: f, ..init });
    lemma_cache_kept(args, 2, init, f);
}

/// The outcome of a reading with `min_severity` set to `x`.
pub open spec fn with_severity(r: Result<ConfigView, Seq<char>>, x: Option<Seq<char>>) -> Result<ConfigView, Seq<char>> {
    match r {
        Ok(c) => Ok(ConfigView { min_severity: x, ..c }),
        Err(e) => Err(e),
    }
}

proof fn lemma_severity_kept(args: Seq<Seq<char>>, i: int, c: ConfigView, x: Option<Seq<char>>)
    requires
        forall|k: int| i <= k < args.len() ==> args[k] != "--min-severity"@,
    ensures
        read_options(args, i, ConfigView { min_severity: x, ..c }) == with_severity(read_options(args, i, c), x),
    decreases args.len() - i,
{
    if 0 <= i < args.len() {
        let a = args[i];
        if a == "--output"@ {
            if i + 1 < args.len() {
                lemma_severity_kept(args, i + 2, ConfigView { output_file: Some(args[i + 1]), ..c }, x);
            }
        } else if a == "--cache"@ {
            if i + 1 < args.len() {
                lemma_severity_kept(args, i + 2, ConfigView { cache_dir: args[i + 1], ..c }, x);
            }
        } else if a == "--nvd"@ {
            lemma_severity_kept(args, i + 1, ConfigView { use_nvd: true, ..c }, x);
        } else if a == "--min-severity"@ {
            assert(args[i] != "--min-severity"@);
        } else if a == "--min-cvss"@ {
            if i + 1 < args.len() {
                lemma_severity_kept(args, i + 2, ConfigView { min_cvss_score: Some(args[i + 1]), ..c }, x);
            }
        }
    }
}

/// `--min-severity f` right after the input file takes exactly one value: it
/// sets the minimum severity to `f` and reading goes on with the argument after `f`, so
/// that, when the rest of the command line gives no other `--min-severity`, the
/// configuration, or the error, is what the command line without the two
/// arguments gives, with `min_severity` set to `f`.
pub proof fn lemma_severity_takes_one_value(args: Seq<Seq<char>>, f: Seq<char>)
    requires
        args.len() >= 2,
        forall|k: int| 2 <= k < args.len() ==> args[k] != "--min-severity"@,
    ensures
        config_of(args.take(2) + seq!["--min-severity"@, f] + args.skip(2)) == with_severity(config_of(args), Some(f)),
{
    reveal_strlit("--cache");
    reveal_strlit("--min-severity");
    reveal_strlit("--nvd");
    reveal_strlit("--output");
    assert("--min-severity"@ != "--output"@) by {
        assert("--min-severity"@.len() != "--output"@.len());
    }
    assert("--min-severity"@ != "--cache"@) by {
        assert("--min-severity"@.len() != "--cache"@.len());
    }
    assert("--min-severity"@ != "--nvd"@) by {
        assert("--min-severity"@.len() != "--nvd"@.len());
    }
    let longer = args.take(2) + seq!["--min-severity"@, f] + args.skip(2);
    assert(longer[1] == args[1]);
    assert(longer[2] == "--min-severity"@);
    assert(longer[3] == f);
    let init = initial_view(args[1]);
    assert forall|k: int| 2 <= k < args.len() implies longer[k + 2] == args[k] by {
        assert(longer[k + 2] == args.skip(2)[k - 2]);
    }
    assert(read_options(longer, 2, init) == read_options(longer, 4, ConfigView { min_severity: Some(f), ..init }));
    lemma_read_shifted(args, longer, 2, 2, ConfigView { min_severity: Some(f), ..init });
    lemma_severity_kept(args, 2, init, Some(f));
}

/// The outcome of a reading with `min_cvss_score` set to `x`.
pub open spec fn with_cvss(r: Result<ConfigView, Seq<char>>, x: Option<Seq<char>>) -> Result<ConfigView, Seq<char>> {
    match r {
        Ok(c) => Ok(ConfigView { min_cvss_score: x, ..c }),
        Err(e) => Err(e),
    }
}

proof fn lemma_cvss_kept(args: Seq<Seq<char>>, i: int, c: ConfigView, x: Option<Seq<char>>)
    requires
        forall|k: int| i <= k < args.len() ==> args[k] != "--min-cvss"@,
    ensures
        read_options(args, i, ConfigView { min_cvss_score: x, ..c }) == with_cvss(read_options(args, i, c), x),
    decreases args.len() - i,
{
    if 0 <= i < args.len() {
        let a = args[i];
        if a == "--output"@ {
            if i + 1 < args.len() {
                lemma_cvss_kept(args, i + 2, ConfigView { output_file: Some(args[i + 1]), ..c }, x);
            }
        } else if a == "--cache"@ {
            if i + 1 < args.len() {
                lemma_cvss_kept(args, i + 2, ConfigView { cache_dir: args[i + 1], ..c }, x);
            }
        } else if a == "--nvd"@ {
            lemma_cvss_kept(args, i + 1, ConfigView { use_nvd: true, ..c }, x);
        } else if a == "--min-severity"@ {
            if i + 1 < args.len() {
                lemma_cvss_kept(args, i + 2, ConfigView { min_severity: Some(args[i + 1]), ..c }, x);
            }
        } else if a == "--min-cvss"@ {
            assert(args[i] != "--min-cvss"@);
        }
    }
}

/// `--min-cvss f` right after the input file takes exactly one value: if `f`
/// reads as a number, it sets the minimum CVSS score to `f` and reading goes on after `f`,
/// so that, when the rest of the command line gives no other `--min-cvss`, the
/// configuration, or the error, is what the command line without the two
/// arguments gives, with `min_cvss_score` set to `f`; otherwise the command
/// line is refused as an invalid CVSS score.
pub proof fn lemma_cvss_takes_one_value(args: Seq<Seq<char>>, f: Seq<char>)
    requires
        args.len() >= 2,
        forall|k: int| 2 <= k < args.len() ==> args[k] != "--min-cvss"@,
    ensures
        float_syntax(f) ==> config_of(args.take(2) + seq!["--min-cvss"@, f] + args.skip(2)) == with_cvss(
            config_of(args),
            Some(f),
        ),
        !float_syntax(f) ==> config_of(args.take(2) + seq!["--min-cvss"@, f] + args.skip(2)) == Err::<ConfigView, Seq<char>>(
            "Invalid CVSS score"@,
        ),
{
    reveal_strlit("--cache");
    reveal_strlit("--min-cvss");
    reveal_strlit("--min-severity");
    reveal_strlit("--nvd");
    reveal_strlit("--output");
    assert("--min-cvss"@ != "--output"@) by {
        assert("--min-cvss"@.len() != "--output"@.len());
    }
    assert("--min-cvss"@ != "--cache"@) by {
        assert("--min-cvss"@.len() != "--cache"@.len());
    }
    assert("--min-cvss"@ != "--nvd"@) by {
        assert("--min-cvss"@.len() != "--nvd"@.len());
    }
    assert("--min-cvss"@ != "--min-severity"@) by {
        assert("--min-cvss"@.len() != "--min-severity"@.len());
    }
    let longer = args.take(2) + seq!["--min-cvss"@, f] + args.skip(2);
    assert(longer[1] == args[1]);
    assert(longer[2] == "--min-cvss"@);
    assert(longer[3] == f);
    let init = initial_view(args[1]);
    assert forall|k: int| 2 <= k < args.len() implies longer[k + 2] == args[k] by {
        assert(longer[k + 2] == args.skip(2)[k - 2]);
    }
    if float_syntax(f) {
        assert(read_options(longer, 2, init) == read_options(longer, 4, ConfigView { min_cvss_score: Some(f), ..init }));
        lemma_read_shifted(args, longer, 2, 2, ConfigView { min_cvss_score: Some(f), ..init });
        lemma_cvss_kept(args, 2, init, Some(f));
    }
}

} // verus!
