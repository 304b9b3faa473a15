//! Picking file names by a regular expression (the `regex` crate).
use vstd::prelude::*;
use crate::services::{copy_string, string_views};

verus! {

#[verifier::external_type_specification]
#[verifier::external_body]
pub struct ExRegex(regex::Regex);

#[verifier::external_type_specification]
#[verifier::external_body]
pub struct ExRegexError(regex::Error);

/// Whether `regex::Regex::new` accepts the pattern.
pub uninterp spec fn regex_compiles(pattern: Seq<char>) -> bool;

/// Whether the regex compiled from `pattern` matches somewhere in `haystack`
/// (`regex::Regex::is_match`).
pub uninterp spec fn regex_finds(pattern: Seq<char>, haystack: Seq<char>) -> bool;

/// `regex::Regex::new`: compiles the pattern, or fails on a syntax error or
/// a regex over the default size limit; which of the two only the name
/// `regex_compiles` says.
#[verifier::external_body]
fn compile_regex(pattern: &str) -> (res: Result<regex::Regex, regex::Error>)
    ensures
        res is Ok <==> regex_compiles(pattern@),
{
    regex::Regex::new(pattern)
}

/// The text of a `regex::Error` (its `Display`); nothing is promised of it.
#[verifier::external_body]
fn regex_error_text(e: &regex::Error) -> String {
    format!("{}", e)
}

/// A compiled regular expression together with the pattern it was compiled
/// from; `FilePattern::new` is the only way to build one.
pub struct FilePattern {
    source: String,
    compiled: regex::Regex,
}

impl View for FilePattern {
    type V = Seq<char>;

    closed spec fn view(&self) -> Seq<char> {
        self.source@
    }
}

/// `regex::Regex::is_match` on the regex of a `FilePattern`, which was
/// compiled from the pattern that the `FilePattern` views as: the answer is
/// the name `regex_finds` of that pattern and the haystack.
#[verifier::external_body]
fn regex_is_match(p: &FilePattern, haystack: &str) -> (res: bool)
    ensures
        res == regex_finds(p@, haystack@),
{
    p.compiled.is_match(haystack)
}

impl FilePattern {
    /// Compiles `pattern`; the error is the text of the regex error.
    pub fn new(pattern: &str) -> (res: Result<FilePattern, String>)
        ensures
            res is Ok <==> regex_compiles(pattern@),
            res matches Ok(p) ==> p@ == pattern@,
    {
        match compile_regex(pattern) {
            Ok(r) => Ok(FilePattern { source: crate::services::text(pattern), compiled: r }),
            Err(e) => Err(regex_error_text(&e)),
        }
    }

    /// Whether the pattern matches somewhere in `haystack`.
    pub fn is_match(&self, haystack: &str) -> (res: bool)
        ensures
            res == regex_finds(self@, haystack@),
    {
        regex_is_match(self, haystack)
    }
}

/// The names whose flag is set, in order.
pub open spec fn flagged(names: Seq<Seq<char>>, keep: Seq<bool>) -> Seq<Seq<char>>
    decreases names.len(),
{
    if names.len() == 0 {
        Seq::<Seq<char>>::empty()
    } else {
        let prev = flagged(names.drop_last(), keep);
        if keep[names.len() - 1] {
            prev.push(names.last())
        } else {
            prev
        }
    }
}

/// The names that `pattern` matches, in order.
pub open spec fn matching_names(pattern: Seq<char>, names: Seq<Seq<char>>) -> Seq<Seq<char>> {
    flagged(names, names.map_values(|n: Seq<char>| regex_finds(pattern, n)))
}

/// Keeps the names whose flag is set, in order.
pub fn keep_flagged(names: &Vec<String>, keep: &Vec<bool>) -> (res: Vec<String>)
    requires
        keep@.len() == names@.len(),
    ensures
        string_views(res@) == flagged(string_views(names@), keep@),
{
    let ghost ns = string_views(names@);
    let mut out: Vec<String> = Vec::new();
    let mut i: usize = 0;
    assert(string_views(out@) =~= flagged(ns.take(0), keep@));
    while i < names.len()
        invariant
            i <= names@.len(),
            keep@.len() == names@.len(),
            ns == string_views(names@),
            string_views(out@) == flagged(ns.take(i as int), keep@),
        decreases names.len() - i,
    {
        assert(ns.take(i + 1).drop_last() =~= ns.take(i as int));
        assert(ns.take(i + 1).last() == names@[i as int]@);
        if keep[i] {
            let ghost before = string_views(out@);
            out.push(copy_string(&names[i]));
            assert(string_views(out@) =~= before.push(names@[i as int]@));
        }
        i = i + 1;
    }
    assert(ns.take(names@.len() as int) =~= ns);
    out
}

/// The file names that `pattern` matches, in the order given; an error with
/// the regex's message where the pattern does not compile.
pub fn find_files_by_pattern(pattern: &str, file_names: &Vec<String>) -> (res: Result<
    Vec<String>,
    String,
>)
    ensures
        res is Ok <==> regex_compiles(pattern@),
        res matches Ok(v) ==> string_views(v@) == matching_names(pattern@, string_views(file_names@)),
{
    let p = match FilePattern::new(pattern) {
        Ok(p) => p,
        Err(e) => return Err(e),
    };
    let mut keep: Vec<bool> = Vec::new();
    let mut i: usize = 0;
    while i < file_names.len()
        invariant
            i <= file_names@.len(),
            p@ == pattern@,
            keep@ == string_views(file_names@).take(i as int).map_values(
                |n: Seq<char>| regex_finds(pattern@, n),
            ),
        decreases file_names.len() - i,
    {
        let b = p.is_match(file_names[i].as_str());
        keep.push(b);
        assert(string_views(file_names@).take(i + 1) =~= string_views(file_names@).take(
            i as int,
        ).push(file_names@[i as int]@));
        i = i + 1;
    }
    assert(string_views(file_names@).take(file_names@.len() as int) =~= string_views(
        file_names@,
    ));
    Ok(keep_flagged(file_names, &keep))
}

} // verus!
