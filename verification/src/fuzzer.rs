//! The HTTP fuzzer: its options, the requests it plans and what it keeps of
//! the answers.
use vstd::prelude::*;
use crate::text::{
    chars_of, string_of, append_chars, split_chars, split_char, views, trim, trim_chars,
    parse_unsigned, parse_unsigned_chars, lemma_parse_bounded, strip_prefix_all,
    strip_prefix_all_chars, strip_end_set, strip_end_set_chars,
};
use crate::services::{text, copy_string, string_views};

verus! {

/// A path that answered with one of the accepted status codes.
#[derive(Debug, Clone)]
pub struct FuzzerFinding {
    /// `/` and the payload.
    pub path: String,
    /// The full URL that was requested.
    pub url: String,
    pub status: u16,
    /// The `Server` header, or `Inconnu` where there was none.
    pub server: String,
}

pub struct FindingView {
    pub path: Seq<char>,
    pub url: Seq<char>,
    pub status: u16,
    pub server: Seq<char>,
}

impl View for FuzzerFinding {
    type V = FindingView;

    open spec fn view(&self) -> FindingView {
        FindingView { path: self.path@, url: self.url@, status: self.status, server: self.server@ }
    }
}

pub open spec fn finding_views(v: Seq<FuzzerFinding>) -> Seq<FindingView> {
    v.map_values(|f: FuzzerFinding| f@)
}

/// The fuzzer's options.
#[derive(Debug, Clone)]
pub struct FuzzerArgs {
    /// Base URL to fuzz.
    pub url: String,
    /// Path of the word list.
    pub wordlist: String,
    /// How many requests may be in flight at once.
    pub threads: usize,
    /// Accepted status codes, separated by commas.
    pub status_codes: String,
    /// Extensions to try after each word, separated by commas.
    pub extensions: Option<String>,
    /// Path of the JSON report.
    pub output: Option<String>,
    pub user_agent: String,
    pub verbose: bool,
}

/// The status code that one comma-separated piece names, if it reads as a
/// `u16` once trimmed.
pub open spec fn code_of_piece(p: Seq<char>) -> Option<u16> {
    match parse_unsigned(trim(p), 0xffff) {
        Ok(v) => Some(v as u16),
        Err(_) => None,
    }
}

pub open spec fn codes_of(pieces: Seq<Seq<char>>) -> Seq<u16>
    decreases pieces.len(),
{
    if pieces.len() == 0 {
        Seq::<u16>::empty()
    } else {
        let prev = codes_of(pieces.drop_last());
        match code_of_piece(pieces.last()) {
            Some(v) => prev.push(v),
            None => prev,
        }
    }
}

/// The status codes of a comma-separated list, in order; pieces that are no
/// `u16` are left out.
pub open spec fn status_codes_of(s: Seq<char>) -> Seq<u16> {
    codes_of(split_char(s, ','))
}

/// A piece of the extension list, trimmed and without its leading dots.
pub open spec fn extension_of_piece(p: Seq<char>) -> Seq<char> {
    strip_prefix_all(trim(p), seq!['.'])
}

pub open spec fn extensions_of_pieces(pieces: Seq<Seq<char>>) -> Seq<Seq<char>>
    decreases pieces.len(),
{
    if pieces.len() == 0 {
        Seq::<Seq<char>>::empty()
    } else {
        let prev = extensions_of_pieces(pieces.drop_last());
        let e = extension_of_piece(pieces.last());
        if e.len() > 0 {
            prev.push(e)
        } else {
            prev
        }
    }
}

/// The extensions of a comma-separated list, in order, empty ones left out.
pub open spec fn extensions_of(o: Option<Seq<char>>) -> Seq<Seq<char>> {
    match o {
        Some(s) => extensions_of_pieces(split_char(s, ',')),
        None => Seq::<Seq<char>>::empty(),
    }
}

fn code_of_chars(p: &[char]) -> (res: Option<u16>)
    ensures
        res == code_of_piece(p@),
{
    let t = trim_chars(p);
    proof {
        lemma_parse_bounded(t@, 0xffff);
    }
    match parse_unsigned_chars(t.as_slice(), 0xffff) {
        Ok(v) => Some(v as u16),
        Err(_) => None,
    }
}

impl FuzzerArgs {
    /// The accepted status codes.
    pub fn get_status_codes(&self) -> (res: Vec<u16>)
        ensures
            res@ == status_codes_of(self.status_codes@),
    {
        let c = chars_of(self.status_codes.as_str());
        let pieces = split_chars(c.as_slice(), ',');
        let mut out: Vec<u16> = Vec::new();
        let mut i: usize = 0;
        while i < pieces.len()
            invariant
                i <= pieces@.len(),
                views(pieces@) == split_char(self.status_codes@, ','),
                out@ == codes_of(views(pieces@).take(i as int)),
            decreases pieces.len() - i,
        {
            let ghost ps = views(pieces@);
            assert(ps.take(i + 1).drop_last() =~= ps.take(i as int));
            assert(ps.take(i + 1).last() == pieces@[i as int]@);
            match code_of_chars(pieces[i].as_slice()) {
                Some(v) => out.push(v),
                None => {},
            }
            i = i + 1;
        }
        assert(views(pieces@).take(pieces@.len() as int) =~= views(pieces@));
        out
    }

    /// The extensions to try after each word.
    pub fn get_extensions(&self) -> (res: Vec<String>)
        ensures
            string_views(res@) == extensions_of(crate::config::opt_text(self.extensions)),
    {
        let mut out: Vec<String> = Vec::new();
        match &self.extensions {
            None => {
                assert(string_views(out@) =~= Seq::<Seq<char>>::empty());
                out
            },
            Some(exts) => {
                let c = chars_of(exts.as_str());
                let pieces = split_chars(c.as_slice(), ',');
                let dot: Vec<char> = vec!['.'];
                assert(dot@ =~= seq!['.']);
                let mut i: usize = 0;
                assert(string_views(out@) =~= extensions_of_pieces(views(pieces@).take(0)));
                while i < pieces.len()
                    invariant
                        i <= pieces@.len(),
                        dot@ == seq!['.'],
                        views(pieces@) == split_char(exts@, ','),
                        string_views(out@) == extensions_of_pieces(views(pieces@).take(i as int)),
                    decreases pieces.len() - i,
                {
                    let ghost ps = views(pieces@);
                    assert(ps.take(i + 1).drop_last() =~= ps.take(i as int));
                    assert(ps.take(i + 1).last() == pieces@[i as int]@);
                    let t = trim_chars(pieces[i].as_slice());
                    let e = strip_prefix_all_chars(t.as_slice(), dot.as_slice());
                    if e.len() > 0 {
                        let ghost before = string_views(out@);
                        out.push(string_of(e.as_slice()));
                        assert(string_views(out@) =~= before.push(e@));
                    }
                    i = i + 1;
                }
                assert(views(pieces@).take(pieces@.len() as int) =~= views(pieces@));
                out
            },
        }
    }
}

/// The words of a word list: each line trimmed, empty lines left out.
pub open spec fn words_of(lines: Seq<Seq<char>>) -> Seq<Seq<char>>
    decreases lines.len(),
{
    if lines.len() == 0 {
        Seq::<Seq<char>>::empty()
    } else {
        let prev = words_of(lines.drop_last());
        let w = trim(lines.last());
        if w.len() > 0 {
            prev.push(w)
        } else {
            prev
        }
    }
}

/// The words of the lines of a word list.
pub fn clean_wordlist(lines: &Vec<String>) -> (res: Vec<String>)
    ensures
        string_views(res@) == words_of(string_views(lines@)),
{
    let ghost ls = string_views(lines@);
    let mut out: Vec<String> = Vec::new();
    let mut i: usize = 0;
    assert(string_views(out@) =~= words_of(ls.take(0)));
    while i < lines.len()
        invariant
            i <= lines@.len(),
            ls == string_views(lines@),
            string_views(out@) == words_of(ls.take(i as int)),
        decreases lines.len() - i,
    {
        assert(ls.take(i + 1).drop_last() =~= ls.take(i as int));
        assert(ls.take(i + 1).last() == lines@[i as int]@);
        let c = chars_of(lines[i].as_str());
        let w = trim_chars(c.as_slice());
        if w.len() > 0 {
            let ghost before = string_views(out@);
            out.push(string_of(w.as_slice()));
            assert(string_views(out@) =~= before.push(w@));
        }
        i = i + 1;
    }
    assert(ls.take(lines@.len() as int) =~= ls);
    out
}

/// One request of the run: the payload and the URL it is sent to.
#[derive(Debug, Clone)]
pub struct FuzzRequest {
    pub payload: String,
    pub url: String,
}

/// The payloads of a word: the word, then the word with each extension.
pub open spec fn payloads_of(word: Seq<char>, exts: Seq<Seq<char>>) -> Seq<Seq<char>> {
    seq![word] + exts.map_values(|e: Seq<char>| word + seq!['.'] + e)
}

/// The URL of a payload: the base URL without its trailing slashes, `/`,
/// the payload.
pub open spec fn target_of(base: Seq<char>, payload: Seq<char>) -> Seq<char> {
    strip_end_set(base, seq!['/']) + seq!['/'] + payload
}

pub open spec fn request_view(base: Seq<char>, payload: Seq<char>) -> (Seq<char>, Seq<char>) {
    (payload, target_of(base, payload))
}

/// Every request of a run, word after word, each word's payloads in order.
pub open spec fn plan_of(base: Seq<char>, words: Seq<Seq<char>>, exts: Seq<Seq<char>>) -> Seq<
    (Seq<char>, Seq<char>),
>
    decreases words.len(),
{
    if words.len() == 0 {
        Seq::<(Seq<char>, Seq<char>)>::empty()
    } else {
        plan_of(base, words.drop_last(), exts) + payloads_of(words.last(), exts).map_values(
            |p: Seq<char>| request_view(base, p),
        )
    }
}

pub open spec fn request_views(v: Seq<FuzzRequest>) -> Seq<(Seq<char>, Seq<char>)> {
    v.map_values(|r: FuzzRequest| (r.payload@, r.url@))
}

/// A run sends `1 + extensions` requests per word.
pub proof fn lemma_plan_len(base: Seq<char>, words: Seq<Seq<char>>, exts: Seq<Seq<char>>)
    ensures
        plan_of(base, words, exts).len() == words.len() * (1 + exts.len()),
    decreases words.len(),
{
    if words.len() > 0 {
        lemma_plan_len(base, words.drop_last(), exts);
        assert(words.len() * (1 + exts.len()) == (words.len() - 1) * (1 + exts.len()) + (1
            + exts.len())) by (nonlinear_arith);
    }
}

fn push_request(out: &mut Vec<FuzzRequest>, base: &[char], payload: Vec<char>)
    ensures
        request_views(final(out)@) == request_views(old(out)@).push(
            (payload@, base@ + seq!['/'] + payload@),
        ),
{
    let mut u: Vec<char> = slice_of_all(base);
    u.push('/');
    assert(u@ == base@ + seq!['/']);
    append_chars(&mut u, payload.as_slice());
    assert(u@ == base@ + seq!['/'] + payload@);
    let ghost before = request_views(out@);
    out.push(FuzzRequest { payload: string_of(payload.as_slice()), url: string_of(u.as_slice()) });
    assert(request_views(out@) =~= before.push((payload@, base@ + seq!['/'] + payload@)));
}

fn slice_of_all(s: &[char]) -> (res: Vec<char>)
    ensures
        res@ == s@,
{
    crate::text::slice_of(s, 0, s.len())
}

/// The requests of a run over `words` with `exts`, against `base_url`.
pub fn plan_requests(base_url: &str, words: &Vec<String>, exts: &Vec<String>) -> (res: Vec<
    FuzzRequest,
>)
    ensures
        request_views(res@) == plan_of(base_url@, string_views(words@), string_views(exts@)),
        res@.len() == words@.len() * (1 + exts@.len()),
{
    let ghost ws = string_views(words@);
    let ghost es = string_views(exts@);
    let slash: Vec<char> = vec!['/'];
    assert(slash@ =~= seq!['/']);
    let bc = chars_of(base_url);
    let base = strip_end_set_chars(bc.as_slice(), slash.as_slice());
    let mut out: Vec<FuzzRequest> = Vec::new();
    let mut i: usize = 0;
    assert(request_views(out@) =~= plan_of(base_url@, ws.take(0), es));
    while i < words.len()
        invariant
            i <= words@.len(),
            ws == string_views(words@),
            es == string_views(exts@),
            base@ == strip_end_set(base_url@, seq!['/']),
            request_views(out@) == plan_of(base_url@, ws.take(i as int), es),
        decreases words.len() - i,
    {
        let ghost prior = request_views(out@);
        let ghost w = ws[i as int];
        let ghost ps = payloads_of(w, es).map_values(|p: Seq<char>| request_view(base_url@, p));
        let wc = chars_of(words[i].as_str());
        assert(wc@ == w);
        push_request(&mut out, base.as_slice(), slice_of_all(wc.as_slice()));
        assert(request_views(out@) =~= prior + ps.take(1));
        let mut j: usize = 0;
        while j < exts.len()
            invariant
                j <= exts@.len(),
                es == string_views(exts@),
                base@ == strip_end_set(base_url@, seq!['/']),
                wc@ == w,
                ps == payloads_of(w, es).map_values(|p: Seq<char>| request_view(base_url@, p)),
                request_views(out@) == prior + ps.take(j + 1),
            decreases exts.len() - j,
        {
            let mut p: Vec<char> = slice_of_all(wc.as_slice());
            p.push('.');
            let ec = chars_of(exts[j].as_str());
            append_chars(&mut p, ec.as_slice());
            assert(p@ == w + seq!['.'] + es[j as int]);
            let ghost mid = request_views(out@);
            push_request(&mut out, base.as_slice(), p);
            assert(ps.take(j + 2) =~= ps.take(j + 1).push(ps[j + 1]));
            assert(request_views(out@) =~= prior + ps.take(j + 2));
            j = j + 1;
        }
        assert(ps.take(exts@.len() + 1 as int) =~= ps);
        assert(ws.take(i + 1).drop_last() =~= ws.take(i as int));
        assert(ws.take(i + 1).last() == w);
        i = i + 1;
    }
    assert(ws.take(words@.len() as int) =~= ws);
    proof {
        lemma_plan_len(base_url@, ws, es);
    }
    out
}

/// How many requests a run over `words` words with `exts` extensions sends.
pub fn estimated_requests(words: usize, exts: usize) -> (res: usize)
    requires
        1 + exts <= usize::MAX,
        words * (1 + exts) <= usize::MAX,
    ensures
        res == words * (1 + exts),
{
    words * (1 + exts)
}

/// The server name kept for an answer without a readable `Server` header.
pub open spec fn unknown_server() -> Seq<char> {
    "Inconnu"@
}

pub open spec fn server_or_unknown(h: Option<Seq<char>>) -> Seq<char> {
    match h {
        Some(s) => s,
        None => unknown_server(),
    }
}

pub open spec fn distinct_texts(s: Seq<Seq<char>>) -> bool {
    forall|i: int, j: int| 0 <= i < j < s.len() ==> s[i] != s[j]
}

/// What a run keeps of the answers: the findings, in the order the answers
/// came, and each server name once.
pub struct FuzzSession {
    allowed: Vec<u16>,
    findings: Vec<FuzzerFinding>,
    servers: Vec<String>,
}

pub struct FuzzSessionView {
    pub allowed: Seq<u16>,
    pub findings: Seq<FindingView>,
    pub servers: Seq<Seq<char>>,
}

impl View for FuzzSession {
    type V = FuzzSessionView;

    closed spec fn view(&self) -> FuzzSessionView {
        FuzzSessionView {
            allowed: self.allowed@,
            findings: finding_views(self.findings@),
            servers: string_views(self.servers@),
        }
    }
}

impl FuzzSession {
    /// No server name is kept twice.
    pub open spec fn wf(&self) -> bool {
        distinct_texts(self@.servers)
    }

    /// A session that accepts the status codes of `args`.
    pub fn new(args: &FuzzerArgs) -> (res: FuzzSession)
        ensures
            res.wf(),
            res@.allowed == status_codes_of(args.status_codes@),
            res@.findings == Seq::<FindingView>::empty(),
            res@.servers == Seq::<Seq<char>>::empty(),
    {
        let s = FuzzSession { allowed: args.get_status_codes(), findings: Vec::new(), servers: Vec::new() };
        assert(s@.findings =~= Seq::<FindingView>::empty());
        assert(s@.servers =~= Seq::<Seq<char>>::empty());
        s
    }

    fn is_allowed(&self, status: u16) -> (res: bool)
        ensures
            res == self@.allowed.contains(status),
    {
        let mut i: usize = 0;
        while i < self.allowed.len()
            invariant
                i <= self.allowed@.len(),
                forall|k: int| 0 <= k < i ==> self.allowed@[k] != status,
            decreases self.allowed.len() - i,
        {
            if self.allowed[i] == status {
                assert(self@.allowed[i as int] == status);
                return true;
            }
            i = i + 1;
        }
        false
    }

    fn knows_server(&self, name: &String) -> (res: bool)
        ensures
            res == self@.servers.contains(name@),
    {
        let mut i: usize = 0;
        while i < self.servers.len()
            invariant
                i <= self.servers@.len(),
                forall|k: int| 0 <= k < i ==> self.servers@[k]@ != name@,
            decreases self.servers.len() - i,
        {
            if self.servers[i] == *name {
                assert(self@.servers[i as int] == name@);
                return true;
            }
            i = i + 1;
        }
        assert(!self@.servers.contains(name@)) by {
            if self@.servers.contains(name@) {
                let k = choose|k: int| 0 <= k < self@.servers.len() && self@.servers[k] == name@;
                assert(self.servers@[k]@ == name@);
            }
        }
        false
    }

    /// Takes the answer to a request: where its status is accepted, a
    /// finding is kept and the server name is noted; else nothing changes.
    /// Returns whether the answer was kept.
    pub fn record(&mut self, payload: &String, url: &String, status: u16, server: Option<String>) -> (hit: bool)
        requires
            old(self).wf(),
        ensures
            final(self).wf(),
            final(self)@.allowed == old(self)@.allowed,
            hit == old(self)@.allowed.contains(status),
            hit ==> final(self)@.findings == old(self)@.findings.push(
                FindingView {
                    path: seq!['/'] + payload@,
                    url: url@,
                    status,
                    server: server_or_unknown(crate::config::opt_text(server)),
                },
            ),
            hit ==> final(self)@.servers == (if old(self)@.servers.contains(
                server_or_unknown(crate::config::opt_text(server)),
            ) {
                old(self)@.servers
            } else {
                old(self)@.servers.push(server_or_unknown(crate::config::opt_text(server)))
            }),
            !hit ==> final(self)@ == old(self)@,
    {
        if !self.is_allowed(status) {
            return false;
        }
        let name = match server {
            Some(s) => s,
            None => text("Inconnu"),
        };
        assert(name@ == server_or_unknown(crate::config::opt_text(server)));
        let mut p: Vec<char> = vec!['/'];
        let pc = chars_of(payload.as_str());
        append_chars(&mut p, pc.as_slice());
        assert(p@ =~= seq!['/'] + payload@);
        let ghost old_findings = finding_views(self.findings@);
        let ghost old_servers = string_views(self.servers@);
        if !self.knows_server(&name) {
            self.servers.push(copy_string(&name));
            assert(string_views(self.servers@) =~= old_servers.push(name@));
        }
        self.findings.push(
            FuzzerFinding { path: string_of(p.as_slice()), url: copy_string(url), status, server: name },
        );
        assert(finding_views(self.findings@) =~= old_findings.push(
            FindingView { path: p@, url: url@, status, server: server_or_unknown(crate::config::opt_text(server)) },
        ));
        true
    }

    /// The findings so far.
    pub fn findings(&self) -> (res: &Vec<FuzzerFinding>)
        ensures
            finding_views(res@) == self@.findings,
    {
        &self.findings
    }

    /// The server names seen so far, in the order they were first seen.
    pub fn servers(&self) -> (res: &Vec<String>)
        ensures
            string_views(res@) == self@.servers,
    {
        &self.servers
    }
}

proof fn lemma_plan_targets(base: Seq<char>, words: Seq<Seq<char>>, exts: Seq<Seq<char>>)
    ensures
        forall|k: int| 0 <= k < plan_of(base, words, exts).len() ==> #[trigger] plan_of(base, words, exts)[k].1
            == target_of(base, plan_of(base, words, exts)[k].0),
    decreases words.len(),
{
    if words.len() > 0 {
        lemma_plan_targets(base, words.drop_last(), exts);
        let prev = plan_of(base, words.drop_last(), exts);
        let tail = payloads_of(words.last(), exts).map_values(|p: Seq<char>| request_view(base, p));
        assert forall|k: int| 0 <= k < (prev + tail).len() implies #[trigger] (prev + tail)[k].1 == target_of(
            base,
            (prev + tail)[k].0,
        ) by {
            if k < prev.len() {
                assert((prev + tail)[k] == prev[k]);
            } else {
                assert((prev + tail)[k] == tail[k - prev.len()]);
            }
        }
    }
}

proof fn lemma_plan_same_stripped(b1: Seq<char>, b2: Seq<char>, words: Seq<Seq<char>>, exts: Seq<Seq<char>>)
    requires
        strip_end_set(b1, seq!['/']) == strip_end_set(b2, seq!['/']),
    ensures
        plan_of(b1, words, exts) == plan_of(b2, words, exts),
    decreases words.len(),
{
    if words.len() > 0 {
        lemma_plan_same_stripped(b1, b2, words.drop_last(), exts);
        let ps = payloads_of(words.last(), exts);
        assert(ps.map_values(|p: Seq<char>| request_view(b1, p)) =~= ps.map_values(
            |p: Seq<char>| request_view(b2, p),
        ));
    }
}

/// Each planned request goes to the base URL with its trailing slashes
/// removed, then `/`, then the payload: a base URL that does not end in `/`
/// is kept whole, and a trailing `/` changes no request.
pub proof fn lemma_plan_urls(base: Seq<char>, words: Seq<Seq<char>>, exts: Seq<Seq<char>>)
    ensures
        base.len() == 0 || base.last() != '/' ==> forall|k: int|
            0 <= k < plan_of(base, words, exts).len() ==> #[trigger] plan_of(base, words, exts)[k].1 == base
                + seq!['/'] + plan_of(base, words, exts)[k].0,
        base.len() > 0 && base.last() == '/' ==> plan_of(base, words, exts) == plan_of(
            base.drop_last(),
            words,
            exts,
        ),
{
    lemma_plan_targets(base, words, exts);
    if base.len() > 0 && base.last() == '/' {
        assert(seq!['/'].contains(base.last())) by {
            assert(seq!['/'][0] == '/');
        }
        lemma_plan_same_stripped(base, base.drop_last(), words, exts);
    } else {
        if base.len() > 0 {
            assert(!seq!['/'].contains(base.last()));
        }
        assert(strip_end_set(base, seq!['/']) == base);
    }
}

} // verus!
