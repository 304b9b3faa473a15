//! Turning scanner banners and fuzzer `Server` headers into a normalised
//! list of services.
use vstd::prelude::*;
use crate::text::{chars_of, string_of, find, find_chars, contains, first_word, last_word,
    second_piece, first_piece, strip_end_set, strip_prefix_all, all_digits, starts_with,
    first_word_chars, last_word_chars, second_piece_chars, first_piece_chars,
    strip_end_set_chars, strip_prefix_all_chars, all_digits_chars, starts_with_chars, slice_of,
    split_char, split_chars, views, trim, trim_chars, chars_eq};
use crate::services::{Service, text};

verus! {

/// The first word after the first occurrence of `pat` (`s[find(pat) + len..]`).
pub open spec fn word_after(s: Seq<char>, pat: Seq<char>) -> Option<Seq<char>> {
    match find(s, pat) {
        Some(i) => first_word(s.skip(i + pat.len())),
        None => None,
    }
}

/// The first word of the text between the first and second occurrences of `pat`.
pub open spec fn word_in_second_piece(s: Seq<char>, pat: Seq<char>) -> Option<Seq<char>> {
    match second_piece(s, pat) {
        Some(p) => first_word(p),
        None => None,
    }
}

pub open spec fn named(name: Seq<char>, version: Seq<char>) -> Option<(Seq<char>, Seq<char>)> {
    Some((name, version))
}

/// An OpenSSH version without its portable-release suffix (`9.0p1` is `9.0`).
pub open spec fn openssh_version(ver: Seq<char>) -> Seq<char> {
    match find(ver, seq!['p']) {
        Some(i) => if all_digits(ver.skip(i + 1)) {
            ver.take(i)
        } else {
            ver
        },
        None => ver,
    }
}

pub open spec fn rule_openssh(b: Seq<char>) -> Option<(Seq<char>, Seq<char>)> {
    if contains(b, "OpenSSH_"@) && word_in_second_piece(b, "OpenSSH_"@) is Some {
        named("OpenSSH"@, openssh_version(word_in_second_piece(b, "OpenSSH_"@)->0))
    } else {
        None
    }
}

pub open spec fn rule_vmware(b: Seq<char>) -> Option<(Seq<char>, Seq<char>)> {
    if contains(b, "VMware Authentication Daemon Version"@) && word_in_second_piece(b, "Version "@) is Some {
        named(
            "VMware Authentication Daemon"@,
            strip_end_set(word_in_second_piece(b, "Version "@)->0, seq![':', ',']),
        )
    } else {
        None
    }
}

/// A product token `name/version`: the first word after the token, with
/// the characters of `strip` removed from its end.
pub open spec fn rule_token(b: Seq<char>, token: Seq<char>, name: Seq<char>, strip: Seq<char>) -> Option<
    (Seq<char>, Seq<char>),
> {
    match word_after(b, token) {
        Some(v) => named(name, strip_end_set(v, strip)),
        None => None,
    }
}

pub open spec fn rule_postfix(b: Seq<char>) -> Option<(Seq<char>, Seq<char>)> {
    if contains(b, "Postfix"@) {
        match find(b, "Postfix ("@) {
            Some(i) => named("Postfix"@, first_piece(b.skip(i + "Postfix ("@.len()), seq![')'])),
            None => named("Postfix"@, "unknown"@),
        }
    } else {
        None
    }
}

/// `name` then a space then the version, when the banner mentions `mark`.
pub open spec fn rule_word(b: Seq<char>, mark: Seq<char>, pat: Seq<char>, name: Seq<char>, strip: Seq<char>) -> Option<
    (Seq<char>, Seq<char>),
> {
    if contains(b, mark) && word_in_second_piece(b, pat) is Some {
        named(name, strip_end_set(word_in_second_piece(b, pat)->0, strip))
    } else {
        None
    }
}

pub open spec fn rule_only_name(b: Seq<char>, mark: Seq<char>, name: Seq<char>) -> Option<(Seq<char>, Seq<char>)> {
    if contains(b, mark) {
        named(name, "unknown"@)
    } else {
        None
    }
}

pub open spec fn rule_postgresql(b: Seq<char>) -> Option<(Seq<char>, Seq<char>)> {
    if contains(b, "PostgreSQL"@) {
        match word_in_second_piece(b, "PostgreSQL "@) {
            Some(v) => named("PostgreSQL"@, v),
            None => named("PostgreSQL"@, "unknown"@),
        }
    } else {
        None
    }
}

pub open spec fn mariadb_version(b: Seq<char>) -> Seq<char> {
    let last = match last_word(first_piece(b, "-MariaDB"@)) {
        Some(w) => w,
        None => Seq::empty(),
    };
    strip_prefix_all(last, "5.5.5-"@)
}

pub open spec fn rule_mariadb(b: Seq<char>) -> Option<(Seq<char>, Seq<char>)> {
    if contains(b, "MariaDB"@) {
        if mariadb_version(b).len() > 0 {
            named("MariaDB"@, mariadb_version(b))
        } else {
            named("MariaDB"@, "unknown"@)
        }
    } else {
        None
    }
}

pub open spec fn rule_mysql(b: Seq<char>) -> Option<(Seq<char>, Seq<char>)> {
    if contains(b, "MySQL"@) || contains(b, "mysql_native_password"@) {
        match first_word(b) {
            Some(v) => named("MySQL"@, strip_prefix_all(v, "5.5.5-"@)),
            None => named("MySQL"@, "unknown"@),
        }
    } else {
        None
    }
}

pub open spec fn first_some(a: Option<(Seq<char>, Seq<char>)>, b: Option<(Seq<char>, Seq<char>)>) -> Option<
    (Seq<char>, Seq<char>),
> {
    if a is Some {
        a
    } else {
        b
    }
}

/// The standard name and the version of the service a banner announces, by
/// the first rule that applies; `None` when no rule does.
pub open spec fn known_service(b: Seq<char>) -> Option<(Seq<char>, Seq<char>)> {
    first_some(rule_openssh(b),
    first_some(rule_vmware(b),
    first_some(rule_token(b, "Apache/"@, "Apache HTTP Server"@, seq!['(', ')', ',', ':']),
    first_some(rule_token(b, "nginx/"@, "Nginx"@, seq![';', ',']),
    first_some(rule_token(b, "Microsoft-IIS/"@, "Microsoft IIS"@, Seq::empty()),
    first_some(rule_token(b, "Apache-Coyote/"@, "Apache Tomcat"@, Seq::empty()),
    first_some(rule_token(b, "squid/"@, "Squid Proxy"@, Seq::empty()),
    first_some(rule_token(b, "HAProxy/"@, "HAProxy"@, Seq::empty()),
    first_some(rule_token(b, "lighttpd/"@, "Lighttpd"@, Seq::empty()),
    first_some(rule_postfix(b),
    first_some(rule_word(b, "Exim"@, "Exim "@, "Exim"@, Seq::empty()),
    first_some(rule_only_name(b, "Dovecot"@, "Dovecot"@),
    first_some(rule_word(b, "ProFTPD"@, "ProFTPD "@, "ProFTPD"@, Seq::empty()),
    first_some(rule_word(b, "vsFTPd"@, "vsFTPd "@, "vsftpd"@, seq![')']),
    first_some(rule_word(b, "Pure-FTPd"@, "Pure-FTPd "@, "Pure-FTPd"@, Seq::empty()),
    first_some(rule_postgresql(b),
    first_some(rule_mariadb(b),
    first_some(rule_mysql(b),
    first_some(rule_only_name(b, "Zabbix"@, "Zabbix"@),
    rule_only_name(b, "OpenVPN"@, "OpenVPN"@))))))))))))))))))))
}

pub open spec fn pair_view(p: Option<(String, String)>) -> Option<(Seq<char>, Seq<char>)> {
    match p {
        Some((a, b)) => Some((a@, b@)),
        None => None,
    }
}

fn pair(name: &str, version: &[char]) -> (res: Option<(String, String)>)
    ensures
        pair_view(res) == named(name@, version@),
{
    Some((text(name), string_of(version)))
}

fn word_after_chars(s: &[char], pat: &[char]) -> (res: Option<Vec<char>>)
    ensures
        res matches Some(w) ==> word_after(s@, pat@) == Some(w@),
        res is None ==> word_after(s@, pat@) is None,
{
    match find_chars(s, pat) {
        Some(i) => {
            let n = s.len();
            let r = slice_of(s, i + pat.len(), n);
            assert(r@ =~= s@.skip(i + pat@.len()));
            first_word_chars(r.as_slice())
        },
        None => None,
    }
}

fn word_in_second_piece_chars(s: &[char], pat: &[char]) -> (res: Option<Vec<char>>)
    ensures
        res matches Some(w) ==> word_in_second_piece(s@, pat@) == Some(w@),
        res is None ==> word_in_second_piece(s@, pat@) is None,
{
    match second_piece_chars(s, pat) {
        Some(p) => first_word_chars(p.as_slice()),
        None => None,
    }
}

fn mentions(s: &[char], lit: &str) -> (res: bool)
    ensures
        res == contains(s@, lit@),
{
    let p = chars_of(lit);
    find_chars(s, p.as_slice()).is_some()
}

fn openssh_version_chars(ver: &[char]) -> (res: Vec<char>)
    ensures
        res@ == openssh_version(ver@),
{
    let p = vec!['p'];
    assert(p@ =~= seq!['p']);
    assert(p@.len() == 1);
    match find_chars(ver, p.as_slice()) {
        Some(i) => {
            let n = ver.len();
            let rest = slice_of(ver, i + 1, n);
            assert(rest@ =~= ver@.skip(i + 1));
            if all_digits_chars(rest.as_slice()) {
                let r = slice_of(ver, 0, i);
                assert(r@ =~= ver@.take(i as int));
                r
            } else {
                slice_of(ver, 0, n)
            }
        },
        None => slice_of(ver, 0, ver.len()),
    }
}

fn token_rule(b: &[char], token: &str, name: &str, strip: &[char]) -> (res: Option<(String, String)>)
    ensures
        pair_view(res) == rule_token(b@, token@, name@, strip@),
{
    let t = chars_of(token);
    match word_after_chars(b, t.as_slice()) {
        Some(v) => {
            let c = strip_end_set_chars(v.as_slice(), strip);
            pair(name, c.as_slice())
        },
        None => None,
    }
}

fn word_rule(b: &[char], mark: &str, pat: &str, name: &str, strip: &[char]) -> (res: Option<(String, String)>)
    ensures
        pair_view(res) == rule_word(b@, mark@, pat@, name@, strip@),
{
    if !mentions(b, mark) {
        return None;
    }
    let p = chars_of(pat);
    match word_in_second_piece_chars(b, p.as_slice()) {
        Some(v) => {
            let c = strip_end_set_chars(v.as_slice(), strip);
            pair(name, c.as_slice())
        },
        None => None,
    }
}

fn only_name_rule(b: &[char], mark: &str, name: &str) -> (res: Option<(String, String)>)
    ensures
        pair_view(res) == rule_only_name(b@, mark@, name@),
{
    if mentions(b, mark) {
        Some((text(name), text("unknown")))
    } else {
        None
    }
}

fn openssh_rule(b: &[char]) -> (res: Option<(String, String)>)
    ensures
        pair_view(res) == rule_openssh(b@),
{
    if !mentions(b, "OpenSSH_") {
        return None;
    }
    let p = chars_of("OpenSSH_");
    match word_in_second_piece_chars(b, p.as_slice()) {
        Some(v) => {
            let c = openssh_version_chars(v.as_slice());
            pair("OpenSSH", c.as_slice())
        },
        None => None,
    }
}

fn vmware_rule(b: &[char]) -> (res: Option<(String, String)>)
    ensures
        pair_view(res) == rule_vmware(b@),
{
    let strip = vec![':', ','];
    assert(strip@ =~= seq![':', ',']);
    word_rule(b, "VMware Authentication Daemon Version", "Version ", "VMware Authentication Daemon", strip.as_slice())
}

fn postfix_rule(b: &[char]) -> (res: Option<(String, String)>)
    ensures
        pair_view(res) == rule_postfix(b@),
{
    if !mentions(b, "Postfix") {
        return None;
    }
    let p = chars_of("Postfix (");
    match find_chars(b, p.as_slice()) {
        Some(i) => {
            let n = b.len();
            let rest = slice_of(b, i + p.len(), n);
            assert(rest@ =~= b@.skip(i + "Postfix ("@.len()));
            let close = vec![')'];
            assert(close@ =~= seq![')']);
            let v = first_piece_chars(rest.as_slice(), close.as_slice());
            pair("Postfix", v.as_slice())
        },
        None => Some((text("Postfix"), text("unknown"))),
    }
}

fn postgresql_rule(b: &[char]) -> (res: Option<(String, String)>)
    ensures
        pair_view(res) == rule_postgresql(b@),
{
    if !mentions(b, "PostgreSQL") {
        return None;
    }
    let p = chars_of("PostgreSQL ");
    match word_in_second_piece_chars(b, p.as_slice()) {
        Some(v) => pair("PostgreSQL", v.as_slice()),
        None => Some((text("PostgreSQL"), text("unknown"))),
    }
}

fn mariadb_rule(b: &[char]) -> (res: Option<(String, String)>)
    ensures
        pair_view(res) == rule_mariadb(b@),
{
    if !mentions(b, "MariaDB") {
        return None;
    }
    let m = chars_of("-MariaDB");
    let part = first_piece_chars(b, m.as_slice());
    let last: Vec<char> = match last_word_chars(part.as_slice()) {
        Some(w) => w,
        None => Vec::new(),
    };
    let pre = chars_of("5.5.5-");
    let ver = strip_prefix_all_chars(last.as_slice(), pre.as_slice());
    assert(ver@ == mariadb_version(b@));
    if ver.len() > 0 {
        pair("MariaDB", ver.as_slice())
    } else {
        Some((text("MariaDB"), text("unknown")))
    }
}

fn mysql_rule(b: &[char]) -> (res: Option<(String, String)>)
    ensures
        pair_view(res) == rule_mysql(b@),
{
    if !mentions(b, "MySQL") && !mentions(b, "mysql_native_password") {
        return None;
    }
    match first_word_chars(b) {
        Some(v) => {
            let pre = chars_of("5.5.5-");
            let c = strip_prefix_all_chars(v.as_slice(), pre.as_slice());
            pair("MySQL", c.as_slice())
        },
        None => Some((text("MySQL"), text("unknown"))),
    }
}

/// Reads a raw network banner: the standard name and the cleaned version of
/// the service it announces, for twenty common services; `None` when it
/// announces none of them.
pub fn parse_known_service(banner: &str) -> (res: Option<(String, String)>)
    ensures
        pair_view(res) == known_service(banner@),
{
    let b = chars_of(banner);
    let b = b.as_slice();
    let r = openssh_rule(b);
    if r.is_some() {
        return r;
    }
    let r = vmware_rule(b);
    if r.is_some() {
        return r;
    }
    let strip = vec!['(', ')', ',', ':'];
    assert(strip@ =~= seq!['(', ')', ',', ':']);
    let r = token_rule(b, "Apache/", "Apache HTTP Server", strip.as_slice());
    if r.is_some() {
        return r;
    }
    let strip = vec![';', ','];
    assert(strip@ =~= seq![';', ',']);
    let r = token_rule(b, "nginx/", "Nginx", strip.as_slice());
    if r.is_some() {
        return r;
    }
    let none: Vec<char> = Vec::new();
    assert(none@ =~= Seq::<char>::empty());
    let r = token_rule(b, "Microsoft-IIS/", "Microsoft IIS", none.as_slice());
    if r.is_some() {
        return r;
    }
    let r = token_rule(b, "Apache-Coyote/", "Apache Tomcat", none.as_slice());
    if r.is_some() {
        return r;
    }
    let r = token_rule(b, "squid/", "Squid Proxy", none.as_slice());
    if r.is_some() {
        return r;
    }
    let r = token_rule(b, "HAProxy/", "HAProxy", none.as_slice());
    if r.is_some() {
        return r;
    }
    let r = token_rule(b, "lighttpd/", "Lighttpd", none.as_slice());
    if r.is_some() {
        return r;
    }
    let r = postfix_rule(b);
    if r.is_some() {
        return r;
    }
    let r = word_rule(b, "Exim", "Exim ", "Exim", none.as_slice());
    if r.is_some() {
        return r;
    }
    let r = only_name_rule(b, "Dovecot", "Dovecot");
    if r.is_some() {
        return r;
    }
    let r = word_rule(b, "ProFTPD", "ProFTPD ", "ProFTPD", none.as_slice());
    if r.is_some() {
        return r;
    }
    let paren = vec![')'];
    assert(paren@ =~= seq![')']);
    let r = word_rule(b, "vsFTPd", "vsFTPd ", "vsftpd", paren.as_slice());
    if r.is_some() {
        return r;
    }
    let r = word_rule(b, "Pure-FTPd", "Pure-FTPd ", "Pure-FTPd", none.as_slice());
    if r.is_some() {
        return r;
    }
    let r = postgresql_rule(b);
    if r.is_some() {
        return r;
    }
    let r = mariadb_rule(b);
    if r.is_some() {
        return r;
    }
    let r = mysql_rule(b);
    if r.is_some() {
        return r;
    }
    let r = only_name_rule(b, "Zabbix", "Zabbix");
    if r.is_some() {
        return r;
    }
    only_name_rule(b, "OpenVPN", "OpenVPN")
}


/// The service named by the scanner when no banner says better: its name
/// with an unknown version, unless the name is empty or "unknown".
pub open spec fn fallback(service: Seq<char>) -> Option<(Seq<char>, Seq<char>)> {
    if service.len() > 0 && service != "unknown"@ {
        Some((service, "unknown"@))
    } else {
        None
    }
}

/// The service an open port stands for: the one its banner announces; none
/// for an unrecognised HTTP banner (the fuzzer reports web servers better);
/// else the scanner's service name.
pub open spec fn port_candidate(service: Seq<char>, banner: Option<Seq<char>>) -> Option<(Seq<char>, Seq<char>)> {
    match banner {
        Some(b) => if known_service(b) is Some {
            known_service(b)
        } else if starts_with(b, "HTTP/"@) {
            None
        } else {
            fallback(service)
        },
        None => fallback(service),
    }
}

/// The service a `Server` header stands for: `name/version` split at the
/// slash (both trimmed) when there is exactly one slash; a header without a
/// slash is a name with an unknown version, unless it is empty or "Inconnu".
pub open spec fn server_candidate(server: Seq<char>) -> Option<(Seq<char>, Seq<char>)> {
    if contains(server, seq!['/']) {
        let parts = split_char(server, '/');
        if parts.len() == 2 {
            Some((trim(parts[0]), trim(parts[1])))
        } else {
            None
        }
    } else if server != "Inconnu"@ && server.len() > 0 {
        Some((server, "unknown"@))
    } else {
        None
    }
}

pub open spec fn port_view(p: (String, Option<String>)) -> (Seq<char>, Option<Seq<char>>) {
    (p.0@, match p.1 {
        Some(b) => Some(b@),
        None => None,
    })
}

pub open spec fn service_pair(s: Service) -> (Seq<char>, Seq<char>) {
    (s.name@, s.version@)
}

pub open spec fn service_pairs(v: Seq<Service>) -> Seq<(Seq<char>, Seq<char>)> {
    v.map_values(|s: Service| service_pair(s))
}

pub open spec fn no_repeats(v: Seq<(Seq<char>, Seq<char>)>) -> bool {
    forall|i: int, j: int| 0 <= i < j < v.len() ==> v[i] != v[j]
}

/// `x` is the service of one of the open ports.
pub open spec fn from_ports(ports: Seq<(String, Option<String>)>, x: (Seq<char>, Seq<char>)) -> bool {
    exists|i: int|
        0 <= i < ports.len() && #[trigger] port_candidate(port_view(ports[i]).0, port_view(ports[i]).1)
            == Some(x)
}

/// `x` is the service of one of the `Server` headers.
pub open spec fn from_servers(servers: Seq<String>, x: (Seq<char>, Seq<char>)) -> bool {
    exists|i: int| 0 <= i < servers.len() && #[trigger] server_candidate(servers[i]@) == Some(x)
}

fn insert_unique(out: &mut Vec<Service>, name: String, version: String)
    requires
        no_repeats(service_pairs(old(out)@)),
    ensures
        no_repeats(service_pairs(final(out)@)),
        forall|x: (Seq<char>, Seq<char>)|
            service_pairs(final(out)@).contains(x) <==> (service_pairs(old(out)@).contains(x) || x == (
                name@,
                version@,
            )),
{
    let mut i: usize = 0;
    while i < out.len()
        invariant
            i <= out@.len(),
            out@ == old(out)@,
            no_repeats(service_pairs(old(out)@)),
            forall|k: int| 0 <= k < i ==> service_pairs(out@)[k] != (name@, version@),
        decreases out.len() - i,
    {
        if out[i].name == name && out[i].version == version {
            assert(service_pairs(out@)[i as int] == (name@, version@));
            assert(service_pairs(out@) == service_pairs(old(out)@));
            return;
        }
        i = i + 1;
    }
    let ghost before = service_pairs(out@);
    out.push(Service { name, version });
    assert(service_pairs(out@) =~= before.push((name@, version@)));
    assert forall|x: (Seq<char>, Seq<char>)| service_pairs(out@).contains(x) <==> (before.contains(x) || x == (
        name@,
        version@,
    )) by {
        if service_pairs(out@).contains(x) && x != (name@, version@) {
            let k = choose|k: int| 0 <= k < service_pairs(out@).len() && service_pairs(out@)[k] == x;
            assert(before[k] == x);
        }
        if before.contains(x) {
            let k = choose|k: int| 0 <= k < before.len() && before[k] == x;
            assert(service_pairs(out@)[k] == x);
        }
        if x == (name@, version@) {
            assert(service_pairs(out@)[before.len() as int] == x);
        }
    }
}

fn port_candidate_of(service: &String, banner: &Option<String>) -> (res: Option<(String, String)>)
    ensures
        pair_view(res) == port_candidate(service@, match banner {
            Some(b) => Some(b@),
            None => None,
        }),
{
    match banner {
        Some(b) => {
            let k = parse_known_service(b.as_str());
            if k.is_some() {
                return k;
            }
            let bc = chars_of(b.as_str());
            let http = chars_of("HTTP/");
            if starts_with_chars(bc.as_slice(), http.as_slice()) {
                return None;
            }
        },
        None => {},
    }
    let sc = chars_of(service.as_str());
    let unknown = chars_of("unknown");
    if sc.len() > 0 && !chars_eq(sc.as_slice(), unknown.as_slice()) {
        Some((service.clone(), text("unknown")))
    } else {
        None
    }
}

fn server_candidate_of(server: &String) -> (res: Option<(String, String)>)
    ensures
        pair_view(res) == server_candidate(server@),
{
    let sc = chars_of(server.as_str());
    let slash = vec!['/'];
    assert(slash@ =~= seq!['/']);
    if find_chars(sc.as_slice(), slash.as_slice()).is_some() {
        let parts = split_chars(sc.as_slice(), '/');
        if parts.len() == 2 {
            assert(views(parts@)[0] == parts@[0]@);
            assert(views(parts@)[1] == parts@[1]@);
            let a = trim_chars(parts[0].as_slice());
            let b = trim_chars(parts[1].as_slice());
            Some((string_of(a.as_slice()), string_of(b.as_slice())))
        } else {
            None
        }
    } else {
        let inconnu = chars_of("Inconnu");
        if !chars_eq(sc.as_slice(), inconnu.as_slice()) && sc.len() > 0 {
            Some((server.clone(), text("unknown")))
        } else {
            None
        }
    }
}

proof fn lemma_from_ports_step(ports: Seq<(String, Option<String>)>, i: int)
    requires
        0 <= i < ports.len(),
    ensures
        forall|x: (Seq<char>, Seq<char>)|
            #[trigger] from_ports(ports.take(i + 1), x) <==> (from_ports(ports.take(i), x) || port_candidate(
                port_view(ports[i]).0,
                port_view(ports[i]).1,
            ) == Some(x)),
{
    assert forall|x: (Seq<char>, Seq<char>)|
        #[trigger] from_ports(ports.take(i + 1), x) <==> (from_ports(ports.take(i), x) || port_candidate(
            port_view(ports[i]).0,
            port_view(ports[i]).1,
        ) == Some(x)) by {
        let pre = ports.take(i);
        let cur = ports.take(i + 1);
        if from_ports(cur, x) {
            let k = choose|k: int|
                0 <= k < cur.len() && #[trigger] port_candidate(port_view(cur[k]).0, port_view(cur[k]).1)
                    == Some(x);
            if k < i {
                assert(pre[k] == cur[k]);
                assert(from_ports(pre, x));
            } else {
                assert(cur[k] == ports[i]);
            }
        }
        if from_ports(pre, x) {
            let k = choose|k: int|
                0 <= k < pre.len() && #[trigger] port_candidate(port_view(pre[k]).0, port_view(pre[k]).1)
                    == Some(x);
            assert(cur[k] == pre[k]);
            assert(from_ports(cur, x));
        }
        if port_candidate(port_view(ports[i]).0, port_view(ports[i]).1) == Some(x) {
            assert(cur[i] == ports[i]);
            assert(from_ports(cur, x));
        }
    }
}

proof fn lemma_from_servers_step(servers: Seq<String>, j: int)
    requires
        0 <= j < servers.len(),
    ensures
        forall|x: (Seq<char>, Seq<char>)|
            #[trigger] from_servers(servers.take(j + 1), x) <==> (from_servers(servers.take(j), x)
                || server_candidate(servers[j]@) == Some(x)),
{
    assert forall|x: (Seq<char>, Seq<char>)|
        #[trigger] from_servers(servers.take(j + 1), x) <==> (from_servers(servers.take(j), x)
            || server_candidate(servers[j]@) == Some(x)) by {
        let pre = servers.take(j);
        let cur = servers.take(j + 1);
        if from_servers(cur, x) {
            let k = choose|k: int| 0 <= k < cur.len() && #[trigger] server_candidate(cur[k]@) == Some(x);
            if k < j {
                assert(pre[k] == cur[k]);
                assert(from_servers(pre, x));
            } else {
                assert(cur[k] == servers[j]);
            }
        }
        if from_servers(pre, x) {
            let k = choose|k: int| 0 <= k < pre.len() && #[trigger] server_candidate(pre[k]@) == Some(x);
            assert(cur[k] == pre[k]);
            assert(from_servers(cur, x));
        }
        if server_candidate(servers[j]@) == Some(x) {
            assert(cur[j] == servers[j]);
            assert(from_servers(cur, x));
        }
    }
}

/// The distinct services that the open ports found by the network scanner
/// (each as its service name and banner) and the `Server` headers found by
/// the fuzzer stand for. Each service appears once; the order is not part of
/// the result.
pub fn consolidate_services(ports: &Vec<(String, Option<String>)>, servers: &Vec<String>) -> (res: Vec<Service>)
    ensures
        no_repeats(service_pairs(res@)),
        forall|x: (Seq<char>, Seq<char>)|
            service_pairs(res@).contains(x) <==> (from_ports(ports@, x) || from_servers(servers@, x)),
{
    let mut out: Vec<Service> = Vec::new();
    let mut i: usize = 0;
    assert(service_pairs(out@) =~= Seq::<(Seq<char>, Seq<char>)>::empty());
    while i < ports.len()
        invariant
            i <= ports@.len(),
            no_repeats(service_pairs(out@)),
            forall|x: (Seq<char>, Seq<char>)|
                service_pairs(out@).contains(x) <==> from_ports(ports@.take(i as int), x),
        decreases ports.len() - i,
    {
        let c = port_candidate_of(&ports[i].0, &ports[i].1);
        proof {
            lemma_from_ports_step(ports@, i as int);
        }
        match c {
            Some((n, v)) => {
                insert_unique(&mut out, n, v);
            },
            None => {},
        }
        i = i + 1;
    }
    assert(ports@.take(ports@.len() as int) =~= ports@);
    let mut j: usize = 0;
    assert(servers@.take(0) =~= Seq::<String>::empty());
    while j < servers.len()
        invariant
            j <= servers@.len(),
            no_repeats(service_pairs(out@)),
            forall|x: (Seq<char>, Seq<char>)|
                service_pairs(out@).contains(x) <==> (from_ports(ports@, x) || from_servers(servers@.take(j as int), x)),
        decreases servers.len() - j,
    {
        let c = server_candidate_of(&servers[j]);
        proof {
            lemma_from_servers_step(servers@, j as int);
        }
        let ghost before = service_pairs(out@);
        let ghost cand = server_candidate(servers@[j as int]@);
        assert(pair_view(c) == cand);
        match c {
            Some((n, v)) => {
                insert_unique(&mut out, n, v);
                assert(cand == Some((n@, v@)));
            },
            None => {},
        }
        assert forall|x: (Seq<char>, Seq<char>)| service_pairs(out@).contains(x) <==> (before.contains(x) || cand == Some(x)) by {
        }
        assert forall|x: (Seq<char>, Seq<char>)| before.contains(x) <==> (from_ports(ports@, x) || from_servers(servers@.take(j as int), x)) by {
        }
        j = j + 1;
    }
    assert(servers@.take(servers@.len() as int) =~= servers@);
    assert forall|x: (Seq<char>, Seq<char>)|
        service_pairs(out@).contains(x) <==> (from_ports(ports@, x) || from_servers(servers@, x)) by {
        assert(from_servers(servers@.take(j as int), x) == from_servers(servers@, x));
    }
    out
}

/// The word that a MariaDB banner gives as its version: the last word
/// before the first `-MariaDB`, or nothing.
pub open spec fn mariadb_word(b: Seq<char>) -> Seq<char> {
    match last_word(first_piece(b, "-MariaDB"@)) {
        Some(w) => w,
        None => Seq::empty(),
    }
}

/// A MariaDB banner reports the word before `-MariaDB` as its version,
/// unchanged when it does not start with `5.5.5-`; a single leading `5.5.5-`
/// (the prefix MariaDB sends to old MySQL clients) is all that is removed.
pub proof fn lemma_mariadb_version_kept(b: Seq<char>, r: Seq<char>)
    requires
        contains(b, "MariaDB"@),
        r.len() > 0,
        !starts_with(r, "5.5.5-"@),
        mariadb_word(b) == r || mariadb_word(b) == "5.5.5-"@ + r,
    ensures
        rule_mariadb(b) == Some(("MariaDB"@, r)),
{
    reveal_strlit("5.5.5-");
    let w = mariadb_word(b);
    let pre = "5.5.5-"@;
    assert(pre.len() == 6);
    if w == pre + r {
        assert(starts_with(w, pre)) by {
            assert(w.take(6) =~= pre);
        }
        assert(w.skip(6) =~= r);
        assert(strip_prefix_all(w, pre) == strip_prefix_all(r, pre));
    }
    assert(strip_prefix_all(r, pre) == r);
    assert(mariadb_version(b) == r);
}

/// The version of an OpenSSH banner drops the portable-release suffix and
/// nothing else: a version word `v` then `p` then only digits gives `v`; a
/// word without `p`, or whose text after its first `p` is not all digits,
/// is kept whole.
pub proof fn lemma_openssh_version(v: Seq<char>, t: Seq<char>)
    requires
        forall|q: int| 0 <= q < v.len() ==> v[q] != 'p',
    ensures
        openssh_version(v) == v,
        all_digits(t) ==> openssh_version(v + seq!['p'] + t) == v,
        !all_digits(t) ==> openssh_version(v + seq!['p'] + t) == v + seq!['p'] + t,
{
    crate::targets::lemma_find_after(v, t, 'p');
    let w = v + seq!['p'] + t;
    assert(w.skip(v.len() + 1 as int) =~= t);
    assert(w.take(v.len() as int) =~= v);
    crate::text::lemma_absent_char(v, 'p');
}

} // verus!
