//! Services, known vulnerabilities, and the matching of the one against the other.
use vstd::prelude::*;
use crate::text::{chars_of, string_of, chars_eq, dec_text, push_decimal, append_chars};

verus! {

/// A service found on a machine (for example Apache 2.4.41).
#[derive(Debug, Clone, PartialEq, Eq, Hash)]
pub struct Service {
    pub name: String,
    pub version: String,
}

pub struct ServiceView {
    pub name: Seq<char>,
    pub version: Seq<char>,
}

impl View for Service {
    type V = ServiceView;

    open spec fn view(&self) -> ServiceView {
        ServiceView { name: self.name@, version: self.version@ }
    }
}

/// A known vulnerability (CVE). The CVSS score is kept in tenths of a point
/// (9.8 is 98).
#[derive(Debug, Clone)]
pub struct Vulnerability {
    pub cve_id: String,
    pub service_name: String,
    pub affected_versions: Vec<String>,
    pub description: String,
    pub severity: String,
    pub cvss_tenths: u16,
}

pub struct VulnerabilityView {
    pub cve_id: Seq<char>,
    pub service_name: Seq<char>,
    pub affected_versions: Seq<Seq<char>>,
    pub description: Seq<char>,
    pub severity: Seq<char>,
    pub cvss_tenths: u16,
}

pub open spec fn string_views(v: Seq<String>) -> Seq<Seq<char>> {
    v.map_values(|s: String| s@)
}

impl View for Vulnerability {
    type V = VulnerabilityView;

    open spec fn view(&self) -> VulnerabilityView {
        VulnerabilityView {
            cve_id: self.cve_id@,
            service_name: self.service_name@,
            affected_versions: string_views(self.affected_versions@),
            description: self.description@,
            severity: self.severity@,
            cvss_tenths: self.cvss_tenths,
        }
    }
}

pub open spec fn vuln_views(v: Seq<Vulnerability>) -> Seq<VulnerabilityView> {
    v.map_values(|x: Vulnerability| x@)
}

pub open spec fn service_views(v: Seq<Service>) -> Seq<ServiceView> {
    v.map_values(|x: Service| x@)
}

/// A list of services, as read from or written to JSON.
#[derive(Debug)]
pub struct ServiceList {
    pub services: Vec<Service>,
}

/// The result of a scan: the services analysed and the vulnerabilities found.
#[derive(Debug)]
pub struct ScanReport {
    pub scanned_services: Vec<Service>,
    pub vulnerabilities_found: Vec<Vulnerability>,
    pub summary: String,
}

/// A string with the text of a literal.
pub fn text(lit: &str) -> (res: String)
    ensures
        res@ == lit@,
{
    string_of(chars_of(lit).as_slice())
}

pub fn copy_string(s: &String) -> (res: String)
    ensures
        res@ == s@,
{
    s.clone()
}

pub fn copy_strings(v: &Vec<String>) -> (res: Vec<String>)
    ensures
        string_views(res@) == string_views(v@),
{
    let mut out: Vec<String> = Vec::new();
    let mut i: usize = 0;
    while i < v.len()
        invariant
            i <= v@.len(),
            string_views(out@) == string_views(v@).take(i as int),
        decreases v.len() - i,
    {
        let ghost before = out@;
        let c = copy_string(&v[i]);
        out.push(c);
        assert(string_views(out@) =~= string_views(before).push(v@[i as int]@));
        assert(string_views(v@).take(i + 1) =~= string_views(v@).take(i as int).push(v@[i as int]@));
        i = i + 1;
    }
    assert(string_views(v@).take(v@.len() as int) =~= string_views(v@));
    out
}

impl Vulnerability {
    /// A copy with the same contents.
    pub fn duplicate(&self) -> (res: Vulnerability)
        ensures
            res@ == self@,
    {
        Vulnerability {
            cve_id: copy_string(&self.cve_id),
            service_name: copy_string(&self.service_name),
            affected_versions: copy_strings(&self.affected_versions),
            description: copy_string(&self.description),
            severity: copy_string(&self.severity),
            cvss_tenths: self.cvss_tenths,
        }
    }
}

impl Service {
    /// A copy with the same contents.
    pub fn duplicate(&self) -> (res: Service)
        ensures
            res@ == self@,
    {
        Service { name: copy_string(&self.name), version: copy_string(&self.version) }
    }
}

/// The summary line for a number of vulnerabilities.
pub open spec fn summary_text(n: nat) -> Seq<char> {
    if n == 0 {
        "No vulnerabilities found"@
    } else if n == 1 {
        "1 vulnerability found"@
    } else {
        dec_text(n) + " vulnerabilities found"@
    }
}

pub fn summary_for(n: usize) -> (res: String)
    ensures
        res@ == summary_text(n as nat),
{
    if n == 0 {
        text("No vulnerabilities found")
    } else if n == 1 {
        text("1 vulnerability found")
    } else {
        let mut out: Vec<char> = Vec::new();
        push_decimal(&mut out, n as u64);
        let tail = chars_of(" vulnerabilities found");
        append_chars(&mut out, tail.as_slice());
        string_of(out.as_slice())
    }
}

impl ScanReport {
    /// A report on `scanned_services` with no vulnerability yet.
    pub fn new(scanned_services: Vec<Service>) -> (res: ScanReport)
        ensures
            res.scanned_services == scanned_services,
            res.vulnerabilities_found@.len() == 0,
            res.summary@ == summary_text(0),
    {
        ScanReport {
            scanned_services,
            vulnerabilities_found: Vec::new(),
            summary: text("No vulnerabilities found"),
        }
    }

    /// Records a vulnerability (the summary is left as it is).
    pub fn add_vulnerability(&mut self, vuln: Vulnerability)
        ensures
            final(self).vulnerabilities_found@ == old(self).vulnerabilities_found@.push(vuln),
            final(self).scanned_services == old(self).scanned_services,
            final(self).summary == old(self).summary,
    {
        self.vulnerabilities_found.push(vuln);
    }

    /// Sets the summary from the number of vulnerabilities found.
    pub fn update_summary(&mut self)
        ensures
            final(self).summary@ == summary_text(old(self).vulnerabilities_found@.len()),
            final(self).vulnerabilities_found == old(self).vulnerabilities_found,
            final(self).scanned_services == old(self).scanned_services,
    {
        self.summary = summary_for(self.vulnerabilities_found.len());
    }
}


/// The local database of known vulnerabilities.
pub open spec fn cve_database() -> Seq<VulnerabilityView> {
    seq![
        VulnerabilityView {
            cve_id: "CVE-2021-41773"@,
            service_name: "Apache"@,
            affected_versions: seq!["2.4.49"@, "2.4.50"@],
            description: "Path Traversal & Remote Code Execution in Apache HTTP Server 2.4.49 and 2.4.50"@,
            severity: "CRITICAL"@,
            cvss_tenths: 98,
        },
        VulnerabilityView {
            cve_id: "CVE-2021-44228"@,
            service_name: "Log4j"@,
            affected_versions: seq!["2.0-beta9"@, "2.14.1"@, "2.15.0"@],
            description: "Remote Code Execution in Apache Log4j"@,
            severity: "CRITICAL"@,
            cvss_tenths: 100,
        },
        VulnerabilityView {
            cve_id: "CVE-2022-0778"@,
            service_name: "OpenSSL"@,
            affected_versions: seq!["1.0.2"@, "1.1.1"@, "3.0.0"@, "3.0.1"@],
            description: "Infinite Loop in BN_mod_sqrt() in OpenSSL"@,
            severity: "HIGH"@,
            cvss_tenths: 75,
        },
        VulnerabilityView {
            cve_id: "CVE-2023-0215"@,
            service_name: "OpenSSL"@,
            affected_versions: seq!["1.0.2"@, "1.1.1"@],
            description: "Use After Free in X.509 certificate verification"@,
            severity: "HIGH"@,
            cvss_tenths: 75,
        },
        VulnerabilityView {
            cve_id: "CVE-2024-1086"@,
            service_name: "nginx"@,
            affected_versions: seq!["1.20.0"@, "1.22.0"@],
            description: "Privilege escalation in nginx HTTP/2 module"@,
            severity: "HIGH"@,
            cvss_tenths: 81,
        },
    ]
}

/// The local database of known vulnerabilities used for matching.
pub fn get_cve_database() -> (res: Vec<Vulnerability>)
    ensures
        vuln_views(res@) == cve_database(),
{
    let mut db: Vec<Vulnerability> = Vec::new();
    let mut versions: Vec<String> = Vec::new();
    let ghost b0 = versions@;
    versions.push(text("2.4.49"));
    let ghost b1 = versions@;
    versions.push(text("2.4.50"));
    assert(string_views(versions@) =~= seq!["2.4.49"@, "2.4.50"@]);
    db.push(Vulnerability {
        cve_id: text("CVE-2021-41773"),
        service_name: text("Apache"),
        affected_versions: versions,
        description: text("Path Traversal & Remote Code Execution in Apache HTTP Server 2.4.49 and 2.4.50"),
        severity: text("CRITICAL"),
        cvss_tenths: 98,
    });
    let mut versions: Vec<String> = Vec::new();
    let ghost b0 = versions@;
    versions.push(text("2.0-beta9"));
    let ghost b1 = versions@;
    versions.push(text("2.14.1"));
    let ghost b2 = versions@;
    versions.push(text("2.15.0"));
    assert(string_views(versions@) =~= seq!["2.0-beta9"@, "2.14.1"@, "2.15.0"@]);
    db.push(Vulnerability {
        cve_id: text("CVE-2021-44228"),
        service_name: text("Log4j"),
        affected_versions: versions,
        description: text("Remote Code Execution in Apache Log4j"),
        severity: text("CRITICAL"),
        cvss_tenths: 100,
    });
    let mut versions: Vec<String> = Vec::new();
    let ghost b0 = versions@;
    versions.push(text("1.0.2"));
    let ghost b1 = versions@;
    versions.push(text("1.1.1"));
    let ghost b2 = versions@;
    versions.push(text("3.0.0"));
    let ghost b3 = versions@;
    versions.push(text("3.0.1"));
    assert(string_views(versions@) =~= seq!["1.0.2"@, "1.1.1"@, "3.0.0"@, "3.0.1"@]);
    db.push(Vulnerability {
        cve_id: text("CVE-2022-0778"),
        service_name: text("OpenSSL"),
        affected_versions: versions,
        description: text("Infinite Loop in BN_mod_sqrt() in OpenSSL"),
        severity: text("HIGH"),
        cvss_tenths: 75,
    });
    let mut versions: Vec<String> = Vec::new();
    let ghost b0 = versions@;
    versions.push(text("1.0.2"));
    let ghost b1 = versions@;
    versions.push(text("1.1.1"));
    assert(string_views(versions@) =~= seq!["1.0.2"@, "1.1.1"@]);
    db.push(Vulnerability {
        cve_id: text("CVE-2023-0215"),
        service_name: text("OpenSSL"),
        affected_versions: versions,
        description: text("Use After Free in X.509 certificate verification"),
        severity: text("HIGH"),
        cvss_tenths: 75,
    });
    let mut versions: Vec<String> = Vec::new();
    let ghost b0 = versions@;
    versions.push(text("1.20.0"));
    let ghost b1 = versions@;
    versions.push(text("1.22.0"));
    assert(string_views(versions@) =~= seq!["1.20.0"@, "1.22.0"@]);
    db.push(Vulnerability {
        cve_id: text("CVE-2024-1086"),
        service_name: text("nginx"),
        affected_versions: versions,
        description: text("Privilege escalation in nginx HTTP/2 module"),
        severity: text("HIGH"),
        cvss_tenths: 81,
    });
    assert(vuln_views(db@) =~= cve_database());
    db
}


/// A vulnerability affects a service when it is recorded for the service's
/// name and lists its version.
pub open spec fn affects(c: VulnerabilityView, s: ServiceView) -> bool {
    s.name == c.service_name && c.affected_versions.contains(s.version)
}

/// The entries of `db` that affect `s`, in database order.
pub open spec fn matching(db: Seq<VulnerabilityView>, s: ServiceView) -> Seq<VulnerabilityView>
    decreases db.len(),
{
    if db.len() == 0 {
        Seq::empty()
    } else if affects(db.last(), s) {
        matching(db.drop_last(), s).push(db.last())
    } else {
        matching(db.drop_last(), s)
    }
}

/// For each service in turn, the entries of `db` that affect it.
pub open spec fn found_for(services: Seq<ServiceView>, db: Seq<VulnerabilityView>) -> Seq<VulnerabilityView>
    decreases services.len(),
{
    if services.len() == 0 {
        Seq::empty()
    } else {
        found_for(services.drop_last(), db) + matching(db, services.last())
    }
}

fn version_listed(versions: &Vec<String>, v: &String) -> (res: bool)
    ensures
        res == string_views(versions@).contains(v@),
{
    let mut i: usize = 0;
    while i < versions.len()
        invariant
            i <= versions@.len(),
            forall|k: int| 0 <= k < i ==> versions@[k]@ != v@,
        decreases versions.len() - i,
    {
        if versions[i] == *v {
            assert(string_views(versions@)[i as int] == v@);
            return true;
        }
        i = i + 1;
    }
    assert forall|k: int| 0 <= k < string_views(versions@).len() implies string_views(versions@)[k] != v@ by {
        assert(string_views(versions@)[k] == versions@[k]@);
    }
    false
}

/// Records in the report the entries of `db` that affect `s`.
fn add_matching(report: &mut ScanReport, db: &Vec<Vulnerability>, s: &Service)
    ensures
        vuln_views(final(report).vulnerabilities_found@) == vuln_views(old(report).vulnerabilities_found@)
            + matching(vuln_views(db@), s@),
        final(report).scanned_services == old(report).scanned_services,
{
    let mut j: usize = 0;
    assert(vuln_views(db@).take(0) =~= Seq::<VulnerabilityView>::empty());
    assert(vuln_views(report.vulnerabilities_found@) =~= vuln_views(old(report).vulnerabilities_found@)
        + matching(vuln_views(db@).take(0), s@));
    while j < db.len()
        invariant
            j <= db@.len(),
            report.scanned_services == old(report).scanned_services,
            vuln_views(report.vulnerabilities_found@) == vuln_views(old(report).vulnerabilities_found@)
                + matching(vuln_views(db@).take(j as int), s@),
        decreases db.len() - j,
    {
        let ghost pre = vuln_views(db@).take(j as int);
        let ghost cur = vuln_views(db@).take(j + 1);
        assert(cur.drop_last() =~= pre);
        assert(cur.last() == db@[j as int]@);
        let c = &db[j];
        if s.name == c.service_name && version_listed(&c.affected_versions, &s.version) {
            let ghost before = vuln_views(report.vulnerabilities_found@);
            report.add_vulnerability(c.duplicate());
            assert(vuln_views(report.vulnerabilities_found@) =~= before.push(c@));
        }
        j = j + 1;
    }
    assert(vuln_views(db@).take(db@.len() as int) =~= vuln_views(db@));
}

/// Matches each service against the local database: a vulnerability is
/// found for a service when it is recorded under the service's name and
/// lists its version. The summary gives the number found.
pub fn scan_services(services: Vec<Service>) -> (res: ScanReport)
    ensures
        res.scanned_services@ == services@,
        vuln_views(res.vulnerabilities_found@) == found_for(service_views(services@), cve_database()),
        res.summary@ == summary_text(found_for(service_views(services@), cve_database()).len()),
{
    let mut report = ScanReport::new(services);
    let db = get_cve_database();
    let mut i: usize = 0;
    let ghost sv = service_views(report.scanned_services@);
    assert(sv.take(0) =~= Seq::<ServiceView>::empty());
    assert(vuln_views(report.vulnerabilities_found@) =~= Seq::<VulnerabilityView>::empty());
    while i < report.scanned_services.len()
        invariant
            i <= report.scanned_services@.len(),
            sv == service_views(report.scanned_services@),
            report.scanned_services@ == services@,
            vuln_views(db@) == cve_database(),
            vuln_views(report.vulnerabilities_found@) == found_for(sv.take(i as int), cve_database()),
        decreases report.scanned_services.len() - i,
    {
        let svc = report.scanned_services[i].duplicate();
        add_matching(&mut report, &db, &svc);
        assert(svc@ == sv[i as int]);
        assert(sv.take(i + 1).drop_last() =~= sv.take(i as int));
        i = i + 1;
    }
    assert(sv.take(report.scanned_services@.len() as int) =~= sv);
    report.update_summary();
    report
}


/// The rank of a severity among LOW, MEDIUM, HIGH, CRITICAL; anything else ranks as LOW.
pub open spec fn severity_level(s: Seq<char>) -> int {
    if s == "LOW"@ {
        0
    } else if s == "MEDIUM"@ {
        1
    } else if s == "HIGH"@ {
        2
    } else if s == "CRITICAL"@ {
        3
    } else {
        0
    }
}

fn level_of(s: &[char]) -> (res: u8)
    ensures
        res as int == severity_level(s@),
        res <= 3,
{
    let low = chars_of("LOW");
    let medium = chars_of("MEDIUM");
    let high = chars_of("HIGH");
    let critical = chars_of("CRITICAL");
    if chars_eq(s, low.as_slice()) {
        0
    } else if chars_eq(s, medium.as_slice()) {
        1
    } else if chars_eq(s, high.as_slice()) {
        2
    } else if chars_eq(s, critical.as_slice()) {
        3
    } else {
        0
    }
}

/// The vulnerabilities whose severity ranks at least `min`, in order.
pub open spec fn at_least_level(vs: Seq<VulnerabilityView>, min: int) -> Seq<VulnerabilityView>
    decreases vs.len(),
{
    if vs.len() == 0 {
        vs
    } else if severity_level(vs.last().severity) >= min {
        at_least_level(vs.drop_last(), min).push(vs.last())
    } else {
        at_least_level(vs.drop_last(), min)
    }
}

/// The vulnerabilities whose CVSS score is at least `min` tenths, in order.
pub open spec fn at_least_score(vs: Seq<VulnerabilityView>, min: u16) -> Seq<VulnerabilityView>
    decreases vs.len(),
{
    if vs.len() == 0 {
        vs
    } else if vs.last().cvss_tenths >= min {
        at_least_score(vs.drop_last(), min).push(vs.last())
    } else {
        at_least_score(vs.drop_last(), min)
    }
}

/// The vulnerabilities of the report whose severity ranks at least as high
/// as `min_severity` (an unknown severity ranks as LOW).
pub fn filter_by_severity(report: &ScanReport, min_severity: &str) -> (res: Vec<Vulnerability>)
    ensures
        vuln_views(res@) == at_least_level(vuln_views(report.vulnerabilities_found@), severity_level(min_severity@)),
{
    let min = level_of(chars_of(min_severity).as_slice());
    let vs = &report.vulnerabilities_found;
    let ghost all = vuln_views(vs@);
    let mut out: Vec<Vulnerability> = Vec::new();
    let mut i: usize = 0;
    assert(all.take(0) =~= Seq::<VulnerabilityView>::empty());
    assert(vuln_views(out@) =~= Seq::<VulnerabilityView>::empty());
    while i < vs.len()
        invariant
            i <= vs@.len(),
            all == vuln_views(vs@),
            vuln_views(out@) == at_least_level(all.take(i as int), min as int),
        decreases vs.len() - i,
    {
        let ghost cur = all.take(i + 1);
        assert(cur.drop_last() =~= all.take(i as int));
        assert(cur.last() == vs@[i as int]@);
        let lv = level_of(chars_of(vs[i].severity.as_str()).as_slice());
        if lv >= min {
            let ghost before = vuln_views(out@);
            out.push(vs[i].duplicate());
            assert(vuln_views(out@) =~= before.push(vs@[i as int]@));
        }
        i = i + 1;
    }
    assert(all.take(vs@.len() as int) =~= all);
    out
}

/// The vulnerabilities of the report whose CVSS score is at least
/// `min_tenths` tenths of a point.
pub fn filter_by_cvss_score(report: &ScanReport, min_tenths: u16) -> (res: Vec<Vulnerability>)
    ensures
        vuln_views(res@) == at_least_score(vuln_views(report.vulnerabilities_found@), min_tenths),
{
    let vs = &report.vulnerabilities_found;
    let ghost all = vuln_views(vs@);
    let mut out: Vec<Vulnerability> = Vec::new();
    let mut i: usize = 0;
    assert(all.take(0) =~= Seq::<VulnerabilityView>::empty());
    assert(vuln_views(out@) =~= Seq::<VulnerabilityView>::empty());
    while i < vs.len()
        invariant
            i <= vs@.len(),
            all == vuln_views(vs@),
            vuln_views(out@) == at_least_score(all.take(i as int), min_tenths),
        decreases vs.len() - i,
    {
        let ghost cur = all.take(i + 1);
        assert(cur.drop_last() =~= all.take(i as int));
        assert(cur.last() == vs@[i as int]@);
        if vs[i].cvss_tenths >= min_tenths {
            let ghost before = vuln_views(out@);
            out.push(vs[i].duplicate());
            assert(vuln_views(out@) =~= before.push(vs@[i as int]@));
        }
        i = i + 1;
    }
    assert(all.take(vs@.len() as int) =~= all);
    out
}

/// How many of the vulnerabilities have severity `sev`.
pub open spec fn severity_count(vs: Seq<VulnerabilityView>, sev: Seq<char>) -> nat
    decreases vs.len(),
{
    if vs.len() == 0 {
        0
    } else {
        severity_count(vs.drop_last(), sev) + if vs.last().severity == sev {
            1nat
        } else {
            0nat
        }
    }
}

pub open spec fn key_views(v: Seq<(String, usize)>) -> Seq<Seq<char>> {
    v.map_values(|e: (String, usize)| e.0@)
}

proof fn lemma_severity_count_bound(vs: Seq<VulnerabilityView>, sev: Seq<char>)
    ensures
        severity_count(vs, sev) <= vs.len(),
        (exists|k: int| 0 <= k < vs.len() && #[trigger] vs[k].severity == sev) ==> severity_count(vs, sev) >= 1,
    decreases vs.len(),
{
    if vs.len() > 0 {
        lemma_severity_count_bound(vs.drop_last(), sev);
        if exists|k: int| 0 <= k < vs.len() && #[trigger] vs[k].severity == sev {
            let k = choose|k: int| 0 <= k < vs.len() && #[trigger] vs[k].severity == sev;
            if k < vs.len() - 1 {
                assert(vs.drop_last()[k].severity == sev);
            }
        }
    }
}

/// The number of vulnerabilities of each severity that occurs in the report,
/// each severity once, in the order in which it first occurs.
pub fn count_by_severity(report: &ScanReport) -> (res: Vec<(String, usize)>)
    ensures
        forall|i: int, j: int| 0 <= i < j < res@.len() ==> res@[i].0@ != res@[j].0@,
        forall|i: int|
            0 <= i < res@.len() ==> #[trigger] res@[i].1 == severity_count(vuln_views(report.vulnerabilities_found@), res@[i].0@)
                && res@[i].1 >= 1,
        forall|k: int|
            0 <= k < report.vulnerabilities_found@.len() ==> #[trigger] key_views(res@).contains(
                report.vulnerabilities_found@[k].severity@,
            ),
        sum_counts(res@) == report.vulnerabilities_found@.len(),
{
    let vs = &report.vulnerabilities_found;
    let ghost all = vuln_views(vs@);
    let mut out: Vec<(String, usize)> = Vec::new();
    let mut i: usize = 0;
    while i < vs.len()
        invariant
            i <= vs@.len(),
            all == vuln_views(vs@),
            forall|a: int, b: int| 0 <= a < b < out@.len() ==> out@[a].0@ != out@[b].0@,
            forall|a: int|
                0 <= a < out@.len() ==> #[trigger] out@[a].1 == severity_count(all.take(i as int), out@[a].0@)
                    && out@[a].1 >= 1,
            forall|k: int| 0 <= k < i ==> #[trigger] key_views(out@).contains(vs@[k].severity@),
            forall|sev: Seq<char>| !key_views(out@).contains(sev) ==> severity_count(all.take(i as int), sev) == 0,
        decreases vs.len() - i,
    {
        let ghost pre = all.take(i as int);
        let ghost cur = all.take(i + 1);
        assert(cur.drop_last() =~= pre);
        assert(cur.last() == vs@[i as int]@);
        let sev = &vs[i].severity;
        let mut j: usize = 0;
        while j < out.len()
            invariant
                j <= out@.len(),
                forall|a: int| 0 <= a < j ==> out@[a].0@ != sev@,
            ensures
                j <= out@.len(),
                forall|a: int| 0 <= a < j ==> out@[a].0@ != sev@,
                j < out@.len() ==> out@[j as int].0@ == sev@,
            decreases out.len() - j,
        {
            if out[j].0 == *sev {
                break;
            }
            j = j + 1;
        }
        proof {
            lemma_severity_count_bound(pre, sev@);
        }
        let ghost old_out = out@;
        if j < out.len() {
            let c = out[j].1;
            let key = copy_string(&out[j].0);
            out.set(j, (key, c + 1));
            assert(key_views(out@) =~= key_views(old_out));
        } else {
            assert(!key_views(out@).contains(sev@)) by {
                if key_views(out@).contains(sev@) {
                    let a = choose|a: int| 0 <= a < key_views(out@).len() && key_views(out@)[a] == sev@;
                    assert(out@[a].0@ == sev@);
                }
            }
            out.push((copy_string(sev), 1));
            assert(key_views(out@) =~= key_views(old_out).push(sev@));
        }
        assert forall|sv: Seq<char>| !key_views(out@).contains(sv) implies severity_count(cur, sv) == 0 by {
            if key_views(old_out).contains(sv) {
                let a = choose|a: int| 0 <= a < key_views(old_out).len() && key_views(old_out)[a] == sv;
                assert(key_views(out@)[a] == sv);
            }
            if sv == sev@ {
                assert(key_views(out@)[j as int] == sev@);
            }
        }
        assert forall|k: int| 0 <= k < i + 1 implies #[trigger] key_views(out@).contains(vs@[k].severity@) by {
            if k < i {
                assert(key_views(old_out).contains(vs@[k].severity@));
                let a = choose|a: int| 0 <= a < key_views(old_out).len() && key_views(old_out)[a] == vs@[k].severity@;
                assert(key_views(out@)[a] == vs@[k].severity@);
            } else {
                assert(key_views(out@)[j as int] == sev@);
            }
        }
        i = i + 1;
    }
    assert(all.take(vs@.len() as int) =~= all);
    proof {
        lemma_severity_counts_add_up(*report, out@);
    }
    out
}

/// Filtering at a stricter level is filtering the looser result again: a
/// stricter minimum severity keeps a subsequence of what a looser one keeps.
pub proof fn lemma_severity_filter_nested(vs: Seq<VulnerabilityView>, looser: int, stricter: int)
    requires
        looser <= stricter,
    ensures
        at_least_level(vs, stricter) == at_least_level(at_least_level(vs, looser), stricter),
    decreases vs.len(),
{
    if vs.len() > 0 {
        lemma_severity_filter_nested(vs.drop_last(), looser, stricter);
        let prev = at_least_level(vs.drop_last(), looser);
        if severity_level(vs.last().severity) >= looser {
            assert(prev.push(vs.last()).drop_last() =~= prev);
        }
    }
}

/// A vulnerability is kept by the severity filter exactly when it is in the
/// report and its severity ranks at least `min`.
pub proof fn lemma_severity_filter_members(vs: Seq<VulnerabilityView>, min: int, x: VulnerabilityView)
    ensures
        at_least_level(vs, min).contains(x) <==> vs.contains(x) && severity_level(x.severity) >= min,
    decreases vs.len(),
{
    if vs.len() > 0 {
        let init = vs.drop_last();
        lemma_severity_filter_members(init, min, x);
        let prev = at_least_level(init, min);
        assert(vs =~= init.push(vs.last()));
        if vs.contains(x) && x != vs.last() {
            let k = choose|k: int| 0 <= k < vs.len() && vs[k] == x;
            assert(init[k] == x);
        }
        if severity_level(vs.last().severity) >= min {
            if prev.push(vs.last()).contains(x) && x != vs.last() {
                let k = choose|k: int| 0 <= k < prev.len() + 1 && prev.push(vs.last())[k] == x;
                assert(prev[k] == x);
            }
            if prev.contains(x) {
                let k = choose|k: int| 0 <= k < prev.len() && prev[k] == x;
                assert(prev.push(vs.last())[k] == x);
            }
            assert(prev.push(vs.last())[prev.len() as int] == vs.last());
        }
        if init.contains(x) {
            let k = choose|k: int| 0 <= k < init.len() && init[k] == x;
            assert(vs[k] == x);
        }
        assert(vs[vs.len() - 1] == vs.last());
    }
}

/// Raising the minimum score keeps a subsequence of what a lower one keeps.
pub proof fn lemma_score_filter_nested(vs: Seq<VulnerabilityView>, lower: u16, higher: u16)
    requires
        lower <= higher,
    ensures
        at_least_score(vs, higher) == at_least_score(at_least_score(vs, lower), higher),
    decreases vs.len(),
{
    if vs.len() > 0 {
        lemma_score_filter_nested(vs.drop_last(), lower, higher);
        let prev = at_least_score(vs.drop_last(), lower);
        if vs.last().cvss_tenths >= lower {
            assert(prev.push(vs.last()).drop_last() =~= prev);
        }
    }
}

/// The sum of the counts of a severity count.
pub open spec fn sum_counts(v: Seq<(String, usize)>) -> nat
    decreases v.len(),
{
    if v.len() == 0 {
        0
    } else {
        sum_counts(v.drop_last()) + v.last().1 as nat
    }
}

/// The number of vulnerabilities whose severity is one of `keys`, each key
/// counted separately.
pub open spec fn total_counts(vs: Seq<VulnerabilityView>, keys: Seq<Seq<char>>) -> nat
    decreases keys.len(),
{
    if keys.len() == 0 {
        0
    } else {
        total_counts(vs, keys.drop_last()) + severity_count(vs, keys.last())
    }
}

pub open spec fn occurrences(keys: Seq<Seq<char>>, x: Seq<char>) -> nat
    decreases keys.len(),
{
    if keys.len() == 0 {
        0
    } else {
        occurrences(keys.drop_last(), x) + if keys.last() == x {
            1nat
        } else {
            0nat
        }
    }
}

proof fn lemma_total_step(vs: Seq<VulnerabilityView>, keys: Seq<Seq<char>>)
    requires
        vs.len() > 0,
    ensures
        total_counts(vs, keys) == total_counts(vs.drop_last(), keys) + occurrences(
            keys,
            vs.last().severity,
        ),
    decreases keys.len(),
{
    if keys.len() > 0 {
        lemma_total_step(vs, keys.drop_last());
    }
}

proof fn lemma_occurs_once(keys: Seq<Seq<char>>, x: Seq<char>)
    requires
        forall|i: int, j: int| 0 <= i < j < keys.len() ==> keys[i] != keys[j],
        keys.contains(x),
    ensures
        occurrences(keys, x) == 1,
    decreases keys.len(),
{
    let init = keys.drop_last();
    if keys.last() == x {
        lemma_occurs_never(init, x);
    } else {
        let k = choose|k: int| 0 <= k < keys.len() && keys[k] == x;
        assert(init[k] == x);
        lemma_occurs_once(init, x);
    }
}

proof fn lemma_occurs_never(keys: Seq<Seq<char>>, x: Seq<char>)
    requires
        forall|q: int| 0 <= q < keys.len() ==> keys[q] != x,
    ensures
        occurrences(keys, x) == 0,
    decreases keys.len(),
{
    if keys.len() > 0 {
        lemma_occurs_never(keys.drop_last(), x);
    }
}

/// Counting each of a list of distinct severities that covers every
/// vulnerability counts every vulnerability once.
pub proof fn lemma_counts_cover(vs: Seq<VulnerabilityView>, keys: Seq<Seq<char>>)
    requires
        forall|i: int, j: int| 0 <= i < j < keys.len() ==> keys[i] != keys[j],
        forall|k: int| 0 <= k < vs.len() ==> keys.contains(#[trigger] vs[k].severity),
    ensures
        total_counts(vs, keys) == vs.len(),
    decreases vs.len(),
{
    if vs.len() == 0 {
        lemma_total_empty(vs, keys);
    } else {
        let init = vs.drop_last();
        assert forall|k: int| 0 <= k < init.len() implies keys.contains(#[trigger] init[k].severity) by {
            assert(init[k] == vs[k]);
        }
        lemma_counts_cover(init, keys);
        lemma_total_step(vs, keys);
        assert(keys.contains(vs[vs.len() - 1].severity));
        lemma_occurs_once(keys, vs.last().severity);
    }
}

proof fn lemma_total_empty(vs: Seq<VulnerabilityView>, keys: Seq<Seq<char>>)
    requires
        vs.len() == 0,
    ensures
        total_counts(vs, keys) == 0,
    decreases keys.len(),
{
    if keys.len() > 0 {
        lemma_total_empty(vs, keys.drop_last());
    }
}

proof fn lemma_sum_is_total(v: Seq<(String, usize)>, vs: Seq<VulnerabilityView>)
    requires
        forall|i: int| 0 <= i < v.len() ==> #[trigger] v[i].1 == severity_count(vs, v[i].0@),
    ensures
        sum_counts(v) == total_counts(vs, key_views(v)),
    decreases v.len(),
{
    if v.len() > 0 {
        let init = v.drop_last();
        assert forall|i: int| 0 <= i < init.len() implies #[trigger] init[i].1 == severity_count(vs, init[i].0@) by {
            assert(init[i] == v[i]);
        }
        lemma_sum_is_total(init, vs);
        assert(key_views(v).drop_last() =~= key_views(init));
        assert(v[v.len() - 1] == v.last());
    }
}

/// The counts of `count_by_severity` add up to the number of
/// vulnerabilities of the report.
pub proof fn lemma_severity_counts_add_up(report: ScanReport, counts: Seq<(String, usize)>)
    requires
        forall|i: int, j: int| 0 <= i < j < counts.len() ==> counts[i].0@ != counts[j].0@,
        forall|i: int|
            0 <= i < counts.len() ==> #[trigger] counts[i].1 == severity_count(
                vuln_views(report.vulnerabilities_found@),
                counts[i].0@,
            ),
        forall|k: int|
            0 <= k < report.vulnerabilities_found@.len() ==> #[trigger] key_views(counts).contains(
                report.vulnerabilities_found@[k].severity@,
            ),
    ensures
        sum_counts(counts) == report.vulnerabilities_found@.len(),
{
    let vs = vuln_views(report.vulnerabilities_found@);
    let keys = key_views(counts);
    assert forall|i: int, j: int| 0 <= i < j < keys.len() implies keys[i] != keys[j] by {
        assert(keys[i] == counts[i].0@ && keys[j] == counts[j].0@);
    }
    assert forall|k: int| 0 <= k < vs.len() implies keys.contains(#[trigger] vs[k].severity) by {
        assert(vs[k] == report.vulnerabilities_found@[k]@);
        assert(key_views(counts).contains(report.vulnerabilities_found@[k].severity@));
    }
    lemma_counts_cover(vs, keys);
    lemma_sum_is_total(counts, vs);
}

proof fn lemma_matching_members(db: Seq<VulnerabilityView>, s: ServiceView, c: VulnerabilityView)
    ensures
        matching(db, s).contains(c) <==> db.contains(c) && c.service_name == s.name
            && c.affected_versions.contains(s.version),
    decreases db.len(),
{
    if db.len() > 0 {
        let init = db.drop_last();
        lemma_matching_members(init, s, c);
        let prev = matching(init, s);
        assert(db =~= init.push(db.last()));
        if db.contains(c) && c != db.last() {
            let k = choose|k: int| 0 <= k < db.len() && db[k] == c;
            assert(init[k] == c);
        }
        if init.contains(c) {
            let k = choose|k: int| 0 <= k < init.len() && init[k] == c;
            assert(db[k] == c);
        }
        assert(db[db.len() - 1] == db.last());
        if affects(db.last(), s) {
            if prev.push(db.last()).contains(c) && c != db.last() {
                let k = choose|k: int| 0 <= k < prev.len() + 1 && prev.push(db.last())[k] == c;
                assert(prev[k] == c);
            }
            if prev.contains(c) {
                let k = choose|k: int| 0 <= k < prev.len() && prev[k] == c;
                assert(prev.push(db.last())[k] == c);
            }
            assert(prev.push(db.last())[prev.len() as int] == db.last());
        }
    }
}

/// The vulnerabilities found for a list of services are exactly the
/// database entries recorded for the name of one of the services and listing
/// its version: none is missed, none is made up.
pub proof fn lemma_found_exactly(services: Seq<ServiceView>, db: Seq<VulnerabilityView>, c: VulnerabilityView)
    ensures
        found_for(services, db).contains(c) <==> db.contains(c) && exists|i: int|
            0 <= i < services.len() && c.service_name == #[trigger] services[i].name
                && c.affected_versions.contains(services[i].version),
    decreases services.len(),
{
    if services.len() > 0 {
        let init = services.drop_last();
        let s = services.last();
        lemma_found_exactly(init, db, c);
        lemma_matching_members(db, s, c);
        let f = found_for(init, db);
        let m = matching(db, s);
        if (f + m).contains(c) {
            let k = choose|k: int| 0 <= k < (f + m).len() && (f + m)[k] == c;
            if k < f.len() {
                assert(f[k] == c);
            } else {
                assert(m[k - f.len()] == c);
            }
        }
        if f.contains(c) {
            let k = choose|k: int| 0 <= k < f.len() && f[k] == c;
            assert((f + m)[k] == c);
        }
        if m.contains(c) {
            let k = choose|k: int| 0 <= k < m.len() && m[k] == c;
            assert((f + m)[f.len() + k] == c);
        }
        if exists|i: int| 0 <= i < services.len() && c.service_name == #[trigger] services[i].name
            && c.affected_versions.contains(services[i].version) {
            let i = choose|i: int| 0 <= i < services.len() && c.service_name == #[trigger] services[i].name
                && c.affected_versions.contains(services[i].version);
            if i < init.len() {
                assert(init[i] == services[i]);
            } else {
                assert(services[i] == s);
            }
        }
        if exists|i: int| 0 <= i < init.len() && c.service_name == #[trigger] init[i].name
            && c.affected_versions.contains(init[i].version) {
            let i = choose|i: int| 0 <= i < init.len() && c.service_name == #[trigger] init[i].name
                && c.affected_versions.contains(init[i].version);
            assert(services[i] == init[i]);
        }
    }
}

/// A scan reports exactly the entries of the local database recorded for the
/// name of a scanned service and listing its version.
pub proof fn lemma_scan_reports_exactly(services: Seq<Service>, found: Seq<Vulnerability>, c: VulnerabilityView)
    requires
        vuln_views(found) == found_for(service_views(services), cve_database()),
    ensures
        vuln_views(found).contains(c) <==> cve_database().contains(c) && exists|i: int|
            0 <= i < services.len() && c.service_name == #[trigger] services[i].name@
                && c.affected_versions.contains(services[i].version@),
{
    let sv = service_views(services);
    lemma_found_exactly(sv, cve_database(), c);
    if exists|i: int| 0 <= i < services.len() && c.service_name == #[trigger] services[i].name@
        && c.affected_versions.contains(services[i].version@) {
        let i = choose|i: int| 0 <= i < services.len() && c.service_name == #[trigger] services[i].name@
            && c.affected_versions.contains(services[i].version@);
        assert(sv[i] == services[i]@);
        assert(c.service_name == sv[i].name && c.affected_versions.contains(sv[i].version));
    }
    if exists|i: int| 0 <= i < sv.len() && c.service_name == #[trigger] sv[i].name
        && c.affected_versions.contains(sv[i].version) {
        let i = choose|i: int| 0 <= i < sv.len() && c.service_name == #[trigger] sv[i].name
            && c.affected_versions.contains(sv[i].version);
        assert(sv[i] == services[i]@);
        assert(c.service_name == services[i].name@ && c.affected_versions.contains(services[i].version@));
    }
}

} // verus!
