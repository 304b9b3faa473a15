use security_suite::nvd::{enrich_action, EnrichAction};
use security_suite::cache::CveCache;
use security_suite::config::{float_ok, Config};
use security_suite::consolidate::{consolidate_services, parse_known_service};
use security_suite::nvd::{
    apply_details, cve_details, nvd_query_url, BaseMetricV2, BaseMetricV3, CveData, CveItem,
    CvssV2, CvssV3, DescriptionData, DescriptionItem, Impact, NvdCveResponse, NvdResult,
};
use security_suite::patterns::{find_files_by_pattern, keep_flagged, FilePattern};
use security_suite::services::{
    count_by_severity, filter_by_cvss_score, filter_by_severity, get_cve_database, scan_services,
    summary_for, ScanReport, Service, Vulnerability,
};
use std::path::PathBuf;

fn args(v: &[&str]) -> Vec<String> {
    v.iter().map(|s| s.to_string()).collect()
}

#[test]
fn test_config_basic() {
    let args = vec!["scanner".to_string(), "services.json".to_string()];
    let config = Config::from_args(args).unwrap();
    assert_eq!(PathBuf::from(&config.input_file), PathBuf::from("services.json"));
    assert_eq!(PathBuf::from(&config.cache_dir), PathBuf::from("./cache"));
    assert!(!config.use_nvd);
}

#[test]
fn test_config_with_output() {
    let args = vec![
        "scanner".to_string(),
        "services.json".to_string(),
        "--output".to_string(),
        "report.json".to_string(),
    ];
    let config = Config::from_args(args).unwrap();
    assert_eq!(config.output_file.map(PathBuf::from), Some(PathBuf::from("report.json")));
}

#[test]
fn test_config_with_nvd() {
    let args = vec!["scanner".to_string(), "services.json".to_string(), "--nvd".to_string()];
    let config = Config::from_args(args).unwrap();
    assert!(config.use_nvd);
}

#[test]
fn test_config_with_filters() {
    let args = vec![
        "scanner".to_string(),
        "services.json".to_string(),
        "--min-severity".to_string(),
        "HIGH".to_string(),
        "--min-cvss".to_string(),
        "7.5".to_string(),
    ];
    let config = Config::from_args(args).unwrap();
    assert_eq!(config.min_severity, Some("HIGH".to_string()));
    assert_eq!(config.min_cvss_score.map(|s| s.parse::<f32>().unwrap()), Some(7.5));
}

#[test]
fn test_config_no_args() {
    let args = vec!["scanner".to_string()];
    let result = Config::from_args(args);
    assert!(result.is_err());
}

#[test]
fn config_errors_name_the_problem() {
    assert_eq!(
        Config::from_args(args(&["scanner"])).unwrap_err(),
        "Usage: cve_scanner <input_file> [--output <file>] [--cache <dir>] [--nvd] [--min-severity LEVEL] [--min-cvss SCORE]"
    );
    assert_eq!(Config::from_args(args(&["s", "in.json", "--output"])).unwrap_err(), "--output requires a file path");
    assert_eq!(Config::from_args(args(&["s", "in.json", "--cache"])).unwrap_err(), "--cache requires a directory path");
    assert_eq!(Config::from_args(args(&["s", "in.json", "--min-severity"])).unwrap_err(), "--min-severity requires a level");
    assert_eq!(Config::from_args(args(&["s", "in.json", "--min-cvss"])).unwrap_err(), "--min-cvss requires a number");
    assert_eq!(Config::from_args(args(&["s", "in.json", "--min-cvss", "high"])).unwrap_err(), "Invalid CVSS score");
    assert_eq!(Config::from_args(args(&["s", "in.json", "--fast"])).unwrap_err(), "Unknown argument: --fast");
}

#[test]
fn config_later_options_win() {
    let c = Config::from_args(args(&["s", "in.json", "--cache", "/tmp/a", "--cache", "/tmp/b", "--nvd"])).unwrap();
    assert_eq!(c.cache_dir, "/tmp/b");
    assert!(c.use_nvd);
    assert_eq!(c.output_file, None);
}

#[test]
fn float_syntax_matches_std() {
    for s in [
        "7.5", "10", ".5", "5.", "-1e3", "+2.5E-2", "inf", "-Infinity", "NaN", "1e", "e5", ".", "",
        "1.2.3", "7,5", " 7", "1e+", "0x10", "++1", "infinit", "1_000",
    ] {
        assert_eq!(float_ok(s), s.parse::<f32>().is_ok(), "{s:?}");
    }
}

#[test]
fn test_cve_database_not_empty() {
    let db = get_cve_database();
    assert!(!db.is_empty());
    assert_eq!(db.len(), 5);
}

#[test]
fn test_cve_database_valid() {
    let db = get_cve_database();
    for cve in db {
        assert!(!cve.cve_id.is_empty());
        assert!(!cve.service_name.is_empty());
        assert!(!cve.affected_versions.is_empty());
    }
}

#[test]
fn cve_database_scores() {
    let db = get_cve_database();
    let scores: Vec<u16> = db.iter().map(|v| v.cvss_tenths).collect();
    assert_eq!(scores, vec![98, 100, 75, 75, 81]);
    assert_eq!(db[0].cve_id, "CVE-2021-41773");
}

fn svc(name: &str, version: &str) -> Service {
    Service { name: name.to_string(), version: version.to_string() }
}

#[test]
fn scan_finds_affected_services() {
    let report = scan_services(vec![svc("OpenSSL", "1.1.1"), svc("Apache", "2.4.41"), svc("Apache", "2.4.49")]);
    let ids: Vec<&str> = report.vulnerabilities_found.iter().map(|v| v.cve_id.as_str()).collect();
    assert_eq!(ids, vec!["CVE-2022-0778", "CVE-2023-0215", "CVE-2021-41773"]);
    assert_eq!(report.summary, "3 vulnerabilities found");
    assert_eq!(report.scanned_services.len(), 3);
}

#[test]
fn scan_without_matches() {
    let report = scan_services(vec![svc("apache", "2.4.49")]);
    assert!(report.vulnerabilities_found.is_empty());
    assert_eq!(report.summary, "No vulnerabilities found");
}

#[test]
fn summaries() {
    assert_eq!(summary_for(0), "No vulnerabilities found");
    assert_eq!(summary_for(1), "1 vulnerability found");
    assert_eq!(summary_for(42), "42 vulnerabilities found");
    let mut r = ScanReport::new(vec![]);
    r.add_vulnerability(get_cve_database().remove(0));
    assert_eq!(r.summary, "No vulnerabilities found");
    r.update_summary();
    assert_eq!(r.summary, "1 vulnerability found");
}

fn report_with(sevs: &[(&str, u16)]) -> ScanReport {
    let mut r = ScanReport::new(vec![]);
    for (i, (sev, score)) in sevs.iter().enumerate() {
        r.add_vulnerability(Vulnerability {
            cve_id: format!("CVE-{i}"),
            service_name: "x".to_string(),
            affected_versions: vec!["1".to_string()],
            description: String::new(),
            severity: sev.to_string(),
            cvss_tenths: *score,
        });
    }
    r
}

#[test]
fn severity_filter_is_nested() {
    let r = report_with(&[("LOW", 20), ("CRITICAL", 98), ("HIGH", 75), ("weird", 10), ("MEDIUM", 50)]);
    let ids = |v: Vec<Vulnerability>| v.into_iter().map(|x| x.cve_id).collect::<Vec<_>>();
    assert_eq!(ids(filter_by_severity(&r, "HIGH")), vec!["CVE-1", "CVE-2"]);
    assert_eq!(ids(filter_by_severity(&r, "MEDIUM")), vec!["CVE-1", "CVE-2", "CVE-4"]);
    assert_eq!(filter_by_severity(&r, "LOW").len(), 5);
    assert_eq!(filter_by_severity(&r, "bogus").len(), 5);
    assert_eq!(ids(filter_by_severity(&r, "CRITICAL")), vec!["CVE-1"]);
}

#[test]
fn cvss_filter_keeps_scores_at_least() {
    let r = report_with(&[("LOW", 20), ("CRITICAL", 98), ("HIGH", 75)]);
    let ids = |v: Vec<Vulnerability>| v.into_iter().map(|x| x.cve_id).collect::<Vec<_>>();
    assert_eq!(ids(filter_by_cvss_score(&r, 75)), vec!["CVE-1", "CVE-2"]);
    assert_eq!(ids(filter_by_cvss_score(&r, 99)), Vec::<String>::new());
    assert_eq!(filter_by_cvss_score(&r, 0).len(), 3);
}

#[test]
fn severity_counts_add_up() {
    let r = report_with(&[("HIGH", 1), ("LOW", 1), ("HIGH", 1), ("CRITICAL", 1), ("HIGH", 1)]);
    let counts = count_by_severity(&r);
    assert_eq!(
        counts,
        vec![("HIGH".to_string(), 3), ("LOW".to_string(), 1), ("CRITICAL".to_string(), 1)]
    );
    assert_eq!(counts.iter().map(|c| c.1).sum::<usize>(), r.vulnerabilities_found.len());
    assert!(count_by_severity(&ScanReport::new(vec![])).is_empty());
}

fn known(b: &str) -> Option<(String, String)> {
    parse_known_service(b)
}

fn pair(a: &str, b: &str) -> Option<(String, String)> {
    Some((a.to_string(), b.to_string()))
}

#[test]
fn known_banners() {
    assert_eq!(known("SSH-2.0-OpenSSH_8.9p1 Ubuntu-3ubuntu0.1"), pair("OpenSSH", "8.9"));
    assert_eq!(known("SSH-2.0-OpenSSH_7.4"), pair("OpenSSH", "7.4"));
    assert_eq!(known("SSH-2.0-OpenSSH_8.9pX"), pair("OpenSSH", "8.9pX"));
    assert_eq!(known("220 VMware Authentication Daemon Version 1.10: SSL Required"), pair("VMware Authentication Daemon", "1.10"));
    assert_eq!(known("Server: Apache/2.4.41 (Ubuntu)"), pair("Apache HTTP Server", "2.4.41"));
    assert_eq!(known("Server: nginx/1.18.0;"), pair("Nginx", "1.18.0"));
    assert_eq!(known("Microsoft-IIS/10.0"), pair("Microsoft IIS", "10.0"));
    assert_eq!(known("Apache-Coyote/1.1"), pair("Apache Tomcat", "1.1"));
    assert_eq!(known("squid/4.10"), pair("Squid Proxy", "4.10"));
    assert_eq!(known("HAProxy/2.4"), pair("HAProxy", "2.4"));
    assert_eq!(known("lighttpd/1.4.55"), pair("Lighttpd", "1.4.55"));
    assert_eq!(known("220 mail ESMTP Postfix (Ubuntu)"), pair("Postfix", "Ubuntu"));
    assert_eq!(known("220 mail ESMTP Postfix"), pair("Postfix", "unknown"));
    assert_eq!(known("220 host ESMTP Exim 4.94.2 Ubuntu"), pair("Exim", "4.94.2"));
    assert_eq!(known("* OK [CAPABILITY] Dovecot ready."), pair("Dovecot", "unknown"));
    assert_eq!(known("220 ProFTPD 1.3.5 Server"), pair("ProFTPD", "1.3.5"));
    assert_eq!(known("220 (vsFTPd 3.0.3)"), pair("vsftpd", "3.0.3"));
    assert_eq!(known("220 Pure-FTPd 1.0.49 ready"), pair("Pure-FTPd", "1.0.49"));
    assert_eq!(known("PostgreSQL 13.2 on x86"), pair("PostgreSQL", "13.2"));
    assert_eq!(known("PostgreSQL"), pair("PostgreSQL", "unknown"));
    assert_eq!(known("5.5.5-10.3.34-MariaDB-0ubuntu0.20.04.1"), pair("MariaDB", "10.3.34"));
    assert_eq!(known("8.0.27 MySQL Community"), pair("MySQL", "8.0.27"));
    assert_eq!(known("5.5.5-8.0.1 mysql_native_password"), pair("MySQL", "8.0.1"));
    assert_eq!(known("ZBXD Zabbix"), pair("Zabbix", "unknown"));
    assert_eq!(known("OpenVPN server"), pair("OpenVPN", "unknown"));
    assert_eq!(known("HTTP/1.1 200 OK"), None);
}

#[test]
fn consolidation_has_no_repeats() {
    let ports = vec![
        ("ssh".to_string(), Some("SSH-2.0-OpenSSH_8.9p1".to_string())),
        ("ssh".to_string(), Some("SSH-2.0-OpenSSH_8.9p1".to_string())),
        ("http".to_string(), Some("HTTP/1.1 400 Bad Request".to_string())),
        ("mysql".to_string(), None),
        ("unknown".to_string(), None),
        ("".to_string(), Some("garbage".to_string())),
        ("smtp".to_string(), Some("hello".to_string())),
    ];
    let servers = vec![
        "nginx/1.29.1".to_string(),
        "Inconnu".to_string(),
        "cloudflare".to_string(),
        "a/b/c".to_string(),
        " nginx / 1.29.1 ".to_string(),
        "".to_string(),
    ];
    let out = consolidate_services(&ports, &servers);
    let got: Vec<(String, String)> = out.into_iter().map(|s| (s.name, s.version)).collect();
    let want: Vec<(String, String)> = vec![
        ("OpenSSH".into(), "8.9".into()),
        ("mysql".into(), "unknown".into()),
        ("smtp".into(), "unknown".into()),
        ("nginx".into(), "1.29.1".into()),
        ("cloudflare".into(), "unknown".into()),
    ];
    assert_eq!(got, want);
}

fn response(items: Option<Vec<CveItem>>) -> NvdCveResponse {
    NvdCveResponse { result: Some(NvdResult { cve_items: items }) }
}

fn item(desc: Option<Vec<&str>>, v3: Option<u16>, v2: Option<u16>) -> CveItem {
    CveItem {
        cve: CveData {
            id: "CVE-1".to_string(),
            description: Some(DescriptionData {
                description_data: desc.map(|d| d.into_iter().map(|s| DescriptionItem { value: s.to_string() }).collect()),
            }),
        },
        impact: Some(Impact {
            base_metric_v3: Some(BaseMetricV3 {
                cvss_v3: v3.map(|s| CvssV3 { base_severity: Some("HIGH".to_string()), base_score_tenths: s }),
            }),
            base_metric_v2: Some(BaseMetricV2 { cvss_v2: v2.map(|s| CvssV2 { base_score_tenths: s }) }),
        }),
    }
}

#[test]
fn nvd_details_of_first_item() {
    let r = response(Some(vec![item(Some(vec!["first", "second"]), Some(98), Some(50)), item(None, None, None)]));
    assert_eq!(cve_details(&r), Some(("first".to_string(), 98)));
    let r2 = response(Some(vec![item(Some(vec![]), None, Some(50))]));
    assert_eq!(cve_details(&r2), Some(("No description available".to_string(), 50)));
    let r3 = response(Some(vec![item(None, None, None)]));
    assert_eq!(cve_details(&r3), Some(("No description available".to_string(), 0)));
    assert_eq!(cve_details(&response(Some(vec![]))), None);
    assert_eq!(cve_details(&response(None)), None);
    assert_eq!(cve_details(&NvdCveResponse { result: None }), None);
}

#[test]
fn nvd_url_and_enrichment() {
    assert_eq!(
        nvd_query_url("CVE-2021-44228"),
        "https://services.nvd.nist.gov/rest/json/cves/1.0?keyword=CVE-2021-44228"
    );
    let mut v = get_cve_database().remove(0);
    apply_details(&mut v, None);
    assert_eq!(v.cvss_tenths, 98);
    apply_details(&mut v, Some(("new text".to_string(), 75)));
    assert_eq!(v.description, "new text");
    assert_eq!(v.cvss_tenths, 75);
    assert_eq!(v.cve_id, "CVE-2021-41773");
}

#[test]
fn cache_paths() {
    let c = CveCache::new("/tmp/cache");
    assert_eq!(c.cache_file_path("CVE-2021-41773"), "/tmp/cache/CVE-2021-41773.json");
    assert_eq!(CveCache::new("/tmp/cache/").cache_file_path("X"), "/tmp/cache/X.json");
    assert_eq!(CveCache::new("").cache_file_path("X"), "X.json");
    assert_eq!(c.cache_file_path("/abs"), "/abs.json");
    assert_eq!(c.cache_dir(), "/tmp/cache");
    for (dir, id) in [("/tmp/cache", "CVE-1"), ("rel", "a"), ("", "b"), ("x/", "c")] {
        let expected = PathBuf::from(dir).join(format!("{id}.json"));
        assert_eq!(PathBuf::from(CveCache::new(dir).cache_file_path(id)), expected);
    }
}

#[test]
fn cache_listing_reads_back_ids() {
    let c = CveCache::new("cache");
    let names: Vec<String> = ["CVE-2021-41773.json", "CVE-2021-44228.json", "notes.txt", ".json", "x.tar.json", "json", "a.JSON"]
        .iter()
        .map(|s| s.to_string())
        .collect();
    assert_eq!(
        c.cached_ids(&names),
        vec!["CVE-2021-41773".to_string(), "CVE-2021-44228".to_string(), "x.tar".to_string()]
    );
    for n in &names {
        let p = std::path::Path::new(n);
        let std_id = if p.extension().map(|e| e == "json").unwrap_or(false) {
            p.file_stem().map(|s| s.to_str().unwrap().to_string())
        } else {
            None
        };
        assert_eq!(c.cached_ids(&vec![n.clone()]).pop(), std_id);
    }
}

#[test]
fn file_patterns() {
    let names: Vec<String> = ["scan_1.json", "scan_2.txt", "report.json", "scan_10.json"].iter().map(|s| s.to_string()).collect();
    assert_eq!(
        find_files_by_pattern(r"^scan_\d+\.json$", &names).unwrap(),
        vec!["scan_1.json".to_string(), "scan_10.json".to_string()]
    );
    assert!(find_files_by_pattern("scan_(", &names).is_err());
    assert_eq!(find_files_by_pattern("", &names).unwrap().len(), 4);
    let p = FilePattern::new("json$").unwrap();
    assert!(p.is_match("a.json"));
    assert!(!p.is_match("a.jsonx"));
    assert_eq!(
        keep_flagged(&names, &vec![true, false, false, true]),
        vec!["scan_1.json".to_string(), "scan_10.json".to_string()]
    );
}

#[test]
fn stricter_filters_keep_subsequences() {
    let r = report_with(&[("LOW", 20), ("CRITICAL", 98), ("HIGH", 75), ("MEDIUM", 50), ("HIGH", 81)]);
    let ids = |v: &Vec<Vulnerability>| v.iter().map(|x| x.cve_id.clone()).collect::<Vec<_>>();
    let medium = filter_by_severity(&r, "MEDIUM");
    let mut again = ScanReport::new(vec![]);
    for v in medium.iter() {
        again.add_vulnerability(v.clone());
    }
    assert_eq!(ids(&filter_by_severity(&again, "HIGH")), ids(&filter_by_severity(&r, "HIGH")));
    let above_70 = filter_by_cvss_score(&r, 70);
    let mut again2 = ScanReport::new(vec![]);
    for v in above_70.iter() {
        again2.add_vulnerability(v.clone());
    }
    assert_eq!(ids(&filter_by_cvss_score(&again2, 80)), ids(&filter_by_cvss_score(&r, 80)));
}

#[test]
fn cache_file_names_read_back() {
    let c = CveCache::new("/var/cache/cve");
    for id in ["CVE-2021-41773", "a.b", ".hidden"] {
        let path = c.cache_file_path(id);
        let name = path.rsplit('/').next().unwrap().to_string();
        assert_eq!(c.cached_ids(&vec![name]), vec![id.to_string()]);
    }
}

#[test]
fn cache_comes_before_nvd() {
    match enrich_action(Some(("cached text".to_string(), 98))) {
        EnrichAction::Apply(d, s) => {
            assert_eq!(d, "cached text");
            assert_eq!(s, 98);
        }
        EnrichAction::Fetch => panic!("the cache holds an entry"),
    }
    assert!(matches!(enrich_action(None), EnrichAction::Fetch));
}
