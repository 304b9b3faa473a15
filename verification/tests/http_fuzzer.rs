use security_suite::fuzzer::{
    clean_wordlist, estimated_requests, plan_requests, FuzzSession, FuzzerArgs,
};

fn fuzz_args(status: &str, exts: Option<&str>) -> FuzzerArgs {
    FuzzerArgs {
        url: "http://example.test/".to_string(),
        wordlist: "words.txt".to_string(),
        threads: 40,
        status_codes: status.to_string(),
        extensions: exts.map(|s| s.to_string()),
        output: None,
        user_agent: "Mozilla/5.0 (Gobuster-RS)".to_string(),
        verbose: false,
    }
}

#[test]
fn default_status_codes() {
    let a = fuzz_args("200,204,301,302,307,401,403", None);
    assert_eq!(a.get_status_codes(), vec![200, 204, 301, 302, 307, 401, 403]);
}

#[test]
fn status_codes_skip_bad_pieces() {
    let a = fuzz_args(" 200 , abc,,70000,+404,500", None);
    assert_eq!(a.get_status_codes(), vec![200, 404, 500]);
    assert!(fuzz_args("", None).get_status_codes().is_empty());
}

#[test]
fn extensions_are_cleaned() {
    assert!(fuzz_args("200", None).get_extensions().is_empty());
    let a = fuzz_args("200", Some(" .php, ..bak,, txt ,."));
    assert_eq!(a.get_extensions(), vec!["php".to_string(), "bak".to_string(), "txt".to_string()]);
}

#[test]
fn wordlist_lines_are_trimmed() {
    let lines: Vec<String> = ["admin", "  login  ", "", "   ", "\tapi\r"].iter().map(|s| s.to_string()).collect();
    assert_eq!(clean_wordlist(&lines), vec!["admin".to_string(), "login".to_string(), "api".to_string()]);
}

#[test]
fn plan_covers_every_payload() {
    let words = vec!["admin".to_string(), "index".to_string()];
    let exts = vec!["php".to_string(), "bak".to_string()];
    let plan = plan_requests("http://example.test//", &words, &exts);
    let got: Vec<(String, String)> = plan.into_iter().map(|r| (r.payload, r.url)).collect();
    let want: Vec<(String, String)> = vec![
        ("admin".into(), "http://example.test/admin".into()),
        ("admin.php".into(), "http://example.test/admin.php".into()),
        ("admin.bak".into(), "http://example.test/admin.bak".into()),
        ("index".into(), "http://example.test/index".into()),
        ("index.php".into(), "http://example.test/index.php".into()),
        ("index.bak".into(), "http://example.test/index.bak".into()),
    ];
    assert_eq!(got, want);
    assert_eq!(estimated_requests(words.len(), exts.len()), 6);
    assert_eq!(estimated_requests(0, 3), 0);
    assert_eq!(plan_requests("http://x", &vec![], &exts).len(), 0);
}

#[test]
fn session_keeps_accepted_answers() {
    let a = fuzz_args("200,403", None);
    let mut s = FuzzSession::new(&a);
    let p = "admin".to_string();
    let u = "http://example.test/admin".to_string();
    assert!(s.record(&p, &u, 200, Some("nginx/1.29.1".to_string())));
    assert!(!s.record(&p, &u, 404, Some("apache".to_string())));
    assert!(s.record(&p, &u, 403, None));
    assert!(s.record(&p, &u, 200, Some("nginx/1.29.1".to_string())));
    let f = s.findings();
    assert_eq!(f.len(), 3);
    assert_eq!(f[0].path, "/admin");
    assert_eq!(f[0].url, "http://example.test/admin");
    assert_eq!(f[0].status, 200);
    assert_eq!(f[1].server, "Inconnu");
    assert_eq!(s.servers(), &vec!["nginx/1.29.1".to_string(), "Inconnu".to_string()]);
}
