use security_suite::scan::should_scan;
use security_suite::ports::{
    confirms, parse_ports, risk_label, select_ports, service_name, simple_seq, timing_config,
    udp_probe, PortsError, TOP_1000_PORTS, TOP_UDP_PORTS,
};
use security_suite::scan::{
    banner_line, empty_result, is_reported, summarize_syn, summarize_tcp, summarize_udp,
    tcp_probe_state, udp_probe_state, PortInfo, PortState, ProbeOutcome, ScanConfig, ScanMode,
};
use security_suite::syn::{reply_state, syn_segment, SynTracker, SYN_SOURCE_PORT};
use security_suite::targets::{parse_targets, IpAddr, TargetError};
use security_suite::text::IntErrorKind;

#[test]
fn parse_single_ip() {
    let targets = parse_targets("192.168.1.1").unwrap();
    assert_eq!(targets.len(), 1);
    assert_eq!(targets[0].to_string(), "192.168.1.1");
}

#[test]
fn parse_cidr_24() {
    let targets = parse_targets("192.168.1.0/24").unwrap();
    assert_eq!(targets.len(), 254);
    assert_eq!(targets[0].to_string(), "192.168.1.1");
    assert_eq!(targets[253].to_string(), "192.168.1.254");
}

#[test]
fn parse_ip_range() {
    let targets = parse_targets("192.168.1.1-192.168.1.10").unwrap();
    assert_eq!(targets.len(), 10);
    assert_eq!(targets[0].to_string(), "192.168.1.1");
    assert_eq!(targets[9].to_string(), "192.168.1.10");
}

#[test]
fn top_1000_ports_count() {
    assert_eq!(TOP_1000_PORTS.len(), 1000);
}

#[test]
fn parse_cidr_32_returns_single_host() {
    let targets = parse_targets("192.168.1.5/32").unwrap();
    assert_eq!(targets.len(), 1);
    assert_eq!(targets[0].to_string(), "192.168.1.5");
}

#[test]
fn parse_cidr_31_returns_both_addresses() {
    let targets = parse_targets("192.168.1.4/31").unwrap();
    assert_eq!(targets.len(), 2);
    assert_eq!(targets[0].to_string(), "192.168.1.4");
    assert_eq!(targets[1].to_string(), "192.168.1.5");
}

#[test]
fn known_services_are_named() {
    assert_eq!(service_name(22), "ssh");
    assert_eq!(service_name(80), "http");
    assert_eq!(service_name(443), "https");
    assert_eq!(service_name(3306), "mysql");
}

#[test]
fn unknown_port_is_unknown_service() {
    assert_eq!(service_name(4), "unknown");
    assert_eq!(service_name(65535), "unknown");
}

#[test]
fn top_ports_are_sorted_and_distinct() {
    for w in TOP_1000_PORTS.windows(2) {
        assert!(w[0] < w[1]);
    }
    assert_eq!(TOP_UDP_PORTS.len(), 26);
}

#[test]
fn parse_ports_sorts_and_dedups() {
    let ports = parse_ports("80, 22,443,20-23,80").unwrap();
    assert_eq!(ports, vec![20, 21, 22, 23, 80, 443]);
}

#[test]
fn parse_ports_single_range() {
    let ports = parse_ports("1-5").unwrap();
    assert_eq!(ports, vec![1, 2, 3, 4, 5]);
}

#[test]
fn parse_ports_rejects_bad_number() {
    assert_eq!(parse_ports("80,abc"), Err(PortsError::BadNumber(IntErrorKind::InvalidDigit)));
    assert_eq!(parse_ports("70000"), Err(PortsError::BadNumber(IntErrorKind::PosOverflow)));
    assert_eq!(parse_ports(""), Err(PortsError::BadNumber(IntErrorKind::Empty)));
}

#[test]
fn parse_ports_rejects_reversed_range() {
    assert_eq!(parse_ports("100-10"), Err(PortsError::ReversedRange(100, 10)));
}

#[test]
fn select_ports_takes_top_n() {
    let ports = select_ports(None, Some(3)).unwrap();
    assert_eq!(ports, vec![1, 2, 3]);
    let all = select_ports(None, None).unwrap();
    assert_eq!(all.len(), 1000);
    let capped = select_ports(None, Some(5000)).unwrap();
    assert_eq!(capped.len(), 1000);
    let listed = select_ports(Some("443,80"), Some(3)).unwrap();
    assert_eq!(listed, vec![80, 443]);
}

#[test]
fn parse_targets_errors() {
    assert_eq!(parse_targets("not-an-ip"), Err(TargetError::BadIpv4));
    assert_eq!(parse_targets("hello"), Err(TargetError::BadIp));
    assert_eq!(parse_targets("10.0.0.0/33"), Err(TargetError::PrefixTooLong(33)));
    assert_eq!(parse_targets("10.0.0.0/x"), Err(TargetError::BadPrefix(IntErrorKind::InvalidDigit)));
    assert_eq!(parse_targets("300.0.0.1/24"), Err(TargetError::BadIpv4));
    assert_eq!(
        parse_targets("10.0.0.9-10.0.0.1"),
        Err(TargetError::ReversedRange(0x0A00_0009, 0x0A00_0001))
    );
}

#[test]
fn parse_targets_ipv6_and_spaces() {
    let t = parse_targets(" 10.1.2.3 ").unwrap();
    assert_eq!(t, vec![IpAddr::V4(0x0A01_0203)]);
    let t6 = parse_targets("::1").unwrap();
    assert_eq!(t6, vec![IpAddr::V6(1)]);
    assert_eq!(t6[0].to_string(), "::1");
    let t6b = parse_targets("2001:db8::ff00:42:8329").unwrap();
    assert_eq!(t6b[0].to_string(), "2001:db8::ff00:42:8329");
    let mapped = parse_targets("::ffff:192.0.2.128").unwrap();
    assert_eq!(mapped[0].to_string(), "::ffff:192.0.2.128");
}

#[test]
fn ipv4_text_roundtrip_examples() {
    for v in [0u32, 1, 0x0A00_0001, 0xC0A8_01FE, 0xFFFF_FFFF, 0x6440_0A09] {
        let text = IpAddr::V4(v).to_string();
        assert_eq!(parse_targets(&text).unwrap(), vec![IpAddr::V4(v)]);
    }
}

#[test]
fn cidr_block_matches_std() {
    let t = parse_targets("10.0.0.77/30").unwrap();
    let texts: Vec<String> = t.iter().map(|a| a.to_string()).collect();
    assert_eq!(texts, vec!["10.0.0.77".to_string(), "10.0.0.78".to_string()]);
}

#[test]
fn timing_levels() {
    assert_eq!(timing_config(0), (1, 5000));
    assert_eq!(timing_config(3), (1000, 1000));
    assert_eq!(timing_config(5), (5000, 200));
    assert_eq!(timing_config(9), (1000, 1000));
}

#[test]
fn risk_and_confirmation() {
    assert_eq!(risk_label(3), None);
    assert_eq!(risk_label(4), Some("AGRESSIF".to_string()));
    assert_eq!(risk_label(5), Some("INSANE".to_string()));
    assert!(confirms(" y\n"));
    assert!(confirms("Y"));
    assert!(!confirms("yes"));
    assert!(!confirms(""));
}

#[test]
fn udp_probes() {
    assert_eq!(udp_probe(9999), vec![0u8]);
    assert_eq!(udp_probe(53).len(), 30);
    assert_eq!(&udp_probe(53)[12..20], &[7u8, b'v', b'e', b'r', b's', b'i', b'o', b'n'][..]);
    assert_eq!(udp_probe(161)[0], 0x30);
    assert_eq!(udp_probe(161).len(), 40);
}

#[test]
fn simple_seq_values() {
    assert_eq!(simple_seq(0), 0x1337_0000);
    assert_eq!(simple_seq(443), 0x1337_01BB);
}

#[test]
fn port_state_text() {
    assert_eq!(PortState::Open.as_str(), "open");
    assert_eq!(PortState::OpenFiltered.as_str(), "open|filtered");
    assert!(is_reported(ScanMode::TcpConnect, PortState::Open));
    assert!(!is_reported(ScanMode::TcpConnect, PortState::Filtered));
}

#[test]
fn scan_config_defaults() {
    let c = ScanConfig::default();
    assert_eq!(c.concurrency, 1000);
    assert_eq!(c.timeout_ms, 1000);
    assert!(!c.skip_ping);
    assert_eq!(c.ports.len(), 1000);
    assert_eq!(c.mode, ScanMode::TcpConnect);
}

fn info(port: u16, state: PortState) -> PortInfo {
    PortInfo { port, state, service: service_name(port).to_string(), banner: None }
}

#[test]
fn tcp_summary_counts_add_up() {
    let ip = IpAddr::V4(0x7F00_0001);
    let infos = vec![
        info(443, PortState::Open),
        info(22, PortState::Open),
        info(23, PortState::Closed),
        info(25, PortState::Filtered),
        info(26, PortState::Filtered),
    ];
    let r = summarize_tcp(&ip, infos);
    assert_eq!(r.ip, "127.0.0.1");
    let open: Vec<u16> = r.open_ports.iter().map(|p| p.port).collect();
    assert_eq!(open, vec![22, 443]);
    assert_eq!(r.closed_count, 1);
    assert_eq!(r.filtered_count, 2);
    assert_eq!(r.open_filtered_count, 0);
    assert_eq!(r.open_ports.len() + r.closed_count + r.filtered_count, 5);
}

#[test]
fn udp_summary_lists_open_filtered() {
    let ip = IpAddr::V4(0x0A00_0001);
    let infos = vec![
        info(161, PortState::OpenFiltered),
        info(53, PortState::Open),
        info(123, PortState::Closed),
    ];
    let r = summarize_udp(&ip, infos);
    let listed: Vec<u16> = r.open_ports.iter().map(|p| p.port).collect();
    assert_eq!(listed, vec![53, 161]);
    assert_eq!(r.closed_count, 1);
    assert_eq!(r.open_filtered_count, 1);
}

#[test]
fn syn_summary_names_services() {
    let ip = IpAddr::V4(0x0A00_0001);
    let r = summarize_syn(&ip, vec![(80, PortState::Open), (22, PortState::Open), (81, PortState::Closed)]);
    let open: Vec<(u16, String)> = r.open_ports.iter().map(|p| (p.port, p.service.clone())).collect();
    assert_eq!(open, vec![(22, "ssh".to_string()), (80, "http".to_string())]);
    assert_eq!(r.closed_count, 1);
    let e = empty_result(&ip);
    assert_eq!(e.ip, "10.0.0.1");
    assert_eq!(e.open_ports.len(), 0);
}

#[test]
fn banners_are_first_trimmed_line() {
    assert_eq!(banner_line(b"SSH-2.0-OpenSSH_8.9p1\r\nmore"), Some("SSH-2.0-OpenSSH_8.9p1".to_string()));
    assert_eq!(banner_line(b"   \r\n"), None);
    assert_eq!(banner_line(b""), None);
    assert_eq!(banner_line(b"  220 ready  "), Some("220 ready".to_string()));
    assert_eq!(banner_line(&[0xff, b'a']), Some("\u{FFFD}a".to_string()));
}

#[test]
fn probe_outcomes() {
    assert_eq!(tcp_probe_state(ProbeOutcome::Answered), PortState::Open);
    assert_eq!(tcp_probe_state(ProbeOutcome::Refused), PortState::Closed);
    assert_eq!(tcp_probe_state(ProbeOutcome::NoAnswer), PortState::Filtered);
    assert_eq!(udp_probe_state(ProbeOutcome::Answered, b"pong\n"), (PortState::Open, Some("pong".to_string())));
    assert_eq!(udp_probe_state(ProbeOutcome::Refused, b""), (PortState::Closed, None));
    assert_eq!(udp_probe_state(ProbeOutcome::NoAnswer, b""), (PortState::OpenFiltered, None));
}

#[test]
fn syn_reply_flags() {
    assert_eq!(reply_state(0x12), Some(PortState::Open));
    assert_eq!(reply_state(0x14), Some(PortState::Closed));
    assert_eq!(reply_state(0x04), Some(PortState::Closed));
    assert_eq!(reply_state(0x10), None);
}

#[test]
fn syn_tracker_counts_pending() {
    let target = 0x0A00_0005u32;
    let mut t = SynTracker::new(target, &[80, 22, 80, 443]);
    assert!(!t.is_done());
    t.on_reply(IpAddr::V4(target), SYN_SOURCE_PORT, 80, 0x12);
    t.on_reply(IpAddr::V4(0x0A00_0006), SYN_SOURCE_PORT, 22, 0x12);
    t.on_reply(IpAddr::V4(target), 1234, 22, 0x12);
    t.on_reply(IpAddr::V4(target), SYN_SOURCE_PORT, 22, 0x14);
    assert!(!t.is_done());
    t.on_reply(IpAddr::V4(target), SYN_SOURCE_PORT, 443, 0x12);
    assert!(t.is_done());
    assert_eq!(
        t.results(),
        vec![(80, PortState::Open), (22, PortState::Closed), (443, PortState::Open)]
    );
}

fn ones_complement_sum(words: impl Iterator<Item = u16>) -> u16 {
    let mut s: u32 = 0;
    for w in words {
        s += w as u32;
        s = (s & 0xffff) + (s >> 16);
    }
    s as u16
}

#[test]
fn syn_segment_layout_and_checksum() {
    let src = 0xC0A8_0001u32;
    let dst = 0xC0A8_0002u32;
    let seg = syn_segment(443, src, dst);
    assert_eq!(seg.len(), 20);
    assert_eq!(u16::from_be_bytes([seg[0], seg[1]]), SYN_SOURCE_PORT);
    assert_eq!(u16::from_be_bytes([seg[2], seg[3]]), 443);
    assert_eq!(u32::from_be_bytes([seg[4], seg[5], seg[6], seg[7]]), simple_seq(443));
    assert_eq!(seg[12] >> 4, 5);
    assert_eq!(seg[13], 0x02);
    let mut words: Vec<u16> = vec![
        (src >> 16) as u16,
        src as u16,
        (dst >> 16) as u16,
        dst as u16,
        6,
        20,
    ];
    for c in seg.chunks(2) {
        words.push(u16::from_be_bytes([c[0], c[1]]));
    }
    assert_eq!(ones_complement_sum(words.into_iter()), 0xffff);
}

#[test]
fn cidr_and_range_need_their_separator() {
    let text: Vec<char> = "10.0.0.1".chars().collect();
    assert_eq!(security_suite::targets::parse_cidr(&text), Err(TargetError::NotCidr));
    assert_eq!(security_suite::targets::parse_range(&text), Err(TargetError::NotRange));
    let cidr: Vec<char> = "10.0.0.0/30".chars().collect();
    assert_eq!(security_suite::targets::parse_cidr(&cidr).unwrap().len(), 2);
    let range: Vec<char> = "10.0.0.1 - 10.0.0.3".chars().collect();
    assert_eq!(security_suite::targets::parse_range(&range).unwrap().len(), 3);
}

#[test]
fn banners_of_text_and_sockets() {
    assert_eq!(security_suite::scan::banner_of_text("  hello \r\nworld"), Some("hello".to_string()));
    assert_eq!(security_suite::scan::banner_of_text("\nsecond"), None);
    assert_eq!(security_suite::scan::banner_of_text("é ok"), Some("é ok".to_string()));
    assert_eq!(udp_probe_state(ProbeOutcome::NoSocket, b"x"), (PortState::Filtered, None));
    assert_eq!(tcp_probe_state(ProbeOutcome::NoSocket), PortState::Filtered);
}

#[test]
fn ping_decides_scanning() {
    assert!(should_scan(true, false));
    assert!(should_scan(false, true));
    assert!(!should_scan(false, false));
}

#[test]
fn syn_tracker_without_replies_is_all_filtered() {
    let t = SynTracker::new(0x0A00_0001, &[22, 80, 22, 443]);
    assert_eq!(
        t.results(),
        vec![(22, PortState::Filtered), (80, PortState::Filtered), (443, PortState::Filtered)]
    );
    assert!(SynTracker::new(0x0A00_0001, &[]).is_done());
}
