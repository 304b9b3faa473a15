//! Port scanning results: port states, per-host summaries, banners, and the
//! decisions of the SYN scan.
use vstd::prelude::*;
use crate::text::{string_of, chars_of, find, find_chars, trim, trim_chars, slice_of};
use crate::targets::{IpAddr, ip_text};
use crate::ports::{service_name, service_name_spec, TOP_1000_PORTS};

verus! {

/// State of a probed port.
#[derive(Debug, Clone, Copy, PartialEq, Eq, Structural)]
pub enum PortState {
    /// A connection could be made, or a reply came back.
    Open,
    /// The target refused.
    Closed,
    /// No answer in time.
    Filtered,
    /// UDP only: no answer, but no refusal either.
    OpenFiltered,
}

pub open spec fn state_text(s: PortState) -> Seq<char> {
    match s {
        PortState::Open => "open"@,
        PortState::Closed => "closed"@,
        PortState::Filtered => "filtered"@,
        PortState::OpenFiltered => "open|filtered"@,
    }
}

impl PortState {
    /// How the state is shown to the user.
    pub fn as_str(&self) -> (res: &'static str)
        ensures
            res@ == state_text(*self),
    {
        match self {
            PortState::Open => "open",
            PortState::Closed => "closed",
            PortState::Filtered => "filtered",
            PortState::OpenFiltered => "open|filtered",
        }
    }
}

/// How ports are probed.
#[derive(Debug, Clone, Copy, PartialEq, Eq, Structural)]
pub enum ScanMode {
    TcpConnect,
    Syn,
    Udp,
}

/// What was found on one port.
#[derive(Debug, Clone)]
pub struct PortInfo {
    pub port: u16,
    pub state: PortState,
    pub service: String,
    pub banner: Option<String>,
}

/// What was found on one host.
#[derive(Debug)]
pub struct ScanResult {
    pub ip: String,
    pub open_ports: Vec<PortInfo>,
    pub closed_count: usize,
    pub filtered_count: usize,
    pub open_filtered_count: usize,
}

/// How a scan is run.
pub struct ScanConfig {
    pub concurrency: usize,
    pub timeout_ms: u64,
    pub skip_ping: bool,
    pub ports: Vec<u16>,
    pub mode: ScanMode,
}

impl ScanMode {
    pub fn default() -> (res: ScanMode)
        ensures
            res == ScanMode::TcpConnect,
    {
        ScanMode::TcpConnect
    }
}

impl ScanConfig {
    /// 1000 concurrent probes, a one-second timeout, pinging first, the top
    /// 1000 ports, TCP connect.
    pub fn default() -> (res: ScanConfig)
        ensures
            res.concurrency == 1000,
            res.timeout_ms == 1000,
            !res.skip_ping,
            res.ports@ == TOP_1000_PORTS@,
            res.mode == ScanMode::TcpConnect,
    {
        let mut ports: Vec<u16> = Vec::new();
        let mut i: usize = 0;
        while i < 1000
            invariant
                i <= 1000,
                ports@ == TOP_1000_PORTS@.take(i as int),
            decreases 1000 - i,
        {
            ports.push(TOP_1000_PORTS[i]);
            assert(TOP_1000_PORTS@.take(i + 1) =~= TOP_1000_PORTS@.take(i as int).push(
                TOP_1000_PORTS@[i as int],
            ));
            i = i + 1;
        }
        assert(TOP_1000_PORTS@.take(1000) =~= TOP_1000_PORTS@);
        ScanConfig { concurrency: 1000, timeout_ms: 1000, skip_ping: false, ports, mode: ScanMode::TcpConnect }
    }
}

/// The record of one probed port.
pub fn port_info(port: u16, state: PortState, banner: Option<String>) -> (res: PortInfo)
    ensures
        res.port == port,
        res.state == state,
        res.service@ == service_name_spec(port),
        res.banner == banner,
{
    PortInfo { port, state, service: string_of(chars_of(service_name(port)).as_slice()), banner }
}

/// Whether a probed port is shown while the scan runs: open ports, and for
/// UDP also open|filtered ones.
pub open spec fn reported_spec(mode: ScanMode, state: PortState) -> bool {
    match mode {
        ScanMode::Udp => state == PortState::Open || state == PortState::OpenFiltered,
        _ => state == PortState::Open,
    }
}

pub fn is_reported(mode: ScanMode, state: PortState) -> (res: bool)
    ensures
        res == reported_spec(mode, state),
{
    match mode {
        ScanMode::Udp => state == PortState::Open || state == PortState::OpenFiltered,
        _ => state == PortState::Open,
    }
}

/// A port record as plain values.
pub struct PortInfoView {
    pub port: u16,
    pub state: PortState,
    pub service: Seq<char>,
    pub banner: Option<Seq<char>>,
}

pub open spec fn opt_view(o: Option<String>) -> Option<Seq<char>> {
    match o {
        Some(s) => Some(s@),
        None => None,
    }
}

impl View for PortInfo {
    type V = PortInfoView;

    open spec fn view(&self) -> PortInfoView {
        PortInfoView {
            port: self.port,
            state: self.state,
            service: self.service@,
            banner: opt_view(self.banner),
        }
    }
}

pub open spec fn info_views(s: Seq<PortInfo>) -> Seq<PortInfoView> {
    s.map_values(|p: PortInfo| p@)
}

/// `x` inserted into `s` after every entry whose port is not larger.
pub open spec fn insert_by_port(s: Seq<PortInfoView>, x: PortInfoView) -> Seq<PortInfoView>
    decreases s.len(),
{
    if s.len() == 0 {
        seq![x]
    } else if s.last().port <= x.port {
        s.push(x)
    } else {
        insert_by_port(s.drop_last(), x).push(s.last())
    }
}

/// Stable sort by port: equal ports keep their order.
pub open spec fn sort_by_port(s: Seq<PortInfoView>) -> Seq<PortInfoView>
    decreases s.len(),
{
    if s.len() == 0 {
        s
    } else {
        insert_by_port(sort_by_port(s.drop_last()), s.last())
    }
}

pub open spec fn sorted_by_port(s: Seq<PortInfoView>) -> bool {
    forall|i: int, j: int| 0 <= i < j < s.len() ==> s[i].port <= s[j].port
}

pub open spec fn is_listed(p: PortInfoView, udp: bool) -> bool {
    p.state == PortState::Open || (udp && p.state == PortState::OpenFiltered)
}

/// The entries listed as open ports: open ones, and for UDP also
/// open|filtered ones, in their order.
pub open spec fn listed(s: Seq<PortInfoView>, udp: bool) -> Seq<PortInfoView>
    decreases s.len(),
{
    if s.len() == 0 {
        s
    } else if is_listed(s.last(), udp) {
        listed(s.drop_last(), udp).push(s.last())
    } else {
        listed(s.drop_last(), udp)
    }
}

/// How many entries have state `st`.
pub open spec fn count_state(s: Seq<PortInfoView>, st: PortState) -> nat
    decreases s.len(),
{
    if s.len() == 0 {
        0
    } else {
        count_state(s.drop_last(), st) + if s.last().state == st {
            1nat
        } else {
            0nat
        }
    }
}

proof fn lemma_insert_at(s: Seq<PortInfoView>, x: PortInfoView, j: int)
    requires
        0 <= j <= s.len(),
        forall|k: int| j <= k < s.len() ==> s[k].port > x.port,
        j > 0 ==> s[j - 1].port <= x.port,
    ensures
        insert_by_port(s, x) == s.insert(j, x),
    decreases s.len(),
{
    if s.len() == 0 {
        assert(s.insert(j, x) =~= seq![x]);
    } else if j == s.len() {
        assert(s.insert(j, x) =~= s.push(x));
    } else {
        lemma_insert_at(s.drop_last(), x, j);
        assert(s.insert(j, x) =~= s.drop_last().insert(j, x).push(s.last()));
    }
}

proof fn lemma_insert_sorted(s: Seq<PortInfoView>, x: PortInfoView)
    requires
        sorted_by_port(s),
    ensures
        sorted_by_port(insert_by_port(s, x)),
        insert_by_port(s, x).len() == s.len() + 1,
        forall|k: int|
            0 <= k < insert_by_port(s, x).len() ==> (#[trigger] insert_by_port(s, x)[k] == x
                || s.contains(insert_by_port(s, x)[k])),
    decreases s.len(),
{
    if s.len() > 0 && s.last().port > x.port {
        let d = s.drop_last();
        lemma_insert_sorted(d, x);
        let r = insert_by_port(d, x);
        assert forall|k: int| 0 <= k < r.len() implies #[trigger] r[k].port <= s.last().port by {
            if r[k] != x {
                let m = choose|m: int| 0 <= m < d.len() && d[m] == r[k];
                assert(s[m] == d[m]);
            }
        }
        assert forall|k: int| 0 <= k < r.len() implies (r[k] == x || s.contains(r[k])) by {
            if r[k] != x {
                let m = choose|m: int| 0 <= m < d.len() && d[m] == r[k];
                assert(s[m] == d[m]);
            }
        }
    }
}

/// Sorting by port gives entries in non-decreasing port order, as many as before.
pub proof fn lemma_sort_sorted(s: Seq<PortInfoView>)
    ensures
        sorted_by_port(sort_by_port(s)),
        sort_by_port(s).len() == s.len(),
    decreases s.len(),
{
    if s.len() > 0 {
        lemma_sort_sorted(s.drop_last());
        lemma_insert_sorted(sort_by_port(s.drop_last()), s.last());
    }
}

/// Sorts by port, stably.
fn sort_ports(v: Vec<PortInfo>) -> (res: Vec<PortInfo>)
    ensures
        info_views(res@) == sort_by_port(info_views(v@)),
{
    let ghost all = v@;
    let n = v.len();
    let mut rest = v;
    let mut rev: Vec<PortInfo> = Vec::new();
    while rest.len() > 0
        invariant
            rev@.len() + rest@.len() == n,
            all.len() == n,
            rest@ == all.take(rest@.len() as int),
            forall|k: int| 0 <= k < rev@.len() ==> rev@[k] == all[n - 1 - k],
        decreases rest.len(),
    {
        match rest.pop() {
            Some(x) => {
                assert(x == all[n - 1 - rev@.len()]);
                rev.push(x);
                assert(rest@ =~= all.take(rest@.len() as int));
            },
            None => {},
        }
    }
    let mut out: Vec<PortInfo> = Vec::new();
    assert(info_views(all.take(0)) =~= Seq::<PortInfoView>::empty());
    assert(info_views(out@) =~= Seq::<PortInfoView>::empty());
    while rev.len() > 0
        invariant
            rev@.len() <= n,
            all.len() == n,
            forall|m: int| 0 <= m < rev@.len() ==> rev@[m] == all[n - 1 - m],
            info_views(out@) == sort_by_port(info_views(all.take((n - rev@.len()) as int))),
            sorted_by_port(info_views(out@)),
        decreases rev.len(),
    {
        let ghost k = rev@.len() - 1;
        let x = match rev.pop() {
            Some(x) => x,
            None => {
                return out;
            },
        };
        assert(x == all[n - 1 - k]);
        let mut j = out.len();
        while j > 0 && out[j - 1].port > x.port
            invariant
                j <= out@.len(),
                forall|m: int| j <= m < out@.len() ==> out@[m].port > x.port,
            decreases j,
        {
            j = j - 1;
        }
        let ghost ov = info_views(out@);
        proof {
            lemma_insert_at(ov, x@, j as int);
            lemma_insert_sorted(ov, x@);
            assert(info_views(all.take((n - k) as int)).drop_last() =~= info_views(all.take((n - k - 1) as int)));
            assert(info_views(all.take((n - k) as int)).last() == x@);
        }
        out.insert(j, x);
        assert(info_views(out@) =~= ov.insert(j as int, x@));
    }
    assert(all.take(n as int) =~= all);
    out
}

proof fn lemma_counts_add_up(s: Seq<PortInfoView>, udp: bool)
    ensures
        udp ==> listed(s, udp).len() + count_state(s, PortState::Closed) + count_state(s, PortState::Filtered) == s.len(),
        !udp ==> listed(s, udp).len() + count_state(s, PortState::Closed) + count_state(s, PortState::Filtered)
            + count_state(s, PortState::OpenFiltered) == s.len(),
        count_state(s, PortState::Closed) <= s.len(),
        count_state(s, PortState::Filtered) <= s.len(),
        count_state(s, PortState::OpenFiltered) <= s.len(),
        count_state(s, PortState::Filtered) + count_state(s, PortState::OpenFiltered) <= s.len(),
    decreases s.len(),
{
    if s.len() > 0 {
        lemma_counts_add_up(s.drop_last(), udp);
    }
}

/// The entries in reverse order, moved.
fn reversed(v: Vec<PortInfo>) -> (rev: Vec<PortInfo>)
    ensures
        rev@.len() == v@.len(),
        forall|k: int| 0 <= k < rev@.len() ==> rev@[k] == v@[v@.len() - 1 - k],
{
    let ghost all = v@;
    let n = v.len();
    let mut rest = v;
    let mut rev: Vec<PortInfo> = Vec::new();
    while rest.len() > 0
        invariant
            rev@.len() + rest@.len() == n,
            all.len() == n,
            rest@ == all.take(rest@.len() as int),
            forall|k: int| 0 <= k < rev@.len() ==> rev@[k] == all[n - 1 - k],
        decreases rest.len(),
    {
        match rest.pop() {
            Some(x) => {
                assert(x == all[n - 1 - rev@.len()]);
                rev.push(x);
                assert(rest@ =~= all.take(rest@.len() as int));
            },
            None => {},
        }
    }
    rev
}

/// The listed entries, in order, and the numbers of closed, filtered and
/// open|filtered entries.
fn tally(infos: Vec<PortInfo>, udp: bool) -> (res: (Vec<PortInfo>, usize, usize, usize))
    ensures
        info_views(res.0@) == listed(info_views(infos@), udp),
        res.1 == count_state(info_views(infos@), PortState::Closed),
        res.2 == count_state(info_views(infos@), PortState::Filtered),
        res.3 == count_state(info_views(infos@), PortState::OpenFiltered),
{
    let ghost all = info_views(infos@);
    let n = infos.len();
    let mut rev = reversed(infos);
    assert forall|m: int| 0 <= m < rev@.len() implies rev@[m]@ == all[n - 1 - m] by {
        assert(all[n - 1 - m] == infos@[n - 1 - m]@);
    }
    let mut open: Vec<PortInfo> = Vec::new();
    let mut closed: usize = 0;
    let mut filtered: usize = 0;
    let mut open_filtered: usize = 0;
    assert(all.take(0) =~= Seq::<PortInfoView>::empty());
    assert(info_views(open@) =~= Seq::<PortInfoView>::empty());
    while rev.len() > 0
        invariant
            rev@.len() <= n,
            all.len() == n,
            forall|m: int| 0 <= m < rev@.len() ==> rev@[m]@ == all[n - 1 - m],
            info_views(open@) == listed(all.take((n - rev@.len()) as int), udp),
            closed == count_state(all.take((n - rev@.len()) as int), PortState::Closed),
            filtered == count_state(all.take((n - rev@.len()) as int), PortState::Filtered),
            open_filtered == count_state(all.take((n - rev@.len()) as int), PortState::OpenFiltered),
        decreases rev.len(),
    {
        let ghost k = rev@.len() - 1;
        let x = rev.pop().unwrap();
        let ghost pre = all.take((n - k - 1) as int);
        let ghost cur = all.take((n - k) as int);
        assert(cur.drop_last() =~= pre);
        assert(cur.last() == x@);
        proof {
            lemma_counts_add_up(cur, udp);
        }
        let ghost ov = info_views(open@);
        match x.state {
            PortState::Open => {
                open.push(x);
            },
            PortState::Closed => {
                closed = closed + 1;
            },
            PortState::Filtered => {
                filtered = filtered + 1;
            },
            PortState::OpenFiltered => {
                open_filtered = open_filtered + 1;
                if udp {
                    open.push(x);
                }
            },
        }
        assert(info_views(open@) =~= listed(cur, udp));
    }
    assert(all.take(n as int) =~= all);
    (open, closed, filtered, open_filtered)
}

proof fn lemma_summary_facts(iv: Seq<PortInfoView>, udp: bool)
    ensures
        sorted_by_port(sort_by_port(listed(iv, udp))),
        sort_by_port(listed(iv, udp)).len() == listed(iv, udp).len(),
        udp ==> listed(iv, udp).len() + count_state(iv, PortState::Closed) + count_state(iv, PortState::Filtered) == iv.len(),
        !udp ==> listed(iv, udp).len() + count_state(iv, PortState::Closed) + count_state(iv, PortState::Filtered)
            + count_state(iv, PortState::OpenFiltered) == iv.len(),
{
    lemma_sort_sorted(listed(iv, udp));
    lemma_counts_add_up(iv, udp);
}

/// The summary of a host probed by TCP connect: open ports sorted by port;
/// closed ones counted; filtered (and open|filtered) ones counted as filtered.
/// Every probed port is counted exactly once.
pub fn summarize_tcp(ip: &IpAddr, infos: Vec<PortInfo>) -> (res: ScanResult)
    ensures
        res.ip@ == ip_text(*ip),
        info_views(res.open_ports@) == sort_by_port(listed(info_views(infos@), false)),
        sorted_by_port(info_views(res.open_ports@)),
        res.closed_count == count_state(info_views(infos@), PortState::Closed),
        res.filtered_count == count_state(info_views(infos@), PortState::Filtered) + count_state(
            info_views(infos@),
            PortState::OpenFiltered,
        ),
        res.open_filtered_count == 0,
        res.open_ports@.len() + res.closed_count + res.filtered_count == infos@.len(),
{
    let ghost iv = info_views(infos@);
    let n = infos.len();
    let (open, closed, filtered, open_filtered) = tally(infos, false);
    proof {
        lemma_summary_facts(iv, false);
    }
    let open_ports = sort_ports(open);
    let ip_text = ip.to_string();
    ScanResult {
        ip: ip_text,
        open_ports,
        closed_count: closed,
        filtered_count: filtered + open_filtered,
        open_filtered_count: 0,
    }
}

/// The summary of a host probed over UDP: open and open|filtered ports
/// listed, sorted by port; closed and filtered ones counted; open|filtered
/// ones also counted apart. Every probed port is listed or counted as closed
/// or filtered exactly once.
pub fn summarize_udp(ip: &IpAddr, infos: Vec<PortInfo>) -> (res: ScanResult)
    ensures
        res.ip@ == ip_text(*ip),
        info_views(res.open_ports@) == sort_by_port(listed(info_views(infos@), true)),
        sorted_by_port(info_views(res.open_ports@)),
        res.closed_count == count_state(info_views(infos@), PortState::Closed),
        res.filtered_count == count_state(info_views(infos@), PortState::Filtered),
        res.open_filtered_count == count_state(info_views(infos@), PortState::OpenFiltered),
        res.open_ports@.len() + res.closed_count + res.filtered_count == infos@.len(),
{
    let ghost iv = info_views(infos@);
    let n = infos.len();
    let (open, closed, filtered, open_filtered) = tally(infos, true);
    proof {
        lemma_summary_facts(iv, true);
    }
    let open_ports = sort_ports(open);
    let ip_text = ip.to_string();
    ScanResult {
        ip: ip_text,
        open_ports,
        closed_count: closed,
        filtered_count: filtered,
        open_filtered_count: open_filtered,
    }
}

/// The port records of a SYN scan: service names looked up, no banners.
pub open spec fn syn_views(states: Seq<(u16, PortState)>) -> Seq<PortInfoView> {
    states.map_values(
        |e: (u16, PortState)|
            PortInfoView { port: e.0, state: e.1, service: service_name_spec(e.0), banner: None },
    )
}

/// The summary of a host probed by SYN packets, from the final state of each
/// port: open ports listed, sorted by port; closed ones counted; the others
/// counted as filtered.
pub fn summarize_syn(ip: &IpAddr, states: Vec<(u16, PortState)>) -> (res: ScanResult)
    ensures
        res.ip@ == ip_text(*ip),
        info_views(res.open_ports@) == sort_by_port(listed(syn_views(states@), false)),
        sorted_by_port(info_views(res.open_ports@)),
        res.closed_count == count_state(syn_views(states@), PortState::Closed),
        res.filtered_count == count_state(syn_views(states@), PortState::Filtered) + count_state(
            syn_views(states@),
            PortState::OpenFiltered,
        ),
        res.open_filtered_count == 0,
        res.open_ports@.len() + res.closed_count + res.filtered_count == states@.len(),
{
    let mut infos: Vec<PortInfo> = Vec::new();
    let mut i: usize = 0;
    while i < states.len()
        invariant
            i <= states@.len(),
            info_views(infos@) == syn_views(states@).take(i as int),
        decreases states.len() - i,
    {
        let (port, state) = states[i];
        let ghost before = info_views(infos@);
        infos.push(port_info(port, state, None));
        assert(info_views(infos@) =~= before.push(syn_views(states@)[i as int]));
        assert(syn_views(states@).take(i + 1) =~= syn_views(states@).take(i as int).push(
            syn_views(states@)[i as int],
        ));
        i = i + 1;
    }
    assert(syn_views(states@).take(states@.len() as int) =~= syn_views(states@));
    summarize_tcp(ip, infos)
}

/// The summary of a host that could not be probed: nothing open, nothing counted.
pub fn empty_result(ip: &IpAddr) -> (res: ScanResult)
    ensures
        res.ip@ == ip_text(*ip),
        res.open_ports@.len() == 0,
        res.closed_count == 0,
        res.filtered_count == 0,
        res.open_filtered_count == 0,
{
    ScanResult {
        ip: ip.to_string(),
        open_ports: Vec::new(),
        closed_count: 0,
        filtered_count: 0,
        open_filtered_count: 0,
    }
}

/// What `String::from_utf8_lossy` makes of bytes.
pub uninterp spec fn utf8_lossy(b: Seq<u8>) -> Seq<char>;

/// Calls `String::from_utf8_lossy`: invalid UTF-8 becomes U+FFFD. The text
/// is named; of ASCII bytes it is those bytes as characters.
#[verifier::external_body]
fn lossy_text(b: &[u8]) -> (res: String)
    ensures
        res@ == utf8_lossy(b@),
        (forall|i: int| 0 <= i < b@.len() ==> b@[i] < 0x80) ==> res@ == b@.map_values(
            |x: u8| x as char,
        ),
{
    String::from_utf8_lossy(b).into_owned()
}

/// The first line of a text (`str::lines().next()`): up to the first `\n`,
/// without a `\r` just before it; `None` for empty text.
pub open spec fn first_line(s: Seq<char>) -> Option<Seq<char>> {
    if s.len() == 0 {
        None
    } else {
        match find(s, seq!['\n']) {
            Some(i) => if i > 0 && s[i - 1] == '\r' {
                Some(s.take(i - 1))
            } else {
                Some(s.take(i))
            },
            None => Some(s),
        }
    }
}

/// The banner in a text: its first line, trimmed, unless that is empty.
pub open spec fn banner_of_spec(t: Seq<char>) -> Option<Seq<char>> {
    match first_line(t) {
        Some(l) => if trim(l).len() == 0 {
            None
        } else {
            Some(trim(l))
        },
        None => None,
    }
}

/// The banner of a service: that of its reply decoded as lossy UTF-8.
pub open spec fn banner_spec(data: Seq<u8>) -> Option<Seq<char>> {
    banner_of_spec(utf8_lossy(data))
}

/// Reads the banner from the text a service sent.
pub fn banner_of_text(t: &str) -> (res: Option<String>)
    ensures
        opt_view(res) == banner_of_spec(t@),
{
    let s = chars_of(t);
    if s.len() == 0 {
        return None;
    }
    let nl = vec!['\n'];
    assert(nl@ =~= seq!['\n']);
    let line: Vec<char> = match find_chars(s.as_slice(), nl.as_slice()) {
        Some(i) => if i > 0 && s[i - 1] == '\r' {
            slice_of(s.as_slice(), 0, i - 1)
        } else {
            slice_of(s.as_slice(), 0, i)
        },
        None => s,
    };
    proof {
        if find(s@, seq!['\n']) is Some {
            assert(line@ =~= first_line(s@)->0);
        }
    }
    let tr = trim_chars(line.as_slice());
    if tr.len() == 0 {
        None
    } else {
        Some(string_of(tr.as_slice()))
    }
}

/// Reads the banner from the bytes a service sent.
pub fn banner_line(data: &[u8]) -> (res: Option<String>)
    ensures
        opt_view(res) == banner_spec(data@),
{
    let text = lossy_text(data);
    banner_of_text(text.as_str())
}

/// How a probe of a port ended.
#[derive(Debug, Clone, Copy, PartialEq, Eq, Structural)]
pub enum ProbeOutcome {
    /// The connection was made, or a datagram came back.
    Answered,
    /// The target refused (a TCP reset, or an ICMP port unreachable).
    Refused,
    /// Anything else: a timeout or another error.
    NoAnswer,
    /// No socket could be bound to, or connected towards, the port.
    NoSocket,
}

pub open spec fn tcp_state_spec(o: ProbeOutcome) -> PortState {
    match o {
        ProbeOutcome::Answered => PortState::Open,
        ProbeOutcome::Refused => PortState::Closed,
        ProbeOutcome::NoAnswer => PortState::Filtered,
        ProbeOutcome::NoSocket => PortState::Filtered,
    }
}

/// The state of a TCP port after a connection attempt.
pub fn tcp_probe_state(o: ProbeOutcome) -> (res: PortState)
    ensures
        res == tcp_state_spec(o),
{
    match o {
        ProbeOutcome::Answered => PortState::Open,
        ProbeOutcome::Refused => PortState::Closed,
        ProbeOutcome::NoAnswer => PortState::Filtered,
        ProbeOutcome::NoSocket => PortState::Filtered,
    }
}

/// The state of a UDP port after a probe, and the banner of the reply
/// (`reply` holds the bytes that came back, if any).
pub fn udp_probe_state(o: ProbeOutcome, reply: &[u8]) -> (res: (PortState, Option<String>))
    ensures
        o == ProbeOutcome::Answered ==> res.0 == PortState::Open && opt_view(res.1) == banner_spec(
            reply@,
        ),
        o == ProbeOutcome::Refused ==> res.0 == PortState::Closed && res.1 is None,
        o == ProbeOutcome::NoAnswer ==> res.0 == PortState::OpenFiltered && res.1 is None,
        o == ProbeOutcome::NoSocket ==> res.0 == PortState::Filtered && res.1 is None,
{
    match o {
        ProbeOutcome::Answered => (PortState::Open, banner_line(reply)),
        ProbeOutcome::Refused => (PortState::Closed, None),
        ProbeOutcome::NoAnswer => (PortState::OpenFiltered, None),
        ProbeOutcome::NoSocket => (PortState::Filtered, None),
    }
}

/// Whether a host is scanned: always when pinging is skipped, otherwise
/// only when it answered the ping.
pub fn should_scan(skip_ping: bool, alive: bool) -> (r: bool)
    ensures
        r == (skip_ping || alive),
{
    skip_ping || alive
}

} // verus!
