//! Port lists and port-level rules of the network scanner.
use vstd::prelude::*;
use crate::text::{IntErrorKind, parse_unsigned, parse_unsigned_chars, split_char, split_chars,
    views, trim, trim_chars, chars_of, find_chars, slice_of, lemma_parse_bounded};
use crate::targets::split_once;

verus! {

/// The Nmap list of the 1000 most common TCP ports.
pub const TOP_1000_PORTS: [u16; 1000] = [
    1, 2, 3, 4, 6, 7, 9, 13, 17, 19, 20, 21, 22, 23, 24, 25, 26, 30, 32, 33, 37, 42, 43, 49, 53,
    70, 79, 80, 81, 82, 83, 84, 85, 88, 89, 90, 99, 100, 106, 109, 110, 111, 113, 119, 125, 135,
    139, 143, 144, 146, 161, 163, 179, 199, 211, 212, 222, 254, 255, 256, 259, 264, 280, 301, 306,
    311, 340, 366, 389, 406, 407, 416, 417, 425, 427, 443, 444, 445, 458, 464, 465, 481, 497, 500,
    512, 513, 514, 515, 524, 541, 543, 544, 545, 548, 554, 555, 563, 587, 593, 616, 617, 625, 631,
    636, 646, 648, 666, 667, 668, 683, 687, 691, 700, 705, 711, 714, 720, 722, 726, 749, 765, 777,
    783, 787, 800, 801, 808, 843, 873, 880, 888, 898, 900, 901, 902, 903, 911, 912, 981, 987, 990,
    992, 993, 995, 999, 1000, 1001, 1002, 1007, 1009, 1010, 1011, 1021, 1022, 1023, 1024, 1025,
    1026, 1027, 1028, 1029, 1030, 1031, 1032, 1033, 1034, 1035, 1036, 1037, 1038, 1039, 1040, 1041,
    1042, 1043, 1044, 1045, 1046, 1047, 1048, 1049, 1050, 1051, 1052, 1053, 1054, 1055, 1056, 1057,
    1058, 1059, 1060, 1061, 1062, 1063, 1064, 1065, 1066, 1067, 1068, 1069, 1070, 1071, 1072, 1073,
    1074, 1075, 1076, 1077, 1078, 1079, 1080, 1081, 1082, 1083, 1084, 1085, 1086, 1087, 1088, 1089,
    1090, 1091, 1092, 1093, 1094, 1095, 1096, 1097, 1098, 1099, 1100, 1102, 1104, 1105, 1106, 1107,
    1108, 1110, 1111, 1112, 1113, 1114, 1117, 1119, 1121, 1122, 1123, 1124, 1126, 1130, 1131, 1132,
    1137, 1138, 1141, 1145, 1147, 1148, 1149, 1151, 1152, 1154, 1163, 1164, 1165, 1166, 1169, 1174,
    1175, 1183, 1185, 1186, 1187, 1192, 1198, 1199, 1201, 1213, 1216, 1217, 1218, 1233, 1234, 1236,
    1244, 1247, 1248, 1259, 1271, 1272, 1277, 1287, 1296, 1300, 1301, 1309, 1310, 1311, 1322, 1328,
    1334, 1352, 1417, 1433, 1434, 1443, 1455, 1461, 1494, 1500, 1501, 1503, 1521, 1524, 1533, 1556,
    1580, 1583, 1594, 1600, 1641, 1658, 1666, 1687, 1688, 1700, 1717, 1718, 1719, 1720, 1721, 1723,
    1755, 1761, 1782, 1783, 1801, 1805, 1812, 1839, 1840, 1862, 1863, 1864, 1875, 1900, 1914, 1935,
    1947, 1971, 1972, 1974, 1984, 1998, 1999, 2000, 2001, 2002, 2003, 2004, 2005, 2006, 2007, 2008,
    2009, 2010, 2013, 2020, 2021, 2022, 2030, 2033, 2034, 2035, 2038, 2040, 2041, 2042, 2043, 2045,
    2046, 2047, 2048, 2049, 2065, 2068, 2099, 2100, 2103, 2105, 2106, 2107, 2111, 2119, 2121, 2126,
    2135, 2144, 2160, 2161, 2170, 2179, 2190, 2191, 2196, 2200, 2222, 2251, 2260, 2288, 2301, 2323,
    2366, 2381, 2382, 2383, 2393, 2394, 2399, 2401, 2492, 2500, 2522, 2525, 2557, 2601, 2602, 2604,
    2605, 2607, 2608, 2638, 2701, 2702, 2710, 2717, 2718, 2725, 2800, 2809, 2811, 2869, 2875, 2909,
    2910, 2920, 2967, 2968, 2998, 3000, 3001, 3003, 3005, 3006, 3007, 3011, 3013, 3017, 3030, 3031,
    3052, 3071, 3077, 3128, 3168, 3211, 3221, 3260, 3261, 3268, 3269, 3283, 3300, 3301, 3306, 3322,
    3323, 3324, 3325, 3333, 3351, 3367, 3369, 3370, 3371, 3372, 3389, 3390, 3404, 3476, 3493, 3517,
    3527, 3546, 3551, 3580, 3659, 3689, 3690, 3703, 3737, 3766, 3784, 3800, 3801, 3809, 3814, 3826,
    3827, 3828, 3851, 3869, 3871, 3878, 3880, 3889, 3905, 3914, 3918, 3920, 3945, 3971, 3986, 3995,
    3998, 4000, 4001, 4002, 4003, 4004, 4005, 4006, 4045, 4111, 4125, 4126, 4129, 4224, 4242, 4279,
    4321, 4343, 4443, 4444, 4445, 4446, 4449, 4550, 4567, 4662, 4848, 4899, 4900, 4998, 5000, 5001,
    5002, 5003, 5004, 5009, 5030, 5033, 5050, 5051, 5054, 5060, 5061, 5080, 5087, 5100, 5101, 5102,
    5120, 5190, 5200, 5214, 5221, 5222, 5225, 5226, 5269, 5280, 5298, 5357, 5405, 5414, 5431, 5432,
    5440, 5500, 5510, 5544, 5550, 5555, 5560, 5566, 5631, 5633, 5666, 5678, 5679, 5718, 5730, 5800,
    5801, 5802, 5810, 5811, 5815, 5822, 5825, 5850, 5859, 5862, 5877, 5900, 5901, 5902, 5903, 5904,
    5906, 5907, 5910, 5911, 5915, 5922, 5925, 5950, 5952, 5959, 5960, 5961, 5962, 5963, 5987, 5988,
    5989, 5998, 5999, 6000, 6001, 6002, 6003, 6004, 6005, 6006, 6007, 6009, 6025, 6059, 6100, 6101,
    6106, 6112, 6123, 6129, 6156, 6346, 6389, 6502, 6510, 6543, 6547, 6565, 6566, 6567, 6580, 6646,
    6666, 6667, 6668, 6669, 6689, 6692, 6699, 6779, 6788, 6789, 6792, 6839, 6881, 6901, 6969, 7000,
    7001, 7002, 7004, 7007, 7019, 7025, 7070, 7100, 7103, 7106, 7200, 7201, 7402, 7435, 7443, 7496,
    7512, 7625, 7627, 7676, 7741, 7777, 7778, 7800, 7911, 7920, 7921, 7937, 7938, 7999, 8000, 8001,
    8002, 8007, 8008, 8009, 8010, 8011, 8021, 8022, 8031, 8042, 8045, 8080, 8081, 8082, 8083, 8084,
    8085, 8086, 8087, 8088, 8089, 8090, 8093, 8099, 8100, 8180, 8181, 8192, 8193, 8194, 8200, 8222,
    8254, 8290, 8291, 8292, 8300, 8333, 8383, 8400, 8402, 8443, 8500, 8600, 8649, 8651, 8652, 8654,
    8701, 8800, 8873, 8888, 8899, 8994, 9000, 9001, 9002, 9003, 9009, 9010, 9011, 9040, 9050, 9071,
    9080, 9081, 9090, 9091, 9099, 9100, 9101, 9102, 9103, 9110, 9111, 9200, 9207, 9220, 9290, 9415,
    9418, 9485, 9500, 9502, 9503, 9535, 9575, 9593, 9594, 9595, 9618, 9666, 9876, 9877, 9878, 9898,
    9900, 9917, 9929, 9943, 9944, 9968, 9998, 9999, 10000, 10001, 10002, 10003, 10004, 10009,
    10010, 10012, 10024, 10025, 10082, 10180, 10215, 10243, 10566, 10616, 10617, 10621, 10626,
    10628, 10629, 10778, 11110, 11111, 11967, 12000, 12174, 12265, 12345, 13456, 13722, 13782,
    13783, 14000, 14238, 14441, 14442, 15000, 15002, 15003, 15004, 15660, 15742, 16000, 16001,
    16012, 16016, 16018, 16080, 16113, 16992, 16993, 17877, 17988, 18040, 18101, 18988, 19101,
    19283, 19315, 19350, 19780, 19801, 19842, 20000, 20005, 20031, 20221, 20222, 20828, 21571,
    22939, 23502, 24444, 24800, 25734, 25735, 26214, 27000, 27352, 27353, 27355, 27356, 27715,
    28201, 30000, 30718, 30951, 31038, 31337, 32768, 32769, 32770, 32771, 32772, 32773, 32774,
    32775, 32776, 32777, 32778, 32779, 32780, 32781, 32782, 32783, 32784, 32785, 33354, 33899,
    34571, 34572, 34573, 35500, 38292, 40193, 40911, 41511, 42510, 44176, 44442, 44443, 44501,
    45100, 48080, 49152, 49153, 49154, 49155, 49156, 49157, 49158, 49159, 49160, 49161, 49163,
    49165, 49167, 49175, 49176, 49400, 49999, 50000, 50001, 50002, 50006, 50300, 50389, 50500,
    50636, 50800, 51103, 51493, 52673, 52822, 52848, 52869, 54045, 54328, 55055, 55056, 55555,
    55600, 56737, 56738, 57294, 57797, 58080, 60020, 60443, 61532, 61900, 62078, 63331, 64623,
    64680, 65000, 65129, 65389,
];

/// The most common UDP ports.
pub const TOP_UDP_PORTS: [u16; 26] = [
    53, 67, 68, 69, 111, 123, 135, 137, 138, 161, 162, 177, 389, 445, 500, 514, 520, 623, 631,
    1194, 1434, 1900, 4500, 5353, 5355, 10000,
];

/// The service usually found on a port.
pub open spec fn service_name_spec(port: u16) -> Seq<char> {
    match port {
        20 => "ftp-data"@,
        21 => "ftp"@,
        22 => "ssh"@,
        23 => "telnet"@,
        25 => "smtp"@,
        53 => "dns"@,
        67 => "dhcp"@,
        68 => "dhcp"@,
        69 => "tftp"@,
        80 => "http"@,
        110 => "pop3"@,
        111 => "rpcbind"@,
        119 => "nntp"@,
        123 => "ntp"@,
        135 => "msrpc"@,
        137 => "netbios-ns"@,
        138 => "netbios-dgm"@,
        139 => "netbios-ssn"@,
        143 => "imap"@,
        161 => "snmp"@,
        162 => "snmp-trap"@,
        179 => "bgp"@,
        389 => "ldap"@,
        443 => "https"@,
        445 => "smb"@,
        465 => "smtps"@,
        500 => "isakmp"@,
        514 => "syslog"@,
        515 => "printer"@,
        520 => "rip"@,
        587 => "submission"@,
        623 => "ipmi"@,
        631 => "ipp"@,
        636 => "ldaps"@,
        993 => "imaps"@,
        995 => "pop3s"@,
        1194 => "openvpn"@,
        1433 => "mssql"@,
        1434 => "mssql-m"@,
        1521 => "oracle"@,
        1723 => "pptp"@,
        1900 => "upnp"@,
        3306 => "mysql"@,
        3389 => "rdp"@,
        4500 => "ike-nat"@,
        5353 => "mdns"@,
        5355 => "llmnr"@,
        5432 => "postgresql"@,
        5900 => "vnc"@,
        5901 => "vnc-1"@,
        6379 => "redis"@,
        8080 => "http-proxy"@,
        8443 => "https-alt"@,
        8888 => "http-alt"@,
        9200 => "elasticsearch"@,
        10000 => "webmin"@,
        27017 => "mongodb"@,
        _ => "unknown"@,
    }
}

/// Returns the service name for a port number (like "ssh" for 22).
pub fn service_name(port: u16) -> (res: &'static str)
    ensures
        res@ == service_name_spec(port),
{
    match port {
        20 => "ftp-data",
        21 => "ftp",
        22 => "ssh",
        23 => "telnet",
        25 => "smtp",
        53 => "dns",
        67 => "dhcp",
        68 => "dhcp",
        69 => "tftp",
        80 => "http",
        110 => "pop3",
        111 => "rpcbind",
        119 => "nntp",
        123 => "ntp",
        135 => "msrpc",
        137 => "netbios-ns",
        138 => "netbios-dgm",
        139 => "netbios-ssn",
        143 => "imap",
        161 => "snmp",
        162 => "snmp-trap",
        179 => "bgp",
        389 => "ldap",
        443 => "https",
        445 => "smb",
        465 => "smtps",
        500 => "isakmp",
        514 => "syslog",
        515 => "printer",
        520 => "rip",
        587 => "submission",
        623 => "ipmi",
        631 => "ipp",
        636 => "ldaps",
        993 => "imaps",
        995 => "pop3s",
        1194 => "openvpn",
        1433 => "mssql",
        1434 => "mssql-m",
        1521 => "oracle",
        1723 => "pptp",
        1900 => "upnp",
        3306 => "mysql",
        3389 => "rdp",
        4500 => "ike-nat",
        5353 => "mdns",
        5355 => "llmnr",
        5432 => "postgresql",
        5900 => "vnc",
        5901 => "vnc-1",
        6379 => "redis",
        8080 => "http-proxy",
        8443 => "https-alt",
        8888 => "http-alt",
        9200 => "elasticsearch",
        10000 => "webmin",
        27017 => "mongodb",
        _ => "unknown",
    }
}


/// Why a port list was refused.
#[derive(Debug, Clone, Copy, PartialEq, Eq, Structural)]
pub enum PortsError {
    /// A port number is not a `u16`.
    BadNumber(IntErrorKind),
    /// A range `a-b` with `a > b`.
    ReversedRange(u16, u16),
}

/// The ports one comma-separated part names, as the bounds of a range:
/// `p` names `p..=p`, `a-b` names `a..=b`.
pub open spec fn part_range(part: Seq<char>) -> Result<(int, int), PortsError> {
    match split_once(part, '-') {
        Some((a, b)) => match parse_unsigned(trim(a), 0xFFFF) {
            Err(k) => Err(PortsError::BadNumber(k)),
            Ok(x) => match parse_unsigned(trim(b), 0xFFFF) {
                Err(k) => Err(PortsError::BadNumber(k)),
                Ok(y) => if x > y {
                    Err(PortsError::ReversedRange(x as u16, y as u16))
                } else {
                    Ok((x, y))
                },
            },
        },
        None => match parse_unsigned(part, 0xFFFF) {
            Err(k) => Err(PortsError::BadNumber(k)),
            Ok(x) => Ok((x, x)),
        },
    }
}

/// The ranges of the parts, each part trimmed; the first bad part decides the error.
pub open spec fn parts_ranges(parts: Seq<Seq<char>>) -> Result<Seq<(int, int)>, PortsError>
    decreases parts.len(),
{
    if parts.len() == 0 {
        Ok(Seq::empty())
    } else {
        match parts_ranges(parts.drop_last()) {
            Err(e) => Err(e),
            Ok(rs) => match part_range(trim(parts.last())) {
                Err(e) => Err(e),
                Ok(r) => Ok(rs.push(r)),
            },
        }
    }
}

pub open spec fn in_ranges(rs: Seq<(int, int)>, p: int) -> bool {
    exists|i: int| 0 <= i < rs.len() && (#[trigger] rs[i]).0 <= p <= rs[i].1
}

pub open spec fn strictly_increasing(s: Seq<u16>) -> bool {
    forall|i: int, j: int| 0 <= i < j < s.len() ==> s[i] < s[j]
}

fn part_range_of(part: &[char]) -> (res: Result<(u16, u16), PortsError>)
    ensures
        res matches Ok(r) ==> part_range(part@) == Ok::<(int, int), PortsError>((r.0 as int, r.1 as int)),
        res matches Err(e) ==> part_range(part@) == Err::<(int, int), PortsError>(e),
{
    let dash = vec!['-'];
    assert(dash@ =~= seq!['-']);
    assert(dash@.len() == 1);
    match find_chars(part, dash.as_slice()) {
        Some(i) => {
            let n = part.len();
            let a = slice_of(part, 0, i);
            let b = slice_of(part, i + 1, n);
            assert(a@ =~= part@.take(i as int));
            assert(b@ =~= part@.skip(i + 1));
            let x = match parse_unsigned_chars(trim_chars(a.as_slice()).as_slice(), 0xFFFF) {
                Ok(x) => x,
                Err(k) => {
                    return Err(PortsError::BadNumber(k));
                },
            };
            let y = match parse_unsigned_chars(trim_chars(b.as_slice()).as_slice(), 0xFFFF) {
                Ok(y) => y,
                Err(k) => {
                    return Err(PortsError::BadNumber(k));
                },
            };
            proof {
                lemma_parse_bounded(trim(a@), 0xFFFF);
                lemma_parse_bounded(trim(b@), 0xFFFF);
            }
            if x > y {
                return Err(PortsError::ReversedRange(x as u16, y as u16));
            }
            Ok((x as u16, y as u16))
        },
        None => {
            match parse_unsigned_chars(part, 0xFFFF) {
                Ok(x) => {
                    proof {
                        lemma_parse_bounded(part@, 0xFFFF);
                    }
                    Ok((x as u16, x as u16))
                },
                Err(k) => Err(PortsError::BadNumber(k)),
            }
        },
    }
}

proof fn lemma_parts_prefix_err(ps: Seq<Seq<char>>, k: int, e: PortsError)
    requires
        0 <= k <= ps.len(),
        parts_ranges(ps.take(k)) == Err::<Seq<(int, int)>, PortsError>(e),
    ensures
        parts_ranges(ps) == Err::<Seq<(int, int)>, PortsError>(e),
    decreases ps.len(),
{
    if k == ps.len() {
        assert(ps.take(k) =~= ps);
    } else {
        assert(ps.drop_last().take(k) =~= ps.take(k));
        lemma_parts_prefix_err(ps.drop_last(), k, e);
    }
}

proof fn lemma_in_ranges_push(rs: Seq<(int, int)>, r: (int, int), x: int)
    ensures
        in_ranges(rs.push(r), x) <==> (in_ranges(rs, x) || r.0 <= x <= r.1),
{
    let rs2 = rs.push(r);
    if in_ranges(rs2, x) {
        let k = choose|k: int| 0 <= k < rs2.len() && (#[trigger] rs2[k]).0 <= x <= rs2[k].1;
        if k < rs.len() {
            assert(rs2[k] == rs[k]);
        }
    }
    if in_ranges(rs, x) {
        let k = choose|k: int| 0 <= k < rs.len() && (#[trigger] rs[k]).0 <= x <= rs[k].1;
        assert(rs2[k] == rs[k]);
    }
    if r.0 <= x <= r.1 {
        assert(rs2[rs.len() as int] == r);
    }
}

fn unmarked_ports() -> (marks: Vec<bool>)
    ensures
        marks@.len() == 0x10000,
        forall|k: int| 0 <= k < 0x10000 ==> !marks@[k],
{
    let mut marks: Vec<bool> = Vec::new();
    let mut q: usize = 0;
    while q < 0x10000
        invariant
            q <= 0x10000,
            marks@.len() == q,
            forall|k: int| 0 <= k < q ==> !marks@[k],
        decreases 0x10000 - q,
    {
        marks.push(false);
        q = q + 1;
    }
    marks
}

fn mark_range(marks: &mut Vec<bool>, a: u16, b: u16)
    requires
        a <= b,
        old(marks)@.len() == 0x10000,
    ensures
        final(marks)@.len() == 0x10000,
        forall|x: int| 0 <= x < 0x10000 ==> (final(marks)@[x] <==> (old(marks)@[x] || (a <= x <= b))),
{
    let mut p: u32 = a as u32;
    while p <= b as u32
        invariant
            a <= b,
            a <= p <= b as u32 + 1,
            marks@.len() == 0x10000,
            forall|x: int| 0 <= x < 0x10000 ==> (marks@[x] <==> (old(marks)@[x] || (a <= x < p))),
        decreases b as u32 + 1 - p,
    {
        marks.set(p as usize, true);
        p = p + 1;
    }
}

fn marked_ports(marks: &Vec<bool>) -> (out: Vec<u16>)
    requires
        marks@.len() == 0x10000,
    ensures
        strictly_increasing(out@),
        forall|x: int| 0 <= x < 0x10000 ==> (marks@[x] <==> out@.contains(x as u16)),
{
    let mut out: Vec<u16> = Vec::new();
    let mut p: usize = 0;
    while p < 0x10000
        invariant
            p <= 0x10000,
            marks@.len() == 0x10000,
            strictly_increasing(out@),
            forall|k: int| 0 <= k < out@.len() ==> out@[k] < p,
            forall|x: int| 0 <= x < p ==> (marks@[x] <==> out@.contains(x as u16)),
        decreases 0x10000 - p,
    {
        let ghost before = out@;
        if marks[p] {
            out.push(p as u16);
        }
        assert forall|x: int| 0 <= x < p + 1 implies (marks@[x] <==> out@.contains(x as u16)) by {
            if out@.contains(x as u16) {
                let k = choose|k: int| 0 <= k < out@.len() && out@[k] == x as u16;
                if k < before.len() {
                    assert(before[k] == x as u16);
                    assert(before.contains(x as u16));
                } else {
                    assert(x == p);
                }
            }
            if marks@[x] {
                if x < p {
                    let k = choose|k: int| 0 <= k < before.len() && before[k] == x as u16;
                    assert(out@[k] == x as u16);
                } else {
                    assert(out@[out@.len() - 1] == x as u16);
                }
            }
        }
        p = p + 1;
    }
    out
}

/// `v` lists, in increasing order and each once, exactly the ports that the
/// port list `input` names.
pub open spec fn ports_listed(input: Seq<char>, v: Seq<u16>) -> bool {
    &&& parts_ranges(split_char(input, ',')) is Ok
    &&& strictly_increasing(v)
    &&& forall|p: int|
        #[trigger] v.contains(p as u16) && 0 <= p <= 0xFFFF <==> 0 <= p <= 0xFFFF && in_ranges(
            parts_ranges(split_char(input, ','))->Ok_0,
            p,
        )
}

/// Converts a port list such as `22`, `80,443` or `1-1000` into the ports
/// it names, in increasing order, each once.
pub fn parse_ports(input: &str) -> (res: Result<Vec<u16>, PortsError>)
    ensures
        res matches Err(e) ==> parts_ranges(split_char(input@, ',')) == Err::<Seq<(int, int)>, PortsError>(e),
        res matches Ok(v) ==> ports_listed(input@, v@),
{
    let s = chars_of(input);
    let parts = split_chars(s.as_slice(), ',');
    let ghost ps = views(parts@);
    let mut marks = unmarked_ports();
    let ghost mut rs: Seq<(int, int)> = Seq::empty();
    let mut i: usize = 0;
    assert(ps.take(0) =~= Seq::<Seq<char>>::empty());
    while i < parts.len()
        invariant
            ps == views(parts@),
            ps == split_char(s@, ','),
            s@ == input@,
            i <= parts.len(),
            marks@.len() == 0x10000,
            parts_ranges(ps.take(i as int)) == Ok::<Seq<(int, int)>, PortsError>(rs),
            forall|p: int| 0 <= p < 0x10000 ==> (marks@[p] <==> in_ranges(rs, p)),
            forall|k: int| 0 <= k < rs.len() ==> 0 <= #[trigger] rs[k].0 <= rs[k].1 <= 0xFFFF,
        decreases parts.len() - i,
    {
        let part = trim_chars(parts[i].as_slice());
        assert(ps.take(i + 1).drop_last() =~= ps.take(i as int));
        assert(ps.take(i + 1).last() == parts@[i as int]@);
        let (a, b) = match part_range_of(part.as_slice()) {
            Ok(r) => r,
            Err(e) => {
                proof {
                    lemma_parts_prefix_err(ps, i + 1, e);
                    assert(ps.take(parts@.len() as int) =~= ps);
                }
                return Err(e);
            },
        };
        let ghost old_rs = rs;
        proof {
            rs = rs.push((a as int, b as int));
        }
        mark_range(&mut marks, a, b);
        assert forall|x: int| 0 <= x < 0x10000 implies (marks@[x] <==> in_ranges(rs, x)) by {
            lemma_in_ranges_push(old_rs, (a as int, b as int), x);
        }
        i = i + 1;
    }
    assert(ps.take(parts@.len() as int) =~= ps);
    let out = marked_ports(&marks);
    assert forall|x: int| #[trigger] out@.contains(x as u16) && 0 <= x <= 0xFFFF <==> 0 <= x <= 0xFFFF
        && in_ranges(rs, x) by {
        if 0 <= x <= 0xFFFF {
            assert(marks@[x] <==> out@.contains(x as u16));
        }
    }
    Ok(out)
}


/// The ports to scan: those of the port list when one is given, else the
/// first `n` of the top 1000 when `n` is given, else all of them.
pub fn select_ports(ports: Option<&str>, top_ports: Option<usize>) -> (res: Result<Vec<u16>, PortsError>)
    ensures
        ports matches Some(p) ==> (res matches Ok(v) ==> ports_listed(p@, v@)) && (res matches Err(e)
            ==> parts_ranges(split_char(p@, ',')) == Err::<Seq<(int, int)>, PortsError>(e)),
        ports is None ==> (res matches Ok(v) && v@ == TOP_1000_PORTS@.take(
            match top_ports {
                Some(n) => if n < 1000 { n as int } else { 1000 },
                None => 1000,
            },
        )),
{
    match ports {
        Some(p) => parse_ports(p),
        None => {
            let n: usize = match top_ports {
                Some(n) => if n < 1000 { n } else { 1000 },
                None => 1000,
            };
            let mut out: Vec<u16> = Vec::new();
            let mut i: usize = 0;
            while i < n
                invariant
                    n <= 1000,
                    i <= n,
                    out@ == TOP_1000_PORTS@.take(i as int),
                decreases n - i,
            {
                out.push(TOP_1000_PORTS[i]);
                assert(TOP_1000_PORTS@.take(i + 1) =~= TOP_1000_PORTS@.take(i as int).push(TOP_1000_PORTS@[i as int]));
                i = i + 1;
            }
            Ok(out)
        },
    }
}

/// The payload sent to a UDP port to get an answer: a DNS `version.bind`
/// query for 53, an SNMP `get` with community `public` for 161, else one zero byte.
pub open spec fn udp_probe_spec(port: u16) -> Seq<u8> {
    if port == 53 {
        seq![0x00, 0x00, 0x01, 0x00, 0x00, 0x01, 0x00, 0x00, 0x00, 0x00, 0x00, 0x00, 0x07, 0x76, 0x65, 0x72, 0x73, 0x69, 0x6f, 0x6e, 0x04, 0x62, 0x69, 0x6e, 0x64, 0x00, 0x00, 0x10, 0x00, 0x03]
    } else if port == 161 {
        seq![0x30, 0x26, 0x02, 0x01, 0x00, 0x04, 0x06, 0x70, 0x75, 0x62, 0x6c, 0x69, 0x63, 0xa0, 0x19, 0x02, 0x04, 0x00, 0x00, 0x00, 0x00, 0x02, 0x01, 0x00, 0x02, 0x01, 0x00, 0x30, 0x0b, 0x30, 0x09, 0x06, 0x05, 0x2b, 0x06, 0x01, 0x02, 0x01, 0x05, 0x00]
    } else {
        seq![0x00u8]
    }
}

/// Returns the bytes to send to get a response from a UDP service.
pub fn udp_probe(port: u16) -> (res: Vec<u8>)
    ensures
        res@ == udp_probe_spec(port),
{
    let v: Vec<u8> = if port == 53 {
        vec![0x00, 0x00, 0x01, 0x00, 0x00, 0x01, 0x00, 0x00, 0x00, 0x00, 0x00, 0x00, 0x07, 0x76, 0x65, 0x72, 0x73, 0x69, 0x6f, 0x6e, 0x04, 0x62, 0x69, 0x6e, 0x64, 0x00, 0x00, 0x10, 0x00, 0x03]
    } else if port == 161 {
        vec![0x30, 0x26, 0x02, 0x01, 0x00, 0x04, 0x06, 0x70, 0x75, 0x62, 0x6c, 0x69, 0x63, 0xa0, 0x19, 0x02, 0x04, 0x00, 0x00, 0x00, 0x00, 0x02, 0x01, 0x00, 0x02, 0x01, 0x00, 0x30, 0x0b, 0x30, 0x09, 0x06, 0x05, 0x2b, 0x06, 0x01, 0x02, 0x01, 0x05, 0x00]
    } else {
        vec![0x00u8]
    };
    assert(v@ =~= udp_probe_spec(port));
    v
}

/// Ports on which a plain HTTP `HEAD` request is sent before reading the banner.
pub fn wants_http_probe(port: u16) -> (res: bool)
    ensures
        res == (port == 80 || port == 8080 || port == 8000 || port == 8008 || port == 8888),
{
    port == 80 || port == 8080 || port == 8000 || port == 8008 || port == 8888
}

/// The request sent to an HTTP port before reading its banner.
pub fn http_probe() -> (res: Vec<u8>)
    ensures
        res@ == seq![0x48u8, 0x45, 0x41, 0x44, 0x20, 0x2f, 0x20, 0x48, 0x54, 0x54, 0x50, 0x2f, 0x31, 0x2e, 0x30, 0x0d, 0x0a, 0x0d, 0x0a],
{
    let v: Vec<u8> = vec![0x48u8, 0x45, 0x41, 0x44, 0x20, 0x2f, 0x20, 0x48, 0x54, 0x54, 0x50, 0x2f, 0x31, 0x2e, 0x30, 0x0d, 0x0a, 0x0d, 0x0a];
    assert(v@ =~= seq![0x48u8, 0x45, 0x41, 0x44, 0x20, 0x2f, 0x20, 0x48, 0x54, 0x54, 0x50, 0x2f, 0x31, 0x2e, 0x30, 0x0d, 0x0a, 0x0d, 0x0a]);
    v
}

/// The TCP sequence number of the SYN sent to a port, so that replies can be
/// matched to their probe.
pub fn simple_seq(port: u16) -> (res: u32)
    ensures
        res == 0x1337_0000 + port,
{
    let r = 0x1337_0000u32 | (port as u32);
    assert(0x1337_0000u32 | (port as u32) == 0x1337_0000u32 + port as u32) by (bit_vector)
        requires
            port as u32 <= 0xFFFF,
    ;
    r
}

/// Concurrency and timeout in milliseconds for a timing level (T0 to T5).
pub open spec fn timing_spec(level: u8) -> (usize, u64) {
    match level {
        0 => (1, 5000),
        1 => (10, 3000),
        2 => (50, 2000),
        3 => (1000, 1000),
        4 => (3000, 500),
        5 => (5000, 200),
        _ => (1000, 1000),
    }
}

pub fn timing_config(level: u8) -> (res: (usize, u64))
    ensures
        res == timing_spec(level),
{
    match level {
        0 => (1, 5000),
        1 => (10, 3000),
        2 => (50, 2000),
        3 => (1000, 1000),
        4 => (3000, 500),
        5 => (5000, 200),
        _ => (1000, 1000),
    }
}

/// The warning word for the timing levels that ask for confirmation (T4
/// and T5); lower levels run without asking.
pub open spec fn risk_label_spec(level: u8) -> Option<Seq<char>> {
    if level == 5 {
        Some("INSANE"@)
    } else if level >= 4 {
        Some("AGRESSIF"@)
    } else {
        None
    }
}

pub fn risk_label(level: u8) -> (res: Option<String>)
    ensures
        crate::config::opt_text(res) == risk_label_spec(level),
{
    if level == 5 {
        Some(crate::services::text("INSANE"))
    } else if level >= 4 {
        Some(crate::services::text("AGRESSIF"))
    } else {
        None
    }
}

/// Whether an answer to the confirmation question is yes: once trimmed, it
/// is `y` in either case.
pub open spec fn confirms_spec(answer: Seq<char>) -> bool {
    crate::config::lowered(trim(answer)) == crate::config::codes("y"@)
}

pub fn confirms(answer: &str) -> (res: bool)
    ensures
        res == confirms_spec(answer@),
{
    let c = chars_of(answer);
    let t = trim_chars(c.as_slice());
    crate::config::same_ignoring_case(t.as_slice(), "y")
}

} // verus!
