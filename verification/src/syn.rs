//! The SYN scan: the probe segment sent to each port, and the bookkeeping of
//! the replies.
use vstd::prelude::*;
use crate::targets::IpAddr;
use crate::scan::PortState;
use crate::ports::simple_seq;
use std::collections::HashMap;

verus! {

broadcast use vstd::std_specs::hash::group_hash_axioms;

/// The source port of every SYN probe.
pub const SYN_SOURCE_PORT: u16 = 49152;

/// The state a reply with these TCP flags reports: SYN and ACK together mean
/// open, otherwise RST means closed; anything else says nothing.
pub open spec fn reply_state_spec(flags: u8) -> Option<PortState> {
    if flags & 0x02 != 0 && flags & 0x10 != 0 {
        Some(PortState::Open)
    } else if flags & 0x04 != 0 {
        Some(PortState::Closed)
    } else {
        None
    }
}

pub fn reply_state(flags: u8) -> (res: Option<PortState>)
    ensures
        res == reply_state_spec(flags),
{
    if flags & 0x02 != 0 && flags & 0x10 != 0 {
        Some(PortState::Open)
    } else if flags & 0x04 != 0 {
        Some(PortState::Closed)
    } else {
        None
    }
}

pub open spec fn distinct(s: Seq<u16>) -> bool {
    forall|i: int, j: int| 0 <= i < j < s.len() ==> s[i] != s[j]
}

/// How many of the states are `Filtered`.
pub open spec fn filtered_count(s: Seq<PortState>) -> nat
    decreases s.len(),
{
    if s.len() == 0 {
        0
    } else {
        filtered_count(s.drop_last()) + if s.last() == PortState::Filtered {
            1nat
        } else {
            0nat
        }
    }
}

/// The replies received so far during a SYN scan of one host: the state of
/// each probed port, kept in a map from port to state, the probed ports in
/// the order first given, and how many ports still await an answer.
pub struct SynTracker {
    ports: Vec<u16>,
    states: HashMap<u16, PortState>,
    pending: usize,
    target: u32,
}

impl SynTracker {
    /// The probed ports, each once, in the order first given.
    pub closed spec fn port_list(&self) -> Seq<u16> {
        self.ports@
    }

    /// The state of each port of `port_list`.
    pub closed spec fn state_list(&self) -> Seq<PortState> {
        self.ports@.map_values(|p: u16| self.states@[p])
    }

    /// The number of ports still awaiting an answer.
    pub closed spec fn pending_count(&self) -> nat {
        self.pending as nat
    }

    /// The scanned address.
    pub closed spec fn target_addr(&self) -> u32 {
        self.target
    }

    /// Well-formed: no port twice, the map holds exactly the probed ports,
    /// no port is open|filtered (a SYN scan never says so), and the pending
    /// count is the number of ports still filtered.
    pub closed spec fn wf(&self) -> bool {
        &&& distinct(self.ports@)
        &&& forall|p: u16| #[trigger] self.states@.contains_key(p) <==> self.ports@.contains(p)
        &&& forall|p: u16| self.states@.contains_key(p) ==> #[trigger] self.states@[p] != PortState::OpenFiltered
        &&& self.pending as nat == filtered_count(self.state_list())
    }

    /// Starts the bookkeeping for the probes sent to `ports` of `target`:
    /// every port filtered until it answers.
    pub fn new(target: u32, ports: &[u16]) -> (res: SynTracker)
        ensures
            res.wf(),
            res.target_addr() == target,
            res.state_list().len() == res.port_list().len(),
            distinct(res.port_list()),
            forall|p: u16| res.port_list().contains(p) <==> ports@.contains(p),
            forall|k: int| 0 <= k < res.state_list().len() ==> res.state_list()[k] == PortState::Filtered,
            res.pending_count() == res.port_list().len(),
    {
        let mut list: Vec<u16> = Vec::new();
        let mut states: HashMap<u16, PortState> = HashMap::new();
        let mut i: usize = 0;
        while i < ports.len()
            invariant
                i <= ports@.len(),
                list@.len() <= i,
                distinct(list@),
                forall|p: u16| #[trigger] states@.contains_key(p) <==> list@.contains(p),
                forall|p: u16| states@.contains_key(p) ==> #[trigger] states@[p] == PortState::Filtered,
                forall|p: u16| list@.contains(p) <==> ports@.take(i as int).contains(p),
            decreases ports.len() - i,
        {
            let p = ports[i];
            let ghost before = list@;
            assert forall|q: u16| before.contains(q) <==> ports@.take(i as int).contains(q) by {}
            let had = states.contains_key(&p);
            if !had {
                list.push(p);
                states.insert(p, PortState::Filtered);
                assert forall|q: u16| list@.contains(q) <==> before.contains(q) || q == p by {
                    if list@.contains(q) && q != p {
                        let k = choose|k: int| 0 <= k < list@.len() && list@[k] == q;
                        assert(before[k] == q);
                    }
                    if before.contains(q) {
                        let k = choose|k: int| 0 <= k < before.len() && before[k] == q;
                        assert(list@[k] == q);
                    }
                    if q == p {
                        assert(list@[list@.len() - 1] == p);
                    }
                }
                assert(distinct(list@)) by {
                    assert(!before.contains(p));
                    assert forall|a: int, b: int| 0 <= a < b < list@.len() implies list@[a] != list@[b] by {
                        if b == list@.len() - 1 {
                            assert(before[a] == list@[a]);
                        } else {
                            assert(before[a] == list@[a] && before[b] == list@[b]);
                        }
                    }
                }
            }
            assert forall|q: u16| ports@.take(i + 1).contains(q) <==> ports@.take(i as int).contains(q) || q == p by {
                if ports@.take(i + 1).contains(q) && q != p {
                    let k = choose|k: int| 0 <= k < i + 1 && #[trigger] ports@.take(i + 1)[k] == q;
                    assert(ports@.take(i as int)[k] == q);
                }
                if ports@.take(i as int).contains(q) {
                    let k = choose|k: int| 0 <= k < i && #[trigger] ports@.take(i as int)[k] == q;
                    assert(ports@.take(i + 1)[k] == q);
                }
                if q == p {
                    assert(ports@.take(i + 1)[i as int] == p);
                }
            }
            assert(list@.contains(p));
            assert forall|q: u16| list@.contains(q) <==> ports@.take(i + 1).contains(q) by {
                assert(ports@.take(i + 1).contains(q) <==> ports@.take(i as int).contains(q) || q == p);
                assert(before.contains(q) <==> ports@.take(i as int).contains(q));
                if had {
                    assert(list@ == before);
                    assert(before.contains(p));
                } else {
                    assert(list@.contains(q) <==> before.contains(q) || q == p);
                }
            }
            i = i + 1;
        }
        assert(ports@.take(ports@.len() as int) =~= ports@);
        let n = list.len();
        let t = SynTracker { ports: list, states, pending: n, target };
        assert forall|k: int| 0 <= k < t.state_list().len() implies t.state_list()[k] == PortState::Filtered by {
            assert(t.ports@.contains(t.ports@[k]));
            assert(t.states@.contains_key(t.ports@[k]));
        }
        proof {
            lemma_all_filtered(t.state_list());
        }
        t
    }

    /// Records a reply: from `src`, to local port `dst_port`, from port
    /// `src_port`, with TCP `flags`. A reply from another address, to
    /// another local port than the probes', from a port that was not probed,
    /// or with flags that say nothing, changes nothing. Otherwise the port
    /// takes the state the flags report, and if it was still filtered, one
    /// port less is pending.
    pub fn on_reply(&mut self, src: IpAddr, dst_port: u16, src_port: u16, flags: u8)
        requires
            old(self).wf(),
        ensures
            final(self).wf(),
            final(self).port_list() == old(self).port_list(),
            final(self).target_addr() == old(self).target_addr(),
            final(self).state_list().len() == old(self).state_list().len(),
            ({
                let relevant = src == IpAddr::V4(old(self).target_addr()) && dst_port == SYN_SOURCE_PORT
                    && old(self).port_list().contains(src_port) && reply_state_spec(flags) is Some;
                if relevant {
                    let k = choose|k: int| 0 <= k < old(self).port_list().len() && old(self).port_list()[k] == src_port;
                    &&& final(self).state_list() == old(self).state_list().update(k, reply_state_spec(flags)->0)
                    &&& final(self).pending_count() == old(self).pending_count() - (if old(self).state_list()[k] == PortState::Filtered { 1int } else { 0int })
                } else {
                    &&& final(self).state_list() == old(self).state_list()
                    &&& final(self).pending_count() == old(self).pending_count()
                }
            }),
    {
        let is_target = match src {
            IpAddr::V4(a) => a == self.target,
            IpAddr::V6(_) => false,
        };
        if !is_target || dst_port != SYN_SOURCE_PORT {
            return;
        }
        let new_state = match reply_state(flags) {
            Some(s) => s,
            None => {
                return;
            },
        };
        let old_state = match self.states.get(&src_port) {
            Some(st) => *st,
            None => {
                assert(!self.ports@.contains(src_port));
                return;
            },
        };
        assert(self.ports@.contains(src_port));
        let ghost before = self.state_list();
        let ghost k = choose|k: int| 0 <= k < self.ports@.len() && self.ports@[k] == src_port;
        assert(before[k] == old_state);
        self.states.insert(src_port, new_state);
        assert(self.state_list() =~= before.update(k, new_state)) by {
            assert forall|idx: int| 0 <= idx < self.ports@.len() implies #[trigger] self.state_list()[idx]
                == before.update(k, new_state)[idx] by {
                if idx != k {
                    assert(self.ports@[idx] != self.ports@[k]);
                }
            }
        }
        assert forall|p: u16| #[trigger] self.states@.contains_key(p) <==> self.ports@.contains(p) by {}
        proof {
            lemma_filtered_update(before, k, new_state);
            if old_state == PortState::Filtered {
                lemma_filtered_pos(before, k);
            }
        }
        if old_state == PortState::Filtered {
            self.pending = self.pending - 1;
        }
    }

    /// Whether every port has answered.
    pub fn is_done(&self) -> (res: bool)
        requires
            self.wf(),
        ensures
            res == (self.pending_count() == 0),
            res == (forall|k: int| 0 <= k < self.state_list().len() ==> self.state_list()[k] != PortState::Filtered),
    {
        proof {
            lemma_filtered_zero(self.state_list());
        }
        self.pending == 0
    }

    /// Each port with its state, in the order of `port_list`.
    pub fn results(&self) -> (res: Vec<(u16, PortState)>)
        requires
            self.wf(),
        ensures
            res@.len() == self.port_list().len(),
            self.state_list().len() == self.port_list().len(),
            forall|k: int| 0 <= k < res@.len() ==> res@[k] == (self.port_list()[k], self.state_list()[k]),
            forall|k: int| 0 <= k < res@.len() ==> res@[k].1 != PortState::OpenFiltered,
    {
        let mut out: Vec<(u16, PortState)> = Vec::new();
        let mut i: usize = 0;
        while i < self.ports.len()
            invariant
                self.wf(),
                i <= self.ports@.len(),
                out@.len() == i,
                forall|k: int| 0 <= k < i ==> out@[k] == (self.ports@[k], self.state_list()[k]),
                forall|k: int| 0 <= k < i ==> out@[k].1 != PortState::OpenFiltered,
            decreases self.ports.len() - i,
        {
            let p = self.ports[i];
            assert(self.ports@.contains(p));
            assert(self.states@.contains_key(p));
            let st = match self.states.get(&p) {
                Some(st) => *st,
                None => PortState::Filtered,
            };
            assert(st == self.state_list()[i as int]);
            out.push((p, st));
            i = i + 1;
        }
        out
    }
}

proof fn lemma_all_filtered(s: Seq<PortState>)
    requires
        forall|k: int| 0 <= k < s.len() ==> s[k] == PortState::Filtered,
    ensures
        filtered_count(s) == s.len(),
    decreases s.len(),
{
    if s.len() > 0 {
        lemma_all_filtered(s.drop_last());
    }
}

proof fn lemma_filtered_update(s: Seq<PortState>, j: int, v: PortState)
    requires
        0 <= j < s.len(),
    ensures
        filtered_count(s.update(j, v)) + (if s[j] == PortState::Filtered { 1int } else { 0int })
            == filtered_count(s) + (if v == PortState::Filtered { 1int } else { 0int }),
    decreases s.len(),
{
    if j < s.len() - 1 {
        lemma_filtered_update(s.drop_last(), j, v);
        assert(s.update(j, v).drop_last() =~= s.drop_last().update(j, v));
    } else {
        assert(s.update(j, v).drop_last() =~= s.drop_last());
    }
}

proof fn lemma_filtered_pos(s: Seq<PortState>, j: int)
    requires
        0 <= j < s.len(),
        s[j] == PortState::Filtered,
    ensures
        filtered_count(s) >= 1,
    decreases s.len(),
{
    if j < s.len() - 1 {
        lemma_filtered_pos(s.drop_last(), j);
    }
}

proof fn lemma_filtered_zero(s: Seq<PortState>)
    ensures
        filtered_count(s) == 0 <==> forall|k: int| 0 <= k < s.len() ==> s[k] != PortState::Filtered,
    decreases s.len(),
{
    if s.len() > 0 {
        lemma_filtered_zero(s.drop_last());
        if filtered_count(s) == 0 {
            assert forall|k: int| 0 <= k < s.len() implies s[k] != PortState::Filtered by {
                if k < s.len() - 1 {
                    assert(s.drop_last()[k] == s[k]);
                }
            }
        }
        if forall|k: int| 0 <= k < s.len() ==> s[k] != PortState::Filtered {
            assert forall|k: int| 0 <= k < s.drop_last().len() implies s.drop_last()[k] != PortState::Filtered by {
                assert(s.drop_last()[k] == s[k]);
            }
        }
    }
}


/// The 20-byte TCP header of a SYN probe from `source_port` to `dest_port`,
/// with sequence number `0x1337_0000 + dest_port`, no acknowledgement, a
/// header of five words, window 65535, and `checksum`.
pub open spec fn syn_header(source_port: u16, dest_port: u16, checksum: u16) -> Seq<u8> {
    seq![
        (source_port / 256) as u8, (source_port % 256) as u8,
        (dest_port / 256) as u8, (dest_port % 256) as u8,
        0x13u8, 0x37u8, (dest_port / 256) as u8, (dest_port % 256) as u8,
        0u8, 0u8, 0u8, 0u8,
        0x50u8, 0x02u8,
        0xffu8, 0xffu8,
        (checksum / 256) as u8, (checksum % 256) as u8,
        0u8, 0u8,
    ]
}

/// The sum of the big-endian 16-bit words `0..n` of `b`, leaving out word
/// `skip` (a checksum field).
pub open spec fn words_except(b: Seq<u8>, skip: int, n: nat) -> nat
    decreases n,
{
    if n == 0 {
        0
    } else {
        words_except(b, skip, (n - 1) as nat) + if n - 1 == skip {
            0nat
        } else {
            (b[2 * (n - 1)] as nat) * 256 + b[2 * (n - 1) + 1] as nat
        }
    }
}

/// Adds the carries above 16 bits back in until none are left.
pub open spec fn fold_carries(x: nat) -> nat
    decreases x,
{
    if x < 0x10000 {
        x
    } else {
        fold_carries(x / 0x10000 + x % 0x10000)
    }
}

/// The TCP checksum over IPv4 of a 20-byte segment (as
/// `pnet::packet::tcp::ipv4_checksum` computes it): the one's complement of
/// the one's-complement sum of the pseudo-header (addresses, protocol 6,
/// length) and of the segment's words other than the checksum field.
pub open spec fn tcp_checksum(segment: Seq<u8>, src: u32, dst: u32) -> u16 {
    let total = src / 0x10000 + src % 0x10000 + dst / 0x10000 + dst % 0x10000 + 6 + 20 + words_except(segment, 8, 10);
    (0xFFFF - fold_carries(total as nat)) as u16
}

/// The SYN probe from `src` to port `dest_port` of `dst`, checksum included.
pub open spec fn syn_segment_spec(dest_port: u16, src: u32, dst: u32) -> Seq<u8> {
    syn_header(
        SYN_SOURCE_PORT,
        dest_port,
        tcp_checksum(syn_header(SYN_SOURCE_PORT, dest_port, 0), src, dst),
    )
}

/// The IPv4 pseudo-header of a 20-byte TCP segment: the source and
/// destination addresses, a zero byte, protocol 6 and the length 20.
pub open spec fn pseudo_header(src: u32, dst: u32) -> Seq<u8> {
    seq![
        (src / 0x1000000) as u8, (src / 0x10000 % 256) as u8, (src / 256 % 256) as u8, (src % 256) as u8,
        (dst / 0x1000000) as u8, (dst / 0x10000 % 256) as u8, (dst / 256 % 256) as u8, (dst % 256) as u8,
        0u8, 6u8, 0u8, 20u8,
    ]
}

/// `pnet::packet::util::checksum`: the one's complement of the sum of the
/// big-endian words of `data` other than word `skipword`, carries folded
/// back in. Stated for a non-empty buffer of an even number of bytes, small
/// enough that the sum stays within its `u32`.
#[verifier::external_body]
fn pnet_checksum(data: &[u8], skipword: usize) -> (res: u16)
    requires
        0 < data@.len() <= 0x10000,
        data@.len() % 2 == 0,
    ensures
        res == (0xFFFF - fold_carries(words_except(data@, skipword as int, (data@.len() / 2) as nat))) as u16,
{
    pnet::packet::util::checksum(data, skipword)
}

proof fn lemma_words_prefix(p: Seq<u8>, t: Seq<u8>, skip: int, k: nat)
    requires
        2 * k <= p.len(),
    ensures
        words_except(p + t, skip, k) == words_except(p, skip, k),
    decreases k,
{
    if k > 0 {
        lemma_words_prefix(p, t, skip, (k - 1) as nat);
        assert((p + t)[2 * (k - 1)] == p[2 * (k - 1)]);
        assert((p + t)[2 * (k - 1) + 1] == p[2 * (k - 1) + 1]);
    }
}

proof fn lemma_words_concat(p: Seq<u8>, t: Seq<u8>, n: nat)
    requires
        p.len() == 12,
        2 * n <= t.len(),
    ensures
        words_except(p + t, 14, 6 + n) == words_except(p, 14, 6) + words_except(t, 8, n),
    decreases n,
{
    if n == 0 {
        lemma_words_prefix(p, t, 14, 6);
    } else {
        lemma_words_concat(p, t, (n - 1) as nat);
        assert((p + t)[2 * (6 + n - 1)] == t[2 * (n - 1)]);
        assert((p + t)[2 * (6 + n - 1) + 1] == t[2 * (n - 1) + 1]);
    }
}

proof fn lemma_pseudo_words(src: u32, dst: u32)
    ensures
        words_except(pseudo_header(src, dst), 14, 6) == src / 0x10000 + src % 0x10000 + dst / 0x10000
            + dst % 0x10000 + 6 + 20,
{
    let p = pseudo_header(src, dst);
    assert((src / 0x1000000) * 256 + (src / 0x10000) % 256 == src / 0x10000) by (bit_vector);
    assert(((src / 256) % 256) * 256 + src % 256 == src % 0x10000) by (bit_vector);
    assert((dst / 0x1000000) * 256 + (dst / 0x10000) % 256 == dst / 0x10000) by (bit_vector);
    assert(((dst / 256) % 256) * 256 + dst % 256 == dst % 0x10000) by (bit_vector);
    assert(src / 0x1000000 < 256 && dst / 0x1000000 < 256);
    assert(p[0] as nat == src / 0x1000000 && p[1] as nat == src / 0x10000 % 256);
    assert(p[2] as nat == src / 256 % 256 && p[3] as nat == src % 256);
    assert(p[4] as nat == dst / 0x1000000 && p[5] as nat == dst / 0x10000 % 256);
    assert(p[6] as nat == dst / 256 % 256 && p[7] as nat == dst % 256);
    assert(words_except(p, 14, 0) == 0);
    assert(words_except(p, 14, 1) == src / 0x10000);
    assert(words_except(p, 14, 2) == src / 0x10000 + src % 0x10000);
    assert(words_except(p, 14, 3) == src / 0x10000 + src % 0x10000 + dst / 0x10000);
    assert(words_except(p, 14, 4) == src / 0x10000 + src % 0x10000 + dst / 0x10000 + dst % 0x10000);
    assert(words_except(p, 14, 5) == src / 0x10000 + src % 0x10000 + dst / 0x10000 + dst % 0x10000 + 6);
}

/// Builds the SYN probe sent from `src` to port `dest_port` of `dst`; the
/// checksum is pnet's, over the pseudo-header and the segment.
pub fn syn_segment(dest_port: u16, src: u32, dst: u32) -> (res: Vec<u8>)
    ensures
        res@ == syn_segment_spec(dest_port, src, dst),
{
    let seq_no = simple_seq(dest_port);
    let sp = SYN_SOURCE_PORT;
    let mut h: Vec<u8> = vec![
        (sp / 256) as u8, (sp % 256) as u8,
        (dest_port / 256) as u8, (dest_port % 256) as u8,
        (seq_no / 0x1000000) as u8, (seq_no / 0x10000 % 256) as u8,
        (seq_no / 256 % 256) as u8, (seq_no % 256) as u8,
        0u8, 0u8, 0u8, 0u8,
        0x50u8, 0x02u8,
        0xffu8, 0xffu8,
        0u8, 0u8,
        0u8, 0u8,
    ];
    assert(h@ =~= syn_header(SYN_SOURCE_PORT, dest_port, 0));
    let mut buf: Vec<u8> = vec![
        (src / 0x1000000) as u8, (src / 0x10000 % 256) as u8, (src / 256 % 256) as u8, (src % 256) as u8,
        (dst / 0x1000000) as u8, (dst / 0x10000 % 256) as u8, (dst / 256 % 256) as u8, (dst % 256) as u8,
        0u8, 6u8, 0u8, 20u8,
    ];
    assert(buf@ =~= pseudo_header(src, dst));
    let mut i: usize = 0;
    while i < 20
        invariant
            i <= 20,
            h@.len() == 20,
            buf@ == pseudo_header(src, dst) + h@.take(i as int),
        decreases 20 - i,
    {
        buf.push(h[i]);
        assert(h@.take(i + 1) =~= h@.take(i as int).push(h@[i as int]));
        i = i + 1;
    }
    assert(h@.take(20) =~= h@);
    proof {
        lemma_words_concat(pseudo_header(src, dst), h@, 10);
        lemma_pseudo_words(src, dst);
    }
    let c = pnet_checksum(buf.as_slice(), 14);
    assert(c == tcp_checksum(syn_header(SYN_SOURCE_PORT, dest_port, 0), src, dst));
    h.set(16, (c / 256) as u8);
    h.set(17, (c % 256) as u8);
    assert(h@ =~= syn_segment_spec(dest_port, src, dst));
    h
}

/// The one's-complement sum that a receiver computes over the pseudo-header
/// and all ten words of a 20-byte segment, the checksum field included.
pub open spec fn received_sum(segment: Seq<u8>, src: u32, dst: u32) -> nat {
    (src / 0x10000 + src % 0x10000 + dst / 0x10000 + dst % 0x10000 + 6 + 20 + words_except(segment, 8, 10)
        + (segment[16] as nat) * 256 + segment[17] as nat) as nat
}

proof fn lemma_fold_carries(x: nat)
    ensures
        fold_carries(x) < 0x10000,
        fold_carries(x) % 0xFFFF == x % 0xFFFF,
        x > 0 ==> fold_carries(x) > 0,
    decreases x,
{
    if x >= 0x10000 {
        let q = x / 0x10000;
        let r = x % 0x10000;
        assert(x == 0x10000 * q + r);
        assert(q >= 1);
        assert(q + r < x);
        lemma_fold_carries((q + r) as nat);
        assert(x == 0xFFFF * q + (q + r));
        vstd::arithmetic::div_mod::lemma_mod_multiples_vanish(q as int, (q + r) as int, 0xFFFF);
    }
}

proof fn lemma_word_sum_ignores_checksum(sp: u16, dp: u16, c: u16, n: nat)
    requires
        n <= 10,
    ensures
        words_except(syn_header(sp, dp, c), 8, n) == words_except(syn_header(sp, dp, 0), 8, n),
    decreases n,
{
    if n > 0 {
        lemma_word_sum_ignores_checksum(sp, dp, c, (n - 1) as nat);
        let k = n - 1;
        if k != 8 {
            assert(syn_header(sp, dp, c)[2 * k] == syn_header(sp, dp, 0)[2 * k]);
            assert(syn_header(sp, dp, c)[2 * k + 1] == syn_header(sp, dp, 0)[2 * k + 1]);
        }
    }
}

/// A receiver that adds up a SYN probe with its pseudo-header, checksum
/// included, folding the carries, gets `0xFFFF`: the checksum verifies.
pub proof fn lemma_syn_checksum_verifies(dest_port: u16, src: u32, dst: u32)
    ensures
        fold_carries(received_sum(syn_segment_spec(dest_port, src, dst), src, dst)) == 0xFFFF,
{
    let h0 = syn_header(SYN_SOURCE_PORT, dest_port, 0);
    let total = (src / 0x10000 + src % 0x10000 + dst / 0x10000 + dst % 0x10000 + 6 + 20 + words_except(h0, 8, 10)) as nat;
    lemma_fold_carries(total);
    let f = fold_carries(total);
    let c = tcp_checksum(h0, src, dst);
    assert(c == 0xFFFF - f);
    let seg = syn_segment_spec(dest_port, src, dst);
    lemma_word_sum_ignores_checksum(SYN_SOURCE_PORT, dest_port, c, 10);
    assert(seg[16] == (c / 256) as u8 && seg[17] == (c % 256) as u8);
    assert((c / 256) as u8 as nat * 256 + (c % 256) as u8 as nat == c as nat);
    let r = received_sum(seg, src, dst);
    assert(r == total + c);
    lemma_fold_carries(r);
    let g = fold_carries(r);
    assert(total % 0xFFFF == f % 0xFFFF);
    assert(r % 0xFFFF == 0) by {
        assert(r == total + 0xFFFF - f);
        assert(total == 0xFFFF * (total / 0xFFFF) + total % 0xFFFF);
        assert(f == 0xFFFF * (f / 0xFFFF) + f % 0xFFFF);
        assert(f < 0x10000);
        assert(f / 0xFFFF <= 1);
        assert(r == 0xFFFF * (total / 0xFFFF - f / 0xFFFF + 1)) by (nonlinear_arith)
            requires
                r == total + 0xFFFF - f,
                total == 0xFFFF * (total / 0xFFFF) + total % 0xFFFF,
                f == 0xFFFF * (f / 0xFFFF) + f % 0xFFFF,
                total % 0xFFFF == f % 0xFFFF,
        ;
        vstd::arithmetic::div_mod::lemma_mod_multiples_vanish(
            (total / 0xFFFF - f / 0xFFFF + 1) as int,
            0,
            0xFFFF,
        );
    }
    assert(r > 0);
    assert(g > 0 && g < 0x10000 && g % 0xFFFF == 0);
}

} // verus!
