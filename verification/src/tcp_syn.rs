//! TCP SYN host discovery: the layout of the SYN segments that are sent,
//! the choice of the source port that identifies a probe, and the
//! classification of the segments that come back.

use vstd::prelude::*;

use rand::RngExt;

use crate::config::TCP_PORTS;
use crate::ipv4::Ipv4Addr;

verus! {

/// Full TCP header length with the options written by [`build_syn`]
/// (20-byte base header + 12 bytes of options -> data offset 8).
pub const TCP_HEADER_LEN: usize = 32;

/// The shortest buffer a SYN can be written into: the header up to its
/// last option byte (the option area's twelfth byte is never written).
pub const MIN_SYN_BUFFER: usize = 31;

/// The `SYN` bit of the TCP flags byte.
pub const FLAG_SYN: u8 = 0x02;

/// The `RST` bit of the TCP flags byte.
pub const FLAG_RST: u8 = 0x04;

/// The `ACK` bit of the TCP flags byte.
pub const FLAG_ACK: u8 = 0x10;

/// Window size advertised in the SYN.
pub const SYN_WINDOW: u16 = 64240;

/// Lowest source port a probe may use.
pub const SOURCE_PORT_MIN: u16 = 32768;

/// One past the highest source port a probe may use.
pub const SOURCE_PORT_END: u16 = 61000;

/// The two bytes of `v`, most significant first.
pub open spec fn be16(v: u16) -> Seq<u8> {
    seq![(v / 256) as u8, (v % 256) as u8]
}

/// The four bytes of `v`, most significant first.
pub open spec fn be32(v: u32) -> Seq<u8> {
    seq![(v / 0x100_0000) as u8, ((v / 0x1_0000) % 256) as u8, ((v / 256) % 256) as u8, (v % 256) as u8]
}

/// The big-endian 16-bit number at `s[i..i + 2]`.
pub open spec fn read_be16(s: Seq<u8>, i: int) -> int {
    s[i] * 256 + s[i + 1]
}

/// The big-endian 32-bit number at `s[i..i + 4]`.
pub open spec fn read_be32(s: Seq<u8>, i: int) -> int {
    s[i] * 0x100_0000 + s[i + 1] * 0x1_0000 + s[i + 2] * 256 + s[i + 3]
}

/// The SYN options, in order: MSS 1460 (kind 2, length 4), SACK permitted
/// (kind 4, length 2), NOP, NOP, window scale 7 (kind 3, length 3).
pub open spec fn syn_options() -> Seq<u8> {
    seq![2u8, 4u8, 5u8, 180u8, 4u8, 2u8, 1u8, 1u8, 3u8, 3u8, 7u8]
}

/// The buffer `old` once the SYN header fields and options are written
/// into it, before the checksum: source and destination port, sequence
/// number, acknowledgement 0, data offset 8 (the reserved low half of byte
/// 12 is kept), flags `SYN`, window 64240, checksum bytes untouched,
/// urgent pointer 0, then the options. Byte 31 (the option area's last,
/// unused byte) and any bytes after the header are kept.
pub open spec fn syn_unchecked(old: Seq<u8>, sport: u16, dport: u16, seq: u32) -> Seq<u8> {
    be16(sport) + be16(dport) + be32(seq) + seq![0u8, 0u8, 0u8, 0u8] + seq![
        (0x80u8 | (old[12] & 0x0fu8)),
        FLAG_SYN,
    ] + be16(SYN_WINDOW) + old.subrange(16, 18) + seq![0u8, 0u8] + syn_options() + old.subrange(
        31,
        old.len() as int,
    )
}

/// The buffer `old` holding the SYN from `src:sport` to `dst:dport` with
/// sequence number `seq`: [`syn_unchecked`] with its checksum field set to
/// the TCP checksum over the IPv4 pseudo-header and the whole buffer.
pub open spec fn spec_syn_segment(
    old: Seq<u8>,
    src: Ipv4Addr,
    dst: Ipv4Addr,
    sport: u16,
    dport: u16,
    seq: u32,
) -> Seq<u8> {
    let s = syn_unchecked(old, sport, dport, seq);
    let c = tcp_ipv4_checksum(s, src.spec_to_bits(), dst.spec_to_bits());
    s.update(16, (c / 256) as u8).update(17, (c % 256) as u8)
}

/// What `pnet::packet::tcp::ipv4_checksum` returns for a TCP segment whose
/// bytes are `segment`, sent from the IPv4 address with 32-bit value
/// `source` to the one with value `destination`.
pub uninterp spec fn tcp_ipv4_checksum(segment: Seq<u8>, source: u32, destination: u32) -> u16;

/// `a` and `b` have the same length and differ at most in the checksum
/// field, bytes 16 and 17.
pub open spec fn same_but_checksum(a: Seq<u8>, b: Seq<u8>) -> bool {
    &&& a.len() == b.len()
    &&& forall|i: int| 0 <= i < a.len() && i != 16 && i != 17 ==> a[i] == b[i]
}

/// Calls `pnet::packet::tcp::ipv4_checksum` on `segment` viewed as a TCP
/// packet. Claimed: the result is [`tcp_ipv4_checksum`] of exactly these
/// arguments; it is the same for every segment that differs from this one
/// only in the checksum field (pnet sums the segment's 16-bit words with
/// word 8, bytes 16 and 17, skipped, and the pseudo-header only uses the
/// length); and the call returns without panicking when the segment holds
/// at least the 20-byte fixed header (`TcpPacket::new` succeeds) and at most
/// 65535 bytes (pnet's 32-bit running sum cannot overflow).
#[verifier::external_body]
fn tcp_checksum(segment: &[u8], source: u32, destination: u32) -> (r: u16)
    requires
        20 <= segment@.len() <= 65535,
    ensures
        r == tcp_ipv4_checksum(segment@, source, destination),
        forall|other: Seq<u8>|
            #![trigger tcp_ipv4_checksum(other, source, destination)]
            same_but_checksum(other, segment@) ==> tcp_ipv4_checksum(other, source, destination)
                == r,
{
    let packet = pnet::packet::tcp::TcpPacket::new(segment).unwrap();
    pnet::packet::tcp::ipv4_checksum(
        &packet,
        &pnet::util::core_net::Ipv4Addr::from(source),
        &pnet::util::core_net::Ipv4Addr::from(destination),
    )
}

/// A random 32-bit number from `rand::rng().random()`. Nothing is claimed
/// of its value.
#[verifier::external_body]
fn random_sequence() -> (r: u32) {
    rand::rng().random()
}

/// A random number in `low..high` from `rand::random_range`. Claimed: it
/// lies in that range (the crate documents the result as a value in the
/// given range, and panics only on an empty range, which `requires` rules
/// out).
#[verifier::external_body]
fn random_in_range(low: u16, high: u16) -> (r: u16)
    requires
        low < high,
    ensures
        low <= r < high,
{
    rand::random_range(low..high)
}

/// Write the SYN from `src:sport` to `dst:dport` with sequence number `seq`
/// into `buf`, checksum included; see [`spec_syn_segment`].
pub fn write_syn(
    buf: &mut [u8],
    src: Ipv4Addr,
    dst: Ipv4Addr,
    sport: u16,
    dport: u16,
    seq: u32,
)
    requires
        MIN_SYN_BUFFER <= old(buf)@.len() <= 65535,
    ensures
        final(buf)@ == spec_syn_segment(old(buf)@, src, dst, sport, dport, seq),
        read_be16(final(buf)@, 16) == tcp_ipv4_checksum(
            final(buf)@,
            src.spec_to_bits(),
            dst.spec_to_bits(),
        ),
{
    let ghost old_buf = buf@;
    buf[0] = (sport / 256) as u8;
    buf[1] = (sport % 256) as u8;
    buf[2] = (dport / 256) as u8;
    buf[3] = (dport % 256) as u8;
    buf[4] = (seq / 0x100_0000) as u8;
    buf[5] = ((seq / 0x1_0000) % 256) as u8;
    buf[6] = ((seq / 256) % 256) as u8;
    buf[7] = (seq % 256) as u8;
    buf[8] = 0;
    buf[9] = 0;
    buf[10] = 0;
    buf[11] = 0;
    let reserved = buf[12] & 0x0f;
    buf[12] = 0x80 | reserved;
    buf[13] = FLAG_SYN;
    buf[14] = (SYN_WINDOW / 256) as u8;
    buf[15] = (SYN_WINDOW % 256) as u8;
    buf[18] = 0;
    buf[19] = 0;
    // MSS 1460
    buf[20] = 2;
    buf[21] = 4;
    buf[22] = 5;
    buf[23] = 180;
    // SACK permitted
    buf[24] = 4;
    buf[25] = 2;
    // NOP, NOP
    buf[26] = 1;
    buf[27] = 1;
    // window scale 7
    buf[28] = 3;
    buf[29] = 3;
    buf[30] = 7;
    assert(buf@ =~= syn_unchecked(old_buf, sport, dport, seq));
    let c = tcp_checksum(buf, src.to_bits(), dst.to_bits());
    let ghost unchecked = buf@;
    buf[16] = (c / 256) as u8;
    buf[17] = (c % 256) as u8;
    assert(same_but_checksum(buf@, unchecked));
    assert(tcp_ipv4_checksum(buf@, src.spec_to_bits(), dst.spec_to_bits()) == c);
}

/// Build one TCP SYN segment with common options (MSS/SACK/WScale) in
/// `buf`, with a random sequence number, which is returned.
pub fn build_syn(buf: &mut [u8], src: Ipv4Addr, dst: Ipv4Addr, sport: u16, dport: u16) -> (seq:
    u32)
    requires
        MIN_SYN_BUFFER <= old(buf)@.len() <= 65535,
    ensures
        final(buf)@ == spec_syn_segment(old(buf)@, src, dst, sport, dport, seq),
        read_be16(final(buf)@, 16) == tcp_ipv4_checksum(
            final(buf)@,
            src.spec_to_bits(),
            dst.spec_to_bits(),
        ),
{
    let seq = random_sequence();
    write_syn(buf, src, dst, sport, dport, seq);
    seq
}


/// A reply with these TCP flags shows that the host is up: it answered the
/// SYN with a SYN-ACK (port open) or with an RST (port closed).
pub open spec fn is_alive_flags(flags: u8) -> bool {
    ||| (flags & FLAG_SYN != 0 && flags & FLAG_ACK != 0)
    ||| flags & FLAG_RST != 0
}

/// Executable form of [`is_alive_flags`].
pub fn is_alive_reply(flags: u8) -> (r: bool)
    ensures
        r == is_alive_flags(flags),
{
    (flags & FLAG_SYN != 0 && flags & FLAG_ACK != 0) || flags & FLAG_RST != 0
}

/// The destination port of an inbound TCP segment that shows its sender is
/// up, which is the source port of the probe it answers; `None` for a
/// segment too short to hold a TCP header or with other flags.
pub open spec fn spec_reply_port(segment: Seq<u8>) -> Option<u16> {
    if segment.len() >= 20 && is_alive_flags(segment[13]) {
        Some(read_be16(segment, 2) as u16)
    } else {
        None
    }
}

/// Matches an inbound TCP segment to the probe it answers: the destination
/// port when the flags are SYN-ACK or RST, otherwise `None`.
pub fn reply_port(segment: &[u8]) -> (r: Option<u16>)
    ensures
        r == spec_reply_port(segment@),
{
    if segment.len() < 20 || !is_alive_reply(segment[13]) {
        return None;
    }
    let hi = segment[2] as u16;
    let lo = segment[3] as u16;
    Some(hi * 256 + lo)
}

/// Pick the source port that identifies one probe's replies, at random in
/// the ephemeral range `SOURCE_PORT_MIN..SOURCE_PORT_END`.
pub fn choose_source_port() -> (p: u16)
    ensures
        SOURCE_PORT_MIN <= p < SOURCE_PORT_END,
{
    random_in_range(SOURCE_PORT_MIN, SOURCE_PORT_END)
}

/// A zeroed buffer of one header's length, which is what the segments of
/// [`syn_segments`] are written into.
pub open spec fn zero_header() -> Seq<u8> {
    Seq::new(TCP_HEADER_LEN as nat, |i: int| 0u8)
}

/// The SYN segments for one probe of `dst`: one per configured port, in
/// the order of `TCP_PORTS`, each with a random sequence number (returned
/// beside it).
pub fn syn_segments(src: Ipv4Addr, dst: Ipv4Addr, sport: u16) -> (r: Vec<(Vec<u8>, u32)>)
    ensures
        r@.len() == TCP_PORTS@.len(),
        forall|k: int|
            0 <= k < r@.len() ==> read_be16((#[trigger] r@[k]).0@, 16) == tcp_ipv4_checksum(
                r@[k].0@,
                src.spec_to_bits(),
                dst.spec_to_bits(),
            ),
        forall|k: int|
            0 <= k < r@.len() ==> (#[trigger] r@[k]).0@ == spec_syn_segment(
                zero_header(),
                src,
                dst,
                sport,
                TCP_PORTS@[k],
                r@[k].1,
            ),
{
    let ports = TCP_PORTS;
    let mut r: Vec<(Vec<u8>, u32)> = Vec::new();
    let mut k: usize = 0;
    while k < ports.len()
        invariant
            ports@ == TCP_PORTS@,
            k <= ports@.len(),
            r@.len() == k,
            forall|j: int|
                0 <= j < k ==> read_be16((#[trigger] r@[j]).0@, 16) == tcp_ipv4_checksum(
                    r@[j].0@,
                    src.spec_to_bits(),
                    dst.spec_to_bits(),
                ),
            forall|j: int|
                0 <= j < k ==> (#[trigger] r@[j]).0@ == spec_syn_segment(
                    zero_header(),
                    src,
                    dst,
                    sport,
                    TCP_PORTS@[j],
                    r@[j].1,
                ),
        decreases ports@.len() - k,
    {
        let mut buf: Vec<u8> = vec![0u8; TCP_HEADER_LEN];
        assert(buf@ =~= zero_header());
        let seq = build_syn(buf.as_mut_slice(), src, dst, sport, ports[k]);
        r.push((buf, seq));
        k = k + 1;
    }
    r
}

/// Reading the fields back from a built SYN gives what was written: the
/// ports, the sequence number, data offset 8, the `SYN` flag alone, window
/// 64240, the checksum over the segment and the options; the length is
/// unchanged.
pub proof fn law_syn_fields_read_back(
    old: Seq<u8>,
    src: Ipv4Addr,
    dst: Ipv4Addr,
    sport: u16,
    dport: u16,
    seq: u32,
)
    requires
        MIN_SYN_BUFFER <= old.len(),
    ensures
        ({
            let seg = spec_syn_segment(old, src, dst, sport, dport, seq);
            &&& seg.len() == old.len()
            &&& read_be16(seg, 0) == sport
            &&& read_be16(seg, 2) == dport
            &&& read_be32(seg, 4) == seq
            &&& read_be32(seg, 8) == 0
            &&& seg[12] / 16 == 8
            &&& seg[13] == FLAG_SYN
            &&& read_be16(seg, 14) == SYN_WINDOW
            &&& read_be16(seg, 16) == tcp_ipv4_checksum(
                syn_unchecked(old, sport, dport, seq),
                src.spec_to_bits(),
                dst.spec_to_bits(),
            )
            &&& read_be16(seg, 18) == 0
            &&& seg.subrange(20, 31) == syn_options()
            &&& seg.subrange(31, seg.len() as int) == old.subrange(31, old.len() as int)
        }),
{
    let seg = spec_syn_segment(old, src, dst, sport, dport, seq);
    let r = old[12];
    assert((0x80u8 | (r & 0x0fu8)) / 16 == 8) by (bit_vector);
    assert(seg.subrange(20, 31) =~= syn_options());
    assert(seg.subrange(31, seg.len() as int) =~= old.subrange(31, old.len() as int));
}

/// A SYN that this library builds is never taken for a reply to a probe:
/// it carries `SYN` without `ACK` and no `RST`.
pub proof fn law_own_syn_is_not_a_reply(
    old: Seq<u8>,
    src: Ipv4Addr,
    dst: Ipv4Addr,
    sport: u16,
    dport: u16,
    seq: u32,
)
    requires
        MIN_SYN_BUFFER <= old.len(),
    ensures
        spec_reply_port(spec_syn_segment(old, src, dst, sport, dport, seq)) is None,
{
    assert(!is_alive_flags(FLAG_SYN)) by (bit_vector);
}

/// Which flags bytes count as an answer, case by case: any byte with `RST`
/// set does; one with `SYN` and `ACK` both set does; one with neither `SYN`
/// nor `RST` set (such as `ACK`, `PSH|ACK` or `FIN|ACK`) never does; and one
/// with `SYN` but neither `ACK` nor `RST` (a bare SYN) does not either.
pub proof fn law_alive_flags_cases(flags: u8)
    ensures
        flags & 0x04u8 == 0x04u8 ==> is_alive_flags(flags),
        flags & 0x12u8 == 0x12u8 ==> is_alive_flags(flags),
        flags & 0x06u8 == 0u8 ==> !is_alive_flags(flags),
        flags & 0x16u8 == 0x02u8 ==> !is_alive_flags(flags),
{
    assert(flags & 0x04u8 == 0x04u8 ==> (flags & 0x04u8 != 0)) by (bit_vector);
    assert(flags & 0x12u8 == 0x12u8 ==> (flags & 0x02u8 != 0 && flags & 0x10u8 != 0))
        by (bit_vector);
    assert(flags & 0x06u8 == 0u8 ==> (flags & 0x02u8 == 0 && flags & 0x04u8 == 0))
        by (bit_vector);
    assert(flags & 0x16u8 == 0x02u8 ==> (flags & 0x10u8 == 0 && flags & 0x04u8 == 0))
        by (bit_vector);
}

/// A segment that carries neither `SYN` nor `RST` is never matched to a
/// probe, whatever its ports.
pub proof fn law_segment_without_syn_or_rst_is_ignored(segment: Seq<u8>)
    requires
        segment.len() >= 20,
        segment[13] & 0x06u8 == 0u8,
    ensures
        spec_reply_port(segment) is None,
{
    law_alive_flags_cases(segment[13]);
}

/// A segment answering the probe on source port `sport` with SYN-ACK or RST
/// is matched back to `sport`; any other flags are not matched.
pub proof fn law_reply_matches_probe_port(segment: Seq<u8>, sport: u16)
    requires
        segment.len() >= 20,
        read_be16(segment, 2) == sport,
    ensures
        spec_reply_port(segment) == (if is_alive_flags(segment[13]) {
            Some(sport)
        } else {
            None
        }),
{
}


/// How waiting for a probe's reply ended.
#[derive(Clone, Copy, Debug, PartialEq, Eq, Structural)]
pub enum WaitOutcome {
    /// The receiver matched a SYN-ACK or RST to the probe's port in time.
    Replied,
    /// The notification channel closed without a reply.
    Closed,
    /// No reply before `TCP_TIMEOUT_MS`.
    TimedOut,
}

/// Where one TCP SYN probe of a host stands.
#[derive(Clone, Copy, Debug, PartialEq, Eq, Structural)]
pub enum SynPhase {
    /// The source port is chosen; registering it for replies is next.
    PortChosen,
    /// The source port is registered for replies; the SYN job is next.
    Registered,
    /// The SYN job went to the sender; a reply is awaited.
    AwaitingReply,
    /// The probe is over; the port is to be unregistered.
    Done { alive: bool },
}

/// One TCP SYN probe of one host: its source port, which identifies its
/// replies, and its phase.
pub struct SynProbe {
    sport: u16,
    phase: SynPhase,
}

impl SynProbe {
    /// The probe's source port.
    pub closed spec fn spec_sport(self) -> u16 {
        self.sport
    }

    /// The probe's phase.
    pub closed spec fn spec_phase(self) -> SynPhase {
        self.phase
    }

    /// Start a probe on a fresh random source port. The port must be
    /// registered for replies ([`SynProbe::registered`]) before the SYN job
    /// is handed to the sender, so that a fast reply is never missed.
    pub fn start() -> (p: SynProbe)
        ensures
            SOURCE_PORT_MIN <= p.spec_sport() < SOURCE_PORT_END,
            p.spec_phase() == SynPhase::PortChosen,
    {
        SynProbe { sport: choose_source_port(), phase: SynPhase::PortChosen }
    }

    /// The probe's source port has been registered for replies.
    pub fn registered(&mut self)
        requires
            old(self).spec_phase() == SynPhase::PortChosen,
        ensures
            final(self).spec_sport() == old(self).spec_sport(),
            final(self).spec_phase() == SynPhase::Registered,
    {
        self.phase = SynPhase::Registered;
    }

    /// The probe's source port.
    pub fn sport(&self) -> (r: u16)
        ensures
            r == self.spec_sport(),
    {
        self.sport
    }

    /// The probe's phase.
    pub fn phase(&self) -> (r: SynPhase)
        ensures
            r == self.spec_phase(),
    {
        self.phase
    }

    /// The SYN job was handed to the sender (`sent`), or the sender is gone.
    /// Without a sent job there is nothing to wait for and the host counts
    /// as dead.
    pub fn job_sent(&mut self, sent: bool)
        requires
            old(self).spec_phase() == SynPhase::Registered,
        ensures
            final(self).spec_sport() == old(self).spec_sport(),
            final(self).spec_phase() == (if sent {
                SynPhase::AwaitingReply
            } else {
                SynPhase::Done { alive: false }
            }),
    {
        self.phase = if sent {
            SynPhase::AwaitingReply
        } else {
            SynPhase::Done { alive: false }
        };
    }

    /// Waiting for the reply ended with `outcome`: the host is alive exactly
    /// when a reply arrived.
    pub fn wait_ended(&mut self, outcome: WaitOutcome)
        requires
            old(self).spec_phase() == SynPhase::AwaitingReply,
        ensures
            final(self).spec_sport() == old(self).spec_sport(),
            final(self).spec_phase() == (SynPhase::Done { alive: outcome == WaitOutcome::Replied }),
    {
        let alive = match outcome {
            WaitOutcome::Replied => true,
            _ => false,
        };
        self.phase = SynPhase::Done { alive };
    }
}

} // verus!
