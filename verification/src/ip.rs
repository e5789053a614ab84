//! This module implements the IP protocol, and the checksum of RFC 1071 that its headers carry.
use crate::net::BufList;
use vstd::prelude::*;

verus! {

/// The default TTL value.
pub const DEFAULT_TTL: u8 = 128;
/// Protocol: TCP
pub const PROTO_TCP: u8 = 0x06;
/// Protocol: UDP
pub const PROTO_UDP: u8 = 0x11;
/// The size of an IPv4 header without options, in bytes.
pub const IPV4_HEADER_SIZE: usize = 20;

/// The 16-bit word `k` of `d`, its bytes in memory order on a little-endian machine; the last
/// byte alone if `d` has an odd length.
pub open spec fn word_at(d: Seq<u8>, k: int) -> nat {
    if 2 * k + 1 < d.len() {
        (d[2 * k] + 256 * d[2 * k + 1]) as nat
    } else {
        d[2 * k] as nat
    }
}

/// The sum of the first `k` words of `d`.
pub open spec fn words_sum(d: Seq<u8>, k: nat) -> nat
    decreases k,
{
    if k == 0 {
        0
    } else {
        words_sum(d, (k - 1) as nat) + word_at(d, k - 1)
    }
}

/// The number of 16-bit words of `d`, the last one possibly incomplete.
pub open spec fn word_count(d: Seq<u8>) -> nat {
    ((d.len() + 1) / 2) as nat
}

/// The sum `s` with its carries folded back into its 16 low bits, until none is left.
pub open spec fn fold(s: nat) -> nat
    decreases s,
{
    if s < 0x10000 {
        s
    } else {
        proof {
            assert(s % 0x10000 + s / 0x10000 < s) by (nonlinear_arith)
                requires
                    s >= 0x10000,
            ;
        }
        fold(s % 0x10000 + s / 0x10000)
    }
}

/// The checksum of RFC 1071 of `d`: the ones' complement of the ones' complement sum of its
/// 16-bit words.
pub open spec fn rfc1071(d: Seq<u8>) -> u16 {
    (0xffff - fold(words_sum(d, word_count(d)))) as u16
}

/// A folded sum has no carry left.
proof fn lemma_fold_bound(s: nat)
    ensures
        fold(s) <= 0xffff,
    decreases s,
{
    if s >= 0x10000 {
        assert(s % 0x10000 + s / 0x10000 < s) by (nonlinear_arith)
            requires
                s >= 0x10000,
        ;
        lemma_fold_bound(s % 0x10000 + s / 0x10000);
    }
}

/// Folding keeps the sum modulo `0xffff`, and a nonzero sum folds to a nonzero value.
proof fn lemma_fold_mod(s: nat)
    ensures
        fold(s) % 0xffff == s % 0xffff,
        s > 0 ==> fold(s) > 0,
    decreases s,
{
    if s >= 0x10000 {
        let t = s % 0x10000 + s / 0x10000;
        assert(t < s && t % 0xffff == s % 0xffff && t > 0) by (nonlinear_arith)
            requires
                s >= 0x10000,
                t == s % 0x10000 + s / 0x10000,
        ;
        lemma_fold_mod(t);
    }
}

/// Computes the checksum of RFC 1071 of `data`.
pub fn compute_rfc1071(data: &[u8]) -> (c: u16)
    requires
        data@.len() <= 0xffff_ffff,
    ensures
        c == rfc1071(data@),
{
    let mut sum: u64 = 0;
    let mut i: usize = 0;
    while i + 1 < data.len()
        invariant
            i % 2 == 0,
            i <= data@.len(),
            data@.len() <= 0xffff_ffff,
            sum == words_sum(data@, (i / 2) as nat),
            sum <= (i / 2) * 0xffff,
        decreases data@.len() - i,
    {
        let w = data[i] as u64 + 256 * (data[i + 1] as u64);
        assert(w == word_at(data@, (i / 2) as int));
        sum = sum + w;
        i = i + 2;
    }
    let ghost words: nat = (i / 2) as nat;
    if i < data.len() {
        assert(data[i as int] == word_at(data@, (i / 2) as int));
        sum = sum + data[i] as u64;
        proof {
            words = words + 1;
        }
    }
    assert(words == word_count(data@));
    assert(sum == words_sum(data@, word_count(data@)));
    let ghost total = sum;
    while sum >= 0x10000
        invariant
            fold(sum as nat) == fold(total as nat),
        decreases sum,
    {
        assert(sum % 0x10000 + sum / 0x10000 < sum) by (nonlinear_arith)
            requires
                sum >= 0x10000,
        ;
        sum = sum % 0x10000 + sum / 0x10000;
    }
    (0xffff - sum) as u16
}

/// The bytes of the IPv4 header, in memory order, sent with the protocol `protocol` to the
/// address `dst_addr`, for a datagram of `total_length` bytes, with the checksum `checksum`.
pub open spec fn ipv4_header(protocol: u8, dst_addr: [u8; 4], total_length: u16, checksum: u16) -> Seq<u8> {
    seq![
        0x54u8,
        0u8,
        (total_length % 256) as u8,
        (total_length / 256) as u8,
        0u8,
        0u8,
        0u8,
        0u8,
        DEFAULT_TTL,
        protocol,
        (checksum % 256) as u8,
        (checksum / 256) as u8,
        0u8,
        0u8,
        0u8,
        0u8,
        dst_addr@[0],
        dst_addr@[1],
        dst_addr@[2],
        dst_addr@[3],
    ]
}

/// The IPv4 header sent with the protocol `protocol` to the address `dst_addr`, for a datagram
/// of `total_length` bytes: its checksum is that of the header with a null checksum.
pub open spec fn ipv4_header_checked(protocol: u8, dst_addr: [u8; 4], total_length: u16) -> Seq<u8> {
    ipv4_header(protocol, dst_addr, total_length, rfc1071(ipv4_header(protocol, dst_addr, total_length, 0)))
}

/// Tells whether the checksum of the header `hdr` is correct: the checksum of RFC 1071 of the
/// whole header, its checksum included, is zero.
pub fn check_checksum(hdr: &[u8]) -> (b: bool)
    requires
        hdr@.len() <= 0xffff_ffff,
    ensures
        b == (rfc1071(hdr@) == 0),
{
    compute_rfc1071(hdr) == 0
}

/// The network layer for the IPv4 protocol.
pub struct IPv4Layer {
    /// The protocol ID.
    pub protocol: u8,
    /// The destination IPv4.
    pub dst_addr: [u8; 4],
}

impl IPv4Layer {
    /// Writes into `hdr` the header for a payload of `payload_len` bytes: version and header
    /// length, the total length, the default TTL, the protocol, the checksum, and the addresses.
    pub fn write_header(&self, payload_len: usize, hdr: &mut Vec<u8>)
        requires
            IPV4_HEADER_SIZE + (payload_len as u16) <= 0xffff,
        ensures
            final(hdr)@ == ipv4_header_checked(
                self.protocol,
                self.dst_addr,
                (IPV4_HEADER_SIZE + (payload_len as u16)) as u16,
            ),
    {
        let total_length: u16 = IPV4_HEADER_SIZE as u16 + payload_len as u16;
        hdr.clear();
        hdr.push(4u8 | (((IPV4_HEADER_SIZE / 4) as u8) << 4u8));
        hdr.push(0);
        hdr.push((total_length % 256) as u8);
        hdr.push((total_length / 256) as u8);
        hdr.push(0);
        hdr.push(0);
        hdr.push(0);
        hdr.push(0);
        hdr.push(DEFAULT_TTL);
        hdr.push(self.protocol);
        hdr.push(0);
        hdr.push(0);
        hdr.push(0);
        hdr.push(0);
        hdr.push(0);
        hdr.push(0);
        hdr.push(self.dst_addr[0]);
        hdr.push(self.dst_addr[1]);
        hdr.push(self.dst_addr[2]);
        hdr.push(self.dst_addr[3]);
        assert(4u8 | (((20usize / 4) as u8) << 4u8) == 0x54u8) by (bit_vector);
        assert(hdr@ =~= ipv4_header(self.protocol, self.dst_addr, total_length, 0));
        let checksum = compute_rfc1071(hdr.as_slice());
        hdr.set(10, (checksum % 256) as u8);
        hdr.set(11, (checksum / 256) as u8);
        assert(hdr@ =~= ipv4_header(self.protocol, self.dst_addr, total_length, checksum));
    }

    /// Transmits the buffers `buff` through the layer: the header for them is written into
    /// `hdr`, and pushed at the front of the buffers. The function returns the buffers to hand
    /// to the next layer.
    pub fn transmit<'c>(&self, buff: BufList<'c>, hdr: &'c mut Vec<u8>) -> (r: BufList<'c>)
        requires
            buff.wf(),
            crate::net::total_len(buff.buffers()) + IPV4_HEADER_SIZE <= usize::MAX,
            IPV4_HEADER_SIZE + (crate::net::total_len(buff.buffers()) as u16) <= 0xffff,
        ensures
            r.wf(),
            r.buffers() == seq![
                ipv4_header_checked(
                    self.protocol,
                    self.dst_addr,
                    (IPV4_HEADER_SIZE + (crate::net::total_len(buff.buffers()) as u16)) as u16,
                ),
            ].add(buff.buffers()),
    {
        let len = buff.len();
        self.write_header(len, hdr);
        buff.push_front(hdr.as_slice())
    }
}

/// The TCP segment header.
#[derive(Clone, Copy, Debug)]
pub struct TCPHdr {
    /// Source port.
    pub src_port: u16,
    /// Destination port.
    pub dst_port: u16,
    /// Sequence number.
    pub seq_nbr: u32,
    /// Acknowledgment number.
    pub ack_nbr: u32,
    /// The size of the header in units of 4 bytes, in the 4 high bits.
    pub data_offset: u8,
    /// The segment's flags.
    pub flags: u8,
    /// The size of the receive window.
    pub win_size: u16,
    /// The checksum of the segment.
    pub checksum: u16,
    /// The urgent pointer.
    pub urg_ptr: u16,
}

/// The checksum of a header carrying the checksum of the same header with a null checksum is
/// correct: the checksum of RFC 1071 of the whole header is zero.
pub proof fn lemma_header_checksum_valid(protocol: u8, dst_addr: [u8; 4], total_length: u16)
    ensures
        rfc1071(ipv4_header_checked(protocol, dst_addr, total_length)) == 0,
{
    let h0 = ipv4_header(protocol, dst_addr, total_length, 0);
    let c = rfc1071(h0);
    let h1 = ipv4_header(protocol, dst_addr, total_length, c);
    assert(word_count(h0) == 10 && word_count(h1) == 10);
    assert(words_sum(h1, 10) == words_sum(h0, 10) + c) by {
        reveal_with_fuel(words_sum, 11);
        assert(word_at(h1, 5) == c as nat);
        assert(word_at(h0, 5) == 0);
        assert forall|k: int| 0 <= k < 10 && k != 5 implies word_at(h1, k) == word_at(h0, k) by {}
    }
    let s = words_sum(h0, 10);
    lemma_fold_bound(s);
    lemma_fold_mod(s);
    let t: nat = s + c as nat;
    assert(c == 0xffff - fold(s));
    lemma_fold_bound(t);
    lemma_fold_mod(t);
    assert(t > 0);
    assert(t % 0xffff == 0) by (nonlinear_arith)
        requires
            t == s + 0xffff - fold(s),
            fold(s) % 0xffff == s % 0xffff,
            fold(s) <= 0xffff,
    ;
    assert(fold(t) == 0xffff) by (nonlinear_arith)
        requires
            fold(t) % 0xffff == 0,
            fold(t) > 0,
            fold(t) <= 0xffff,
    ;
}

} // verus!
