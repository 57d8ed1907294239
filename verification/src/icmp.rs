use vstd::prelude::*;
use vstd::arithmetic::div_mod::{
    lemma_fundamental_div_mod,
    lemma_mod_multiples_basic,
    lemma_mod_multiples_vanish,
};

verus! {

/// Length of an ICMP echo header: type, code, checksum, identifier, sequence.
pub const ICMP_HEADER_LEN: usize = 8;

/// Number of payload bytes carried by the echo requests this library builds.
pub const PAYLOAD_SIZE: usize = 32;

/// ICMP message type of an echo request.
pub const ICMP_ECHO_REQUEST: u8 = 8;

/// ICMP message type of an echo reply.
pub const ICMP_ECHO_REPLY: u8 = 0;

/// Time to live reported for a bare ICMP message, which carries no IP header.
pub const BARE_ICMP_TTL: u8 = 64;

/// Shortest IPv4 header (IHL of 5 words).
pub const IPV4_MIN_HEADER_LEN: usize = 20;

// ---------------------------------------------------------------------------
// Byte order
// ---------------------------------------------------------------------------

/// The 16-bit value whose big-endian bytes are `hi`, `lo`.
pub open spec fn be_u16(hi: u8, lo: u8) -> u16 {
    (hi as int * 256 + lo as int) as u16
}

/// The first byte of the big-endian encoding of `v`.
pub open spec fn high_byte(v: u16) -> u8 {
    (v as int / 256) as u8
}

/// The second byte of the big-endian encoding of `v`.
pub open spec fn low_byte(v: u16) -> u8 {
    (v as int % 256) as u8
}

fn u16_from_be(hi: u8, lo: u8) -> (v: u16)
    ensures
        v == be_u16(hi, lo),
{
    (hi as u16) * 256 + (lo as u16)
}

fn u16_to_be(v: u16) -> (bytes: (u8, u8))
    ensures
        bytes.0 == high_byte(v),
        bytes.1 == low_byte(v),
{
    ((v / 256) as u8, (v % 256) as u8)
}

proof fn lemma_be_u16_of_bytes(v: u16)
    ensures
        be_u16(high_byte(v), low_byte(v)) == v,
        high_byte(v) as int * 256 + low_byte(v) as int == v as int,
{
    lemma_fundamental_div_mod(v as int, 256);
}

// ---------------------------------------------------------------------------
// The Internet checksum (RFC 1071)
// ---------------------------------------------------------------------------

/// The `k`-th big-endian 16-bit word of `s`; an odd final byte is padded
/// with a zero low byte.
pub open spec fn word_at(s: Seq<u8>, k: int) -> nat {
    let hi = s[2 * k] as nat;
    let lo = if 2 * k + 1 < s.len() {
        s[2 * k + 1] as nat
    } else {
        0
    };
    hi * 256 + lo
}

/// Sum of the first `n` words of `s`.
pub open spec fn words_sum(s: Seq<u8>, n: nat) -> nat
    decreases n,
{
    if n == 0 {
        0
    } else {
        words_sum(s, (n - 1) as nat) + word_at(s, n - 1)
    }
}

/// Number of 16-bit words in `s`, counting a lone final byte as a word.
pub open spec fn word_count(s: Seq<u8>) -> nat {
    (s.len() + 1) / 2
}

/// Plain sum of all words of `s`.
pub open spec fn word_sum(s: Seq<u8>) -> nat {
    words_sum(s, word_count(s))
}

/// Folds the carries above bit 16 back into the low 16 bits until none is
/// left (end-around carry).
pub open spec fn fold_carries(n: nat) -> nat
    decreases n,
{
    if n < 0x10000 {
        n
    } else {
        proof {
            lemma_fundamental_div_mod(n as int, 0x10000);
        }
        fold_carries(n % 0x10000 + n / 0x10000)
    }
}

/// The Internet checksum of `s`: the one's complement of the one's
/// complement sum of its 16-bit words.
pub open spec fn internet_checksum(s: Seq<u8>) -> u16 {
    (0xffff - fold_carries(word_sum(s))) as u16
}

/// The word sum of `s` fits the 32-bit accumulator of [`checksum`].
pub open spec fn checksum_fits(s: Seq<u8>) -> bool {
    word_sum(s) <= u32::MAX
}

proof fn lemma_word_at_bound(s: Seq<u8>, k: int)
    ensures
        word_at(s, k) <= 0xffff,
{
}

proof fn lemma_words_sum_monotone(s: Seq<u8>, m: nat, n: nat)
    requires
        m <= n,
    ensures
        words_sum(s, m) <= words_sum(s, n),
    decreases n,
{
    if m < n {
        lemma_words_sum_monotone(s, m, (n - 1) as nat);
    }
}

proof fn lemma_words_sum_bound(s: Seq<u8>, n: nat)
    ensures
        words_sum(s, n) <= 0xffff * n,
    decreases n,
{
    if n > 0 {
        lemma_words_sum_bound(s, (n - 1) as nat);
        lemma_word_at_bound(s, n - 1);
    }
}

/// Any byte string of at most 131070 bytes has a word sum that fits the
/// 32-bit accumulator.
pub proof fn lemma_short_input_fits(s: Seq<u8>)
    requires
        s.len() <= 131070,
    ensures
        checksum_fits(s),
{
    lemma_words_sum_bound(s, word_count(s));
}

/// Facts about `fold_carries`: it lands in 16 bits, keeps the value modulo
/// 0xffff, is zero only for zero and leaves 16-bit values alone.
pub proof fn lemma_fold_carries(n: nat)
    ensures
        fold_carries(n) < 0x10000,
        fold_carries(n) % 0xffff == n % 0xffff,
        n > 0 ==> fold_carries(n) > 0,
        n < 0x10000 ==> fold_carries(n) == n,
    decreases n,
{
    if n >= 0x10000 {
        let q = n / 0x10000;
        let r = n % 0x10000;
        lemma_fundamental_div_mod(n as int, 0x10000);
        assert(n == 0xffff * q + (q + r));
        lemma_mod_multiples_vanish(q as int, (q + r) as int, 0xffff);
        lemma_fold_carries((r + q) as nat);
    }
}

/// Computes the Internet checksum of `bytes`.
pub fn checksum(bytes: &[u8]) -> (c: u16)
    requires
        checksum_fits(bytes@),
    ensures
        c == internet_checksum(bytes@),
{
    let n = bytes.len();
    let ghost s = bytes@;
    let mut sum: u32 = 0;
    let mut i: usize = 0;
    while i < n
        invariant
            n == s.len(),
            s == bytes@,
            i <= n,
            i % 2 == 0 || i == n,
            sum as nat == words_sum(s, ((i + 1) / 2) as nat),
            checksum_fits(s),
        decreases n - i,
    {
        let high = bytes[i];
        let word: u32;
        if n - i >= 2 {
            let low = bytes[i + 1];
            word = (high as u32) * 256 + (low as u32);
        } else {
            word = (high as u32) * 256;
        }
        assert(word as nat == word_at(s, (i / 2) as int));
        proof {
            lemma_words_sum_monotone(s, ((i / 2) + 1) as nat, word_count(s));
        }
        sum = sum + word;
        if n - i >= 2 {
            i = i + 2;
        } else {
            i = n;
        }
    }
    assert(sum as nat == word_sum(s));
    while (sum >> 16) != 0
        invariant
            fold_carries(sum as nat) == fold_carries(word_sum(s)),
        decreases sum,
    {
        let old_sum = sum;
        assert(old_sum >> 16 == old_sum / 0x10000 && old_sum & 0xffff == old_sum % 0x10000)
            by (bit_vector);
        proof {
            lemma_fundamental_div_mod(old_sum as int, 0x10000);
        }
        sum = (sum & 0xffff) + (sum >> 16);
    }
    let folded = sum;
    assert(folded >> 16 == folded / 0x10000) by (bit_vector);
    assert(folded < 0x10000);
    let low16 = folded as u16;
    assert(!low16 == 0xffff - low16) by (bit_vector);
    !low16
}

// ---------------------------------------------------------------------------
// Echo packets
// ---------------------------------------------------------------------------

/// The echo header and payload with the checksum field still zero.
pub open spec fn echo_template(kind: u8, identifier: u16, sequence: u16, payload: Seq<u8>) -> Seq<
    u8,
> {
    seq![
        kind,
        0u8,
        0u8,
        0u8,
        high_byte(identifier),
        low_byte(identifier),
        high_byte(sequence),
        low_byte(sequence),
    ] + payload
}

/// `s` with `c` written big-endian into its checksum field (bytes 2 and 3).
pub open spec fn with_checksum(s: Seq<u8>, c: u16) -> Seq<u8> {
    s.update(2, high_byte(c)).update(3, low_byte(c))
}

/// The ICMP echo message of type `kind` with the given fields and payload,
/// its checksum filled in.
pub open spec fn echo_packet(kind: u8, identifier: u16, sequence: u16, payload: Seq<u8>) -> Seq<
    u8,
> {
    let template = echo_template(kind, identifier, sequence, payload);
    with_checksum(template, internet_checksum(template))
}

/// What `build_echo_packet` needs to run without overflow: the packet length
/// fits `usize` and its word sum fits the checksum accumulator.
pub open spec fn echo_packet_fits(kind: u8, identifier: u16, sequence: u16, payload: Seq<u8>) -> bool {
    &&& payload.len() + ICMP_HEADER_LEN <= usize::MAX
    &&& checksum_fits(echo_template(kind, identifier, sequence, payload))
}

/// The payload of the echo requests built by [`build_echo_request`]:
/// the bytes 0, 1, ..., 31.
pub open spec fn request_payload() -> Seq<u8> {
    Seq::new(PAYLOAD_SIZE as nat, |i: int| i as u8)
}

/// Size in bytes of an echo request built by [`build_echo_request`].
pub fn packet_size() -> (size: usize)
    ensures
        size == ICMP_HEADER_LEN + PAYLOAD_SIZE,
        forall|identifier: u16, sequence: u16|
            size == #[trigger] echo_packet(
                ICMP_ECHO_REQUEST,
                identifier,
                sequence,
                request_payload(),
            ).len(),
{
    ICMP_HEADER_LEN + PAYLOAD_SIZE
}

fn build_echo_packet(kind: u8, identifier: u16, sequence: u16, payload: &[u8]) -> (packet: Vec<u8>)
    requires
        echo_packet_fits(kind, identifier, sequence, payload@),
    ensures
        packet@ == echo_packet(kind, identifier, sequence, payload@),
{
    let ghost template = echo_template(kind, identifier, sequence, payload@);
    let (id_high, id_low) = u16_to_be(identifier);
    let (seq_high, seq_low) = u16_to_be(sequence);
    let mut packet: Vec<u8> = Vec::new();
    packet.push(kind);
    packet.push(0);
    packet.push(0);
    packet.push(0);
    packet.push(id_high);
    packet.push(id_low);
    packet.push(seq_high);
    packet.push(seq_low);
    let mut index: usize = 0;
    while index < payload.len()
        invariant
            index <= payload@.len(),
            packet@ == template.take(ICMP_HEADER_LEN + index),
            template == echo_template(kind, identifier, sequence, payload@),
        decreases payload@.len() - index,
    {
        packet.push(payload[index]);
        index = index + 1;
        assert(packet@ =~= template.take(ICMP_HEADER_LEN + index));
    }
    assert(packet@ =~= template);
    let c = checksum(packet.as_slice());
    let (c_high, c_low) = u16_to_be(c);
    packet[2] = c_high;
    packet[3] = c_low;
    assert(packet@ =~= with_checksum(template, c));
    packet
}

/// Builds an echo request with the given identifier and sequence number and
/// the payload 0, 1, ..., 31.
pub fn build_echo_request(identifier: u16, sequence: u16) -> (packet: Vec<u8>)
    ensures
        packet@ == echo_packet(ICMP_ECHO_REQUEST, identifier, sequence, request_payload()),
{
    let mut payload: Vec<u8> = Vec::new();
    let mut index: usize = 0;
    while index < PAYLOAD_SIZE
        invariant
            index <= PAYLOAD_SIZE,
            payload@ == request_payload().take(index as int),
        decreases PAYLOAD_SIZE - index,
    {
        payload.push(index as u8);
        index = index + 1;
        assert(payload@ =~= request_payload().take(index as int));
    }
    assert(payload@ =~= request_payload());
    proof {
        lemma_short_input_fits(echo_template(ICMP_ECHO_REQUEST, identifier, sequence, payload@));
    }
    build_echo_packet(ICMP_ECHO_REQUEST, identifier, sequence, payload.as_slice())
}

/// Builds an echo reply with the given identifier, sequence number and payload.
pub fn build_echo_reply(identifier: u16, sequence: u16, payload: &[u8]) -> (packet: Vec<u8>)
    requires
        echo_packet_fits(ICMP_ECHO_REPLY, identifier, sequence, payload@),
    ensures
        packet@ == echo_packet(ICMP_ECHO_REPLY, identifier, sequence, payload@),
{
    build_echo_packet(ICMP_ECHO_REPLY, identifier, sequence, payload)
}

// ---------------------------------------------------------------------------
// Parsing
// ---------------------------------------------------------------------------

/// The fields of a parsed ICMP message.
pub struct PacketView {
    pub kind: u8,
    /// Length of the ICMP message in bytes (IP header excluded).
    pub bytes: nat,
    pub ttl: u8,
    pub identifier: u16,
    pub sequence: u16,
    pub payload: Seq<u8>,
}

/// An echo reply read from the network.
#[derive(Clone, Copy, Debug)]
pub struct Reply {
    pub bytes: usize,
    pub ttl: u8,
    pub identifier: u16,
    pub sequence: u16,
}

/// An echo request read from the network; `payload` borrows the buffer it
/// was parsed from.
#[derive(Clone, Copy, Debug)]
pub struct Request<'a> {
    pub bytes: usize,
    pub ttl: u8,
    pub identifier: u16,
    pub sequence: u16,
    pub payload: &'a [u8],
}

impl<'a> View for Request<'a> {
    type V = PacketView;

    open spec fn view(&self) -> PacketView {
        PacketView {
            kind: ICMP_ECHO_REQUEST,
            bytes: self.bytes as nat,
            ttl: self.ttl,
            identifier: self.identifier,
            sequence: self.sequence,
            payload: self.payload@,
        }
    }
}

#[derive(Clone, Copy)]
struct Packet<'a> {
    kind: u8,
    bytes: usize,
    ttl: u8,
    identifier: u16,
    sequence: u16,
    payload: &'a [u8],
}

impl<'a> View for Packet<'a> {
    type V = PacketView;

    closed spec fn view(&self) -> PacketView {
        PacketView {
            kind: self.kind,
            bytes: self.bytes as nat,
            ttl: self.ttl,
            identifier: self.identifier,
            sequence: self.sequence,
            payload: self.payload@,
        }
    }
}

spec fn packet_option_view(p: Option<Packet>) -> Option<PacketView> {
    match p {
        Some(p) => Some(p@),
        None => None,
    }
}

/// Reads `s` as a bare ICMP message with the given time to live.
pub open spec fn spec_parse_bare(s: Seq<u8>, ttl: u8) -> Option<PacketView> {
    if s.len() < ICMP_HEADER_LEN {
        None
    } else {
        Some(
            PacketView {
                kind: s[0],
                bytes: s.len(),
                ttl,
                identifier: be_u16(s[4], s[5]),
                sequence: be_u16(s[6], s[7]),
                payload: s.skip(ICMP_HEADER_LEN as int),
            },
        )
    }
}

/// Length in bytes of the IPv4 header that starts `s` (its IHL field times 4).
pub open spec fn ipv4_header_len(s: Seq<u8>) -> int {
    (s[0] as int % 16) * 4
}

/// Reads `s` as an IPv4 datagram carrying an ICMP message; the time to live
/// comes from the IP header.
pub open spec fn spec_parse_ip(s: Seq<u8>) -> Option<PacketView> {
    if s.len() < IPV4_MIN_HEADER_LEN || s[0] as int / 16 != 4 {
        None
    } else if ipv4_header_len(s) < IPV4_MIN_HEADER_LEN || s.len() < ipv4_header_len(s)
        + ICMP_HEADER_LEN {
        None
    } else {
        spec_parse_bare(s.skip(ipv4_header_len(s)), s[8])
    }
}

/// Reads `s` as an IPv4 datagram if it is one, else as a bare ICMP message.
pub open spec fn spec_parse_packet(s: Seq<u8>) -> Option<PacketView> {
    match spec_parse_ip(s) {
        Some(p) => Some(p),
        None => spec_parse_bare(s, BARE_ICMP_TTL),
    }
}

/// The echo request that `s` holds, if it holds one.
pub open spec fn spec_parse_echo_request(s: Seq<u8>) -> Option<PacketView> {
    match spec_parse_packet(s) {
        Some(p) => if p.kind == ICMP_ECHO_REQUEST {
            Some(p)
        } else {
            None
        },
        None => None,
    }
}

/// The echo reply that `s` holds, if it holds one.
pub open spec fn spec_parse_echo_reply(s: Seq<u8>) -> Option<Reply> {
    match spec_parse_packet(s) {
        Some(p) => if p.kind == ICMP_ECHO_REPLY {
            Some(
                Reply {
                    bytes: p.bytes as usize,
                    ttl: p.ttl,
                    identifier: p.identifier,
                    sequence: p.sequence,
                },
            )
        } else {
            None
        },
        None => None,
    }
}

fn parse_bare_packet(buffer: &[u8], ttl: u8) -> (packet: Option<Packet<'_>>)
    ensures
        packet_option_view(packet) == spec_parse_bare(buffer@, ttl),
{
    if buffer.len() < ICMP_HEADER_LEN {
        return None;
    }
    Some(
        Packet {
            kind: buffer[0],
            bytes: buffer.len(),
            ttl,
            identifier: u16_from_be(buffer[4], buffer[5]),
            sequence: u16_from_be(buffer[6], buffer[7]),
            payload: &buffer[ICMP_HEADER_LEN..buffer.len()],
        },
    )
}

fn parse_ip_packet(buffer: &[u8]) -> (packet: Option<Packet<'_>>)
    ensures
        packet_option_view(packet) == spec_parse_ip(buffer@),
{
    if buffer.len() < IPV4_MIN_HEADER_LEN {
        return None;
    }
    let first = buffer[0];
    assert(first >> 4 == first / 16 && first & 0x0f == first % 16) by (bit_vector);
    if (first >> 4) != 4 {
        return None;
    }
    let header_len = ((first & 0x0f) as usize) * 4;
    if header_len < IPV4_MIN_HEADER_LEN || buffer.len() < header_len + ICMP_HEADER_LEN {
        return None;
    }
    let ttl = buffer[8];
    parse_bare_packet(&buffer[header_len..buffer.len()], ttl)
}

fn parse_packet(buffer: &[u8]) -> (packet: Option<Packet<'_>>)
    ensures
        packet_option_view(packet) == spec_parse_packet(buffer@),
{
    if let Some(packet) = parse_ip_packet(buffer) {
        return Some(packet);
    }
    parse_bare_packet(buffer, BARE_ICMP_TTL)
}

/// Reads an echo reply from `buffer`, which holds either an IPv4 datagram
/// or a bare ICMP message.
pub fn parse_echo_reply(buffer: &[u8]) -> (reply: Option<Reply>)
    ensures
        reply == spec_parse_echo_reply(buffer@),
{
    match parse_packet(buffer) {
        Some(packet) => {
            if packet.kind == ICMP_ECHO_REPLY {
                Some(
                    Reply {
                        bytes: packet.bytes,
                        ttl: packet.ttl,
                        identifier: packet.identifier,
                        sequence: packet.sequence,
                    },
                )
            } else {
                None
            }
        },
        None => None,
    }
}

/// Reads an echo request from `buffer`, which holds either an IPv4 datagram
/// or a bare ICMP message.
pub fn parse_echo_request(buffer: &[u8]) -> (request: Option<Request<'_>>)
    ensures
        match request {
            Some(r) => spec_parse_echo_request(buffer@) == Some(r@),
            None => spec_parse_echo_request(buffer@) is None,
        },
{
    match parse_packet(buffer) {
        Some(packet) => {
            if packet.kind == ICMP_ECHO_REQUEST {
                Some(
                    Request {
                        bytes: packet.bytes,
                        ttl: packet.ttl,
                        identifier: packet.identifier,
                        sequence: packet.sequence,
                        payload: packet.payload,
                    },
                )
            } else {
                None
            }
        },
        None => None,
    }
}

// ---------------------------------------------------------------------------
// Laws
// ---------------------------------------------------------------------------

proof fn lemma_words_sum_with_checksum(s: Seq<u8>, c: u16, n: nat)
    requires
        s.len() >= 4,
        n <= word_count(s),
    ensures
        words_sum(with_checksum(s, c), n) + (if n >= 2 { word_at(s, 1) } else { 0 }) == words_sum(
            s,
            n,
        ) + (if n >= 2 { c as nat } else { 0 }),
    decreases n,
{
    let t = with_checksum(s, c);
    if n > 0 {
        lemma_words_sum_with_checksum(s, c, (n - 1) as nat);
        let k = n - 1;
        if k == 1 {
            lemma_be_u16_of_bytes(c);
            assert(word_at(t, 1) == c as nat);
        } else {
            assert(t[2 * k] == s[2 * k]);
            assert(2 * k + 1 < s.len() ==> t[2 * k + 1] == s[2 * k + 1]);
            assert(word_at(t, k) == word_at(s, k));
        }
    }
}

/// The word sum of `s` with `c` written into its zeroed checksum field is the
/// word sum of `s` plus `c`.
proof fn lemma_word_sum_with_checksum(s: Seq<u8>, c: u16)
    requires
        s.len() >= 4,
        s[2] == 0,
        s[3] == 0,
    ensures
        word_sum(with_checksum(s, c)) == word_sum(s) + c,
{
    lemma_words_sum_with_checksum(s, c, word_count(s));
    assert(word_at(s, 1) == 0);
}

/// Writing the checksum of a buffer into its zeroed checksum field (bytes 2
/// and 3) makes the buffer check to zero: its one's complement sum becomes
/// all ones.
pub proof fn lemma_checksum_field_checks_to_zero(s: Seq<u8>)
    requires
        s.len() >= 4,
        s[2] == 0,
        s[3] == 0,
    ensures
        internet_checksum(with_checksum(s, internet_checksum(s))) == 0,
{
    let total = word_sum(s);
    let folded = fold_carries(total);
    lemma_fold_carries(total);
    let c = internet_checksum(s);
    assert(c as nat == 0xffff - folded);
    lemma_word_sum_with_checksum(s, c);
    let checked: nat = total + c as nat;
    assert(word_sum(with_checksum(s, c)) == checked);
    // `checked` is a positive multiple of 0xffff.
    lemma_fundamental_div_mod(total as int, 0xffff);
    lemma_fundamental_div_mod(folded as int, 0xffff);
    let k = total as int / 0xffff - folded as int / 0xffff + 1;
    assert(checked == k * 0xffff);
    lemma_mod_multiples_basic(k, 0xffff);
    assert(checked > 0);
    lemma_fold_carries(checked);
    let f = fold_carries(checked);
    lemma_fundamental_div_mod(f as int, 0xffff);
    assert(f == 0xffff);
}

/// Checking a finished echo packet gives zero.
pub proof fn lemma_echo_packet_checksum_is_zero(
    kind: u8,
    identifier: u16,
    sequence: u16,
    payload: Seq<u8>,
)
    ensures
        internet_checksum(echo_packet(kind, identifier, sequence, payload)) == 0,
{
    lemma_checksum_field_checks_to_zero(echo_template(kind, identifier, sequence, payload));
}

/// No buffer reads both as an echo request and as an echo reply.
pub proof fn lemma_request_and_reply_exclusive(s: Seq<u8>)
    ensures
        !(spec_parse_echo_request(s) is Some && spec_parse_echo_reply(s) is Some),
{
}

/// An echo packet whose type byte cannot start an IPv4 header reads back as
/// a bare ICMP message with exactly the fields and payload it was built from.
pub proof fn lemma_echo_packet_parses_back(
    kind: u8,
    identifier: u16,
    sequence: u16,
    payload: Seq<u8>,
)
    requires
        kind as int / 16 != 4,
    ensures
        echo_packet(kind, identifier, sequence, payload).len() == ICMP_HEADER_LEN + payload.len(),
        echo_packet(kind, identifier, sequence, payload).skip(ICMP_HEADER_LEN as int) == payload,
        spec_parse_packet(echo_packet(kind, identifier, sequence, payload)) == Some(
            PacketView {
                kind,
                bytes: (ICMP_HEADER_LEN + payload.len()) as nat,
                ttl: BARE_ICMP_TTL,
                identifier,
                sequence,
                payload,
            },
        ),
{
    let p = echo_packet(kind, identifier, sequence, payload);
    lemma_be_u16_of_bytes(identifier);
    lemma_be_u16_of_bytes(sequence);
    assert(p[0] == kind);
    assert(p[4] == high_byte(identifier) && p[5] == low_byte(identifier));
    assert(p[6] == high_byte(sequence) && p[7] == low_byte(sequence));
    assert(p.skip(ICMP_HEADER_LEN as int) =~= payload);
    assert(spec_parse_ip(p) is None);
}

/// Every echo request built by this library reads back as an echo request
/// carrying its identifier, sequence number and payload.
pub proof fn lemma_echo_request_roundtrip(identifier: u16, sequence: u16, payload: Seq<u8>)
    ensures
        spec_parse_echo_request(echo_packet(ICMP_ECHO_REQUEST, identifier, sequence, payload))
            == Some(
            PacketView {
                kind: ICMP_ECHO_REQUEST,
                bytes: (ICMP_HEADER_LEN + payload.len()) as nat,
                ttl: BARE_ICMP_TTL,
                identifier,
                sequence,
                payload,
            },
        ),
        spec_parse_echo_reply(echo_packet(ICMP_ECHO_REQUEST, identifier, sequence, payload))
            is None,
{
    lemma_echo_packet_parses_back(ICMP_ECHO_REQUEST, identifier, sequence, payload);
}

/// Every echo reply built by this library reads back as an echo reply with
/// its identifier and sequence number.
pub proof fn lemma_echo_reply_roundtrip(identifier: u16, sequence: u16, payload: Seq<u8>)
    requires
        ICMP_HEADER_LEN + payload.len() <= usize::MAX,
    ensures
        spec_parse_echo_reply(echo_packet(ICMP_ECHO_REPLY, identifier, sequence, payload)) == Some(
            Reply {
                bytes: (ICMP_HEADER_LEN + payload.len()) as usize,
                ttl: BARE_ICMP_TTL,
                identifier,
                sequence,
            },
        ),
        spec_parse_echo_request(echo_packet(ICMP_ECHO_REPLY, identifier, sequence, payload))
            is None,
{
    lemma_echo_packet_parses_back(ICMP_ECHO_REPLY, identifier, sequence, payload);
}

/// The reply built from a parsed echo request answers it: it reads back as an
/// echo reply with the request's identifier and sequence number, and it
/// carries the request's payload unchanged.
pub proof fn lemma_reply_answers_request(buffer: Seq<u8>)
    requires
        spec_parse_echo_request(buffer) is Some,
    ensures
        ({
            let request = spec_parse_echo_request(buffer)->0;
            let reply = echo_packet(
                ICMP_ECHO_REPLY,
                request.identifier,
                request.sequence,
                request.payload,
            );
            &&& reply.skip(ICMP_HEADER_LEN as int) == request.payload
            &&& spec_parse_echo_reply(reply) == Some(
                Reply {
                    bytes: request.bytes as usize,
                    ttl: BARE_ICMP_TTL,
                    identifier: request.identifier,
                    sequence: request.sequence,
                },
            )
        }),
{
    let request = spec_parse_echo_request(buffer)->0;
    assert(request.bytes == ICMP_HEADER_LEN + request.payload.len());
    assert(request.bytes <= buffer.len());
    lemma_echo_packet_parses_back(
        ICMP_ECHO_REPLY,
        request.identifier,
        request.sequence,
        request.payload,
    );
}

/// An ICMP message behind a well-formed IPv4 header reads as that message,
/// with the time to live taken from the header.
pub proof fn lemma_ipv4_wrapped_message(header: Seq<u8>, message: Seq<u8>)
    requires
        header.len() >= IPV4_MIN_HEADER_LEN,
        header[0] as int / 16 == 4,
        header.len() == ipv4_header_len(header),
        message.len() >= ICMP_HEADER_LEN,
    ensures
        spec_parse_packet(header + message) == spec_parse_bare(message, header[8]),
{
    let s = header + message;
    assert(s[0] == header[0]);
    assert(s[8] == header[8]);
    assert(s.skip(header.len() as int) =~= message);
}

/// What a buffer reads as is decided by the ICMP type of the message it
/// holds: an echo reply only for type 0, an echo request only for type 8.
pub proof fn lemma_echo_kinds(s: Seq<u8>)
    ensures
        spec_parse_echo_reply(s) is Some ==> spec_parse_packet(s) is Some && spec_parse_packet(
            s,
        )->0.kind == 0,
        spec_parse_echo_request(s) is Some ==> spec_parse_packet(s) is Some && spec_parse_packet(
            s,
        )->0.kind == 8 && spec_parse_echo_request(s) == spec_parse_packet(s),
        spec_parse_packet(s) matches Some(p) ==> (p.kind == 0 <==> spec_parse_echo_reply(s) is Some),
        spec_parse_packet(s) matches Some(p) ==> (p.kind == 8 <==> spec_parse_echo_request(s) is Some),
{
}

/// A buffer that cannot start an IPv4 header is read byte by byte as a bare
/// ICMP message: it is an echo reply exactly when its first byte is 0 and an
/// echo request exactly when its first byte is 8; the identifier and the
/// sequence number are the big-endian words at bytes 4 and 6, the payload
/// is everything after byte 8, and the time to live is 64.
pub proof fn lemma_bare_message_fields(s: Seq<u8>)
    requires
        s.len() < 20 || s[0] < 0x40 || s[0] >= 0x50,
        s.len() <= usize::MAX,
    ensures
        s.len() < 8 ==> spec_parse_echo_reply(s) is None && spec_parse_echo_request(s) is None,
        s.len() >= 8 ==> (spec_parse_echo_reply(s) is Some <==> s[0] == 0),
        s.len() >= 8 ==> (spec_parse_echo_request(s) is Some <==> s[0] == 8),
        spec_parse_echo_reply(s) matches Some(r) ==> {
            &&& r.bytes == s.len()
            &&& r.ttl == 64
            &&& r.identifier as int == s[4] as int * 256 + s[5] as int
            &&& r.sequence as int == s[6] as int * 256 + s[7] as int
        },
        spec_parse_echo_request(s) matches Some(q) ==> {
            &&& q.bytes == s.len()
            &&& q.ttl == 64
            &&& q.identifier as int == s[4] as int * 256 + s[5] as int
            &&& q.sequence as int == s[6] as int * 256 + s[7] as int
            &&& q.payload == s.subrange(8, s.len() as int)
        },
{
    if s.len() >= 20 {
        assert(s[0] as int / 16 != 4);
    }
    assert(s.len() >= 8 ==> s.skip(8) =~= s.subrange(8, s.len() as int));
}

/// Behind an IPv4 header `header` (version 4, header length given by its
/// IHL field), the message `message` is read byte by byte: an echo reply
/// exactly when its first byte is 0, an echo request exactly when it is 8,
/// with the time to live from byte 8 of the header.
pub proof fn lemma_ipv4_message_fields(header: Seq<u8>, message: Seq<u8>)
    requires
        header.len() >= IPV4_MIN_HEADER_LEN,
        0x40 <= header[0] < 0x50,
        header.len() == (header[0] as int - 0x40) * 4,
        message.len() >= ICMP_HEADER_LEN,
        message.len() <= usize::MAX,
    ensures
        spec_parse_echo_reply(header + message) is Some <==> message[0] == 0,
        spec_parse_echo_request(header + message) is Some <==> message[0] == 8,
        spec_parse_echo_reply(header + message) matches Some(r) ==> {
            &&& r.bytes == message.len()
            &&& r.ttl == header[8]
            &&& r.identifier as int == message[4] as int * 256 + message[5] as int
            &&& r.sequence as int == message[6] as int * 256 + message[7] as int
        },
        spec_parse_echo_request(header + message) matches Some(q) ==> {
            &&& q.bytes == message.len()
            &&& q.ttl == header[8]
            &&& q.identifier as int == message[4] as int * 256 + message[5] as int
            &&& q.sequence as int == message[6] as int * 256 + message[7] as int
            &&& q.payload == message.subrange(8, message.len() as int)
        },
{
    assert(header[0] as int / 16 == 4);
    assert(ipv4_header_len(header) == header.len());
    lemma_ipv4_wrapped_message(header, message);
    assert(message.skip(8) =~= message.subrange(8, message.len() as int));
}

proof fn lemma_words_sum_shift(a: u8, b: u8, rest: Seq<u8>, n: nat)
    requires
        n <= word_count(rest),
    ensures
        words_sum(seq![a, b] + rest, n + 1) == a as nat * 256 + b as nat + words_sum(rest, n),
    decreases n,
{
    let s = seq![a, b] + rest;
    assert(words_sum(s, n + 1) == words_sum(s, n) + word_at(s, n as int));
    if n == 0 {
        assert(word_at(s, 0) == a as nat * 256 + b as nat);
    } else {
        assert(words_sum(rest, n) == words_sum(rest, (n - 1) as nat) + word_at(rest, n - 1));
        lemma_words_sum_shift(a, b, rest, (n - 1) as nat);
        let k = n - 1;
        assert(s[2 * (k + 1)] == rest[2 * k]);
        assert(2 * (k + 1) + 1 < s.len() <==> 2 * k + 1 < rest.len());
        assert(2 * k + 1 < rest.len() ==> s[2 * (k + 1) + 1] == rest[2 * k + 1]);
        assert(word_at(s, k + 1) == word_at(rest, k));
    }
}

/// The word sum reads the bytes two at a time as big-endian 16-bit words,
/// a lone last byte as the high byte of a word.
pub proof fn lemma_word_sum_bytes(a: u8, b: u8, rest: Seq<u8>)
    ensures
        word_sum(Seq::<u8>::empty()) == 0,
        word_sum(seq![a]) == a as nat * 256,
        word_sum(seq![a, b] + rest) == a as nat * 256 + b as nat + word_sum(rest),
{
    assert(word_count(seq![a, b] + rest) == word_count(rest) + 1);
    lemma_words_sum_shift(a, b, rest, word_count(rest));
    assert(word_at(seq![a], 0) == a as nat * 256);
    assert(words_sum(seq![a], 1) == words_sum(seq![a], 0) + word_at(seq![a], 0));
}

/// The checksum is the 16-bit value that brings the word sum to a multiple
/// of 0xffff; of the two such values for a sum that already is one, it is
/// 0xffff only for the empty sum.
pub proof fn lemma_checksum_complements_sum(s: Seq<u8>)
    ensures
        (word_sum(s) + internet_checksum(s)) % 0xffff == 0,
        internet_checksum(s) == 0xffff <==> word_sum(s) == 0,
{
    let total = word_sum(s);
    let folded = fold_carries(total);
    lemma_fold_carries(total);
    let c = internet_checksum(s);
    assert(c as nat == 0xffff - folded);
    lemma_fundamental_div_mod(total as int, 0xffff);
    lemma_fundamental_div_mod(folded as int, 0xffff);
    let k = total as int / 0xffff - folded as int / 0xffff + 1;
    assert(total + c == k * 0xffff);
    lemma_mod_multiples_basic(k, 0xffff);
}

/// The bytes of an echo packet: the type, a zero code, the checksum, the
/// identifier and the sequence number big-endian, then the payload; the
/// checksum is the Internet checksum of the packet with its checksum field
/// zeroed.
pub proof fn lemma_echo_packet_bytes(kind: u8, identifier: u16, sequence: u16, payload: Seq<u8>)
    ensures
        echo_packet(kind, identifier, sequence, payload).len() == 8 + payload.len(),
        echo_packet(kind, identifier, sequence, payload)[0] == kind,
        echo_packet(kind, identifier, sequence, payload)[1] == 0,
        echo_packet(kind, identifier, sequence, payload)[4] as int * 256 + echo_packet(
            kind,
            identifier,
            sequence,
            payload,
        )[5] as int == identifier as int,
        echo_packet(kind, identifier, sequence, payload)[6] as int * 256 + echo_packet(
            kind,
            identifier,
            sequence,
            payload,
        )[7] as int == sequence as int,
        echo_packet(kind, identifier, sequence, payload).subrange(8, 8 + payload.len() as int)
            == payload,
        echo_packet(kind, identifier, sequence, payload)[2] as int * 256 + echo_packet(
            kind,
            identifier,
            sequence,
            payload,
        )[3] as int == internet_checksum(
            echo_packet(kind, identifier, sequence, payload).update(2, 0).update(3, 0),
        ) as int,
{
    let p = echo_packet(kind, identifier, sequence, payload);
    let t = echo_template(kind, identifier, sequence, payload);
    lemma_be_u16_of_bytes(identifier);
    lemma_be_u16_of_bytes(sequence);
    lemma_be_u16_of_bytes(internet_checksum(t));
    assert(p.update(2, 0).update(3, 0) =~= t);
    assert(p.subrange(8, 8 + payload.len() as int) =~= payload);
}

} // verus!
