//! The segment codec: IPv4 and TCP headers to and from bytes.
//!
//! The bytes themselves are produced and read by `etherparse`. This module
//! states what that crate does with each field, composes whole frames from
//! its pieces, and proves that a frame written here is read back unchanged.

use vstd::prelude::*;
use vstd::slice::slice_subrange;
use crate::seq::{advance, seq_add};
use crate::types::{Dual, Quad};

verus! {

/// Time to live of every datagram sent.
pub const TTL: u8 = 32;

/// The IPv4 protocol number of TCP.
pub const PROTOCOL_TCP: u8 = 6;

/// The window that a reset advertises.
pub const RESET_WINDOW: u16 = 1024;

/// The most payload bytes a frame can carry besides its two headers and a
/// maximum segment size option.
pub const MAX_PAYLOAD: usize = 65491;

/// The fields of one segment that the transport reads or sets, with the
/// addresses of the datagram that carries it.
#[derive(Debug, Clone, Copy, PartialEq, Eq, Structural)]
pub struct Header {
    /// The sender's address and port.
    pub source: Dual,
    /// The receiver's address and port.
    pub destination: Dual,
    pub sequence_number: u32,
    pub acknowledgment_number: u32,
    pub window_size: u16,
    pub fin: bool,
    pub syn: bool,
    pub rst: bool,
    pub psh: bool,
    pub ack: bool,
    pub urg: bool,
    /// The maximum segment size option, if the segment carries one.
    pub mss: Option<u16>,
}

/// What the transport reads of an IPv4 header.
#[derive(Debug, Clone, Copy)]
pub struct Ipv4Info {
    /// Header length in 32-bit words.
    pub ihl: u8,
    pub source: u32,
    pub destination: u32,
}

/// What the transport reads of the fixed part of a TCP header.
#[derive(Debug, Clone, Copy)]
pub struct TcpInfo {
    pub source_port: u16,
    pub destination_port: u16,
    pub sequence_number: u32,
    pub acknowledgment_number: u32,
    /// Header length in 32-bit words.
    pub data_offset: u8,
    pub fin: bool,
    pub syn: bool,
    pub rst: bool,
    pub psh: bool,
    pub ack: bool,
    pub urg: bool,
    pub window_size: u16,
}

/// One item of the walk over the option bytes of a TCP header.
#[derive(Debug, Clone, Copy, PartialEq, Eq, Structural)]
pub enum TcpOption {
    Noop,
    MaximumSegmentSize(u16),
    WindowScale(u8),
    SelectiveAcknowledgementPermitted,
    /// A selective acknowledgment; its blocks are not kept.
    SelectiveAcknowledgement,
    Timestamp(u32, u32),
    /// Bytes that are no option. The walk ends with them.
    Malformed,
}

/// The 16-bit number whose big-endian bytes stand at `i` and `i + 1`.
pub open spec fn be16(b: Seq<u8>, i: int) -> u16 {
    (b[i] * 256 + b[i + 1]) as u16
}

/// The 32-bit number whose big-endian bytes stand at `i` to `i + 3`.
pub open spec fn be32(b: Seq<u8>, i: int) -> u32 {
    (b[i] * 16777216 + b[i + 1] * 65536 + b[i + 2] * 256 + b[i + 3]) as u32
}

/// The two big-endian bytes of `x`.
pub open spec fn bytes16(x: u16) -> Seq<u8> {
    seq![(x / 256) as u8, (x % 256) as u8]
}

/// The four big-endian bytes of `x`.
pub open spec fn bytes32(x: u32) -> Seq<u8> {
    seq![
        (x / 16777216) as u8,
        ((x / 65536) % 256) as u8,
        ((x / 256) % 256) as u8,
        (x % 256) as u8,
    ]
}

/// Whether the bit of value `weight`, a power of two, is set in `b`.
pub open spec fn bit(b: u8, weight: int) -> bool {
    (b as int / weight) % 2 == 1
}

/// The byte of control flags of a TCP header.
pub open spec fn flags_byte(h: Header) -> u8 {
    ((if h.fin { 1int } else { 0 }) + (if h.syn { 2int } else { 0 }) + (if h.rst { 4int } else { 0 })
        + (if h.psh { 8int } else { 0 }) + (if h.ack { 16int } else { 0 }) + (if h.urg { 32int } else { 0 })) as u8
}

/// The option bytes of a TCP header that carries at most a maximum segment
/// size.
pub open spec fn option_bytes(mss: Option<u16>) -> Seq<u8> {
    match mss {
        Some(m) => seq![2u8, 4u8] + bytes16(m),
        None => Seq::empty(),
    }
}

/// The length in bytes of the TCP header of `h`.
pub open spec fn tcp_header_len(h: Header) -> int {
    if h.mss.is_some() {
        24
    } else {
        20
    }
}

/// The bytes of an option-free IPv4 header that carries `payload_len` bytes
/// and may not be fragmented, with `checksum` in its checksum field.
pub open spec fn ipv4_layout(
    payload_len: u16,
    ttl: u8,
    protocol: u8,
    source: u32,
    destination: u32,
    checksum: u16,
) -> Seq<u8> {
    seq![0x45u8, 0u8] + bytes16((payload_len + 20) as u16) + seq![0u8, 0u8, 64u8, 0u8]
        + seq![ttl, protocol] + bytes16(checksum) + bytes32(source) + bytes32(destination)
}

/// The bytes of the TCP header of `h` with `checksum` in its checksum field
/// and no urgent pointer.
pub open spec fn tcp_layout(h: Header, checksum: u16) -> Seq<u8> {
    bytes16(h.source.port) + bytes16(h.destination.port) + bytes32(h.sequence_number)
        + bytes32(h.acknowledgment_number)
        + seq![((tcp_header_len(h) / 4) * 16) as u8, flags_byte(h)]
        + bytes16(h.window_size) + bytes16(checksum) + seq![0u8, 0u8] + option_bytes(h.mss)
}

/// The header checksum that `etherparse` computes for an option-free,
/// unfragmented IPv4 header with these fields.
pub uninterp spec fn ipv4_checksum_of(
    payload_len: u16,
    ttl: u8,
    protocol: u8,
    source: u32,
    destination: u32,
) -> u16;

/// The TCP checksum that `etherparse` computes for the header `h` and the
/// payload, over the IPv4 pseudo-header of `h`'s addresses.
pub uninterp spec fn tcp_checksum_of(h: Header, payload: Seq<u8>) -> u16;

/// The items that `etherparse` yields when it walks the option bytes of a
/// TCP header.
pub uninterp spec fn options_walk(options: Seq<u8>) -> Seq<TcpOption>;

/// The items among the option bytes of a TCP header: none where there are
/// no option bytes, the one option where the bytes are a lone maximum segment
/// size, and otherwise what the walk of `etherparse` yields.
pub open spec fn options_of(options: Seq<u8>) -> Seq<TcpOption> {
    if options.len() == 0 {
        Seq::empty()
    } else if options.len() == 4 && options[0] == 2 && options[1] == 4 {
        seq![TcpOption::MaximumSegmentSize(be16(options, 2))]
    } else {
        options_walk(options)
    }
}

/// The first maximum segment size among the items of a walk. An item that
/// is no option holds none.
pub open spec fn first_mss(items: Seq<TcpOption>) -> Option<u16>
    decreases items.len(),
{
    if items.len() == 0 {
        None
    } else {
        match items[0] {
            TcpOption::MaximumSegmentSize(m) => Some(m),
            _ => first_mss(items.drop_first()),
        }
    }
}

/// The maximum segment size that the option bytes of a TCP header name, if
/// they name one.
pub open spec fn mss_of(options: Seq<u8>) -> Option<u16> {
    first_mss(options_of(options))
}

/// What `etherparse` reads of an IPv4 header at the start of `b`, if it
/// accepts one there.
pub open spec fn ipv4_parsed(b: Seq<u8>) -> Option<Ipv4Info> {
    if b.len() >= 20 && b[0] / 16 == 4 && b[0] % 16 >= 5 && b.len() >= (b[0] % 16) * 4 && be16(b, 2)
        >= (b[0] % 16) * 4 {
        Some(Ipv4Info { ihl: b[0] % 16, source: be32(b, 12), destination: be32(b, 16) })
    } else {
        None
    }
}

/// What `etherparse` reads of a TCP header at the start of `b`, if it accepts
/// one there.
pub open spec fn tcp_parsed(b: Seq<u8>) -> Option<TcpInfo> {
    if b.len() >= 20 && b[12] / 16 >= 5 && b.len() >= (b[12] / 16) * 4 {
        Some(
            TcpInfo {
                source_port: be16(b, 0),
                destination_port: be16(b, 2),
                sequence_number: be32(b, 4),
                acknowledgment_number: be32(b, 8),
                data_offset: b[12] / 16,
                fin: bit(b[13], 1),
                syn: bit(b[13], 2),
                rst: bit(b[13], 4),
                psh: bit(b[13], 8),
                ack: bit(b[13], 16),
                urg: bit(b[13], 32),
                window_size: be16(b, 14),
            },
        )
    } else {
        None
    }
}

/// Calls `etherparse::Ipv4HeaderSlice::from_slice` and reads the header
/// length and the two addresses.
///
/// Trusted: the slice is accepted exactly when it holds 20 bytes, version 4,
/// a header length of at least five words that fits in the slice, and a total
/// length that covers the header; the fields are the big-endian numbers at
/// their places.
#[verifier::external_body]
fn parse_ipv4(frame: &[u8]) -> (r: Option<Ipv4Info>)
    ensures
        r == ipv4_parsed(frame@),
{
    match etherparse::Ipv4HeaderSlice::from_slice(frame) {
        Err(_) => None,
        Ok(h) => Some(Ipv4Info {
            ihl: h.ihl(),
            source: u32::from_be_bytes(h.source()),
            destination: u32::from_be_bytes(h.destination()),
        }),
    }
}

/// Calls `etherparse::TcpHeaderSlice::from_slice` and reads the ports, the
/// two numbers, the data offset, six flags and the window.
///
/// Trusted: the slice is accepted exactly when it holds 20 bytes and a data
/// offset of at least five words that fits in the slice; the fields are the
/// big-endian numbers and the bits at their places.
#[verifier::external_body]
fn parse_tcp(bytes: &[u8]) -> (r: Option<TcpInfo>)
    ensures
        r == tcp_parsed(bytes@),
{
    match etherparse::TcpHeaderSlice::from_slice(bytes) {
        Err(_) => None,
        Ok(h) => Some(TcpInfo {
            source_port: h.source_port(), destination_port: h.destination_port(),
            sequence_number: h.sequence_number(), acknowledgment_number: h.acknowledgment_number(),
            data_offset: h.data_offset(), window_size: h.window_size(),
            fin: h.fin(), syn: h.syn(), rst: h.rst(), psh: h.psh(), ack: h.ack(), urg: h.urg(),
        }),
    }
}

/// Walks the option bytes with `etherparse::TcpOptionsIterator` and hands
/// out each item it yields.
///
/// Trusted: the items depend on the bytes alone; no option bytes yield no
/// item, and the four bytes of a lone maximum segment size option yield that
/// option.
#[verifier::external_body]
fn walk_options(options: &[u8]) -> (r: Vec<TcpOption>)
    ensures
        r@ == options_of(options@),
        options@.len() > 4 ==> r@ == options_walk(options@),
{
    etherparse::TcpOptionsIterator::from_slice(options).map(|item| match item {
        Ok(etherparse::TcpOptionElement::Noop) => TcpOption::Noop,
        Ok(etherparse::TcpOptionElement::MaximumSegmentSize(m)) => TcpOption::MaximumSegmentSize(m),
        Ok(etherparse::TcpOptionElement::WindowScale(s)) => TcpOption::WindowScale(s),
        Ok(etherparse::TcpOptionElement::SelectiveAcknowledgementPermitted) => {
            TcpOption::SelectiveAcknowledgementPermitted
        },
        Ok(etherparse::TcpOptionElement::SelectiveAcknowledgement(_, _)) => {
            TcpOption::SelectiveAcknowledgement
        },
        Ok(etherparse::TcpOptionElement::Timestamp(a, b)) => TcpOption::Timestamp(a, b),
        Err(_) => TcpOption::Malformed,
    }).collect()
}

/// The first maximum segment size among the items of a walk over option
/// bytes, if there is one.
pub fn find_mss(items: &Vec<TcpOption>) -> (r: Option<u16>)
    ensures
        r == first_mss(items@),
{
    let mut i: usize = 0;
    proof {
        assert(items@.subrange(0, items@.len() as int) =~= items@);
    }
    while i < items.len()
        invariant
            i <= items@.len(),
            first_mss(items@) == first_mss(items@.subrange(i as int, items@.len() as int)),
        decreases items@.len() - i,
    {
        let ghost rest = items@.subrange(i as int, items@.len() as int);
        proof {
            assert(rest[0] == items@[i as int]);
            assert(rest.drop_first() =~= items@.subrange(i + 1, items@.len() as int));
        }
        match items[i] {
            TcpOption::MaximumSegmentSize(m) => {
                return Some(m);
            },
            _ => {},
        }
        i += 1;
    }
    None
}

/// Builds an `etherparse::Ipv4Header` and writes it with
/// `etherparse::Ipv4Header::write`.
///
/// Trusted: the twenty bytes are the fields in header order, with no
/// options, identification zero and the don't-fragment flag set; the
/// checksum field holds what the crate computes from the other fields.
#[verifier::external_body]
fn encode_ipv4_header(payload_len: u16, ttl: u8, protocol: u8, source: u32, destination: u32) -> (r:
    Vec<u8>)
    requires
        payload_len <= 65515,
    ensures
        r@ == ipv4_layout(
            payload_len,
            ttl,
            protocol,
            source,
            destination,
            ipv4_checksum_of(payload_len, ttl, protocol, source, destination),
        ),
{
    let mut buf: Vec<u8> = Vec::with_capacity(20);
    let h = etherparse::Ipv4Header::new(
        payload_len,
        ttl,
        protocol,
        source.to_be_bytes(),
        destination.to_be_bytes(),
    );
    let _ = h.write(&mut buf);
    buf
}

/// Builds an `etherparse::TcpHeader` from `h` and computes its checksum with
/// `etherparse::TcpHeader::calc_checksum_ipv4_raw`.
///
/// Trusted: the result depends on the header fields and the payload alone.
#[verifier::external_body]
fn tcp_checksum(h: &Header, payload: &[u8]) -> (r: u16)
    requires
        tcp_header_len(*h) + payload@.len() <= 65535,
    ensures
        r == tcp_checksum_of(*h, payload@),
{
    let mut t = etherparse::TcpHeader::new(h.source.port, h.destination.port, h.sequence_number, h.window_size);
    t.acknowledgment_number = h.acknowledgment_number;
    (t.fin, t.syn, t.rst, t.psh, t.ack, t.urg) = (h.fin, h.syn, h.rst, h.psh, h.ack, h.urg);
    if let Some(m) = h.mss {
        let _ = t.set_options(&[etherparse::TcpOptionElement::MaximumSegmentSize(m)]);
    }
    t.calc_checksum_ipv4_raw(h.source.ipv4.to_be_bytes(), h.destination.ipv4.to_be_bytes(), payload)
        .unwrap_or_default()
}

/// Builds an `etherparse::TcpHeader` from `h` and `checksum` and writes it
/// with `etherparse::TcpHeader::write`.
///
/// Trusted: the bytes are the fields in header order, the urgent pointer
/// zero, followed by the maximum segment size option where `h` has one.
#[verifier::external_body]
fn encode_tcp_header(h: &Header, checksum: u16) -> (r: Vec<u8>)
    ensures
        r@ == tcp_layout(*h, checksum),
{
    let mut t = etherparse::TcpHeader::new(h.source.port, h.destination.port, h.sequence_number, h.window_size);
    t.acknowledgment_number = h.acknowledgment_number;
    (t.fin, t.syn, t.rst, t.psh, t.ack, t.urg) = (h.fin, h.syn, h.rst, h.psh, h.ack, h.urg);
    if let Some(m) = h.mss {
        let _ = t.set_options(&[etherparse::TcpOptionElement::MaximumSegmentSize(m)]);
    }
    t.checksum = checksum;
    let mut buf: Vec<u8> = Vec::with_capacity(24);
    let _ = t.write(&mut buf);
    buf
}

/// The frame that carries the segment `h` and the payload.
pub open spec fn frame_bytes(h: Header, payload: Seq<u8>) -> Seq<u8> {
    let tcp_len = (tcp_header_len(h) + payload.len()) as u16;
    ipv4_layout(
        tcp_len,
        TTL,
        PROTOCOL_TCP,
        h.source.ipv4,
        h.destination.ipv4,
        ipv4_checksum_of(tcp_len, TTL, PROTOCOL_TCP, h.source.ipv4, h.destination.ipv4),
    ) + tcp_layout(h, tcp_checksum_of(h, payload)) + payload
}

/// Appends `src` to `dst`.
pub fn append_bytes(dst: &mut Vec<u8>, src: &[u8])
    ensures
        final(dst)@ == old(dst)@ + src@,
{
    let mut i: usize = 0;
    while i < src.len()
        invariant
            i <= src@.len(),
            dst@ == old(dst)@ + src@.subrange(0, i as int),
        decreases src@.len() - i,
    {
        dst.push(src[i]);
        i += 1;
        assert(dst@ =~= old(dst)@ + src@.subrange(0, i as int));
    }
    assert(src@.subrange(0, i as int) =~= src@);
}

/// The frames that a list of byte vectors holds.
pub open spec fn frames_of(out: Vec<Vec<u8>>) -> Seq<Seq<u8>> {
    Seq::new(out@.len(), |i: int| out@[i]@)
}

/// Puts a frame at the end of the frames to transmit.
pub fn emit(out: &mut Vec<Vec<u8>>, frame: Vec<u8>)
    ensures
        frames_of(*final(out)) == frames_of(*old(out)).push(frame@),
{
    out.push(frame);
    assert(frames_of(*out) =~= frames_of(*old(out)).push(frame@));
}

/// Writes one frame: an IPv4 header, the TCP header of `h` with its
/// checksum, and the payload.
pub fn encode(h: &Header, payload: &[u8]) -> (frame: Vec<u8>)
    requires
        payload@.len() <= MAX_PAYLOAD,
    ensures
        frame@ == frame_bytes(*h, payload@),
        frame@.len() == 20 + tcp_header_len(*h) + payload@.len(),
{
    let opt_len: usize = if h.mss.is_some() { 4 } else { 0 };
    let tcp_len: usize = 20 + opt_len + payload.len();
    let checksum = tcp_checksum(h, payload);
    let mut frame = encode_ipv4_header(
        tcp_len as u16,
        TTL,
        PROTOCOL_TCP,
        h.source.ipv4,
        h.destination.ipv4,
    );
    let tcp = encode_tcp_header(h, checksum);
    append_bytes(&mut frame, tcp.as_slice());
    append_bytes(&mut frame, payload);
    frame
}

/// The header that a decoded IPv4 header, TCP header and option walk make.
pub open spec fn header_of(ip: Ipv4Info, tcp: TcpInfo, mss: Option<u16>) -> Header {
    Header {
        source: Dual { ipv4: ip.source, port: tcp.source_port },
        destination: Dual { ipv4: ip.destination, port: tcp.destination_port },
        sequence_number: tcp.sequence_number,
        acknowledgment_number: tcp.acknowledgment_number,
        window_size: tcp.window_size,
        fin: tcp.fin,
        syn: tcp.syn,
        rst: tcp.rst,
        psh: tcp.psh,
        ack: tcp.ack,
        urg: tcp.urg,
        mss,
    }
}

/// What a frame decodes to: the header of its segment and the offset of the
/// payload. A frame without a well-formed IPv4 header followed by a
/// well-formed TCP header decodes to nothing.
pub open spec fn decoded(frame: Seq<u8>) -> Option<(Header, usize)> {
    match ipv4_parsed(frame) {
        None => None,
        Some(ip) => {
            let start = ip.ihl * 4;
            match tcp_parsed(frame.subrange(start, frame.len() as int)) {
                None => None,
                Some(tcp) => {
                    let end = start + tcp.data_offset * 4;
                    Some(
                        (
                            header_of(ip, tcp, mss_of(frame.subrange(start + 20, end))),
                            end as usize,
                        ),
                    )
                },
            }
        },
    }
}

impl Header {
    /// Joins what was read of the two headers and of the options.
    pub fn from_parts(ip: &Ipv4Info, tcp: &TcpInfo, mss: Option<u16>) -> (h: Header)
        ensures
            h == header_of(*ip, *tcp, mss),
    {
        Header {
            source: Dual { ipv4: ip.source, port: tcp.source_port },
            destination: Dual { ipv4: ip.destination, port: tcp.destination_port },
            sequence_number: tcp.sequence_number,
            acknowledgment_number: tcp.acknowledgment_number,
            window_size: tcp.window_size,
            fin: tcp.fin,
            syn: tcp.syn,
            rst: tcp.rst,
            psh: tcp.psh,
            ack: tcp.ack,
            urg: tcp.urg,
            mss,
        }
    }

    /// The name of the connection that the segment belongs to at its
    /// receiver: the destination is the local end.
    pub fn quad(&self) -> (q: Quad)
        ensures
            q == (Quad { src: self.destination, dst: self.source }),
    {
        Quad { src: self.destination, dst: self.source }
    }

    /// The sequence numbers that a segment with this header and `data_len`
    /// bytes of data occupies.
    pub open spec fn seg_len(&self, data_len: int) -> int {
        data_len + (if self.syn { 1int } else { 0 }) + (if self.fin { 1int } else { 0 })
    }
}

/// Reads the headers of a frame. Returns the header fields and the offset at
/// which the payload starts, or nothing for a malformed frame.
pub fn decode(frame: &[u8]) -> (r: Option<(Header, usize)>)
    ensures
        r == decoded(frame@),
        r matches Some((_, offset)) ==> 40 <= offset <= frame@.len(),
{
    let ip = match parse_ipv4(frame) {
        Some(ip) => ip,
        None => { return None; },
    };
    let start: usize = ip.ihl as usize * 4;
    let rest = slice_subrange(frame, start, frame.len());
    let tcp = match parse_tcp(rest) {
        Some(tcp) => tcp,
        None => { return None; },
    };
    let header_len: usize = tcp.data_offset as usize * 4;
    let options = slice_subrange(rest, 20, header_len);
    assert(options@ == frame@.subrange(start + 20, start + header_len)) by {
        assert(options@ =~= frame@.subrange(start + 20, start + header_len));
    }
    let items = walk_options(options);
    let mss = find_mss(&items);
    Some((Header::from_parts(&ip, &tcp, mss), start + header_len))
}

/// The header of a segment that this end of `quad` sends.
pub open spec fn outbound(
    quad: Quad,
    sqno: u32,
    ackno: u32,
    wnd: u16,
    fin: bool,
    syn: bool,
    ack: bool,
    mss: Option<u16>,
) -> Header {
    Header {
        source: quad.src,
        destination: quad.dst,
        sequence_number: sqno,
        acknowledgment_number: ackno,
        window_size: wnd,
        fin,
        syn,
        rst: false,
        psh: false,
        ack,
        urg: false,
        mss,
    }
}

/// The header of the reset that answers the segment `h` with `data_len`
/// bytes of data: it takes its sequence number from the acknowledgment of
/// `h` if there is one, and otherwise acknowledges all that `h` occupies.
pub open spec fn reset_header(h: Header, data_len: int) -> Header {
    Header {
        source: h.destination,
        destination: h.source,
        sequence_number: if h.ack { h.acknowledgment_number } else { 0 },
        acknowledgment_number: if h.ack { 0 } else { advance(h.sequence_number, h.seg_len(data_len)) },
        window_size: RESET_WINDOW,
        fin: false,
        syn: false,
        rst: true,
        psh: false,
        ack: !h.ack,
        urg: false,
        mss: None,
    }
}

/// The frame of the reset that answers `h`.
pub open spec fn reset_frame(h: Header, data_len: int) -> Seq<u8> {
    frame_bytes(reset_header(h, data_len), Seq::empty())
}

/// The frame of a SYN+ACK.
pub open spec fn synack_frame(quad: Quad, sqno: u32, ackno: u32, wnd: u16) -> Seq<u8> {
    frame_bytes(outbound(quad, sqno, ackno, wnd, false, true, true, None), Seq::empty())
}

/// The frame of a bare ACK.
pub open spec fn ack_frame(quad: Quad, sqno: u32, ackno: u32, wnd: u16) -> Seq<u8> {
    frame_bytes(outbound(quad, sqno, ackno, wnd, false, false, true, None), Seq::empty())
}

/// The frame of a segment with data, flags and an optional maximum segment
/// size.
pub open spec fn data_frame(
    quad: Quad,
    sqno: u32,
    ackno: u32,
    wnd: u16,
    data: Seq<u8>,
    fin: bool,
    syn: bool,
    ack: bool,
    mss: Option<u16>,
) -> Seq<u8> {
    frame_bytes(outbound(quad, sqno, ackno, wnd, fin, syn, ack, mss), data)
}

/// The reset that answers an offending segment.
pub fn write_reset(h: &Header, data: &[u8]) -> (frame: Vec<u8>)
    requires
        data@.len() <= 65535,
    ensures
        frame@ == reset_frame(*h, data@.len() as int),
{
    let sqno: u32 = if h.ack { h.acknowledgment_number } else { 0 };
    let ackno: u32 = if h.ack {
        0
    } else {
        let len: u32 = data.len() as u32;
        let syn: u32 = if h.syn { 1 } else { 0 };
        let fin: u32 = if h.fin { 1 } else { 0 };
        seq_add(h.sequence_number, len + syn + fin)
    };
    let reply = Header {
        source: h.destination,
        destination: h.source,
        sequence_number: sqno,
        acknowledgment_number: ackno,
        window_size: RESET_WINDOW,
        fin: false,
        syn: false,
        rst: true,
        psh: false,
        ack: !h.ack,
        urg: false,
        mss: None,
    };
    let empty: Vec<u8> = Vec::new();
    encode(&reply, empty.as_slice())
}

/// A SYN+ACK from this end of `quad`.
pub fn write_synack(quad: &Quad, sqno: u32, ackno: u32, wnd: u16) -> (frame: Vec<u8>)
    ensures
        frame@ == synack_frame(*quad, sqno, ackno, wnd),
{
    let empty: Vec<u8> = Vec::new();
    write_data(*quad, sqno, ackno, wnd, empty.as_slice(), false, true, true, None)
}

/// A bare ACK from this end of `quad`.
pub fn write_ack(quad: &Quad, sqno: u32, ackno: u32, wnd: u16) -> (frame: Vec<u8>)
    ensures
        frame@ == ack_frame(*quad, sqno, ackno, wnd),
{
    let empty: Vec<u8> = Vec::new();
    write_data(*quad, sqno, ackno, wnd, empty.as_slice(), false, false, true, None)
}

/// A segment from this end of `quad` with data and the given flags.
pub fn write_data(
    quad: Quad,
    sqno: u32,
    ackno: u32,
    wnd: u16,
    data: &[u8],
    fin: bool,
    syn: bool,
    ack: bool,
    mss: Option<u16>,
) -> (frame: Vec<u8>)
    requires
        data@.len() <= MAX_PAYLOAD,
    ensures
        frame@ == data_frame(quad, sqno, ackno, wnd, data@, fin, syn, ack, mss),
{
    let h = Header {
        source: quad.src,
        destination: quad.dst,
        sequence_number: sqno,
        acknowledgment_number: ackno,
        window_size: wnd,
        fin,
        syn,
        rst: false,
        psh: false,
        ack,
        urg: false,
        mss,
    };
    encode(&h, data)
}

/// Where the fields stand in an IPv4 header that was laid out.
pub proof fn lemma_ipv4_layout(
    payload_len: u16,
    ttl: u8,
    protocol: u8,
    source: u32,
    destination: u32,
    checksum: u16,
)
    requires
        payload_len <= 65515,
    ensures
        ({
            let l = ipv4_layout(payload_len, ttl, protocol, source, destination, checksum);
            &&& l.len() == 20
            &&& l[0] == 0x45
            &&& be16(l, 2) == payload_len + 20
            &&& be32(l, 12) == source
            &&& be32(l, 16) == destination
        }),
{
    let upto1 = seq![0x45u8, 0u8];
    let upto2 = upto1 + bytes16((payload_len + 20) as u16);
    let upto3 = upto2 + seq![0u8, 0u8, 64u8, 0u8];
    let upto4 = upto3 + seq![ttl, protocol];
    let upto5 = upto4 + bytes16(checksum);
    let upto6 = upto5 + bytes32(source);
    let upto7 = upto6 + bytes32(destination);
    assert(upto1.len() == 2 && upto2.len() == 4 && upto3.len() == 8 && upto4.len() == 10);
    assert(upto5.len() == 12 && upto6.len() == 16 && upto7.len() == 20);
    assert(upto7[0] == 0x45) by {
        assert(upto2[0] == upto1[0] && upto3[0] == upto2[0] && upto4[0] == upto3[0]);
        assert(upto5[0] == upto4[0] && upto6[0] == upto5[0] && upto7[0] == upto6[0]);
    }
    assert(be16(upto7, 2) == payload_len + 20) by {
        assert(upto3[2] == upto2[2] && upto4[2] == upto3[2] && upto5[2] == upto4[2] && upto6[2] == upto5[2] && upto7[2] == upto6[2]);
        assert(upto3[3] == upto2[3] && upto4[3] == upto3[3] && upto5[3] == upto4[3] && upto6[3] == upto5[3] && upto7[3] == upto6[3]);
        assert(upto2[2] == bytes16((payload_len + 20) as u16)[0]);
        assert(upto2[3] == bytes16((payload_len + 20) as u16)[1]);
    }
    assert(upto7.subrange(12, 16) =~= bytes32(source));
    assert(upto7.subrange(16, 20) =~= bytes32(destination));
    lemma_be32_at(upto7, 12, source);
    lemma_be32_at(upto7, 16, destination);
}

/// A number's big-endian bytes, found at `i`, read back as the number.
pub proof fn lemma_be32_at(b: Seq<u8>, i: int, x: u32)
    requires
        0 <= i,
        i + 4 <= b.len(),
        b.subrange(i, i + 4) == bytes32(x),
    ensures
        be32(b, i) == x,
{
    let w = b.subrange(i, i + 4);
    assert(w[0] == b[i] && w[1] == b[i + 1] && w[2] == b[i + 2] && w[3] == b[i + 3]);
}

/// A number's big-endian bytes, found at `i`, read back as the number.
pub proof fn lemma_be16_at(b: Seq<u8>, i: int, x: u16)
    requires
        0 <= i,
        i + 2 <= b.len(),
        b.subrange(i, i + 2) == bytes16(x),
    ensures
        be16(b, i) == x,
{
    let w = b.subrange(i, i + 2);
    assert(w[0] == b[i] && w[1] == b[i + 1]);
}

/// Each flag is read back from the byte of flags.
pub proof fn lemma_flags_byte(h: Header)
    ensures
        bit(flags_byte(h), 1) == h.fin,
        bit(flags_byte(h), 2) == h.syn,
        bit(flags_byte(h), 4) == h.rst,
        bit(flags_byte(h), 8) == h.psh,
        bit(flags_byte(h), 16) == h.ack,
        bit(flags_byte(h), 32) == h.urg,
{
}

/// Where the fields stand in a TCP header that was laid out.
pub proof fn lemma_tcp_layout(h: Header, checksum: u16)
    ensures
        ({
            let l = tcp_layout(h, checksum);
            &&& l.len() == tcp_header_len(h)
            &&& be16(l, 0) == h.source.port
            &&& be16(l, 2) == h.destination.port
            &&& be32(l, 4) == h.sequence_number
            &&& be32(l, 8) == h.acknowledgment_number
            &&& l[12] == (tcp_header_len(h) / 4) * 16
            &&& l[13] == flags_byte(h)
            &&& be16(l, 14) == h.window_size
            &&& l.subrange(20, tcp_header_len(h)) == option_bytes(h.mss)
        }),
{
    let upto1 = bytes16(h.source.port);
    let upto2 = upto1 + bytes16(h.destination.port);
    let upto3 = upto2 + bytes32(h.sequence_number);
    let upto4 = upto3 + bytes32(h.acknowledgment_number);
    let upto5 = upto4 + seq![((tcp_header_len(h) / 4) * 16) as u8, flags_byte(h)];
    let upto6 = upto5 + bytes16(h.window_size);
    let upto7 = upto6 + bytes16(checksum);
    let upto8 = upto7 + seq![0u8, 0u8];
    let l = upto8 + option_bytes(h.mss);
    assert(upto1.len() == 2 && upto2.len() == 4 && upto3.len() == 8 && upto4.len() == 12);
    assert(upto5.len() == 14 && upto6.len() == 16 && upto7.len() == 18 && upto8.len() == 20);
    assert(l.len() == tcp_header_len(h));
    assert(l.subrange(0, 2) =~= bytes16(h.source.port));
    assert(l.subrange(2, 4) =~= bytes16(h.destination.port));
    assert(l.subrange(4, 8) =~= bytes32(h.sequence_number));
    assert(l.subrange(8, 12) =~= bytes32(h.acknowledgment_number));
    assert(l.subrange(14, 16) =~= bytes16(h.window_size));
    assert(l.subrange(20, tcp_header_len(h)) =~= option_bytes(h.mss));
    lemma_be16_at(l, 0, h.source.port);
    lemma_be16_at(l, 2, h.destination.port);
    lemma_be32_at(l, 4, h.sequence_number);
    lemma_be32_at(l, 8, h.acknowledgment_number);
    lemma_be16_at(l, 14, h.window_size);
    assert(l[12] == upto5[12] && l[13] == upto5[13]) by {
        assert(upto6[12] == upto5[12] && upto7[12] == upto6[12] && upto8[12] == upto7[12] && l[12] == upto8[12]);
        assert(upto6[13] == upto5[13] && upto7[13] == upto6[13] && upto8[13] == upto7[13] && l[13] == upto8[13]);
    }
}

/// The option bytes that are laid out for a maximum segment size hold that
/// size.
pub proof fn lemma_option_bytes(mss: Option<u16>)
    ensures
        mss_of(option_bytes(mss)) == mss,
{
    let o = option_bytes(mss);
    if let Some(m) = mss {
        assert(o.len() == 4 && o[0] == 2 && o[1] == 4);
        assert(o.subrange(2, 4) =~= bytes16(m));
        lemma_be16_at(o, 2, m);
        let items = seq![TcpOption::MaximumSegmentSize(m)];
        assert(options_of(o) == items);
        assert(items[0] == TcpOption::MaximumSegmentSize(m));
    } else {
        assert(options_of(o).len() == 0);
    }
}

/// Reading numbers out of a sequence sees only the bytes read.
pub proof fn lemma_be_same(a: Seq<u8>, b: Seq<u8>, i: int, j: int)
    requires
        0 <= i,
        0 <= j,
        i + 4 <= a.len(),
        j + 4 <= b.len(),
        a.subrange(i, i + 4) == b.subrange(j, j + 4),
    ensures
        be16(a, i) == be16(b, j),
        be16(a, i + 2) == be16(b, j + 2),
        be32(a, i) == be32(b, j),
{
    let x = a.subrange(i, i + 4);
    let y = b.subrange(j, j + 4);
    assert(x[0] == a[i] && x[1] == a[i + 1] && x[2] == a[i + 2] && x[3] == a[i + 3]);
    assert(y[0] == b[j] && y[1] == b[j + 1] && y[2] == b[j + 2] && y[3] == b[j + 3]);
}

/// An IPv4 header that was laid out, with anything behind it, is read back
/// with its addresses and a length of five words.
pub proof fn lemma_ipv4_read_back(
    payload_len: u16,
    ttl: u8,
    protocol: u8,
    source: u32,
    destination: u32,
    checksum: u16,
    rest: Seq<u8>,
)
    requires
        payload_len <= 65515,
    ensures
        ipv4_parsed(
            ipv4_layout(payload_len, ttl, protocol, source, destination, checksum) + rest,
        ) == Some(Ipv4Info { ihl: 5, source, destination }),
{
    let ip = ipv4_layout(payload_len, ttl, protocol, source, destination, checksum);
    let frame = ip + rest;
    lemma_ipv4_layout(payload_len, ttl, protocol, source, destination, checksum);
    assert(frame.len() >= 20);
    assert(frame[0] == ip[0]);
    assert(frame.subrange(0, 4) =~= ip.subrange(0, 4));
    assert(frame.subrange(12, 16) =~= ip.subrange(12, 16));
    assert(frame.subrange(16, 20) =~= ip.subrange(16, 20));
    lemma_be_same(frame, ip, 0, 0);
    lemma_be_same(frame, ip, 12, 12);
    lemma_be_same(frame, ip, 16, 16);
}

/// What is read back of a TCP header that was laid out for `h`.
pub open spec fn tcp_info_of(h: Header) -> TcpInfo {
    TcpInfo {
        source_port: h.source.port,
        destination_port: h.destination.port,
        sequence_number: h.sequence_number,
        acknowledgment_number: h.acknowledgment_number,
        data_offset: (tcp_header_len(h) / 4) as u8,
        fin: h.fin,
        syn: h.syn,
        rst: h.rst,
        psh: h.psh,
        ack: h.ack,
        urg: h.urg,
        window_size: h.window_size,
    }
}

/// A TCP header that was laid out, with anything behind it, is read back
/// with its fields, and its option bytes stand behind its first twenty.
pub proof fn lemma_tcp_read_back(h: Header, checksum: u16, payload: Seq<u8>)
    ensures
        tcp_parsed(tcp_layout(h, checksum) + payload) == Some(tcp_info_of(h)),
        (tcp_layout(h, checksum) + payload).subrange(20, tcp_header_len(h)) == option_bytes(h.mss),
{
    let tcp = tcp_layout(h, checksum);
    let rest = tcp + payload;
    let hl = tcp_header_len(h);
    lemma_tcp_layout(h, checksum);
    lemma_flags_byte(h);
    assert(rest.len() >= hl);
    assert(rest.subrange(0, 4) =~= tcp.subrange(0, 4));
    assert(rest.subrange(4, 8) =~= tcp.subrange(4, 8));
    assert(rest.subrange(8, 12) =~= tcp.subrange(8, 12));
    assert(rest.subrange(12, 16) =~= tcp.subrange(12, 16));
    lemma_be_same(rest, tcp, 0, 0);
    lemma_be_same(rest, tcp, 4, 4);
    lemma_be_same(rest, tcp, 8, 8);
    lemma_be_same(rest, tcp, 12, 12);
    assert(rest[12] == tcp[12] && rest[13] == tcp[13]);
    assert(rest.subrange(20, hl) =~= tcp.subrange(20, hl));
}

/// Decoding inverts encoding: a frame written for a header and a payload
/// reads back as that header, with the payload behind the offset returned.
pub proof fn lemma_decode_encode(h: Header, payload: Seq<u8>)
    requires
        payload.len() <= MAX_PAYLOAD,
    ensures
        decoded(frame_bytes(h, payload)) == Some((h, (20 + tcp_header_len(h)) as usize)),
        frame_bytes(h, payload).subrange(
            20 + tcp_header_len(h),
            frame_bytes(h, payload).len() as int,
        ) == payload,
{
    let tcp_len = (tcp_header_len(h) + payload.len()) as u16;
    let ip_sum = ipv4_checksum_of(tcp_len, TTL, PROTOCOL_TCP, h.source.ipv4, h.destination.ipv4);
    let ip = ipv4_layout(tcp_len, TTL, PROTOCOL_TCP, h.source.ipv4, h.destination.ipv4, ip_sum);
    let tcp = tcp_layout(h, tcp_checksum_of(h, payload));
    let frame = frame_bytes(h, payload);
    let hl = tcp_header_len(h);
    let rest = tcp + payload;
    lemma_ipv4_layout(tcp_len, TTL, PROTOCOL_TCP, h.source.ipv4, h.destination.ipv4, ip_sum);
    lemma_tcp_layout(h, tcp_checksum_of(h, payload));
    lemma_ipv4_read_back(tcp_len, TTL, PROTOCOL_TCP, h.source.ipv4, h.destination.ipv4, ip_sum, rest);
    lemma_tcp_read_back(h, tcp_checksum_of(h, payload), payload);
    lemma_option_bytes(h.mss);
    assert(frame =~= ip + rest);
    assert(frame.len() == 20 + hl + payload.len());
    assert(frame.subrange(20 + hl, frame.len() as int) =~= payload);
    assert(frame.subrange(20, frame.len() as int) =~= rest);
    assert(frame.subrange(40, 20 + hl) =~= rest.subrange(20, hl));
    let info = Ipv4Info { ihl: 5, source: h.source.ipv4, destination: h.destination.ipv4 };
    assert(ipv4_parsed(frame) == Some(info));
    assert(header_of(info, tcp_info_of(h), h.mss) == h);
}

/// Encoding inverts decoding on every frame that the encoder can produce.
pub proof fn lemma_encode_decode(h: Header, payload: Seq<u8>)
    requires
        payload.len() <= MAX_PAYLOAD,
    ensures
        ({
            let frame = frame_bytes(h, payload);
            let (g, offset) = decoded(frame).unwrap();
            frame_bytes(g, frame.subrange(offset as int, frame.len() as int)) == frame
        }),
{
    lemma_decode_encode(h, payload);
}

} // verus!
